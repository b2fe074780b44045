//! The agents that are live in a tree: how they are gathered, ordered, listed
//! and found.

use std::collections::HashMap;
use vstd::prelude::*;
use vstd::std_specs::iter::IteratorSpec;
use crate::agent::{
    agent_matches_prefix, agent_metadata_from_thread_spawn_source, is_final, is_final_status,
    matches_prefix, metadata_of_source, root_path, thread_id_text, AgentMetadata, AgentPath,
    AgentStatus, SessionSource, ThreadId,
};
use crate::sort::{
    in_order, lemma_picked_in_order, lemma_stable_sorted, lemma_stable_sorted_contains, ranks,
    sort_stable, stable_sorted, Ordered,
};
use crate::text::{
    lemma_text_lt_irreflexive, lemma_text_lt_total, lemma_text_lt_transitive,
    lemma_text_not_lt_transitive, opt_text, text_less, text_lt,
};
use crate::tree::{children_view, Child, ChildrenByParent};

verus! {

/// The text that agents are ordered by: the path, nothing where there is none.
pub open spec fn path_key(metadata: AgentMetadata) -> Seq<char> {
    match metadata.agent_path {
        Some(path) => path@,
        None => Seq::empty(),
    }
}

fn path_text(metadata: &AgentMetadata) -> (result: &str)
    ensures
        result@ == path_key(*metadata),
{
    proof {
        reveal_strlit("");
    }
    match &metadata.agent_path {
        Some(path) => path.as_str(),
        None => {
            assert(""@ =~= Seq::<char>::empty());
            ""
        },
    }
}

impl Ordered for (ThreadId, AgentMetadata) {
    /// By path, then by the text of the identity.
    open spec fn precedes(self, other: Self) -> bool {
        text_lt(path_key(self.1), path_key(other.1)) || (path_key(self.1) == path_key(other.1)
            && text_lt(thread_id_text(self.0.bits), thread_id_text(other.0.bits)))
    }

    fn comes_before(&self, other: &Self) -> (result: bool) {
        let left = path_text(&self.1);
        let right = path_text(&other.1);
        if text_less(left, right) {
            return true;
        }
        if text_less(right, left) {
            proof {
                if left@ == right@ {
                    lemma_text_lt_irreflexive(left@);
                }
            }
            return false;
        }
        proof {
            lemma_text_lt_total(left@, right@);
        }
        text_less(self.0.to_text().as_str(), other.0.to_text().as_str())
    }
}

/// Agents are ranked: sorting them puts no agent before one that precedes it.
pub proof fn lemma_agents_ranked()
    ensures
        ranks::<Child>(),
{
    assert forall|a: Child, b: Child| #[trigger] a.precedes(b) implies !b.precedes(a) by {
        let (pa, pb) = (path_key(a.1), path_key(b.1));
        let (ta, tb) = (thread_id_text(a.0.bits), thread_id_text(b.0.bits));
        lemma_text_lt_irreflexive(pa);
        lemma_text_lt_irreflexive(ta);
        if text_lt(pa, pb) && text_lt(pb, pa) {
            lemma_text_lt_transitive(pa, pb, pa);
        }
        if text_lt(ta, tb) && text_lt(tb, ta) {
            lemma_text_lt_transitive(ta, tb, ta);
        }
    }
    assert forall|a: Child, b: Child, c: Child|
        !(#[trigger] a.precedes(b)) && !(#[trigger] b.precedes(c)) implies !a.precedes(c) by {
        let (pa, pb, pc) = (path_key(a.1), path_key(b.1), path_key(c.1));
        let (ta, tb, tc) = (
            thread_id_text(a.0.bits),
            thread_id_text(b.0.bits),
            thread_id_text(c.0.bits),
        );
        lemma_text_not_lt_transitive(pa, pb, pc);
        if !text_lt(ta, tb) && !text_lt(tb, tc) {
            lemma_text_not_lt_transitive(ta, tb, tc);
        }
        lemma_text_lt_total(pa, pb);
        lemma_text_lt_total(pb, pc);
        lemma_text_lt_total(pa, pc);
        if text_lt(pb, pa) && text_lt(pc, pb) {
            lemma_text_lt_transitive(pc, pb, pa);
        }
        lemma_text_lt_irreflexive(pa);
        if text_lt(pa, pc) && text_lt(pc, pa) {
            lemma_text_lt_transitive(pa, pc, pa);
        }
    }
}

/// A spawn that the thread manager knows of.
#[derive(Debug)]
pub struct LiveSpawnEdge {
    pub parent_thread_id: ThreadId,
    pub child_thread_id: ThreadId,
    /// What the registry knows of the child.
    pub registered: Option<AgentMetadata>,
    /// Where the child's session comes from, if its thread is loaded.
    pub loaded_source: Option<SessionSource>,
}

/// What is known of a spawned child: what is registered, else what its
/// session's source says, else the two identities.
pub open spec fn edge_metadata(edge: LiveSpawnEdge) -> AgentMetadata {
    match (edge.registered, edge.loaded_source) {
        (Some(metadata), _) => metadata,
        (None, Some(source)) => metadata_of_source(
            edge.child_thread_id,
            edge.parent_thread_id,
            source,
        ),
        (None, None) => AgentMetadata {
            agent_id: Some(edge.child_thread_id),
            parent_thread_id: Some(edge.parent_thread_id),
            agent_path: None,
            agent_nickname: None,
            agent_role: None,
            last_task_message: None,
        },
    }
}

/// A child is the same as a listed one: it has the same identity, or both
/// have the same path.
pub open spec fn same_child(listed: Child, child: ThreadId, metadata: AgentMetadata) -> bool {
    listed.0 == child || (listed.1.agent_path matches Some(a) && metadata.agent_path matches Some(
        b,
    ) && a@ == b@)
}

/// A child is in a list already.
pub open spec fn has_child(list: Seq<Child>, child: ThreadId, metadata: AgentMetadata) -> bool {
    exists|i: int| 0 <= i < list.len() && same_child(#[trigger] list[i], child, metadata)
}

/// The lists of children with one more spawn, unless its child is in its
/// parent's list already.
pub open spec fn with_edge(
    children: Map<u128, Seq<Child>>,
    edge: LiveSpawnEdge,
) -> Map<u128, Seq<Child>> {
    let parent = edge.parent_thread_id.bits;
    let list = crate::tree::children_of(children, parent);
    let metadata = edge_metadata(edge);
    children.insert(
        parent,
        if has_child(list, edge.child_thread_id, metadata) {
            list
        } else {
            list.push((edge.child_thread_id, metadata))
        },
    )
}

/// The lists of children with the given spawns, one after the other.
pub open spec fn with_edges(
    children: Map<u128, Seq<Child>>,
    edges: Seq<LiveSpawnEdge>,
) -> Map<u128, Seq<Child>>
    decreases edges.len(),
{
    if edges.len() == 0 {
        children
    } else {
        with_edge(with_edges(children, edges.drop_last()), edges.last())
    }
}

/// The lists of children, each in order.
pub open spec fn with_sorted_lists(children: Map<u128, Seq<Child>>) -> Map<u128, Seq<Child>> {
    children.map_values(|list: Seq<Child>| stable_sorted(list))
}

fn known_metadata(edge: &LiveSpawnEdge) -> (result: AgentMetadata)
    ensures
        result == edge_metadata(*edge),
{
    match &edge.registered {
        Some(metadata) => metadata.clone(),
        None => match &edge.loaded_source {
            Some(source) => agent_metadata_from_thread_spawn_source(
                edge.child_thread_id,
                edge.parent_thread_id,
                source,
            ),
            None => {
                let mut metadata = AgentMetadata::default();
                metadata.agent_id = Some(edge.child_thread_id);
                metadata.parent_thread_id = Some(edge.parent_thread_id);
                metadata
            },
        },
    }
}

fn holds_child(list: &Vec<Child>, child: ThreadId, metadata: &AgentMetadata) -> (result: bool)
    ensures
        result == has_child(list@, child, *metadata),
{
    let mut i: usize = 0;
    while i < list.len()
        invariant
            i <= list.len(),
            forall|j: int| 0 <= j < i ==> !same_child(#[trigger] list@[j], child, *metadata),
        decreases list.len() - i,
    {
        let same_path = match (&list[i].1.agent_path, &metadata.agent_path) {
            (Some(a), Some(b)) => a.same(b),
            _ => false,
        };
        if list[i].0 == child || same_path {
            assert(same_child(list@[i as int], child, *metadata));
            return true;
        }
        i += 1;
    }
    false
}

fn add_edge(children_by_parent: &mut ChildrenByParent, edge: &LiveSpawnEdge)
    ensures
        children_view(final(children_by_parent)@) == with_edge(
            children_view(old(children_by_parent)@),
            *edge,
        ),
{
    let metadata = known_metadata(edge);
    let ghost before = children_by_parent@;
    let parent: u128 = edge.parent_thread_id.bits;
    let mut list: Vec<Child> = match children_by_parent.remove(&parent) {
        Some(list) => list,
        None => Vec::new(),
    };
    assert(list@ =~= crate::tree::children_of(children_view(before), parent));
    if !holds_child(&list, edge.child_thread_id, &metadata) {
        list.push((edge.child_thread_id, metadata));
    }
    children_by_parent.insert(parent, list);
    assert(children_view(children_by_parent@) =~= with_edge(children_view(before), *edge));
}

/// The threads that have a list of children.
fn parents_of(children_by_parent: &ChildrenByParent) -> (result: Vec<u128>)
    ensures
        result@.no_duplicates(),
        result@.to_set() == children_by_parent@.dom(),
{
    let ghost keys = children_by_parent.keys().remaining();
    let mut parents: Vec<u128> = Vec::new();
    for parent in iter: children_by_parent.keys()
        invariant
            iter.seq() == keys,
            parents@ == keys.unref().take(iter.index()),
    {
        parents.push(*parent);
        assert(parents@ =~= keys.unref().take(iter.index() + 1));
    }
    assert(parents@ =~= keys.unref());
    parents
}

fn sort_lists(children_by_parent: &mut ChildrenByParent)
    ensures
        children_view(final(children_by_parent)@) == with_sorted_lists(
            children_view(old(children_by_parent)@),
        ),
{
    let ghost before = children_by_parent@;
    let parents = parents_of(children_by_parent);
    let mut i: usize = 0;
    while i < parents.len()
        invariant
            i <= parents.len(),
            parents@.no_duplicates(),
            parents@.to_set() == before.dom(),
            children_by_parent@.dom() == before.dom(),
            forall|k: int|
                0 <= k < i ==> children_by_parent@[#[trigger] parents@[k]]@ == stable_sorted(
                    before[parents@[k]]@,
                ),
            forall|k: int|
                i <= k < parents.len() ==> children_by_parent@[#[trigger] parents@[k]]
                    == before[parents@[k]],
        decreases parents.len() - i,
    {
        let parent: u128 = parents[i];
        assert(parents@.to_set().contains(parents@[i as int]));
        match children_by_parent.remove(&parent) {
            Some(list) => {
                let sorted = sort_stable(list);
                children_by_parent.insert(parent, sorted);
            },
            None => {},
        }
        assert(children_by_parent@.dom() =~= before.dom());
        i += 1;
    }
    assert(children_view(children_by_parent@) =~= with_sorted_lists(children_view(before))) by {
        assert forall|parent: u128| before.contains_key(parent) implies #[trigger] children_by_parent@[parent]@
            == stable_sorted(before[parent]@) by {
            assert(parents@.to_set().contains(parent));
            let k = choose|k: int| 0 <= k < parents.len() && parents@[k] == parent;
            assert(parents@[k] == parent);
        }
    }
}

/// The children of every live thread: what the registry has, completed by the
/// spawns that the thread manager knows of, each list in order.
pub fn live_thread_spawn_children(
    registered: ChildrenByParent,
    edges: &Vec<LiveSpawnEdge>,
) -> (result: ChildrenByParent)
    ensures
        children_view(result@) == with_sorted_lists(
            with_edges(children_view(registered@), edges@),
        ),
{
    let ghost before = registered@;
    let mut children_by_parent = registered;
    let mut i: usize = 0;
    assert(edges@.take(0) =~= Seq::<LiveSpawnEdge>::empty());
    while i < edges.len()
        invariant
            i <= edges.len(),
            children_view(children_by_parent@) == with_edges(
                children_view(before),
                edges@.take(i as int),
            ),
        decreases edges.len() - i,
    {
        assert(edges@.take(i + 1).drop_last() =~= edges@.take(i as int));
        add_edge(&mut children_by_parent, &edges[i]);
        i += 1;
    }
    assert(edges@.take(i as int) =~= edges@);
    sort_lists(&mut children_by_parent);
    children_by_parent
}

/// The task that is shown for the root agent.
pub const ROOT_LAST_TASK_MESSAGE: &'static str = "Main thread";

/// The state of a loaded agent.
#[derive(Debug)]
pub struct LoadedAgent {
    pub status: AgentStatus,
    /// The last task that the thread's history shows.
    pub history_task_message: Option<String>,
}

/// An agent as it is listed.
#[derive(Debug)]
pub struct ListedAgent {
    pub agent_id: String,
    pub agent_name: String,
    pub agent_status: AgentStatus,
    pub last_task_message: Option<String>,
}

/// What a listed agent shows.
#[verifier::ext_equal]
pub struct ListedAgentView {
    pub agent_id: Seq<char>,
    pub agent_name: Seq<char>,
    pub agent_status: AgentStatus,
    pub last_task_message: Option<Seq<char>>,
}

impl View for ListedAgent {
    type V = ListedAgentView;

    open spec fn view(&self) -> ListedAgentView {
        ListedAgentView {
            agent_id: self.agent_id@,
            agent_name: self.agent_name@,
            agent_status: self.agent_status,
            last_task_message: opt_text(self.last_task_message),
        }
    }
}

/// The name an agent goes by: its path, or its identity where it has none.
pub open spec fn agent_name(thread: ThreadId, metadata: AgentMetadata) -> Seq<char> {
    match metadata.agent_path {
        Some(path) => path@,
        None => thread_id_text(thread.bits),
    }
}

/// An agent as it is listed. One whose work is over shows no task; another
/// shows the task that is registered, else the one its history shows.
pub open spec fn listed_view(child: Child, loaded: LoadedAgent) -> ListedAgentView {
    ListedAgentView {
        agent_id: thread_id_text(child.0.bits),
        agent_name: agent_name(child.0, child.1),
        agent_status: loaded.status,
        last_task_message: if is_final_status(loaded.status) {
            None
        } else if child.1.last_task_message is Some {
            opt_text(child.1.last_task_message)
        } else {
            opt_text(loaded.history_task_message)
        },
    }
}

/// The root agent as it is listed.
pub open spec fn root_view(root: ThreadId, loaded: LoadedAgent) -> ListedAgentView {
    ListedAgentView {
        agent_id: thread_id_text(root.bits),
        agent_name: root_path(),
        agent_status: loaded.status,
        last_task_message: Some(ROOT_LAST_TASK_MESSAGE@),
    }
}

/// An agent is listed: it belongs under the prefix, if one is given, and its
/// thread is loaded.
pub open spec fn is_listed(
    child: Child,
    prefix: Option<&AgentPath>,
    loaded: Map<u128, LoadedAgent>,
) -> bool {
    &&& prefix matches Some(prefix) ==> matches_prefix(child.1.agent_path, *prefix)
    &&& loaded.contains_key(child.0.bits)
}

/// The agents that are listed: the root where the prefix admits it and it is
/// loaded, then the others in order.
pub open spec fn listing(
    root: ThreadId,
    live: Seq<Child>,
    prefix: Option<&AgentPath>,
    loaded: Map<u128, LoadedAgent>,
) -> Seq<ListedAgentView> {
    let head = if loaded.contains_key(root.bits) && (prefix is None || prefix->0@ == root_path()) {
        seq![root_view(root, loaded[root.bits])]
    } else {
        Seq::empty()
    };
    head + stable_sorted(live).filter(|child: Child| is_listed(child, prefix, loaded)).map_values(
        |child: Child| listed_view(child, loaded[child.0.bits]),
    )
}

/// The agents as they are listed, as views.
pub open spec fn listed_views(agents: Seq<ListedAgent>) -> Seq<ListedAgentView> {
    agents.map_values(|agent: ListedAgent| agent@)
}

fn listed_agent(thread_id: ThreadId, metadata: &AgentMetadata, loaded: &LoadedAgent) -> (result:
    ListedAgent)
    ensures
        result@ == listed_view((thread_id, *metadata), *loaded),
{
    let agent_name = match &metadata.agent_path {
        Some(path) => path.as_str().to_owned(),
        None => thread_id.to_text(),
    };
    let last_task_message = if is_final(&loaded.status) {
        None
    } else {
        match &metadata.last_task_message {
            Some(message) => Some(message.clone()),
            None => loaded.history_task_message.clone(),
        }
    };
    ListedAgent {
        agent_id: thread_id.to_text(),
        agent_name,
        agent_status: loaded.status.clone(),
        last_task_message,
    }
}

/// The agents of a tree, by the given path prefix if there is one.
pub fn list_agents(
    root_thread_id: ThreadId,
    live_agents: Vec<Child>,
    prefix: Option<&AgentPath>,
    loaded: &HashMap<u128, LoadedAgent>,
) -> (result: Vec<ListedAgent>)
    ensures
        listed_views(result@) == listing(root_thread_id, live_agents@, prefix, loaded@),
{
    let ghost all = live_agents@;
    let sorted = sort_stable(live_agents);
    let root = AgentPath::root();
    let mut agents: Vec<ListedAgent> = Vec::new();
    let lists_root = match prefix {
        Some(prefix) => prefix.is_root(),
        None => true,
    };
    if lists_root {
        if let Some(state) = loaded.get(&root_thread_id.bits) {
            agents.push(
                ListedAgent {
                    agent_id: root_thread_id.to_text(),
                    agent_name: root.as_str().to_owned(),
                    agent_status: state.status.clone(),
                    last_task_message: Some(ROOT_LAST_TASK_MESSAGE.to_owned()),
                },
            );
        }
    }
    let ghost head = listed_views(agents@);
    let ghost keep = |child: Child| is_listed(child, prefix, loaded@);
    let ghost show = |child: Child| listed_view(child, loaded@[child.0.bits]);
    let mut i: usize = 0;
    proof {
        assert(sorted@.take(0) =~= Seq::<Child>::empty());
        reveal(Seq::filter);
        assert(head + sorted@.take(0).filter(keep).map_values(show) =~= head);
    }
    while i < sorted.len()
        invariant
            i <= sorted.len(),
            keep == (|child: Child| is_listed(child, prefix, loaded@)),
            show == (|child: Child| listed_view(child, loaded@[child.0.bits])),
            listed_views(agents@) == head + sorted@.take(i as int).filter(keep).map_values(show),
        decreases sorted.len() - i,
    {
        let ghost before = agents@;
        let ghost kept = sorted@.take(i as int).filter(keep);
        proof {
            assert(sorted@.take(i + 1) =~= sorted@.take(i as int).push(sorted@[i as int]));
            sorted@.take(i as int).lemma_filter_push(sorted@[i as int], keep);
        }
        let thread_id = sorted[i].0;
        let admitted = match prefix {
            Some(prefix) => agent_matches_prefix(sorted[i].1.agent_path.as_ref(), prefix),
            None => true,
        };
        if admitted {
            if let Some(state) = loaded.get(&thread_id.bits) {
                agents.push(listed_agent(thread_id, &sorted[i].1, state));
                proof {
                    assert(keep(sorted@[i as int]));
                    assert(listed_views(agents@) =~= listed_views(before).push(
                        show(sorted@[i as int]),
                    ));
                    assert(kept.push(sorted@[i as int]).map_values(show) =~= kept.map_values(
                        show,
                    ).push(show(sorted@[i as int])));
                }
            }
        }
        i += 1;
        assert(listed_views(agents@) =~= head + sorted@.take(i as int).filter(keep).map_values(
            show,
        ));
    }
    assert(sorted@.take(i as int) =~= sorted@);
    agents
}

/// An agent whose work is over shows no task. One that works or waits shows
/// the task that is registered for it; where none is, the one that its history
/// shows, if any.
pub proof fn lemma_listed_task(child: Child, loaded: LoadedAgent)
    ensures
        ({
            let listed = listed_view(child, loaded);
            let over = loaded.status is Completed || loaded.status is Errored
                || loaded.status is Shutdown || loaded.status is NotFound;
            &&& over ==> listed.last_task_message is None
            &&& !over ==> match (child.1.last_task_message, loaded.history_task_message) {
                (Some(task), _) => listed.last_task_message == Some(task@),
                (None, Some(task)) => listed.last_task_message == Some(task@),
                (None, None) => listed.last_task_message is None,
            }
        }),
{
}

/// An agent is listed under its own identity, with its own status, by its path
/// or, where it has none, by its identity. The root agent is listed by the
/// root's path, and with the same task always.
pub proof fn lemma_listed_names(child: Child, root: ThreadId, loaded: LoadedAgent)
    ensures
        listed_view(child, loaded).agent_id == thread_id_text(child.0.bits),
        listed_view(child, loaded).agent_status == loaded.status,
        child.1.agent_path matches Some(path) ==> listed_view(child, loaded).agent_name == path@,
        child.1.agent_path is None ==> listed_view(child, loaded).agent_name == thread_id_text(
            child.0.bits,
        ),
        root_view(root, loaded).agent_id == thread_id_text(root.bits),
        root_view(root, loaded).agent_name == "/root"@,
        root_view(root, loaded).agent_status == loaded.status,
        root_view(root, loaded).last_task_message == Some("Main thread"@),
{
}

/// The agents of a listing behind the root, if the root is listed.
pub open spec fn listed_children(
    root: ThreadId,
    live: Seq<Child>,
    prefix: Option<&AgentPath>,
    loaded: Map<u128, LoadedAgent>,
) -> Seq<ListedAgentView> {
    listing(root, live, prefix, loaded).skip(
        if loaded.contains_key(root.bits) && (prefix is None || prefix->0@ == "/root"@) {
            1
        } else {
            0
        },
    )
}

/// The root is listed, and comes first, exactly where it is loaded and no
/// prefix or the root's own is given.
pub proof fn lemma_root_is_listed_first(
    root: ThreadId,
    live: Seq<Child>,
    prefix: Option<&AgentPath>,
    loaded: Map<u128, LoadedAgent>,
)
    requires
        loaded.contains_key(root.bits),
        prefix is None || prefix->0@ == "/root"@,
    ensures
        listing(root, live, prefix, loaded).len() > 0,
        listing(root, live, prefix, loaded)[0] == root_view(root, loaded[root.bits]),
{
}

/// An agent belongs under a prefix: none is given, it is the root's, or it is
/// the agent's path or lies above it.
pub open spec fn lies_under(path: Option<AgentPath>, prefix: Option<&AgentPath>) -> bool {
    prefix is None || prefix->0@ == "/root"@ || (path is Some && (path->0@ == prefix->0@ || (
    prefix->0@ + seq!['/']).is_prefix_of(path->0@)))
}

/// Every live agent whose thread is loaded and that belongs under the prefix
/// is listed; one whose thread is not loaded, or that lies elsewhere, is not.
/// They come in order.
pub proof fn lemma_listed_are_the_live_ones(
    root: ThreadId,
    live: Seq<Child>,
    prefix: Option<&AgentPath>,
    loaded: Map<u128, LoadedAgent>,
) -> (picked: Seq<Child>)
    ensures
        ({
            let listed = listed_children(root, live, prefix, loaded);
            &&& listed.len() == picked.len()
            &&& forall|k: int|
                #![trigger picked[k]]
                0 <= k < picked.len() ==> live.contains(picked[k]) && loaded.contains_key(
                    picked[k].0.bits,
                ) && lies_under(picked[k].1.agent_path, prefix) && listed[k] == listed_view(
                    picked[k],
                    loaded[picked[k].0.bits],
                )
            &&& forall|child: Child| #[trigger]
                live.contains(child) && loaded.contains_key(child.0.bits) && lies_under(
                    child.1.agent_path,
                    prefix,
                ) ==> picked.contains(child)
            &&& in_order(picked)
        }),
{
    let keep = |child: Child| is_listed(child, prefix, loaded);
    let show = |child: Child| listed_view(child, loaded[child.0.bits]);
    let sorted = stable_sorted(live);
    let picked = sorted.filter(keep);
    let listed = listed_children(root, live, prefix, loaded);
    assert(listed =~= picked.map_values(show));
    lemma_agents_ranked();
    lemma_stable_sorted(live);
    lemma_picked_in_order(sorted, keep);
    assert forall|k: int|
        #![trigger picked[k]]
        0 <= k < picked.len() implies live.contains(picked[k]) && loaded.contains_key(
        picked[k].0.bits,
    ) && lies_under(picked[k].1.agent_path, prefix) && listed[k] == listed_view(
        picked[k],
        loaded[picked[k].0.bits],
    ) by {
        sorted.lemma_filter_pred(keep, k);
        sorted.lemma_filter_contains_rev(keep, picked[k]);
        lemma_stable_sorted_contains(live, picked[k]);
        assert(keep(picked[k]));
        assert(listed[k] == show(picked[k]));
    }
    assert forall|child: Child| #[trigger]
        live.contains(child) && loaded.contains_key(child.0.bits) && lies_under(
            child.1.agent_path,
            prefix,
        ) implies picked.contains(child) by {
        lemma_stable_sorted_contains(live, child);
        let j = choose|j: int| 0 <= j < sorted.len() && sorted[j] == child;
        assert(keep(sorted[j]));
        sorted.lemma_filter_contains(keep, j);
    }
    picked
}

/// One agent comes before another by its path; one without a path comes before
/// those that have one. Of agents with the same path the one with the smaller
/// identity comes first.
pub proof fn lemma_order_of_agents(a: Child, b: Child)
    ensures
        match (a.1.agent_path, b.1.agent_path) {
            (Some(p), Some(q)) => {
                &&& text_lt(p@, q@) ==> a.precedes(b) && !b.precedes(a)
                &&& p@ == q@ ==> (a.precedes(b) <==> text_lt(
                    thread_id_text(a.0.bits),
                    thread_id_text(b.0.bits),
                ))
            },
            (None, Some(q)) => q@.len() > 0 ==> a.precedes(b) && !b.precedes(a),
            (None, None) => a.precedes(b) <==> text_lt(
                thread_id_text(a.0.bits),
                thread_id_text(b.0.bits),
            ),
            _ => true,
        },
{
    match (a.1.agent_path, b.1.agent_path) {
        (Some(p), Some(q)) => {
            lemma_text_lt_irreflexive(p@);
            if text_lt(p@, q@) && text_lt(q@, p@) {
                lemma_text_lt_transitive(p@, q@, p@);
            }
        },
        (None, Some(q)) => {
            lemma_text_lt_total(Seq::empty(), q@);
        },
        (None, None) => {
            lemma_text_lt_irreflexive(Seq::empty());
        },
        _ => {},
    }
}

/// What is registered of a child counts before what its session says, and
/// that before the bare identities.
pub proof fn lemma_known_of_a_child(edge: LiveSpawnEdge)
    ensures
        edge.registered matches Some(metadata) ==> edge_metadata(edge) == metadata,
        edge.registered is None && edge.loaded_source is None ==> edge_metadata(edge).agent_id
            == Some(edge.child_thread_id) && edge_metadata(edge).parent_thread_id == Some(
            edge.parent_thread_id,
        ) && edge_metadata(edge).agent_path is None && edge_metadata(edge).last_task_message is None,
        edge.registered is None ==> (edge.loaded_source matches Some(
            SessionSource::ThreadSpawn { parent_thread_id, agent_path, agent_nickname, agent_role, .. },
        ) ==> edge_metadata(edge).agent_id == Some(edge.child_thread_id) && edge_metadata(
            edge,
        ).parent_thread_id == Some(parent_thread_id) && edge_metadata(edge).agent_path == agent_path
            && edge_metadata(edge).agent_nickname == agent_nickname && edge_metadata(
            edge,
        ).agent_role == agent_role),
        edge.registered is None && edge.loaded_source == Some(SessionSource::Other)
            ==> edge_metadata(edge).agent_id == Some(edge.child_thread_id) && edge_metadata(
            edge,
        ).parent_thread_id == Some(edge.parent_thread_id),
{
}

/// A child with the same identity, or with the same path, is in a list.
pub open spec fn is_there(list: Seq<Child>, child: ThreadId, path: Option<AgentPath>) -> bool {
    exists|i: int|
        #![trigger list[i]]
        0 <= i < list.len() && (list[i].0 == child || (list[i].1.agent_path is Some && path is Some
            && list[i].1.agent_path->0@ == path->0@))
}

/// A spawn that the thread manager knows of adds its child to its parent's
/// children, unless a child with the same identity or the same path is there;
/// no child is taken away, and no other thread's children change.
pub proof fn lemma_spawn_adds_its_child(
    children: Map<u128, Seq<Child>>,
    edge: LiveSpawnEdge,
    before: Seq<Child>,
)
    requires
        children.contains_key(edge.parent_thread_id.bits) ==> before
            == children[edge.parent_thread_id.bits],
        !children.contains_key(edge.parent_thread_id.bits) ==> before.len() == 0,
    ensures
        ({
            let after = with_edge(children, edge);
            let parent = edge.parent_thread_id.bits;
            let known = edge_metadata(edge);
            &&& after.contains_key(parent)
            &&& is_there(before, edge.child_thread_id, known.agent_path) ==> after[parent]
                == before
            &&& !is_there(before, edge.child_thread_id, known.agent_path) ==> after[parent]
                == before.push((edge.child_thread_id, known))
            &&& forall|other: u128|
                other != parent ==> (#[trigger] after.contains_key(other)
                    <==> children.contains_key(other)) && (children.contains_key(other)
                    ==> after[other] == children[other])
        }),
{
    let parent = edge.parent_thread_id.bits;
    let list = crate::tree::children_of(children, parent);
    assert(list =~= before);
    let known = edge_metadata(edge);
    if is_there(before, edge.child_thread_id, known.agent_path) {
        let i = choose|i: int|
            #![trigger before[i]]
            0 <= i < before.len() && (before[i].0 == edge.child_thread_id || (
            before[i].1.agent_path is Some && known.agent_path is Some && before[i].1.agent_path->0@
                == known.agent_path->0@));
        assert(same_child(before[i], edge.child_thread_id, known));
    } else if has_child(list, edge.child_thread_id, known) {
        let i = choose|i: int|
            0 <= i < list.len() && same_child(#[trigger] list[i], edge.child_thread_id, known);
        assert(list[i] == before[i]);
    }
}

/// Spawns are added one after the other; where there are none, the children
/// stay as they are registered.
pub proof fn lemma_spawns_one_by_one(
    children: Map<u128, Seq<Child>>,
    edges: Seq<LiveSpawnEdge>,
    edge: LiveSpawnEdge,
)
    ensures
        with_edges(children, Seq::empty()) == children,
        with_edges(children, edges.push(edge)) == with_edge(with_edges(children, edges), edge),
{
    assert(edges.push(edge).drop_last() =~= edges);
}

/// Ordering the children keeps every parent's own children.
pub proof fn lemma_sorted_lists_keep_children(
    children: Map<u128, Seq<Child>>,
    parent: u128,
    child: Child,
)
    ensures
        with_sorted_lists(children).contains_key(parent) <==> children.contains_key(parent),
        children.contains_key(parent) ==> {
            let sorted = with_sorted_lists(children)[parent];
            &&& sorted.contains(child) <==> children[parent].contains(child)
            &&& sorted.len() == children[parent].len()
            &&& forall|i: int, j: int|
                0 <= i < j < sorted.len() ==> !(#[trigger] sorted[j]).precedes(#[trigger] sorted[i])
        },
{
    if children.contains_key(parent) {
        lemma_agents_ranked();
        lemma_stable_sorted(children[parent]);
        lemma_stable_sorted_contains(children[parent], child);
    }
}

} // verus!
