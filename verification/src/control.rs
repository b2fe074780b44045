//! The decisions of the control plane that the agents of one tree share.

use vstd::prelude::*;
use crate::agent::{
    last_slash, path_within, root_path, thread_id_text, AgentMetadata, AgentPath, AgentStatus,
    SessionSource, ThreadId,
};
use crate::communication::{
    last_task_message_from_communication, non_empty_task_message, InterAgentCommunication,
};
use crate::spawn_record::SpawnRecord;
use crate::tasks::{inputs_text, render_input_preview, UserInput};
use crate::text::opt_text;
use crate::tree::{
    children_of, children_view, climb_start, climbed, current_root_thread_id, descendants,
    is_child, is_parent_map, lemma_root_is_above, reaches, remove_thread_spawn_descendants, Child,
    ChildrenByParent,
};
use crate::wake::{
    allows_rearm, comes_from_below, is_ticket_for, overtaken_notice, AgentWakeDescendantPolicy,
    CompletionWatcherArm, CompletionWatcherRearm, WakeState,
};

verus! {

/// Why a request to the control plane fails.
#[derive(Debug)]
pub enum ControlError {
    ThreadNotFound(ThreadId),
    UnsupportedOperation(String),
    InternalAgentDied,
    Other(String),
}

/// A result is the root of the tree that a thread belongs to, as
/// `current_root_thread_id` finds it.
pub open spec fn is_current_root(
    children: Map<u128, Seq<Child>>,
    current: ThreadId,
    source: SessionSource,
    root: ThreadId,
) -> bool {
    exists|parents: Map<u128, u128>| #[trigger]
        is_parent_map(children, parents) && parents.dom().finite() && root.bits == climbed(
            parents,
            climb_start(parents, current, source),
            Set::empty(),
        )
}

/// The root of the current tree and all that descends from it.
pub fn live_thread_spawn_agents_for_current_tree(
    current_thread_id: ThreadId,
    current_session_source: &SessionSource,
    children_by_parent: ChildrenByParent,
) -> (result: (ThreadId, Vec<Child>))
    ensures
        is_current_root(
            children_view(children_by_parent@),
            current_thread_id,
            *current_session_source,
            result.0,
        ),
        result.1@ == descendants(children_view(children_by_parent@), result.0.bits),
{
    let mut children_by_parent = children_by_parent;
    let root = current_root_thread_id(
        current_thread_id,
        current_session_source,
        &children_by_parent,
    );
    let agents = remove_thread_spawn_descendants(&mut children_by_parent, root);
    (root, agents)
}

/// The identities of a list of children.
pub open spec fn ids_of(children: Seq<Child>) -> Seq<ThreadId> {
    children.map_values(|child: Child| child.0)
}

/// The identities of all that descends from a thread.
pub fn live_thread_spawn_descendants(
    root_thread_id: ThreadId,
    children_by_parent: ChildrenByParent,
) -> (result: Vec<ThreadId>)
    ensures
        result@ == ids_of(descendants(children_view(children_by_parent@), root_thread_id.bits)),
{
    let mut children_by_parent = children_by_parent;
    let agents = remove_thread_spawn_descendants(&mut children_by_parent, root_thread_id);
    let mut result: Vec<ThreadId> = Vec::new();
    let mut i: usize = 0;
    while i < agents.len()
        invariant
            i <= agents.len(),
            result@ == ids_of(agents@.take(i as int)),
        decreases agents.len() - i,
    {
        result.push(agents[i].0);
        i += 1;
        assert(result@ =~= ids_of(agents@.take(i as int)));
    }
    assert(agents@.take(i as int) =~= agents@);
    result
}

/// A thread and all that descends from it.
pub fn list_live_agent_subtree_thread_ids(
    agent_id: ThreadId,
    children_by_parent: ChildrenByParent,
) -> (result: Vec<ThreadId>)
    ensures
        result@ == seq![agent_id] + ids_of(
            descendants(children_view(children_by_parent@), agent_id.bits),
        ),
{
    let mut result: Vec<ThreadId> = Vec::new();
    result.push(agent_id);
    let mut below = live_thread_spawn_descendants(agent_id, children_by_parent);
    result.append(&mut below);
    assert(result@ =~= seq![agent_id] + ids_of(
        descendants(children_view(children_by_parent@), agent_id.bits),
    ));
    result
}

/// The children of one thread.
pub fn open_thread_spawn_children(
    parent_thread_id: ThreadId,
    children_by_parent: ChildrenByParent,
) -> (result: Vec<Child>)
    ensures
        result@ == children_of(children_view(children_by_parent@), parent_thread_id.bits),
{
    let mut children_by_parent = children_by_parent;
    match children_by_parent.remove(&parent_thread_id.bits) {
        Some(children) => children,
        None => {
            let none: Vec<Child> = Vec::new();
            assert(none@ =~= Seq::<Child>::empty());
            none
        },
    }
}

/// An agent has the given path.
pub open spec fn has_path(child: Child, path: Seq<char>) -> bool {
    child.1.agent_path matches Some(own) && own@ == path
}

/// The thread of the agent with the given path: the root's for the root's
/// path, else the first live one that has the path.
pub fn resolve_agent_reference(
    root_thread_id: ThreadId,
    live_agents: &Vec<Child>,
    agent_path: &AgentPath,
) -> (result: Result<ThreadId, ControlError>)
    ensures
        match result {
            Ok(thread) => if agent_path@ == root_path() {
                thread == root_thread_id
            } else {
                exists|i: int|
                    0 <= i < live_agents@.len() && has_path(#[trigger] live_agents@[i], agent_path@)
                        && thread == live_agents@[i].0 && forall|j: int|
                        0 <= j < i ==> !has_path(#[trigger] live_agents@[j], agent_path@)
            },
            Err(error) => {
                &&& agent_path@ != root_path()
                &&& forall|j: int|
                    0 <= j < live_agents@.len() ==> !has_path(
                        #[trigger] live_agents@[j],
                        agent_path@,
                    )
                &&& error matches ControlError::UnsupportedOperation(message)
                &&& message@ == "live agent path `"@ + agent_path@ + "` not found"@
            },
        },
{
    if agent_path.is_root() {
        return Ok(root_thread_id);
    }
    let mut i: usize = 0;
    while i < live_agents.len()
        invariant
            i <= live_agents.len(),
            agent_path@ != root_path(),
            forall|j: int|
                0 <= j < i ==> !has_path(#[trigger] live_agents@[j], agent_path@),
        decreases live_agents.len() - i,
    {
        let found = match &live_agents[i].1.agent_path {
            Some(path) => path.same(agent_path),
            None => false,
        };
        if found {
            assert(has_path(live_agents@[i as int], agent_path@));
            return Ok(live_agents[i].0);
        }
        i += 1;
    }
    Err(
        ControlError::UnsupportedOperation(
            "live agent path `".to_owned().concat(agent_path.as_str()).concat("` not found"),
        ),
    )
}

/// Checks that a thread is the root of the current tree or one of its live
/// agents.
pub fn ensure_agent_target_in_current_tree(
    root_thread_id: ThreadId,
    live_agents: &Vec<Child>,
    agent_id: ThreadId,
) -> (result: Result<(), ControlError>)
    ensures
        result is Ok <==> agent_id == root_thread_id || exists|i: int|
            0 <= i < live_agents@.len() && (#[trigger] live_agents@[i]).0 == agent_id,
        result matches Err(error) ==> error matches ControlError::UnsupportedOperation(message)
            && message@ == "agent id `"@ + thread_id_text(agent_id.bits)
            + "` is not live in the current root thread tree"@,
{
    if agent_id == root_thread_id {
        return Ok(());
    }
    let mut i: usize = 0;
    while i < live_agents.len()
        invariant
            i <= live_agents.len(),
            forall|j: int| 0 <= j < i ==> (#[trigger] live_agents@[j]).0 != agent_id,
        decreases live_agents.len() - i,
    {
        if live_agents[i].0 == agent_id {
            assert(live_agents@[i as int].0 == agent_id);
            return Ok(());
        }
        i += 1;
    }
    Err(
        ControlError::UnsupportedOperation(
            "agent id `".to_owned().concat(agent_id.to_text().as_str()).concat(
                "` is not live in the current root thread tree",
            ),
        ),
    )
}

/// What is known of an agent, which has to be known.
pub fn ensure_agent_known(agent_id: ThreadId, metadata: Option<AgentMetadata>) -> (result: Result<
    AgentMetadata,
    ControlError,
>)
    ensures
        result == (match metadata {
            Some(metadata) => Ok(metadata),
            None => Err(ControlError::ThreadNotFound(agent_id)),
        }),
{
    match metadata {
        Some(metadata) => Ok(metadata),
        None => Err(ControlError::ThreadNotFound(agent_id)),
    }
}

/// The status of an agent; one that is not there is not found.
pub fn get_status(loaded: Option<AgentStatus>) -> (result: AgentStatus)
    ensures
        result == (match loaded {
            Some(status) => status,
            None => AgentStatus::NotFound,
        }),
{
    match loaded {
        Some(status) => status,
        None => AgentStatus::NotFound,
    }
}

/// How a parent's context names a sub-agent: by the last name of its path, or
/// by its identity where it has no path.
pub open spec fn subagent_reference(child: Child) -> Seq<char> {
    match child.1.agent_path {
        Some(path) => path@.skip(last_slash(path@) + 1),
        None => thread_id_text(child.0.bits),
    }
}

/// What a parent's context says of each of its sub-agents: how it is named,
/// and its nickname.
pub fn environment_context_subagents(agents: &Vec<Child>) -> (result: Vec<(String, Option<String>)>)
    ensures
        result@.len() == agents@.len(),
        forall|i: int|
            0 <= i < agents@.len() ==> {
                &&& (#[trigger] result@[i]).0@ == subagent_reference(agents@[i])
                &&& result@[i].1 == agents@[i].1.agent_nickname
            },
{
    let mut result: Vec<(String, Option<String>)> = Vec::new();
    let mut i: usize = 0;
    while i < agents.len()
        invariant
            i <= agents.len(),
            result@.len() == i,
            forall|j: int|
                0 <= j < i ==> {
                    &&& (#[trigger] result@[j]).0@ == subagent_reference(agents@[j])
                    &&& result@[j].1 == agents@[j].1.agent_nickname
                },
        decreases agents.len() - i,
    {
        let reference = match &agents[i].1.agent_path {
            Some(path) => path.name().to_owned(),
            None => agents[i].0.to_text(),
        };
        result.push((reference, agents[i].1.agent_nickname.clone()));
        i += 1;
    }
    result
}

/// The metadata of an agent that is about to be spawned, with the path and
/// the nickname that were reserved for it.
pub fn prepare_agent_metadata(
    parent_thread_id: Option<ThreadId>,
    agent_path: Option<AgentPath>,
    agent_role: Option<String>,
    reserved_nickname: String,
) -> (result: AgentMetadata)
    ensures
        result == (AgentMetadata {
            agent_id: None,
            parent_thread_id,
            agent_path,
            agent_nickname: Some(reserved_nickname),
            agent_role,
            last_task_message: None,
        }),
{
    AgentMetadata {
        agent_id: None,
        parent_thread_id,
        agent_path,
        agent_nickname: Some(reserved_nickname),
        agent_role,
        last_task_message: None,
    }
}

/// Everything about a spawn but the thread itself.
#[derive(Debug)]
pub struct PreparedSpawn {
    pub session_source: SessionSource,
    pub metadata: AgentMetadata,
    /// The parent is the root of its tree and is to be registered as such.
    pub register_root: bool,
}

/// The source and the metadata of a session that a thread spawns.
pub fn prepare_thread_spawn(
    parent_thread_id: ThreadId,
    depth: i32,
    agent_path: Option<AgentPath>,
    agent_role: Option<String>,
    reserved_nickname: String,
) -> (result: PreparedSpawn)
    ensures
        result.session_source == (SessionSource::ThreadSpawn {
            parent_thread_id,
            depth,
            agent_path,
            agent_nickname: Some(reserved_nickname),
            agent_role,
        }),
        result.metadata == (AgentMetadata {
            agent_id: None,
            parent_thread_id: Some(parent_thread_id),
            agent_path,
            agent_nickname: Some(reserved_nickname),
            agent_role,
            last_task_message: None,
        }),
        result.register_root == (depth == 1),
{
    let metadata = prepare_agent_metadata(
        Some(parent_thread_id),
        agent_path,
        agent_role,
        reserved_nickname,
    );
    let session_source = SessionSource::ThreadSpawn {
        parent_thread_id,
        depth,
        agent_path: metadata.agent_path.clone(),
        agent_nickname: metadata.agent_nickname.clone(),
        agent_role: metadata.agent_role.clone(),
    };
    PreparedSpawn { session_source, metadata, register_root: depth == 1 }
}

/// The thread that a source was spawned by.
pub open spec fn spawning_parent(source: Option<SessionSource>) -> Option<ThreadId> {
    match source {
        Some(source) => source.spec_parent(),
        None => None,
    }
}

/// The thread whose environments a new thread inherits, if that thread is
/// loaded: the one that it was spawned by.
pub fn inherited_environments_for_source(session_source: Option<&SessionSource>) -> (result: Option<
    ThreadId,
>)
    ensures
        result == spawning_parent(
            match session_source {
                Some(source) => Some(*source),
                None => None,
            },
        ),
{
    match session_source {
        Some(SessionSource::ThreadSpawn { parent_thread_id, .. }) => Some(*parent_thread_id),
        _ => None,
    }
}

/// Whether a new thread inherits the execution policy of the thread that it
/// was spawned by. `parent_policy_fits` says whether the loaded parent's
/// policy is the one that the child's configuration asks for; there is none
/// where the parent is not loaded.
pub fn inherited_exec_policy_for_source(
    session_source: Option<&SessionSource>,
    parent_policy_fits: Option<bool>,
) -> (result: Option<ThreadId>)
    ensures
        result == (if parent_policy_fits == Some(true) {
            spawning_parent(
                match session_source {
                    Some(source) => Some(*source),
                    None => None,
                },
            )
        } else {
            None
        }),
{
    match parent_policy_fits {
        Some(true) => inherited_environments_for_source(session_source),
        _ => None,
    }
}

/// Whether a session's thread is to be registered as the root of its tree.
pub fn register_session_root(current_parent_thread_id: Option<ThreadId>) -> (result: bool)
    ensures
        result == (current_parent_thread_id is None),
{
    current_parent_thread_id.is_none()
}

/// What to do about a spawn in the store of spawns.
#[derive(Debug)]
pub enum PersistPlan {
    Nothing,
    /// Record the spawn as open; after that, where the child has a path, close
    /// those of its open siblings that were spawned under the same one.
    Upsert(SpawnRecord),
}

/// What to do about a spawn in the store of spawns: it is recorded where the
/// session has a parent, is not ephemeral, and there is a store.
pub fn persist_thread_spawn_edge_for_source(
    child_thread_id: ThreadId,
    session_source: Option<&SessionSource>,
    ephemeral: bool,
    store_available: bool,
) -> (result: PersistPlan)
    ensures
        match result {
            PersistPlan::Nothing => ephemeral || !store_available || session_source is None
                || session_source->0.spec_parent() is None,
            PersistPlan::Upsert(record) => {
                &&& !ephemeral
                &&& store_available
                &&& session_source matches Some(source)
                &&& source.spec_parent() == Some(record.parent_thread_id)
                &&& record.child_thread_id == child_thread_id
                &&& record.agent_path == source.spec_agent_path()
            },
        },
{
    let source = match session_source {
        Some(source) => source,
        None => {
            return PersistPlan::Nothing;
        },
    };
    let parent_thread_id = match source.parent_thread_id() {
        Some(parent) => parent,
        None => {
            return PersistPlan::Nothing;
        },
    };
    if ephemeral || !store_available {
        return PersistPlan::Nothing;
    }
    PersistPlan::Upsert(
        SpawnRecord { parent_thread_id, child_thread_id, agent_path: source.get_agent_path() },
    )
}

/// What is kept while new work is handed to an agent.
#[derive(Debug)]
pub struct PreparedSubmission {
    /// The task as it will be shown once the agent has it.
    pub last_task_message: Option<String>,
    pub rearm: Option<CompletionWatcherRearm>,
}

/// What to do with the task that is shown for an agent.
#[derive(Debug)]
pub enum TaskMessageUpdate {
    Keep,
    Clear,
    Replace(String),
}

/// What follows once it is known whether an agent took its new work.
#[derive(Debug)]
pub struct SubmissionEffects {
    pub task_message: TaskMessageUpdate,
    /// The watcher to start. It waits for the status to change first.
    pub watcher: Option<CompletionWatcherArm>,
}

/// What follows once it is known whether an agent took its new work.
pub open spec fn submission_effects(
    prepared: PreparedSubmission,
    accepted: bool,
) -> SubmissionEffects {
    SubmissionEffects {
        task_message: if !accepted {
            TaskMessageUpdate::Keep
        } else {
            match prepared.last_task_message {
                Some(message) => TaskMessageUpdate::Replace(message),
                None => TaskMessageUpdate::Clear,
            }
        },
        watcher: match prepared.rearm {
            Some(rearm) if accepted => Some(rearm.arm),
            _ => None,
        },
    }
}

/// What follows once it is known whether an agent took its new work: only then
/// is its task shown and its completion watched.
pub fn finish_submission(prepared: PreparedSubmission, accepted: bool) -> (result:
    SubmissionEffects)
    ensures
        result == submission_effects(prepared, accepted),
{
    if !accepted {
        return SubmissionEffects { task_message: TaskMessageUpdate::Keep, watcher: None };
    }
    let task_message = match prepared.last_task_message {
        Some(message) => TaskMessageUpdate::Replace(message),
        None => TaskMessageUpdate::Clear,
    };
    let watcher = match prepared.rearm {
        Some(rearm) => Some(rearm.arm),
        None => None,
    };
    SubmissionEffects { task_message, watcher }
}

impl WakeState {
    /// Prepares a child for a message from another agent. A message that comes
    /// from the child's own descendant does not have the child's previous
    /// completion told.
    pub fn prepare_inter_agent_communication(
        &mut self,
        agent_id: ThreadId,
        communication: &InterAgentCommunication,
        current_status: Option<&AgentStatus>,
        wake_descendant_policy: Option<AgentWakeDescendantPolicy>,
        has_active_descendants: bool,
    ) -> (result: PreparedSubmission)
        ensures
            result.last_task_message == (if communication.encrypted_content is None
                && communication.content@.len() > 0 {
                Some(communication.content)
            } else {
                None
            }),
            result.rearm is Some <==> {
                &&& communication.trigger_turn
                &&& current_status is Some
                &&& old(self).subscriptions@.contains_key(agent_id.bits)
                &&& allows_rearm(*current_status->0, old(self).subscriptions@[agent_id.bits])
            },
            result.rearm matches Some(rearm) ==> {
                let before = old(self).subscriptions@[agent_id.bits];
                let after = crate::wake::with_next_generation(before, wake_descendant_policy);
                &&& final(self).subscriptions@ == old(self).subscriptions@.insert(
                    agent_id.bits,
                    after,
                )
                &&& rearm.previous_generation == before.completion_watcher_generation
                &&& is_ticket_for(
                    rearm.previous_notice,
                    overtaken_notice(
                        before,
                        wake_descendant_policy,
                        *current_status->0,
                        comes_from_below(
                            old(self).subscriptions@,
                            agent_id,
                            communication.author@,
                        ),
                        has_active_descendants,
                    ),
                    agent_id,
                    before.completion_watcher_generation,
                )
                &&& rearm.arm == (CompletionWatcherArm {
                    parent_thread_id: before.parent_thread_id,
                    child_reference: before.child_reference,
                    child_agent_path: before.child_agent_path,
                    completion_watcher_generation: after.completion_watcher_generation,
                })
            },
            result.rearm is None ==> final(self).subscriptions@ == (if communication.trigger_turn && current_status is Some && old(
                self,
            ).subscriptions@.contains_key(agent_id.bits) {
                old(self).subscriptions@.insert(
                    agent_id.bits,
                    crate::wake::with_policy(
                        old(self).subscriptions@[agent_id.bits],
                        wake_descendant_policy,
                    ),
                )
            } else {
                old(self).subscriptions@
            }),
            final(self).preferences@ == old(self).preferences@,
            old(self).well_formed() ==> final(self).well_formed(),
    {
        let last_task_message = last_task_message_from_communication(communication);
        let suppress = self.communication_reuses_child_from_descendant(
            agent_id,
            &communication.author,
        );
        let rearm = self.maybe_prepare_completion_watcher_rearm(
            agent_id,
            communication.trigger_turn,
            suppress,
            current_status,
            wake_descendant_policy,
            has_active_descendants,
        );
        PreparedSubmission { last_task_message, rearm }
    }

    /// Prepares a child for input from a user, which always starts a turn.
    pub fn prepare_input(
        &mut self,
        agent_id: ThreadId,
        input: &Vec<UserInput>,
        current_status: Option<&AgentStatus>,
        wake_descendant_policy: Option<AgentWakeDescendantPolicy>,
        has_active_descendants: bool,
    ) -> (result: PreparedSubmission)
        ensures
            opt_text(result.last_task_message) == (if inputs_text(input@).len() > 0 {
                Some(inputs_text(input@))
            } else {
                None
            }),
            result.rearm is Some <==> {
                &&& current_status is Some
                &&& old(self).subscriptions@.contains_key(agent_id.bits)
                &&& allows_rearm(*current_status->0, old(self).subscriptions@[agent_id.bits])
            },
            result.rearm matches Some(rearm) ==> {
                let before = old(self).subscriptions@[agent_id.bits];
                let after = crate::wake::with_next_generation(before, wake_descendant_policy);
                &&& final(self).subscriptions@ == old(self).subscriptions@.insert(
                    agent_id.bits,
                    after,
                )
                &&& rearm.previous_generation == before.completion_watcher_generation
                &&& is_ticket_for(
                    rearm.previous_notice,
                    overtaken_notice(
                        before,
                        wake_descendant_policy,
                        *current_status->0,
                        false,
                        has_active_descendants,
                    ),
                    agent_id,
                    before.completion_watcher_generation,
                )
                &&& rearm.arm == (CompletionWatcherArm {
                    parent_thread_id: before.parent_thread_id,
                    child_reference: before.child_reference,
                    child_agent_path: before.child_agent_path,
                    completion_watcher_generation: after.completion_watcher_generation,
                })
            },
            result.rearm is None ==> final(self).subscriptions@ == (if current_status is Some && old(
                self,
            ).subscriptions@.contains_key(agent_id.bits) {
                old(self).subscriptions@.insert(
                    agent_id.bits,
                    crate::wake::with_policy(
                        old(self).subscriptions@[agent_id.bits],
                        wake_descendant_policy,
                    ),
                )
            } else {
                old(self).subscriptions@
            }),
            final(self).preferences@ == old(self).preferences@,
            old(self).well_formed() ==> final(self).well_formed(),
    {
        let last_task_message = non_empty_task_message(render_input_preview(input));
        let rearm = self.maybe_prepare_completion_watcher_rearm(
            agent_id,
            true,
            false,
            current_status,
            wake_descendant_policy,
            has_active_descendants,
        );
        PreparedSubmission { last_task_message, rearm }
    }

    /// Forgets a child whose thread turned out to have died; the result says
    /// whether it had, so that its thread is removed as well.
    pub fn handle_thread_request_result(
        &mut self,
        agent_id: ThreadId,
        result: &Result<String, ControlError>,
    ) -> (died: bool)
        ensures
            died == (*result matches Err(ControlError::InternalAgentDied)),
            final(self).subscriptions@ == (if died {
                old(self).subscriptions@.remove(agent_id.bits)
            } else {
                old(self).subscriptions@
            }),
            final(self).preferences@ == (if died {
                old(self).preferences@.remove(agent_id.bits)
            } else {
                old(self).preferences@
            }),
            old(self).well_formed() ==> final(self).well_formed(),
    {
        match result {
            Err(ControlError::InternalAgentDied) => {
                self.clear_parent_wake_state(agent_id);
                true
            },
            _ => false,
        }
    }
}

/// The root of a tree is no thread's child where children lie ever further from
/// the roots, and the current thread, or else the one that spawned it, is
/// reached from the root.
pub proof fn lemma_current_root_is_above(
    children: Map<u128, Seq<Child>>,
    current: ThreadId,
    source: SessionSource,
    root: ThreadId,
    distance: spec_fn(u128) -> nat,
)
    requires
        is_current_root(children, current, source, root),
        forall|parent: u128, child: u128| #[trigger]
            is_child(children, parent, child) ==> distance(parent) < distance(child),
    ensures
        forall|parent: u128| !(#[trigger] is_child(children, parent, root.bits)),
        (exists|steps: nat| #[trigger] reaches(children, root.bits, current.bits, steps)) || (source
            is ThreadSpawn && exists|steps: nat| #[trigger]
            reaches(children, root.bits, source->parent_thread_id.bits, steps)),
{
    let parents = choose|parents: Map<u128, u128>| #[trigger]
        is_parent_map(children, parents) && parents.dom().finite() && root.bits == climbed(
            parents,
            climb_start(parents, current, source),
            Set::empty(),
        );
    let start = climb_start(parents, current, source);
    let steps = lemma_root_is_above(children, parents, start, distance);
    assert(reaches(children, root.bits, start, steps));
}

/// The identities of children are theirs, one for one and in their order.
pub proof fn lemma_ids_one_for_one(children: Seq<Child>, i: int)
    requires
        0 <= i < children.len(),
    ensures
        ids_of(children).len() == children.len(),
        ids_of(children)[i] == children[i].0,
{
}

/// A sub-agent with a path is named by what follows the last slash of the path,
/// one without by its identity.
pub proof fn lemma_names_of_subagents(child: Child, parent: Seq<char>, name: Seq<char>)
    requires
        !name.contains('/'),
    ensures
        child.1.agent_path is None ==> subagent_reference(child) == thread_id_text(child.0.bits),
        child.1.agent_path is Some && child.1.agent_path->0@ == parent + seq!['/'] + name
            ==> subagent_reference(child) == name,
        child.1.agent_path is None ==> !has_path(child, name),
        child.1.agent_path is Some ==> (has_path(child, name) <==> child.1.agent_path->0@ == name),
{
    if child.1.agent_path is Some && child.1.agent_path->0@ == parent + seq!['/'] + name {
        let path = child.1.agent_path->0@;
        let n = parent.len() as int;
        crate::agent::lemma_last_slash(path);
        assert(path[n] == '/');
        assert forall|i: int| n < i < path.len() implies path[i] != '/' by {
            assert(path[i] == name[i - n - 1]);
            assert(name.contains(name[i - n - 1]));
        }
        assert(last_slash(path) == n);
        assert(path.skip(n + 1) =~= name);
    }
}

/// A session was spawned by the thread that its source names; one without a
/// source, or that no thread spawned, by none.
pub proof fn lemma_who_spawned(source: SessionSource)
    ensures
        spawning_parent(None) is None,
        spawning_parent(Some(SessionSource::Other)) is None,
        source is ThreadSpawn ==> spawning_parent(Some(source)) == Some(source->parent_thread_id),
{
}

/// Where an agent did not take its new work, its task stays as it was and
/// nothing is watched. Where it did, the task is the new one, or none where that
/// cannot be shown, and the watcher of the new work is started, if it got one.
pub proof fn lemma_only_taken_work_has_effects(prepared: PreparedSubmission)
    ensures
        submission_effects(prepared, false).task_message is Keep,
        submission_effects(prepared, false).watcher is None,
        prepared.last_task_message is Some ==> submission_effects(prepared, true).task_message
            == TaskMessageUpdate::Replace(prepared.last_task_message->0),
        prepared.last_task_message is None ==> submission_effects(prepared, true).task_message
            is Clear,
        prepared.rearm is Some ==> submission_effects(prepared, true).watcher == Some(
            prepared.rearm->0.arm,
        ),
        prepared.rearm is None ==> submission_effects(prepared, true).watcher is None,
{
}

} // verus!
