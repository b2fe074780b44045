//! The tree of threads that spawn threads: its root, its descendants, and the
//! agents that live in it.

use std::collections::{HashMap, HashSet};
use vstd::prelude::*;
use crate::agent::{AgentMetadata, SessionSource, ThreadId};

verus! {

/// A spawned thread with what is known of its agent.
pub type Child = (ThreadId, AgentMetadata);

/// The children of every thread that has some, by the bits of the parent's
/// identity.
pub type ChildrenByParent = HashMap<u128, Vec<Child>>;

/// The children of every thread, as sequences.
pub open spec fn children_view(children: Map<u128, Vec<Child>>) -> Map<u128, Seq<Child>> {
    children.map_values(|list: Vec<Child>| list@)
}

/// The children of one thread.
pub open spec fn children_of(children: Map<u128, Seq<Child>>, parent: u128) -> Seq<Child> {
    if children.contains_key(parent) {
        children[parent]
    } else {
        Seq::empty()
    }
}

/// A thread stands in a list of children.
pub open spec fn listed(list: Seq<Child>, thread: u128) -> bool {
    exists|i: int| 0 <= i < list.len() && (#[trigger] list[i]).0.bits == thread
}

/// One thread is listed as a child of another.
pub open spec fn is_child(children: Map<u128, Seq<Child>>, parent: u128, child: u128) -> bool {
    children.contains_key(parent) && listed(children[parent], child)
}

/// Every listed child with one of the parents that list it.
pub open spec fn is_parent_map(
    children: Map<u128, Seq<Child>>,
    parents: Map<u128, u128>,
) -> bool {
    &&& forall|parent: u128, child: u128| #[trigger]
        is_child(children, parent, child) ==> parents.contains_key(child)
    &&& forall|child: u128| #[trigger]
        parents.contains_key(child) ==> is_child(children, parents[child], child)
}

/// Every listed thread has a parent.
spec fn has_parents(parents: Map<u128, u128>, list: Seq<Child>) -> bool {
    forall|i: int| 0 <= i < list.len() ==> parents.contains_key((#[trigger] list[i]).0.bits)
}

/// The thread that is reached by going from parent to parent until there is
/// none, or one comes that was seen before.
pub open spec fn climbed(parents: Map<u128, u128>, at: u128, seen: Set<u128>) -> u128
    decreases parents.dom().difference(seen).len(),
    when parents.dom().finite()
    via climbed_decreases
{
    if seen.contains(at) || !parents.contains_key(at) {
        at
    } else {
        climbed(parents, parents[at], seen.insert(at))
    }
}

#[via_fn]
proof fn climbed_decreases(parents: Map<u128, u128>, at: u128, seen: Set<u128>) {
    if !seen.contains(at) && parents.contains_key(at) {
        let before = parents.dom().difference(seen);
        let after = parents.dom().difference(seen.insert(at));
        assert(after =~= before.remove(at));
        assert(before.contains(at));
    }
}

/// Where the climb to the root begins: at the thread itself, or at the parent
/// that its session names where no list of children holds it.
pub open spec fn climb_start(
    parents: Map<u128, u128>,
    current: ThreadId,
    source: SessionSource,
) -> u128 {
    if !parents.contains_key(current.bits) && source.spec_parent() is Some {
        source.spec_parent()->0.bits
    } else {
        current.bits
    }
}

/// The root of the tree that a thread belongs to. Where a thread is listed
/// under several parents, any of them may be the one that is followed.
pub fn current_root_thread_id(
    current_thread_id: ThreadId,
    current_session_source: &SessionSource,
    children_by_parent: &ChildrenByParent,
) -> (result: ThreadId)
    ensures
        exists|parents: Map<u128, u128>| #[trigger]
            is_parent_map(children_view(children_by_parent@), parents) && parents.dom().finite()
                && result.bits == climbed(
                parents,
                climb_start(parents, current_thread_id, *current_session_source),
                Set::empty(),
            ),
{
    let mut parent_by_child: HashMap<u128, u128> = HashMap::new();
    let ghost view = children_view(children_by_parent@);
    for entry in iter: children_by_parent.iter()
        invariant
            view == children_view(children_by_parent@),
            parent_by_child@.dom().finite(),
            forall|k: int|
                0 <= k < iter.index() ==> has_parents(
                    parent_by_child@,
                    (#[trigger] iter.seq()[k]).1@,
                ),
            forall|child: u128| #[trigger]
                parent_by_child@.contains_key(child) ==> is_child(
                    view,
                    parent_by_child@[child],
                    child,
                ),
    {
        let parent: u128 = *entry.0;
        let list = entry.1;
        assert(children_by_parent@.contains_key(parent) && children_by_parent@[parent] == *list);
        assert(view[parent] == list@);
        let ghost before = parent_by_child@;
        let mut i: usize = 0;
        while i < list.len()
            invariant
                i <= list.len(),
                view.contains_key(parent),
                view[parent] == list@,
                parent_by_child@.dom().finite(),
                forall|child: u128| #[trigger]
                    before.contains_key(child) ==> parent_by_child@.contains_key(child),
                forall|j: int|
                    0 <= j < i ==> parent_by_child@.contains_key((#[trigger] list@[j]).0.bits),
                forall|child: u128| #[trigger]
                    parent_by_child@.contains_key(child) ==> is_child(
                        view,
                        parent_by_child@[child],
                        child,
                    ),
            decreases list.len() - i,
        {
            let child = list[i].0;
            assert(listed(view[parent], child.bits)) by {
                assert(list@[i as int].0.bits == child.bits);
            }
            parent_by_child.insert(child.bits, parent);
            i += 1;
        }
    }
    assert(is_parent_map(view, parent_by_child@)) by {
        assert forall|parent: u128, child: u128| #[trigger] is_child(view, parent, child) implies parent_by_child@.contains_key(
            child,
        ) by {
            assert(children_by_parent@.contains_key(parent));
            assert(has_parents(parent_by_child@, children_by_parent@[parent]@));
        }
    }
    let mut root: u128 = current_thread_id.bits;
    if !parent_by_child.contains_key(&root) {
        if let Some(parent) = current_session_source.parent_thread_id() {
            root = parent.bits;
        }
    }
    let ghost start = root;
    let mut seen: HashSet<u128> = HashSet::new();
    loop
        invariant
            parent_by_child@.dom().finite(),
            climbed(parent_by_child@, start, Set::empty()) == climbed(
                parent_by_child@,
                root,
                seen@,
            ),
        ensures
            root == climbed(parent_by_child@, start, Set::empty()),
        decreases parent_by_child@.dom().difference(seen@).len(),
    {
        let ghost was_seen = seen@;
        if !seen.insert(root) {
            break ;
        }
        match parent_by_child.get(&root) {
            Some(parent) => {
                proof {
                    assert(parent_by_child@.dom().difference(was_seen).contains(root));
                    assert(parent_by_child@.dom().difference(seen@)
                        =~= parent_by_child@.dom().difference(was_seen).remove(root));
                }
                root = *parent;
            },
            None => {
                break ;
            },
        }
    }
    ThreadId { bits: root }
}

/// Following parents that lie ever nearer to a root ends at a thread that no
/// list of children holds.
pub proof fn lemma_climb_ends_at_root(
    parents: Map<u128, u128>,
    at: u128,
    seen: Set<u128>,
    distance: spec_fn(u128) -> nat,
)
    requires
        parents.dom().finite(),
        forall|child: u128| #[trigger]
            parents.contains_key(child) ==> distance(parents[child]) < distance(child),
        forall|thread: u128| #[trigger] seen.contains(thread) ==> distance(at) < distance(thread),
    ensures
        !parents.contains_key(climbed(parents, at, seen)),
    decreases distance(at),
{
    if !seen.contains(at) && parents.contains_key(at) {
        lemma_climb_ends_at_root(parents, parents[at], seen.insert(at), distance);
    }
}

/// The given threads, each followed by all that descends from it, depth first
/// and in the order in which children are listed. A thread's children are
/// listed once, at its first occurrence.
pub open spec fn walked(children: Map<u128, Seq<Child>>, todo: Seq<Child>) -> Seq<Child>
    decreases children.dom().len(), todo.len(),
    when children.dom().finite()
{
    if todo.len() == 0 {
        Seq::empty()
    } else {
        seq![todo[0]] + walked(
            children.remove(todo[0].0.bits),
            children_of(children, todo[0].0.bits) + todo.skip(1),
        )
    }
}

/// All that descends from a thread.
pub open spec fn descendants(children: Map<u128, Seq<Child>>, root: u128) -> Seq<Child> {
    walked(children.remove(root), children_of(children, root))
}

/// Takes a thread's descendants out of the lists of children, in the order
/// of `descendants`. The lists of the thread and of its descendants are gone
/// afterwards, all others stay.
#[verifier::spinoff_prover]
#[verifier::rlimit(40)]
pub fn remove_thread_spawn_descendants(
    children_by_parent: &mut ChildrenByParent,
    root_thread_id: ThreadId,
) -> (result: Vec<Child>)
    ensures
        result@ == descendants(children_view(old(children_by_parent)@), root_thread_id.bits),
        forall|thread: u128| #[trigger]
            final(children_by_parent)@.contains_key(thread) <==> {
                &&& old(children_by_parent)@.contains_key(thread)
                &&& thread != root_thread_id.bits
                &&& !listed(result@, thread)
            },
        forall|thread: u128| #[trigger]
            final(children_by_parent)@.contains_key(thread) ==> final(children_by_parent)@[thread]
                == old(children_by_parent)@[thread],
{
    let ghost all = children_by_parent@;
    let ghost root = root_thread_id.bits;
    proof {
        assert(children_view(all).dom() =~= all.dom());
    }
    let mut out: Vec<Child> = Vec::new();
    let mut stack: Vec<Child> = match children_by_parent.remove(&root_thread_id.bits) {
        Some(list) => reversed(list),
        None => Vec::new(),
    };
    assert(children_view(children_by_parent@) =~= children_view(all).remove(root));
    assert(stack@.reverse() =~= children_of(children_view(all), root));
    assert(out@ + walked(children_view(children_by_parent@), stack@.reverse()) =~= descendants(
        children_view(all),
        root,
    ));
    loop
        invariant
            children_by_parent@.dom().finite(),
            out@ + walked(children_view(children_by_parent@), stack@.reverse()) == descendants(
                children_view(all),
                root,
            ),
            forall|thread: u128| #[trigger]
                children_by_parent@.contains_key(thread) <==> {
                    &&& all.contains_key(thread)
                    &&& thread != root
                    &&& !listed(out@, thread)
                },
            forall|thread: u128| #[trigger]
                children_by_parent@.contains_key(thread) ==> children_by_parent@[thread]
                    == all[thread],
        ensures
            stack@.len() == 0,
        decreases children_by_parent@.dom().len(), stack@.len(),
    {
        let ghost before = children_by_parent@;
        let ghost todo = stack@.reverse();
        let ghost done = out@;
        proof {
            assert(children_view(before).dom() =~= before.dom());
        }
        match stack.pop() {
            Some(child) => {
                let bits: u128 = child.0.bits;
                assert(todo[0] == child);
                out.push(child);
                assert(todo.skip(1) =~= stack@.reverse());
                let children = children_by_parent.remove(&bits);
                assert(children_view(children_by_parent@) =~= children_view(before).remove(bits));
                let ghost rest = stack@;
                match children {
                    Some(list) => {
                        let mut list = reversed(list);
                        assert(list@.reverse() =~= children_of(children_view(before), bits));
                        stack.append(&mut list);
                    },
                    None => {},
                }
                assert(stack@.reverse() =~= children_of(children_view(before), bits)
                    + todo.skip(1));
                assert(done + walked(children_view(before), todo) =~= out@ + walked(
                    children_view(children_by_parent@),
                    stack@.reverse(),
                ));
                assert forall|thread: u128| #[trigger]
                    children_by_parent@.contains_key(thread) <==> {
                        &&& all.contains_key(thread)
                        &&& thread != root
                        &&& !listed(out@, thread)
                    } by {
                    lemma_listed_push(done, child, thread);
                    assert(children_by_parent@.contains_key(thread) <==> before.contains_key(thread)
                        && thread != bits);
                }
            },
            None => {
                break ;
            },
        }
    }
    assert(stack@.reverse() =~= Seq::<Child>::empty());
    assert(children_view(children_by_parent@).dom() =~= children_by_parent@.dom());
    assert(out@ =~= descendants(children_view(all), root));
    out
}

proof fn lemma_listed_push(list: Seq<Child>, child: Child, thread: u128)
    ensures
        listed(list.push(child), thread) <==> listed(list, thread) || child.0.bits == thread,
{
    let more = list.push(child);
    if listed(list, thread) {
        let i = choose|i: int| 0 <= i < list.len() && (#[trigger] list[i]).0.bits == thread;
        assert(more[i].0.bits == thread);
    }
    if child.0.bits == thread {
        assert(more[list.len() as int].0.bits == thread);
    }
    if listed(more, thread) && child.0.bits != thread {
        let i = choose|i: int| 0 <= i < more.len() && (#[trigger] more[i]).0.bits == thread;
        assert(list[i].0.bits == thread);
    }
}

/// One thread is reached from another by going from parent to child the given
/// number of times.
pub open spec fn reaches(
    children: Map<u128, Seq<Child>>,
    from: u128,
    to: u128,
    steps: nat,
) -> bool
    decreases steps,
{
    if steps == 0 {
        from == to
    } else {
        exists|via: u128| #[trigger]
            is_child(children, from, via) && reaches(children, via, to, (steps - 1) as nat)
    }
}

proof fn lemma_walked_closed(children: Map<u128, Seq<Child>>, todo: Seq<Child>)
    requires
        children.dom().finite(),
    ensures
        forall|thread: u128| #[trigger]
            listed(todo, thread) ==> listed(walked(children, todo), thread),
        forall|parent: u128, child: u128|
            listed(walked(children, todo), parent) && #[trigger] is_child(children, parent, child)
                ==> listed(walked(children, todo), child),
    decreases children.dom().len(), todo.len(),
{
    let all = walked(children, todo);
    if todo.len() > 0 {
        let first = todo[0].0.bits;
        let fewer = children.remove(first);
        let next = children_of(children, first) + todo.skip(1);
        let rest = walked(fewer, next);
        assert(fewer.dom() =~= children.dom().remove(first));
        if !children.contains_key(first) {
            assert(fewer =~= children);
            assert(next =~= todo.skip(1));
        }
        lemma_walked_closed(fewer, next);
        assert(all =~= seq![todo[0]] + rest);
        assert(all[0].0.bits == first);
        assert forall|thread: u128| listed(rest, thread) implies #[trigger] listed(all, thread) by {
            let i = choose|i: int| 0 <= i < rest.len() && (#[trigger] rest[i]).0.bits == thread;
            assert(all[i + 1].0.bits == thread);
        }
        assert forall|thread: u128| #[trigger] listed(todo, thread) implies listed(all, thread) by {
            let i = choose|i: int| 0 <= i < todo.len() && (#[trigger] todo[i]).0.bits == thread;
            if i > 0 {
                let k = children_of(children, first).len() + (i - 1);
                assert(next[k].0.bits == thread);
                assert(listed(next, thread));
            }
        }
        assert forall|parent: u128, child: u128|
            listed(all, parent) && #[trigger] is_child(children, parent, child) implies listed(
            all,
            child,
        ) by {
            if parent == first {
                let list = children_of(children, first);
                let i = choose|i: int| 0 <= i < list.len() && (#[trigger] list[i]).0.bits == child;
                assert(next[i].0.bits == child);
                assert(listed(next, child));
            } else {
                let i = choose|i: int| 0 <= i < all.len() && (#[trigger] all[i]).0.bits == parent;
                assert(rest[i - 1].0.bits == parent);
                assert(listed(rest, parent));
                assert(is_child(fewer, parent, child));
            }
        }
    }
}

proof fn lemma_walked_sound(
    children: Map<u128, Seq<Child>>,
    todo: Seq<Child>,
    good: spec_fn(u128) -> bool,
)
    requires
        children.dom().finite(),
        forall|thread: u128| #[trigger] listed(todo, thread) ==> good(thread),
        forall|parent: u128, child: u128|
            good(parent) && #[trigger] is_child(children, parent, child) ==> good(child),
    ensures
        forall|thread: u128| #[trigger] listed(walked(children, todo), thread) ==> good(thread),
    decreases children.dom().len(), todo.len(),
{
    let all = walked(children, todo);
    if todo.len() > 0 {
        let first = todo[0].0.bits;
        let fewer = children.remove(first);
        let next = children_of(children, first) + todo.skip(1);
        let rest = walked(fewer, next);
        assert(listed(todo, first));
        assert(fewer.dom() =~= children.dom().remove(first));
        if !children.contains_key(first) {
            assert(fewer =~= children);
            assert(next =~= todo.skip(1));
        }
        assert forall|thread: u128| #[trigger] listed(next, thread) implies good(thread) by {
            let i = choose|i: int| 0 <= i < next.len() && (#[trigger] next[i]).0.bits == thread;
            let n = children_of(children, first).len();
            if i < n {
                assert(children_of(children, first)[i].0.bits == thread);
                assert(is_child(children, first, thread));
            } else {
                assert(todo[i - n + 1].0.bits == thread);
                assert(listed(todo, thread));
            }
        }
        assert forall|parent: u128, child: u128|
            good(parent) && #[trigger] is_child(fewer, parent, child) implies good(child) by {
            assert(is_child(children, parent, child));
        }
        lemma_walked_sound(fewer, next, good);
        assert(all =~= seq![todo[0]] + rest);
        assert forall|thread: u128| #[trigger] listed(all, thread) implies good(thread) by {
            let i = choose|i: int| 0 <= i < all.len() && (#[trigger] all[i]).0.bits == thread;
            if i > 0 {
                assert(rest[i - 1].0.bits == thread);
                assert(listed(rest, thread));
            }
        }
    }
}

proof fn lemma_reaches_extend(
    children: Map<u128, Seq<Child>>,
    from: u128,
    via: u128,
    to: u128,
    steps: nat,
)
    requires
        reaches(children, from, via, steps),
        is_child(children, via, to),
    ensures
        reaches(children, from, to, steps + 1),
    decreases steps,
{
    if steps == 0 {
        assert(reaches(children, to, to, 0));
        assert(is_child(children, from, to));
    } else {
        let first = choose|first: u128| #[trigger]
            is_child(children, from, first) && reaches(children, first, via, (steps - 1) as nat);
        lemma_reaches_extend(children, first, via, to, (steps - 1) as nat);
        assert(is_child(children, from, first) && reaches(children, first, to, steps));
    }
}

proof fn lemma_closed_holds_reached(
    children: Map<u128, Seq<Child>>,
    found: Seq<Child>,
    from: u128,
    to: u128,
    steps: nat,
)
    requires
        reaches(children, from, to, steps),
        listed(found, from),
        forall|parent: u128, child: u128|
            listed(found, parent) && #[trigger] is_child(children, parent, child) ==> listed(
                found,
                child,
            ),
    ensures
        listed(found, to),
    decreases steps,
{
    if steps > 0 {
        let via = choose|via: u128| #[trigger]
            is_child(children, from, via) && reaches(children, via, to, (steps - 1) as nat);
        lemma_closed_holds_reached(children, found, via, to, (steps - 1) as nat);
    }
}

/// The descendants of a thread are exactly the threads that are reached from
/// it by going from parent to child at least once.
pub proof fn lemma_descendants_are_the_reached(
    children: Map<u128, Seq<Child>>,
    root: u128,
    thread: u128,
)
    requires
        children.dom().finite(),
    ensures
        listed(descendants(children, root), thread) <==> exists|steps: nat|
            steps > 0 && #[trigger] reaches(children, root, thread, steps),
{
    let fewer = children.remove(root);
    let first = children_of(children, root);
    let found = descendants(children, root);
    assert(fewer.dom() =~= children.dom().remove(root));
    let reached = |to: u128|
        exists|steps: nat| steps > 0 && #[trigger] reaches(children, root, to, steps);
    if listed(found, thread) {
        assert forall|to: u128| #[trigger] listed(first, to) implies reached(to) by {
            assert(is_child(children, root, to));
            assert(reaches(children, to, to, 0));
            assert(reaches(children, root, to, 1));
        }
        assert forall|parent: u128, child: u128|
            reached(parent) && #[trigger] is_child(fewer, parent, child) implies reached(child) by {
            let steps = choose|steps: nat|
                steps > 0 && #[trigger] reaches(children, root, parent, steps);
            assert(is_child(children, parent, child));
            lemma_reaches_extend(children, root, parent, child, steps);
            assert(reaches(children, root, child, steps + 1));
        }
        lemma_walked_sound(fewer, first, reached);
        assert(reached(thread));
    }
    if reached(thread) {
        let steps = choose|steps: nat|
            steps > 0 && #[trigger] reaches(children, root, thread, steps);
        let via = choose|via: u128| #[trigger]
            is_child(children, root, via) && reaches(children, via, thread, (steps - 1) as nat);
        lemma_walked_closed(fewer, first);
        assert(listed(first, via));
        assert forall|parent: u128, child: u128|
            listed(found, parent) && #[trigger] is_child(children, parent, child) implies listed(
            found,
            child,
        ) by {
            if parent == root {
                assert(listed(first, child));
            } else {
                assert(is_child(fewer, parent, child));
            }
        }
        lemma_closed_holds_reached(children, found, via, thread, (steps - 1) as nat);
    }
}

/// The items in the opposite order.
fn reversed<T>(items: Vec<T>) -> (result: Vec<T>)
    ensures
        result@ == items@.reverse(),
{
    let ghost all = items@;
    let mut rest = items;
    let mut out: Vec<T> = Vec::new();
    while rest.len() > 0
        invariant
            rest@ == all.take(rest@.len() as int),
            rest@.len() <= all.len(),
            out@ == all.skip(rest@.len() as int).reverse(),
        decreases rest.len(),
    {
        let ghost n = rest@.len() as int;
        match rest.pop() {
            Some(item) => {
                assert(rest@ =~= all.take(n - 1));
                out.push(item);
                assert(out@ =~= all.skip(n - 1).reverse());
            },
            None => {},
        }
    }
    assert(all.skip(0) =~= all);
    out
}

proof fn lemma_climb_forgets(
    parents: Map<u128, u128>,
    at: u128,
    seen: Set<u128>,
    distance: spec_fn(u128) -> nat,
)
    requires
        parents.dom().finite(),
        forall|child: u128| #[trigger]
            parents.contains_key(child) ==> distance(parents[child]) < distance(child),
        forall|thread: u128| #[trigger] seen.contains(thread) ==> distance(at) < distance(thread),
    ensures
        climbed(parents, at, seen) == climbed(parents, at, Set::empty()),
    decreases distance(at),
{
    if parents.contains_key(at) {
        assert(!seen.contains(at));
        lemma_climb_forgets(parents, parents[at], seen.insert(at), distance);
        lemma_climb_forgets(parents, parents[at], Set::empty().insert(at), distance);
    }
}

/// A thread that no list of children holds is its own root; every other one
/// has the root of its parent, where parents lie ever nearer to a root.
pub proof fn lemma_child_has_its_parents_root(
    parents: Map<u128, u128>,
    at: u128,
    distance: spec_fn(u128) -> nat,
)
    requires
        parents.dom().finite(),
        forall|child: u128| #[trigger]
            parents.contains_key(child) ==> distance(parents[child]) < distance(child),
    ensures
        !parents.contains_key(at) ==> climbed(parents, at, Set::empty()) == at,
        parents.contains_key(at) ==> climbed(parents, at, Set::empty()) == climbed(
            parents,
            parents[at],
            Set::empty(),
        ),
{
    if parents.contains_key(at) {
        lemma_climb_forgets(parents, parents[at], Set::empty().insert(at), distance);
    }
}

/// The climb to the root begins at the thread where a list of children holds
/// it or no thread spawned it, else at the thread that spawned it.
pub proof fn lemma_where_the_climb_begins(
    parents: Map<u128, u128>,
    current: ThreadId,
    source: SessionSource,
)
    ensures
        parents.contains_key(current.bits) ==> climb_start(parents, current, source)
            == current.bits,
        source is Other ==> climb_start(parents, current, source) == current.bits,
        !parents.contains_key(current.bits) && source is ThreadSpawn ==> climb_start(
            parents,
            current,
            source,
        ) == source->parent_thread_id.bits,
{
}

proof fn lemma_climb_goes_up(
    children: Map<u128, Seq<Child>>,
    parents: Map<u128, u128>,
    at: u128,
    seen: Set<u128>,
) -> (steps: nat)
    requires
        is_parent_map(children, parents),
        parents.dom().finite(),
    ensures
        reaches(children, climbed(parents, at, seen), at, steps),
    decreases parents.dom().difference(seen).len(),
{
    if seen.contains(at) || !parents.contains_key(at) {
        0
    } else {
        assert(parents.dom().difference(seen.insert(at)) =~= parents.dom().difference(
            seen,
        ).remove(at));
        assert(parents.dom().difference(seen).contains(at));
        let steps = lemma_climb_goes_up(children, parents, parents[at], seen.insert(at));
        assert(is_child(children, parents[at], at));
        lemma_reaches_extend(
            children,
            climbed(parents, at, seen),
            parents[at],
            at,
            steps,
        );
        steps + 1
    }
}

/// The root that is found is no thread's child where children lie ever further
/// from the roots, and the thread at which the climb began is reached from it.
pub proof fn lemma_root_is_above(
    children: Map<u128, Seq<Child>>,
    parents: Map<u128, u128>,
    start: u128,
    distance: spec_fn(u128) -> nat,
) -> (steps: nat)
    requires
        is_parent_map(children, parents),
        parents.dom().finite(),
        forall|parent: u128, child: u128| #[trigger]
            is_child(children, parent, child) ==> distance(parent) < distance(child),
    ensures
        reaches(children, climbed(parents, start, Set::empty()), start, steps),
        forall|parent: u128|
            !(#[trigger] is_child(children, parent, climbed(parents, start, Set::empty()))),
{
    assert forall|child: u128| #[trigger] parents.contains_key(child) implies distance(
        parents[child],
    ) < distance(child) by {
        assert(is_child(children, parents[child], child));
    }
    lemma_climb_ends_at_root(parents, start, Set::empty(), distance);
    lemma_climb_goes_up(children, parents, start, Set::empty())
}

/// The descendants of a thread without children are none. Else its first child
/// comes first, and right behind it that child's first child or, where it has
/// none, the thread's next child: all below a child come before its siblings.
pub proof fn lemma_descendants_depth_first(children: Map<u128, Seq<Child>>, root: u128)
    requires
        children.dom().finite(),
    ensures
        ({
            let all = descendants(children, root);
            let own = children_of(children, root);
            &&& own.len() == 0 ==> all.len() == 0
            &&& own.len() > 0 ==> all.len() > 0 && all[0] == own[0]
            &&& own.len() > 0 && own[0].0.bits != root && children_of(
                children,
                own[0].0.bits,
            ).len() > 0 ==> all.len() > 1 && all[1] == children_of(children, own[0].0.bits)[0]
            &&& own.len() > 1 && children_of(children, own[0].0.bits).len() == 0 ==> all.len() > 1
                && all[1] == own[1]
        }),
{
    let left = children.remove(root);
    let own = children_of(children, root);
    if own.len() > 0 {
        let first = own[0].0.bits;
        let next = children_of(left, first) + own.skip(1);
        assert(descendants(children, root) == seq![own[0]] + walked(left.remove(first), next));
        if children_of(children, first).len() > 0 && first != root {
            assert(children_of(left, first) == children_of(children, first));
            assert(next[0] == children_of(children, first)[0]);
        }
        if own.len() > 1 && children_of(children, first).len() == 0 {
            assert(children_of(left, first).len() == 0);
            assert(next[0] == own[1]);
        }
    }
}

/// A child of the given thread, or of one of those in a list.
pub open spec fn comes_of(
    children: Map<u128, Seq<Child>>,
    root: u128,
    above: Seq<Child>,
    thread: u128,
) -> bool {
    is_child(children, root, thread) || exists|j: int|
        0 <= j < above.len() && is_child(children, (#[trigger] above[j]).0.bits, thread)
}

proof fn lemma_walked_comes_of(
    all: Map<u128, Seq<Child>>,
    children: Map<u128, Seq<Child>>,
    root: u128,
    done: Seq<Child>,
    todo: Seq<Child>,
)
    requires
        children.dom().finite(),
        children.submap_of(all),
        forall|k: int|
            0 <= k < todo.len() ==> comes_of(all, root, done, (#[trigger] todo[k]).0.bits),
    ensures
        forall|i: int|
            0 <= i < walked(children, todo).len() ==> comes_of(
                all,
                root,
                done + walked(children, todo).take(i),
                (#[trigger] walked(children, todo)[i]).0.bits,
            ),
    decreases children.dom().len(), todo.len(),
{
    let result = walked(children, todo);
    if todo.len() > 0 {
        let first = todo[0];
        let id = first.0.bits;
        let left = children.remove(id);
        let next = children_of(children, id) + todo.skip(1);
        let rest = walked(left, next);
        let more = done.push(first);
        assert(result == seq![first] + rest);
        assert forall|k: int| 0 <= k < next.len() implies comes_of(
            all,
            root,
            more,
            (#[trigger] next[k]).0.bits,
        ) by {
            let own = children_of(children, id);
            if k < own.len() {
                assert(next[k] == own[k]);
                assert(children.contains_key(id) && all.contains_key(id));
                assert(all[id] == children[id]);
                assert(listed(all[id], own[k].0.bits));
                assert(more[done.len() as int] == first);
                assert(is_child(all, more[done.len() as int].0.bits, next[k].0.bits));
            } else {
                let place = k - own.len() + 1;
                assert(next[k] == todo[place]);
                assert(comes_of(all, root, done, todo[place].0.bits));
                if !is_child(all, root, next[k].0.bits) {
                    let j = choose|j: int|
                        0 <= j < done.len() && is_child(
                            all,
                            (#[trigger] done[j]).0.bits,
                            next[k].0.bits,
                        );
                    assert(more[j] == done[j]);
                }
            }
        }
        assert(left.submap_of(all));
        if !children.contains_key(id) {
            assert(left =~= children);
        }
        lemma_walked_comes_of(all, left, root, more, next);
        assert forall|i: int| 0 <= i < result.len() implies comes_of(
            all,
            root,
            done + result.take(i),
            (#[trigger] result[i]).0.bits,
        ) by {
            if i == 0 {
                assert(result[0] == todo[0]);
                assert(done + result.take(0) =~= done);
            } else {
                assert(result[i] == rest[i - 1]);
                assert(more + rest.take(i - 1) =~= done + result.take(i));
            }
        }
    }
}

/// Every descendant is listed behind a thread that lists it as a child, or is
/// a child of the thread itself.
pub proof fn lemma_descendants_behind_their_parents(children: Map<u128, Seq<Child>>, root: u128)
    requires
        children.dom().finite(),
    ensures
        forall|i: int|
            0 <= i < descendants(children, root).len() ==> comes_of(
                children,
                root,
                descendants(children, root).take(i),
                (#[trigger] descendants(children, root)[i]).0.bits,
            ),
{
    let own = children_of(children, root);
    let result = descendants(children, root);
    assert forall|k: int| 0 <= k < own.len() implies comes_of(
        children,
        root,
        Seq::empty(),
        (#[trigger] own[k]).0.bits,
    ) by {
        assert(listed(children[root], own[k].0.bits));
    }
    lemma_walked_comes_of(children, children.remove(root), root, Seq::empty(), own);
    assert forall|i: int| 0 <= i < result.len() implies comes_of(
        children,
        root,
        result.take(i),
        (#[trigger] result[i]).0.bits,
    ) by {
        assert(Seq::<Child>::empty() + result.take(i) =~= result.take(i));
    }
}

} // verus!
