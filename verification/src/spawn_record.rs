//! How the spawn of a child is put on record in the store of spawns.

use vstd::prelude::*;
use crate::agent::{AgentPath, ThreadId};
use crate::text::{opt_text, same_text};

verus! {

/// A spawn that is to be put on record.
#[derive(Debug)]
pub struct SpawnRecord {
    pub parent_thread_id: ThreadId,
    pub child_thread_id: ThreadId,
    pub agent_path: Option<AgentPath>,
}

/// How far a spawn is on record.
#[derive(Debug)]
pub enum RecordPhase {
    /// The spawn is recorded as open.
    Recording,
    /// The open children of the parent are asked for.
    Listing,
    /// What the store has of one of them is read.
    Reading { siblings: Vec<ThreadId>, at: usize },
    /// The spawn of one of them is closed.
    Closing { siblings: Vec<ThreadId>, at: usize },
    Finished,
}

/// What the store answers.
#[derive(Debug)]
pub enum StoreAnswer {
    /// Whether the spawn could be recorded.
    Recorded(bool),
    /// The open children of the parent, if they could be listed.
    Listed(Option<Vec<ThreadId>>),
    /// A thread cannot be read.
    Unreadable,
    /// The path that a thread was spawned under, if any.
    Found(Option<String>),
    /// Whether a spawn could be closed.
    Closed(bool),
}

/// What is asked of the store next.
#[derive(Clone, Copy, Debug, PartialEq, Eq, Structural)]
pub enum StoreRequest {
    RecordOpen { parent_thread_id: ThreadId, child_thread_id: ThreadId },
    ListOpen { parent_thread_id: ThreadId },
    ReadStored(ThreadId),
    CloseSpawn(ThreadId),
    Nothing,
}

/// The first place from the given one on that holds another thread than the
/// child; behind the last one where there is none.
pub open spec fn next_sibling(siblings: Seq<ThreadId>, child: ThreadId, at: int) -> int
    decreases siblings.len() - at,
{
    if 0 <= at < siblings.len() && siblings[at] == child {
        next_sibling(siblings, child, at + 1)
    } else {
        at
    }
}

/// What follows about the siblings from a place on.
pub open spec fn from_sibling(record: SpawnRecord, siblings: Vec<ThreadId>, at: int) -> (
    RecordPhase,
    StoreRequest,
) {
    let next = next_sibling(siblings@, record.child_thread_id, at);
    if next < siblings@.len() {
        (
            RecordPhase::Reading { siblings, at: next as usize },
            StoreRequest::ReadStored(siblings@[next]),
        )
    } else {
        (RecordPhase::Finished, StoreRequest::Nothing)
    }
}

/// A path is that of the spawn.
pub open spec fn has_path(record: SpawnRecord, path: Option<String>) -> bool {
    record.agent_path matches Some(own) && opt_text(path) == Some(own@)
}

/// What follows from what the store answered. A spawn that cannot be recorded,
/// or that has no path, is all there is to it; where the siblings cannot be
/// listed, none is closed; the child itself is not read; a sibling that cannot
/// be read, or that has another path, is passed over; so is one whose spawn
/// cannot be closed. An answer to another question ends it.
pub open spec fn record_next(record: SpawnRecord, phase: RecordPhase, answer: StoreAnswer) -> (
    RecordPhase,
    StoreRequest,
) {
    match (phase, answer) {
        (RecordPhase::Recording, StoreAnswer::Recorded(true)) if record.agent_path is Some => (
            RecordPhase::Listing,
            StoreRequest::ListOpen { parent_thread_id: record.parent_thread_id },
        ),
        (RecordPhase::Listing, StoreAnswer::Listed(Some(siblings))) => from_sibling(
            record,
            siblings,
            0,
        ),
        (RecordPhase::Reading { siblings, at }, StoreAnswer::Unreadable) => from_sibling(
            record,
            siblings,
            at + 1,
        ),
        (RecordPhase::Reading { siblings, at }, StoreAnswer::Found(path)) => if has_path(
            record,
            path,
        ) {
            (
                RecordPhase::Closing { siblings, at },
                StoreRequest::CloseSpawn(siblings@[at as int]),
            )
        } else {
            from_sibling(record, siblings, at + 1)
        },
        (RecordPhase::Closing { siblings, at }, StoreAnswer::Closed(_)) => from_sibling(
            record,
            siblings,
            at + 1,
        ),
        _ => (RecordPhase::Finished, StoreRequest::Nothing),
    }
}

/// The place that a phase names is one of its siblings'.
pub open spec fn is_record_phase(phase: RecordPhase) -> bool {
    match phase {
        RecordPhase::Reading { siblings, at } => at < siblings@.len(),
        RecordPhase::Closing { siblings, at } => at < siblings@.len(),
        _ => true,
    }
}

impl SpawnRecord {
    /// How the recording of a spawn begins.
    pub fn begin(&self) -> (result: (RecordPhase, StoreRequest))
        ensures
            result.0 is Recording,
            result.1 == (StoreRequest::RecordOpen {
                parent_thread_id: self.parent_thread_id,
                child_thread_id: self.child_thread_id,
            }),
    {
        (
            RecordPhase::Recording,
            StoreRequest::RecordOpen {
                parent_thread_id: self.parent_thread_id,
                child_thread_id: self.child_thread_id,
            },
        )
    }

    fn go_to_sibling(&self, siblings: Vec<ThreadId>, start: usize) -> (result: (
        RecordPhase,
        StoreRequest,
    ))
        requires
            start <= siblings@.len(),
        ensures
            result == from_sibling(*self, siblings, start as int),
            is_record_phase(result.0),
    {
        let mut at: usize = start;
        while at < siblings.len() && siblings[at] == self.child_thread_id
            invariant
                at <= siblings@.len(),
                next_sibling(siblings@, self.child_thread_id, at as int) == next_sibling(
                    siblings@,
                    self.child_thread_id,
                    start as int,
                ),
            decreases siblings@.len() - at,
        {
            at += 1;
        }
        if at < siblings.len() {
            let sibling = siblings[at];
            (RecordPhase::Reading { siblings, at }, StoreRequest::ReadStored(sibling))
        } else {
            (RecordPhase::Finished, StoreRequest::Nothing)
        }
    }

    fn go_past_sibling(&self, siblings: Vec<ThreadId>, at: usize) -> (result: (
        RecordPhase,
        StoreRequest,
    ))
        requires
            at < siblings@.len(),
        ensures
            result == from_sibling(*self, siblings, at + 1),
            is_record_phase(result.0),
    {
        let count: usize = siblings.len();
        assert(at < count);
        self.go_to_sibling(siblings, at + 1)
    }

    /// What follows from what the store answered to what was asked last: the
    /// phase to go on with, and what is asked next.
    pub fn step(&self, phase: RecordPhase, answer: StoreAnswer) -> (result: (
        RecordPhase,
        StoreRequest,
    ))
        requires
            is_record_phase(phase),
        ensures
            result == record_next(*self, phase, answer),
            is_record_phase(result.0),
            result.0 is Finished <==> result.1 is Nothing,
    {
        match phase {
            RecordPhase::Recording => match answer {
                StoreAnswer::Recorded(recorded) => {
                    if recorded && self.agent_path.is_some() {
                        (
                            RecordPhase::Listing,
                            StoreRequest::ListOpen { parent_thread_id: self.parent_thread_id },
                        )
                    } else {
                        (RecordPhase::Finished, StoreRequest::Nothing)
                    }
                },
                _ => (RecordPhase::Finished, StoreRequest::Nothing),
            },
            RecordPhase::Listing => match answer {
                StoreAnswer::Listed(Some(siblings)) => self.go_to_sibling(siblings, 0),
                _ => (RecordPhase::Finished, StoreRequest::Nothing),
            },
            RecordPhase::Reading { siblings, at } => match answer {
                StoreAnswer::Unreadable => self.go_past_sibling(siblings, at),
                StoreAnswer::Found(path) => {
                    let same = match (&self.agent_path, &path) {
                        (Some(own), Some(path)) => same_text(path.as_str(), own.as_str()),
                        _ => false,
                    };
                    if same {
                        let sibling = siblings[at];
                        (
                            RecordPhase::Closing { siblings, at },
                            StoreRequest::CloseSpawn(sibling),
                        )
                    } else {
                        self.go_past_sibling(siblings, at)
                    }
                },
                _ => (RecordPhase::Finished, StoreRequest::Nothing),
            },
            RecordPhase::Closing { siblings, at } => match answer {
                StoreAnswer::Closed(_) => self.go_past_sibling(siblings, at),
                _ => (RecordPhase::Finished, StoreRequest::Nothing),
            },
            RecordPhase::Finished => (RecordPhase::Finished, StoreRequest::Nothing),
        }
    }
}

/// What the store answers to each question about one spawn.
pub ghost struct StoreState {
    /// Whether the spawn can be recorded.
    pub recorded: bool,
    /// The open children of the parent, if they can be listed.
    pub listed: Option<Vec<ThreadId>>,
    /// What is read of the sibling at a place: nothing where it cannot be
    /// read, and else the path that it was spawned under, if any.
    pub found: spec_fn(int) -> Option<Option<String>>,
    /// Whether the spawn of the sibling at a place can be closed.
    pub closed: spec_fn(int) -> bool,
}

impl StoreState {
    /// The answer to what is asked in a phase.
    pub open spec fn answer(self, phase: RecordPhase) -> StoreAnswer {
        match phase {
            RecordPhase::Recording => StoreAnswer::Recorded(self.recorded),
            RecordPhase::Listing => StoreAnswer::Listed(self.listed),
            RecordPhase::Reading { siblings, at } => match (self.found)(at as int) {
                Some(path) => StoreAnswer::Found(path),
                None => StoreAnswer::Unreadable,
            },
            RecordPhase::Closing { siblings, at } => StoreAnswer::Closed((self.closed)(at as int)),
            RecordPhase::Finished => StoreAnswer::Closed(false),
        }
    }
}

/// How many kinds of questions are left at most.
pub open spec fn kinds_left(phase: RecordPhase) -> nat {
    match phase {
        RecordPhase::Recording => 3,
        RecordPhase::Listing => 2,
        RecordPhase::Finished => 0,
        _ => 1,
    }
}

/// How many questions about siblings are left at most.
pub open spec fn siblings_left(phase: RecordPhase) -> int {
    match phase {
        RecordPhase::Reading { siblings, at } => 2 * (siblings@.len() - at) + 1,
        RecordPhase::Closing { siblings, at } => 2 * (siblings@.len() - at),
        _ => 0,
    }
}

proof fn lemma_next_sibling(siblings: Seq<ThreadId>, child: ThreadId, at: int)
    requires
        0 <= at <= siblings.len(),
    ensures
        at <= next_sibling(siblings, child, at) <= siblings.len(),
        next_sibling(siblings, child, at) < siblings.len() ==> siblings[next_sibling(
            siblings,
            child,
            at,
        )] != child,
        forall|i: int|
            at <= i < next_sibling(siblings, child, at) ==> #[trigger] siblings[i] == child,
    decreases siblings.len() - at,
{
    if at < siblings.len() && siblings[at] == child {
        lemma_next_sibling(siblings, child, at + 1);
    }
}

/// All that is asked of the store after a phase.
pub open spec fn store_requests(record: SpawnRecord, phase: RecordPhase, store: StoreState) -> Seq<
    StoreRequest,
>
    decreases kinds_left(phase), siblings_left(phase),
    when is_record_phase(phase)
    via requests_end
{
    if phase is Finished {
        Seq::empty()
    } else {
        let (next, request) = record_next(record, phase, store.answer(phase));
        seq![request] + store_requests(record, next, store)
    }
}

#[via_fn]
proof fn requests_end(record: SpawnRecord, phase: RecordPhase, store: StoreState) {
    match phase {
        RecordPhase::Reading { siblings, at } => {
            lemma_next_sibling(siblings@, record.child_thread_id, at + 1);
            assert(siblings@.len() == siblings.len());
        },
        RecordPhase::Closing { siblings, at } => {
            lemma_next_sibling(siblings@, record.child_thread_id, at + 1);
            assert(siblings@.len() == siblings.len());
        },
        _ => {},
    }
}

/// An open sibling and what the store has of it.
pub ghost struct StoredSibling {
    pub thread_id: ThreadId,
    /// Whether it can be read.
    pub readable: bool,
    pub agent_path: Option<String>,
}

/// A sibling stands in the place of a newly spawned child.
pub open spec fn is_duplicate(sibling: StoredSibling, child: ThreadId, path: Seq<char>) -> bool {
    sibling.thread_id != child && sibling.readable && opt_text(sibling.agent_path) == Some(path)
}

/// The sibling at a place.
pub open spec fn stored_sibling(store: StoreState, siblings: Seq<ThreadId>, at: int) -> StoredSibling {
    StoredSibling {
        thread_id: siblings[at],
        readable: (store.found)(at) is Some,
        agent_path: match (store.found)(at) {
            Some(path) => path,
            None => None,
        },
    }
}

/// The siblings that the store lists.
pub open spec fn stored_siblings(store: StoreState, siblings: Seq<ThreadId>) -> Seq<StoredSibling> {
    Seq::new(siblings.len(), |at: int| stored_sibling(store, siblings, at))
}

/// The siblings whose spawns are to be closed because a child was spawned
/// anew under their path.
pub open spec fn duplicate_siblings(
    siblings: Seq<StoredSibling>,
    child: ThreadId,
    path: Seq<char>,
) -> Seq<ThreadId> {
    siblings.filter(|sibling: StoredSibling| is_duplicate(sibling, child, path)).map_values(
        |sibling: StoredSibling| sibling.thread_id,
    )
}

/// The threads that are read, in order.
pub open spec fn read(requests: Seq<StoreRequest>) -> Seq<ThreadId>
    decreases requests.len(),
{
    if requests.len() == 0 {
        Seq::empty()
    } else {
        match requests[0] {
            StoreRequest::ReadStored(thread) => seq![thread] + read(requests.skip(1)),
            _ => read(requests.skip(1)),
        }
    }
}

/// The threads whose spawns are closed, in order.
pub open spec fn closed(requests: Seq<StoreRequest>) -> Seq<ThreadId>
    decreases requests.len(),
{
    if requests.len() == 0 {
        Seq::empty()
    } else {
        match requests[0] {
            StoreRequest::CloseSpawn(thread) => seq![thread] + closed(requests.skip(1)),
            _ => closed(requests.skip(1)),
        }
    }
}

/// The threads other than the child.
pub open spec fn others(siblings: Seq<ThreadId>, child: ThreadId) -> Seq<ThreadId> {
    siblings.filter(|thread: ThreadId| thread != child)
}

proof fn lemma_first_request(request: StoreRequest, rest: Seq<StoreRequest>)
    ensures
        read(seq![request] + rest) == (match request {
            StoreRequest::ReadStored(thread) => seq![thread] + read(rest),
            _ => read(rest),
        }),
        closed(seq![request] + rest) == (match request {
            StoreRequest::CloseSpawn(thread) => seq![thread] + closed(rest),
            _ => closed(rest),
        }),
{
    assert((seq![request] + rest).skip(1) =~= rest);
}

/// The first sibling from a place on, and those behind it.
proof fn lemma_split_siblings(
    store: StoreState,
    siblings: Seq<ThreadId>,
    child: ThreadId,
    path: Seq<char>,
    at: int,
)
    requires
        0 <= at < siblings.len(),
    ensures
        others(siblings.skip(at), child) == (if siblings[at] != child {
            seq![siblings[at]] + others(siblings.skip(at + 1), child)
        } else {
            others(siblings.skip(at + 1), child)
        }),
        duplicate_siblings(stored_siblings(store, siblings).skip(at), child, path) == (
        if is_duplicate(stored_sibling(store, siblings, at), child, path) {
            seq![siblings[at]] + duplicate_siblings(
                stored_siblings(store, siblings).skip(at + 1),
                child,
                path,
            )
        } else {
            duplicate_siblings(stored_siblings(store, siblings).skip(at + 1), child, path)
        }),
{
    reveal(Seq::filter);
    let other = |thread: ThreadId| thread != child;
    let first = seq![siblings[at]];
    assert(siblings.skip(at) =~= first + siblings.skip(at + 1));
    Seq::filter_distributes_over_add(first, siblings.skip(at + 1), other);
    assert(first.drop_last() =~= Seq::<ThreadId>::empty());
    assert(first.drop_last().filter(other) =~= Seq::<ThreadId>::empty());
    assert(first.filter(other) =~= (if siblings[at] != child {
        first
    } else {
        Seq::empty()
    }));
    assert(Seq::<ThreadId>::empty() + others(siblings.skip(at + 1), child) =~= others(
        siblings.skip(at + 1),
        child,
    ));

    let all = stored_siblings(store, siblings);
    let keep = |sibling: StoredSibling| is_duplicate(sibling, child, path);
    let id = |sibling: StoredSibling| sibling.thread_id;
    let one = seq![all[at]];
    let rest = all.skip(at + 1);
    assert(all.skip(at) =~= one + rest);
    Seq::filter_distributes_over_add(one, rest, keep);
    assert(one.drop_last() =~= Seq::<StoredSibling>::empty());
    assert(one.drop_last().filter(keep) =~= Seq::<StoredSibling>::empty());
    assert(one.filter(keep) =~= (if keep(all[at]) {
        one
    } else {
        Seq::empty()
    }));
    if keep(all[at]) {
        assert((one + rest.filter(keep)).map_values(id) =~= seq![siblings[at]]
            + rest.filter(keep).map_values(id));
    } else {
        assert((Seq::<StoredSibling>::empty() + rest.filter(keep)) =~= rest.filter(keep));
    }
}

proof fn lemma_requests_from(
    record: SpawnRecord,
    siblings: Vec<ThreadId>,
    at: int,
    store: StoreState,
)
    requires
        0 <= at <= siblings@.len(),
        record.agent_path is Some,
    ensures
        ({
            let (phase, request) = from_sibling(record, siblings, at);
            let requests = seq![request] + store_requests(record, phase, store);
            &&& is_record_phase(phase)
            &&& read(requests) == others(siblings@.skip(at), record.child_thread_id)
            &&& closed(requests) == duplicate_siblings(
                stored_siblings(store, siblings@).skip(at),
                record.child_thread_id,
                record.agent_path->0@,
            )
            &&& requests.last() is Nothing
        }),
    decreases siblings@.len() - at,
{
    let child = record.child_thread_id;
    let path = record.agent_path->0@;
    let (phase, request) = from_sibling(record, siblings, at);
    let requests = seq![request] + store_requests(record, phase, store);
    assert(siblings@.len() == siblings.len());
    lemma_next_sibling(siblings@, child, at);
    if at == siblings@.len() {
        reveal(Seq::filter);
        assert(siblings@.skip(at) =~= Seq::<ThreadId>::empty());
        assert(stored_siblings(store, siblings@).skip(at) =~= Seq::<StoredSibling>::empty());
        assert(store_requests(record, phase, store) =~= Seq::<StoreRequest>::empty());
        lemma_first_request(request, store_requests(record, phase, store));
        assert(read(Seq::<StoreRequest>::empty()) =~= Seq::<ThreadId>::empty());
        assert(closed(Seq::<StoreRequest>::empty()) =~= Seq::<ThreadId>::empty());
        assert(others(siblings@.skip(at), child) =~= Seq::<ThreadId>::empty());
        assert(duplicate_siblings(stored_siblings(store, siblings@).skip(at), child, path)
            =~= Seq::<ThreadId>::empty());
    } else {
        lemma_split_siblings(store, siblings@, child, path, at);
        lemma_requests_from(record, siblings, at + 1, store);
        if siblings@[at] != child {
            assert(next_sibling(siblings@, child, at) == at);
            assert(phase == (RecordPhase::Reading { siblings, at: at as usize }));
            let rest = store_requests(record, phase, store);
            let (after, asked) = record_next(record, phase, store.answer(phase));
            let left = store_requests(record, after, store);
            assert(rest == seq![asked] + left);
            lemma_first_request(request, rest);
            lemma_first_request(asked, left);
            if is_duplicate(stored_sibling(store, siblings@, at), child, path) {
                assert(after == (RecordPhase::Closing { siblings, at: at as usize }));
                let (beyond, next_asked) = record_next(record, after, store.answer(after));
                assert((beyond, next_asked) == from_sibling(record, siblings, at + 1));
                assert(left == seq![next_asked] + store_requests(record, beyond, store));
                assert(requests.last() == left.last());
            } else {
                assert((after, asked) == from_sibling(record, siblings, at + 1));
                assert(requests.last() == rest.last());
            }
        } else {
            assert(next_sibling(siblings@, child, at) == next_sibling(siblings@, child, at + 1));
        }
    }
}

/// Whatever the store answers, putting a spawn on record closes the spawns of
/// those siblings, and of no others, that it lists as open, that can be read
/// and that were spawned under the child's path, each once and in the order
/// listed. It reads every sibling that is listed once, and never the child.
/// Where the spawn cannot be recorded, has no path, or the siblings cannot be
/// listed, nothing is read or closed. In the end nothing more is asked.
pub proof fn lemma_record_closes_duplicates(record: SpawnRecord, store: StoreState)
    ensures
        ({
            let requests = store_requests(record, RecordPhase::Recording, store);
            &&& requests.last() is Nothing
            &&& match store.listed {
                Some(siblings) if store.recorded && record.agent_path is Some => {
                    &&& read(requests) == others(siblings@, record.child_thread_id)
                    &&& closed(requests) == duplicate_siblings(
                        stored_siblings(store, siblings@),
                        record.child_thread_id,
                        record.agent_path->0@,
                    )
                },
                _ => read(requests).len() == 0 && closed(requests).len() == 0,
            }
        }),
{
    let phase = RecordPhase::Recording;
    let requests = store_requests(record, phase, store);
    let (second, asked) = record_next(record, phase, store.answer(phase));
    let rest = store_requests(record, second, store);
    assert(requests == seq![asked] + rest);
    lemma_first_request(asked, rest);
    assert(read(Seq::<StoreRequest>::empty()) =~= Seq::<ThreadId>::empty());
    assert(closed(Seq::<StoreRequest>::empty()) =~= Seq::<ThreadId>::empty());
    if second is Listing {
        let (third, listed) = record_next(record, second, store.answer(second));
        match store.listed {
            Some(siblings) => {
                lemma_requests_from(record, siblings, 0, store);
                assert(siblings@.skip(0) =~= siblings@);
                assert(stored_siblings(store, siblings@).skip(0) =~= stored_siblings(
                    store,
                    siblings@,
                ));
                assert(rest == seq![listed] + store_requests(record, third, store));
                assert(requests.last() == rest.last());
            },
            None => {
                assert(rest == seq![listed] + store_requests(record, third, store));
                assert(store_requests(record, third, store) =~= Seq::<StoreRequest>::empty());
                lemma_first_request(listed, Seq::<StoreRequest>::empty());
                assert(requests.last() == listed);
            },
        }
    } else {
        assert(rest =~= Seq::<StoreRequest>::empty());
    }
}

/// Once a spawn with a path is recorded the open children of its own parent are
/// asked for; a spawn without a path, or one that could not be recorded, asks
/// for nothing more.
pub proof fn lemma_siblings_are_asked_for(record: SpawnRecord, recorded: bool)
    ensures
        ({
            let (phase, request) = record_next(
                record,
                RecordPhase::Recording,
                StoreAnswer::Recorded(recorded),
            );
            &&& recorded && record.agent_path is Some ==> phase is Listing && request == (
            StoreRequest::ListOpen { parent_thread_id: record.parent_thread_id })
            &&& !recorded || record.agent_path is None ==> phase is Finished && request is Nothing
        }),
{
}

/// A sibling is closed exactly when it is another thread than the child, can be
/// read, and was spawned under the child's path. One more sibling adds itself
/// at the end or nothing.
pub proof fn lemma_one_more_sibling(
    siblings: Seq<StoredSibling>,
    sibling: StoredSibling,
    child: ThreadId,
    path: Seq<char>,
)
    ensures
        duplicate_siblings(Seq::empty(), child, path).len() == 0,
        duplicate_siblings(siblings.push(sibling), child, path) == if sibling.thread_id != child
            && sibling.readable && sibling.agent_path is Some && sibling.agent_path->0@ == path {
            duplicate_siblings(siblings, child, path).push(sibling.thread_id)
        } else {
            duplicate_siblings(siblings, child, path)
        },
{
    let keep = |sibling: StoredSibling| is_duplicate(sibling, child, path);
    let id = |sibling: StoredSibling| sibling.thread_id;
    reveal(Seq::filter);
    siblings.lemma_filter_push(sibling, keep);
    if keep(sibling) {
        assert(siblings.filter(keep).push(sibling).map_values(id) =~= siblings.filter(
            keep,
        ).map_values(id).push(sibling.thread_id));
    }
    assert(Seq::<StoredSibling>::empty().filter(keep) =~= Seq::<StoredSibling>::empty());
    assert(duplicate_siblings(Seq::empty(), child, path) =~= Seq::<ThreadId>::empty());
}

} // verus!
