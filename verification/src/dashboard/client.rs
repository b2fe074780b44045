//! Talking to the server: relaying what it sends, and listing its threads.

use vstd::prelude::*;
use crate::dashboard::app::{DashboardEvent, ServerNotification};
use crate::dashboard::model::Thread;
use crate::sort::{
    lemma_stable_sorted, lemma_stable_sorted_contains, ranks, sort_stable, stable_sorted, Ordered,
};
use crate::text::{
    lemma_text_lt_irreflexive, lemma_text_lt_transitive, lemma_text_not_lt_transitive, text_less,
    text_lt,
};

verus! {

/// The name under which the dashboard connects.
pub const CLIENT_NAME: &'static str = "codex-agent-dashboard";

/// How many events are kept until they are taken.
pub const CHANNEL_CAPACITY: usize = 512;

/// The code with which requests of the server are turned down.
pub const READ_ONLY_ERROR_CODE: i64 = -32001;

/// What the connection brings.
#[derive(Debug)]
pub enum AppServerEvent {
    ServerNotification(ServerNotification),
    Lagged { skipped: usize },
    Disconnected { message: String },
    /// The server asks for something, by a request with this identity.
    ServerRequest { request_id: String },
    LegacyNotification,
}

/// What is done about what the connection brings.
#[derive(Debug)]
pub enum RelayAction {
    /// Pass an event on. If no one takes it, close the connection and stop.
    Send(DashboardEvent),
    /// Pass an event on and stop.
    SendThenStop(DashboardEvent),
    /// Pass an event on, close the connection and stop.
    SendThenShutDown(DashboardEvent),
    /// Turn a request of the server down.
    Reject { request_id: String, code: i64, message: String },
    Ignore,
}

/// What is done about what the connection brings; nothing where the stream of
/// events ended.
pub fn relay_action(event: Option<AppServerEvent>) -> (result: RelayAction)
    ensures
        match event {
            None => result matches RelayAction::SendThenStop(DashboardEvent::Disconnected(message))
                && message@ == "app-server event stream closed"@,
            Some(AppServerEvent::ServerNotification(notification)) => result == RelayAction::Send(
                DashboardEvent::Notification(notification),
            ),
            Some(AppServerEvent::Lagged { skipped }) => result == RelayAction::Send(
                DashboardEvent::Lagged(skipped),
            ),
            Some(AppServerEvent::Disconnected { message }) => result
                == RelayAction::SendThenShutDown(DashboardEvent::Disconnected(message)),
            Some(AppServerEvent::ServerRequest { request_id }) => {
                &&& result matches RelayAction::Reject { request_id: id, code, message }
                &&& id == request_id
                &&& code == -32001
                &&& message@ == "codex-agent-dashboard is read-only"@
            },
            Some(AppServerEvent::LegacyNotification) => result is Ignore,
        },
{
    match event {
        None => RelayAction::SendThenStop(
            DashboardEvent::Disconnected("app-server event stream closed".to_owned()),
        ),
        Some(AppServerEvent::ServerNotification(notification)) => RelayAction::Send(
            DashboardEvent::Notification(notification),
        ),
        Some(AppServerEvent::Lagged { skipped }) => RelayAction::Send(
            DashboardEvent::Lagged(skipped),
        ),
        Some(AppServerEvent::Disconnected { message }) => RelayAction::SendThenShutDown(
            DashboardEvent::Disconnected(message),
        ),
        Some(AppServerEvent::ServerRequest { request_id }) => RelayAction::Reject {
            request_id,
            code: READ_ONLY_ERROR_CODE,
            message: "codex-agent-dashboard is read-only".to_owned(),
        },
        Some(AppServerEvent::LegacyNotification) => RelayAction::Ignore,
    }
}

/// The numbers by which requests are told apart.
#[derive(Debug)]
pub struct RequestIds {
    pub next: u64,
}

impl RequestIds {
    /// Numbers from one on.
    pub fn new() -> (result: RequestIds)
        ensures
            result.next == 1,
    {
        RequestIds { next: 1 }
    }

    /// The next number. After the largest one the numbers start again.
    pub fn next_request_id(&mut self) -> (result: i64)
        ensures
            result == old(self).next as i64,
            final(self).next == (if old(self).next == u64::MAX {
                0
            } else {
                old(self).next + 1
            }),
    {
        let current: u64 = self.next;
        self.next = if current == u64::MAX {
            0
        } else {
            current + 1
        };
        current as i64
    }
}

/// A listing of the threads that are loaded, which comes page by page.
#[derive(Debug)]
pub struct ThreadListing {
    /// Where the next page begins; nothing for the first one.
    pub cursor: Option<String>,
    pub ids: Vec<String>,
}

impl ThreadListing {
    /// Nothing listed yet.
    pub fn new() -> (result: ThreadListing)
        ensures
            result.cursor is None,
            result.ids@.len() == 0,
    {
        ThreadListing { cursor: None, ids: Vec::new() }
    }

    /// Takes in a page; the result says whether another one is to be asked
    /// for.
    pub fn take_page(&mut self, data: Vec<String>, next_cursor: Option<String>) -> (result: bool)
        ensures
            final(self).ids@ == old(self).ids@ + data@,
            result == (next_cursor is Some),
            final(self).cursor == (if next_cursor is Some {
                next_cursor
            } else {
                old(self).cursor
            }),
    {
        let mut data = data;
        self.ids.append(&mut data);
        match next_cursor {
            Some(cursor) => {
                self.cursor = Some(cursor);
                true
            },
            None => false,
        }
    }

    /// What went wrong when the next page could not be had.
    pub fn failure(&self) -> (result: String)
        ensures
            result@ == "thread/loaded/list failed at cursor "@ + (match self.cursor {
                Some(cursor) => cursor@,
                None => "<start>"@,
            }),
    {
        let mut message = "thread/loaded/list failed at cursor ".to_owned();
        match &self.cursor {
            Some(cursor) => message.append(cursor.as_str()),
            None => message.append("<start>"),
        }
        message
    }
}

/// What went wrong when a thread could not be read.
pub fn read_thread_failure(thread_id: &str) -> (result: String)
    ensures
        result@ == "thread/read failed for "@ + thread_id@,
{
    "thread/read failed for ".to_owned().concat(thread_id)
}

impl Ordered for Thread {
    /// The newer thread first, then by identity.
    open spec fn precedes(self, other: Self) -> bool {
        self.updated_at > other.updated_at || (self.updated_at == other.updated_at && text_lt(
            self.id@,
            other.id@,
        ))
    }

    fn comes_before(&self, other: &Self) -> (result: bool) {
        if self.updated_at != other.updated_at {
            return self.updated_at > other.updated_at;
        }
        text_less(self.id.as_str(), other.id.as_str())
    }
}

/// Threads are ranked.
pub proof fn lemma_threads_ranked()
    ensures
        ranks::<Thread>(),
{
    assert forall|a: Thread, b: Thread| #[trigger] a.precedes(b) implies !b.precedes(a) by {
        if text_lt(a.id@, b.id@) && text_lt(b.id@, a.id@) {
            lemma_text_lt_transitive(a.id@, b.id@, a.id@);
            lemma_text_lt_irreflexive(a.id@);
        }
    }
    assert forall|a: Thread, b: Thread, c: Thread|
        !(#[trigger] a.precedes(b)) && !(#[trigger] b.precedes(c)) implies !a.precedes(c) by {
        if !text_lt(a.id@, b.id@) && !text_lt(b.id@, c.id@) {
            lemma_text_not_lt_transitive(a.id@, b.id@, c.id@);
        }
    }
}

/// The threads that no thread spawned.
pub open spec fn root_threads(threads: Seq<Thread>) -> Seq<Thread> {
    threads.filter(|thread: Thread| thread.parent_thread_id is None)
}

/// The threads that no thread spawned, newest first.
pub fn load_root_threads(threads: Vec<Thread>) -> (result: Result<Vec<Thread>, String>)
    ensures
        result is Err <==> root_threads(threads@).len() == 0,
        match result {
            Ok(roots) => roots@ == stable_sorted(root_threads(threads@)),
            Err(error) => error@ == "no loaded root thread found; pass --parent-thread-id"@,
        },
{
    let ghost all = threads@;
    let ghost keep = |thread: Thread| thread.parent_thread_id is None;
    let mut rest = threads;
    let mut roots: Vec<Thread> = Vec::new();
    let total: usize = rest.len();
    let mut done: usize = 0;
    proof {
        reveal(Seq::filter);
        assert(all.skip(0) =~= all);
        assert(roots@ =~= all.take(0).filter(keep));
    }
    while rest.len() > 0
        invariant
            keep == (|thread: Thread| thread.parent_thread_id is None),
            all.len() == total,
            done + rest@.len() == total,
            rest@ == all.skip(done as int),
            roots@ == all.take(done as int).filter(keep),
        decreases rest.len(),
    {
        let thread = rest.remove(0);
        proof {
            assert(thread == all[done as int]);
            assert(all.take(done + 1) =~= all.take(done as int).push(thread));
            all.take(done as int).lemma_filter_push(thread, keep);
            assert(rest@ =~= all.skip(done + 1));
        }
        if thread.parent_thread_id.is_none() {
            roots.push(thread);
        }
        done += 1;
    }
    assert(all.take(done as int) =~= all);
    if roots.len() == 0 {
        return Err("no loaded root thread found; pass --parent-thread-id".to_owned());
    }
    Ok(sort_stable(roots))
}

/// Of two threads the one that was updated later comes first, and of equally
/// new ones the one with the smaller identity.
pub proof fn lemma_order_of_threads(a: Thread, b: Thread)
    ensures
        a.updated_at > b.updated_at ==> a.precedes(b) && !b.precedes(a),
        a.updated_at == b.updated_at ==> (a.precedes(b) <==> text_lt(a.id@, b.id@)),
{
}

/// The threads that can be monitored are exactly those that no thread spawned,
/// each as often as it is listed, the latest first.
pub proof fn lemma_roots_newest_first(threads: Seq<Thread>)
    ensures
        ({
            let roots = stable_sorted(root_threads(threads));
            &&& forall|thread: Thread| #[trigger]
                roots.contains(thread) <==> threads.contains(thread) && thread.parent_thread_id
                    is None
            &&& forall|i: int, j: int|
                0 <= i < j < roots.len() ==> (#[trigger] roots[i]).updated_at >= (
                #[trigger] roots[j]).updated_at
            &&& forall|i: int, j: int|
                0 <= i < j < roots.len() && (#[trigger] roots[i]).updated_at == (
                #[trigger] roots[j]).updated_at ==> !text_lt(roots[j].id@, roots[i].id@)
        }),
{
    let keep = |thread: Thread| thread.parent_thread_id is None;
    let picked = root_threads(threads);
    let roots = stable_sorted(picked);
    lemma_threads_ranked();
    lemma_stable_sorted(picked);
    assert forall|thread: Thread| #[trigger] roots.contains(thread) <==> threads.contains(thread)
        && thread.parent_thread_id is None by {
        lemma_stable_sorted_contains(picked, thread);
        if picked.contains(thread) {
            let i = choose|i: int| 0 <= i < picked.len() && picked[i] == thread;
            threads.lemma_filter_pred(keep, i);
            threads.lemma_filter_contains_rev(keep, thread);
        }
        if threads.contains(thread) && thread.parent_thread_id is None {
            let i = choose|i: int| 0 <= i < threads.len() && threads[i] == thread;
            threads.lemma_filter_contains(keep, i);
        }
    }
    assert forall|i: int, j: int| 0 <= i < j < roots.len() implies (#[trigger] roots[i]).updated_at
        >= (#[trigger] roots[j]).updated_at by {
        assert(!roots[j].precedes(roots[i]));
    }
    assert forall|i: int, j: int|
        0 <= i < j < roots.len() && (#[trigger] roots[i]).updated_at == (
        #[trigger] roots[j]).updated_at implies !text_lt(roots[j].id@, roots[i].id@) by {
        assert(!roots[j].precedes(roots[i]));
    }
}

} // verus!
