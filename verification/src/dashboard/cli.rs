//! Starting the dashboard and keeping it going.

use vstd::prelude::*;
use crate::dashboard::app::{handled, notified, AppView, DashboardApp, DashboardEvent};
use crate::dashboard::client::{lemma_threads_ranked, root_threads};
use crate::dashboard::model::Thread;
use crate::dashboard::picker::Key;
use crate::sort::{lemma_stable_sorted, lemma_stable_sorted_contains, stable_sorted, Ordered};
use crate::text::{opt_text, text_lt};

verus! {

/// The address of the server where none is given.
pub const DEFAULT_WEBSOCKET_URL: &'static str = "ws://127.0.0.1:4222";

/// The time between two listings of the threads where none is given.
pub const DEFAULT_REFRESH_MS: u64 = 1000;

/// The shortest time between two listings of the threads.
pub const MIN_REFRESH_MS: u64 = 250;

/// What the dashboard is started with.
#[derive(Debug)]
pub struct Cli {
    /// The address of the server.
    pub websocket_url: String,
    /// The parent thread. Where none is given it is the loaded root thread
    /// that was updated last.
    pub parent_thread_id: Option<String>,
    /// Ask for the parent, even where only one is there.
    pub pick: bool,
    /// The time between two listings of the threads.
    pub refresh_ms: u64,
}

impl Default for Cli {
    fn default() -> (result: Self)
        ensures
            result.websocket_url@ == "ws://127.0.0.1:4222"@,
            result.parent_thread_id is None,
            !result.pick,
            result.refresh_ms == 1000,
    {
        Cli {
            websocket_url: "ws://127.0.0.1:4222".to_owned(),
            parent_thread_id: None,
            pick: false,
            refresh_ms: DEFAULT_REFRESH_MS,
        }
    }
}

/// How the parent thread is found.
#[derive(Debug)]
pub enum ParentChoice {
    /// It is this one.
    Known(String),
    /// It is to be chosen.
    Ask,
}

/// The time between two listings of the threads, in milliseconds.
pub open spec fn interval_for(refresh_ms: u64) -> u64 {
    if refresh_ms < 250 {
        250
    } else {
        refresh_ms
    }
}

/// The parent thread, where it need not be chosen.
pub open spec fn known_parent(
    given: Option<Seq<char>>,
    pick: bool,
    root_threads: Seq<Thread>,
) -> Option<Seq<char>> {
    match given {
        Some(given) => Some(given),
        None => if !pick && root_threads.len() > 0 {
            Some(root_threads[0].id@)
        } else {
            None
        },
    }
}

impl Cli {
    /// The time between two listings of the threads, which is not too short.
    pub fn refresh_interval_ms(&self) -> (result: u64)
        ensures
            result == interval_for(self.refresh_ms),
    {
        if self.refresh_ms < MIN_REFRESH_MS {
            MIN_REFRESH_MS
        } else {
            self.refresh_ms
        }
    }

    /// How the parent thread is found, among the threads that no thread
    /// spawned, newest first: the newest one is taken, unless a choice was
    /// asked for.
    pub fn choose_parent(&self, root_threads: &Vec<Thread>) -> (result: ParentChoice)
        ensures
            result is Known <==> known_parent(
                opt_text(self.parent_thread_id),
                self.pick,
                root_threads@,
            ) is Some,
            result matches ParentChoice::Known(id) ==> known_parent(
                opt_text(self.parent_thread_id),
                self.pick,
                root_threads@,
            ) == Some(id@),
    {
        if let Some(given) = &self.parent_thread_id {
            return ParentChoice::Known(given.clone());
        }
        if !self.pick && root_threads.len() > 0 {
            return ParentChoice::Known(root_threads[0].id.clone());
        }
        ParentChoice::Ask
    }
}

/// The first of the loaded root threads is the one that was updated last, by
/// the smallest identity where several were.
pub proof fn lemma_first_root_is_newest(threads: Seq<Thread>, thread: Thread)
    requires
        threads.contains(thread),
        thread.parent_thread_id is None,
    ensures
        ({
            let first = stable_sorted(root_threads(threads))[0];
            &&& stable_sorted(root_threads(threads)).len() > 0
            &&& threads.contains(first)
            &&& first.updated_at >= thread.updated_at
            &&& first.updated_at == thread.updated_at ==> !text_lt(thread.id@, first.id@)
        }),
{
    broadcast use vstd::seq_lib::group_filter_ensures;

    let roots = root_threads(threads);
    let sorted = stable_sorted(roots);
    lemma_threads_ranked();
    lemma_stable_sorted(roots);
    assert(roots.contains(thread));
    lemma_stable_sorted_contains(roots, thread);
    let k = choose|k: int| 0 <= k < sorted.len() && sorted[k] == thread;
    assert(sorted.contains(sorted[0]));
    lemma_stable_sorted_contains(roots, sorted[0]);
    threads.lemma_filter_contains_rev(
        |thread: Thread| thread.parent_thread_id is None,
        sorted[0],
    );
    if k > 0 {
        assert(!sorted[k].precedes(sorted[0]));
    } else {
        crate::text::lemma_text_lt_irreflexive(thread.id@);
    }
}

/// What happens while the dashboard runs.
#[derive(Debug)]
pub enum LoopEvent {
    /// It is time to list the threads.
    Tick,
    /// The connection brings something, or nothing more.
    Server(Option<DashboardEvent>),
    /// A key is pressed.
    Key(Key),
    /// Some other input.
    OtherInput,
    /// The program is asked to stop.
    Interrupted,
}

/// What the dashboard does next.
#[derive(Clone, Copy, Debug, PartialEq, Eq, Structural)]
pub enum LoopAction {
    /// Draw and wait for what happens next.
    Continue,
    /// List the threads first.
    Refresh,
    Quit,
}

/// A running dashboard.
#[derive(Debug)]
pub struct DashboardLoop {
    pub app: DashboardApp,
    /// The connection still brings something.
    pub connection_open: bool,
}

/// The state, whether the connection is open, and what is done next, after
/// something happened at the given time.
pub open spec fn stepped(app: AppView, open: bool, event: LoopEvent, now: i64) -> (
    AppView,
    bool,
    LoopAction,
) {
    match event {
        LoopEvent::Tick => (
            app,
            open,
            if open {
                LoopAction::Refresh
            } else {
                LoopAction::Continue
            },
        ),
        LoopEvent::Server(event) => if !open {
            (app, open, LoopAction::Continue)
        } else {
            match event {
                None => (
                    AppView { refresh_error: Some("app-server event stream closed"@), ..app },
                    false,
                    LoopAction::Continue,
                ),
                Some(DashboardEvent::Disconnected(message)) => (
                    AppView { refresh_error: Some(message@), ..app },
                    false,
                    LoopAction::Continue,
                ),
                Some(event) => {
                    let (after, refresh) = handled(app, event, now);
                    (
                        after,
                        open,
                        if refresh {
                            LoopAction::Refresh
                        } else {
                            LoopAction::Continue
                        },
                    )
                },
            }
        },
        LoopEvent::Key(key) => (
            app,
            open,
            if key is Esc || key == Key::Char('q') {
                LoopAction::Quit
            } else if key == Key::Char('r') {
                LoopAction::Refresh
            } else {
                LoopAction::Continue
            },
        ),
        LoopEvent::OtherInput => (app, open, LoopAction::Continue),
        LoopEvent::Interrupted => (app, open, LoopAction::Quit),
    }
}

impl DashboardLoop {
    /// A dashboard whose connection is open.
    pub fn new(app: DashboardApp) -> (result: DashboardLoop)
        ensures
            result.app == app,
            result.connection_open,
    {
        DashboardLoop { app, connection_open: true }
    }

    /// Takes in what happens, and says what is done next.
    pub fn step(&mut self, event: LoopEvent) -> (result: LoopAction)
        requires
            old(self).app.well_formed(),
        ensures
            final(self).app.well_formed(),
            exists|now: i64|
                (final(self).app@, final(self).connection_open, result) == #[trigger] stepped(
                    old(self).app@,
                    old(self).connection_open,
                    event,
                    now,
                ),
    {
        let ghost before = self.app@;
        let ghost open = self.connection_open;
        match event {
            LoopEvent::Tick => {
                let result = if self.connection_open {
                    LoopAction::Refresh
                } else {
                    LoopAction::Continue
                };
                assert((self.app@, self.connection_open, result) == stepped(before, open, event, 0));
                result
            },
            LoopEvent::Server(incoming) => {
                if !self.connection_open {
                    assert((self.app@, self.connection_open, LoopAction::Continue) == stepped(
                        before,
                        open,
                        event,
                        0,
                    ));
                    return LoopAction::Continue;
                }
                match incoming {
                    None => {
                        self.app.disconnect("app-server event stream closed".to_owned());
                        self.connection_open = false;
                        assert((self.app@, self.connection_open, LoopAction::Continue) == stepped(
                            before,
                            open,
                            event,
                            0,
                        ));
                        LoopAction::Continue
                    },
                    Some(DashboardEvent::Disconnected(message)) => {
                        self.app.disconnect(message);
                        self.connection_open = false;
                        assert((self.app@, self.connection_open, LoopAction::Continue) == stepped(
                            before,
                            open,
                            event,
                            0,
                        ));
                        LoopAction::Continue
                    },
                    Some(other) => {
                        let refresh = self.app.handle_event(other);
                        let ghost now = choose|now: i64|
                            (self.app@, refresh) == #[trigger] handled(before, other, now);
                        let result = if refresh {
                            LoopAction::Refresh
                        } else {
                            LoopAction::Continue
                        };
                        assert((self.app@, self.connection_open, result) == stepped(
                            before,
                            open,
                            event,
                            now,
                        ));
                        result
                    },
                }
            },
            LoopEvent::Key(key) => {
                let result = match key {
                    Key::Char('q') | Key::Esc => LoopAction::Quit,
                    Key::Char('r') => LoopAction::Refresh,
                    _ => LoopAction::Continue,
                };
                assert((self.app@, self.connection_open, result) == stepped(before, open, event, 0));
                result
            },
            LoopEvent::OtherInput => {
                assert((self.app@, self.connection_open, LoopAction::Continue) == stepped(
                    before,
                    open,
                    event,
                    0,
                ));
                LoopAction::Continue
            },
            LoopEvent::Interrupted => {
                assert((self.app@, self.connection_open, LoopAction::Quit) == stepped(
                    before,
                    open,
                    event,
                    0,
                ));
                LoopAction::Quit
            },
        }
    }
}

/// A connection that is lost stays lost, and the state does not change by what
/// the connection would bring.
pub proof fn lemma_lost_connection_stays_lost(app: AppView, event: LoopEvent, now: i64)
    ensures
        ({
            let (after, open, action) = stepped(app, false, event, now);
            !open && after == app
        }),
{
}

/// The dashboard is left by `q`, by escape and by being asked to stop, and by
/// nothing else; leaving changes nothing.
pub proof fn lemma_what_quits(app: AppView, open: bool, event: LoopEvent, now: i64)
    ensures
        ({
            let (after, still_open, action) = stepped(app, open, event, now);
            &&& action is Quit <==> event is Interrupted || event == LoopEvent::Key(Key::Esc)
                || event == LoopEvent::Key(Key::Char('q'))
            &&& action is Quit ==> after == app && still_open == open
        }),
{
}

/// The threads are listed anew when it is time and the connection is open,
/// when `r` is pressed, and when an event of the open connection asks for it;
/// at no other time.
pub proof fn lemma_what_refreshes(app: AppView, open: bool, event: LoopEvent, now: i64)
    ensures
        ({
            let (after, still_open, action) = stepped(app, open, event, now);
            &&& event is Tick ==> (action is Refresh <==> open) && after == app && still_open
                == open
            &&& event == LoopEvent::Key(Key::Char('r')) ==> action is Refresh && after == app
            &&& event is Key && event != LoopEvent::Key(Key::Char('r')) ==> !(action is Refresh)
                && after == app && still_open == open
            &&& event is OtherInput || event is Interrupted ==> !(action is Refresh) && after
                == app && still_open == open
            &&& match event {
                LoopEvent::Server(Some(DashboardEvent::Notification(notification))) if open => {
                    let (state, refresh) = notified(app, notification, now);
                    after == state && still_open && (action is Refresh <==> refresh)
                },
                LoopEvent::Server(Some(DashboardEvent::Lagged(_))) if open => action is Refresh
                    && still_open,
                _ => true,
            }
        }),
{
}

/// When the connection ends it is lost, and it is said why; what was shown
/// stays. Nothing else loses it.
pub proof fn lemma_what_loses_the_connection(
    app: AppView,
    open: bool,
    event: LoopEvent,
    now: i64,
)
    ensures
        ({
            let (after, still_open, action) = stepped(app, open, event, now);
            let ended = event == LoopEvent::Server(None);
            let lost = event is Server && event->Server_0 is Some
                && event->Server_0->0 is Disconnected;
            &&& open ==> (still_open <==> !ended && !lost)
            &&& open && (ended || lost) ==> action is Continue && after.agents == app.agents
                && after.parent == app.parent && after.parent_label == app.parent_label
            &&& open && ended ==> after.refresh_error == Some("app-server event stream closed"@)
            &&& open && lost ==> after.refresh_error == Some(
                event->Server_0->0->Disconnected_0@,
            )
        }),
{
}

/// A parent that is given is taken, whatever else is asked for. Else the first
/// of the root threads is, unless a choice was asked for or there is none: the
/// parent is to be chosen in these cases alone.
pub proof fn lemma_which_parent_is_taken(given: Seq<char>, pick: bool, roots: Seq<Thread>)
    ensures
        known_parent(Some(given), pick, roots) == Some(given),
        known_parent(None, true, roots) is None,
        known_parent(None, false, roots) is None <==> roots.len() == 0,
        roots.len() > 0 ==> known_parent(None, false, roots) == Some(roots[0].id@),
{
}

/// The threads are never listed more often than every quarter of a second, and
/// otherwise as often as was asked for.
pub proof fn lemma_shortest_interval(refresh_ms: u64)
    ensures
        interval_for(refresh_ms) >= 250,
        interval_for(refresh_ms) >= refresh_ms,
        refresh_ms >= 250 ==> interval_for(refresh_ms) == refresh_ms,
        refresh_ms < 250 ==> interval_for(refresh_ms) == 250,
{
}

} // verus!
