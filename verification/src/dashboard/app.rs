//! The state behind the dashboard, and how it follows what the server reports.

use vstd::prelude::*;
use crate::clock::unix_seconds_now;
use crate::dashboard::model::{
    agent_view, label, lemma_entries_ranked, parent_view, short_id, short_thread_id, thread_label,
    AgentView, DashboardAgentEntry, DashboardParentEntry, DashboardPreview, DashboardSnapshot,
    ParentView, PreviewSource, PreviewView, Thread, ThreadStatus,
};
use crate::dashboard::preview::{committed_preview, normalize_preview, thread_preview};
use crate::sort::{in_order, sort_stable, Ordered};
use crate::text::{decimal, decimal_text, normalized, opt_text, same_text};

verus! {

/// Entries by the identities of their threads; of several with the same
/// identity the last one counts.
pub open spec fn agents_map(entries: Seq<DashboardAgentEntry>) -> Map<Seq<char>, AgentView>
    decreases entries.len(),
{
    if entries.len() == 0 {
        Map::empty()
    } else {
        agents_map(entries.drop_last()).insert(entries.last().thread_id@, entries.last()@)
    }
}

/// No two entries are of the same thread.
pub open spec fn distinct_ids(entries: Seq<DashboardAgentEntry>) -> bool {
    forall|i: int, j: int|
        0 <= i < j < entries.len() ==> (#[trigger] entries[i]).thread_id@ != (
        #[trigger] entries[j]).thread_id@
}

/// The entry of a thread is at the given place.
pub open spec fn entry_at(entries: Seq<DashboardAgentEntry>, id: Seq<char>, i: int) -> bool {
    0 <= i < entries.len() && entries[i].thread_id@ == id
}

proof fn lemma_agents_map(entries: Seq<DashboardAgentEntry>, id: Seq<char>)
    requires
        distinct_ids(entries),
    ensures
        agents_map(entries).contains_key(id) <==> exists|i: int| #[trigger]
            entry_at(entries, id, i),
        forall|i: int| #[trigger]
            entry_at(entries, id, i) ==> agents_map(entries)[id] == entries[i]@,
    decreases entries.len(),
{
    if entries.len() > 0 {
        let front = entries.drop_last();
        assert(distinct_ids(front)) by {
            assert forall|i: int, j: int| 0 <= i < j < front.len() implies (
            #[trigger] front[i]).thread_id@ != (#[trigger] front[j]).thread_id@ by {
                assert(entries[i] == front[i] && entries[j] == front[j]);
            }
        }
        lemma_agents_map(front, id);
        let last = entries.len() - 1;
        assert forall|i: int| #[trigger] entry_at(entries, id, i) implies agents_map(entries)[id]
            == entries[i]@ by {
            if i < last {
                assert(entry_at(front, id, i));
                assert(entries[i].thread_id@ != entries[last].thread_id@);
            }
        }
        if agents_map(entries).contains_key(id) {
            if entries[last].thread_id@ == id {
                assert(entry_at(entries, id, last));
            } else {
                let i = choose|i: int| #[trigger] entry_at(front, id, i);
                assert(entry_at(entries, id, i));
            }
        }
        if exists|i: int| #[trigger] entry_at(entries, id, i) {
            let i = choose|i: int| #[trigger] entry_at(entries, id, i);
            if i < last {
                assert(entry_at(front, id, i));
            }
        }
    } else {
        assert forall|i: int| !(#[trigger] entry_at(entries, id, i)) by {}
    }
}

proof fn lemma_map_update(entries: Seq<DashboardAgentEntry>, at: int, entry: DashboardAgentEntry)
    requires
        distinct_ids(entries),
        0 <= at < entries.len(),
        entry.thread_id@ == entries[at].thread_id@,
    ensures
        distinct_ids(entries.update(at, entry)),
        agents_map(entries.update(at, entry)) == agents_map(entries).insert(
            entry.thread_id@,
            entry@,
        ),
{
    let after = entries.update(at, entry);
    assert(distinct_ids(after)) by {
        assert forall|i: int, j: int| 0 <= i < j < after.len() implies (
        #[trigger] after[i]).thread_id@ != (#[trigger] after[j]).thread_id@ by {
            assert(entries[i].thread_id@ != entries[j].thread_id@);
        }
    }
    let goal = agents_map(entries).insert(entry.thread_id@, entry@);
    assert forall|id: Seq<char>|
        {
            &&& #[trigger] agents_map(after).dom().contains(id) <==> goal.dom().contains(id)
            &&& agents_map(after).dom().contains(id) ==> agents_map(after)[id] == goal[id]
        } by {
        lemma_agents_map(entries, id);
        lemma_agents_map(after, id);
        if agents_map(after).contains_key(id) {
            let i = choose|i: int| #[trigger] entry_at(after, id, i);
            assert(entry_at(entries, id, i));
        }
        if agents_map(entries).contains_key(id) {
            let i = choose|i: int| #[trigger] entry_at(entries, id, i);
            assert(entry_at(after, id, i));
        }
        if id == entry.thread_id@ {
            assert(entry_at(after, id, at));
        }
    }
    assert(agents_map(after) =~= goal);
}

proof fn lemma_map_remove(entries: Seq<DashboardAgentEntry>, at: int)
    requires
        distinct_ids(entries),
        0 <= at < entries.len(),
    ensures
        distinct_ids(entries.remove(at)),
        agents_map(entries.remove(at)) == agents_map(entries).remove(entries[at].thread_id@),
{
    let after = entries.remove(at);
    let gone = entries[at].thread_id@;
    assert(distinct_ids(after)) by {
        assert forall|i: int, j: int| 0 <= i < j < after.len() implies (
        #[trigger] after[i]).thread_id@ != (#[trigger] after[j]).thread_id@ by {
            let k = if i < at { i } else { i + 1 };
            let l = if j < at { j } else { j + 1 };
            assert(entries[k].thread_id@ != entries[l].thread_id@);
        }
    }
    let goal = agents_map(entries).remove(gone);
    assert forall|id: Seq<char>|
        {
            &&& #[trigger] agents_map(after).dom().contains(id) <==> goal.dom().contains(id)
            &&& agents_map(after).dom().contains(id) ==> agents_map(after)[id] == goal[id]
        } by {
        lemma_agents_map(entries, id);
        lemma_agents_map(after, id);
        if agents_map(after).contains_key(id) {
            let i = choose|i: int| #[trigger] entry_at(after, id, i);
            let k = if i < at { i } else { i + 1 };
            assert(entry_at(entries, id, k));
            assert(id != gone) by {
                if k < at {
                    assert(entries[k].thread_id@ != entries[at].thread_id@);
                } else {
                    assert(entries[at].thread_id@ != entries[k].thread_id@);
                }
            }
        }
        if agents_map(entries).contains_key(id) && id != gone {
            let k = choose|k: int| #[trigger] entry_at(entries, id, k);
            let i = if k < at { k } else { k - 1 };
            assert(entry_at(after, id, i));
        }
    }
    assert(agents_map(after) =~= goal);
}

proof fn lemma_map_push(entries: Seq<DashboardAgentEntry>, entry: DashboardAgentEntry)
    requires
        distinct_ids(entries),
        forall|i: int| !(#[trigger] entry_at(entries, entry.thread_id@, i)),
    ensures
        distinct_ids(entries.push(entry)),
        agents_map(entries.push(entry)) == agents_map(entries).insert(entry.thread_id@, entry@),
{
    let after = entries.push(entry);
    assert(after.drop_last() =~= entries);
    assert forall|i: int, j: int| 0 <= i < j < after.len() implies (#[trigger] after[i]).thread_id@
        != (#[trigger] after[j]).thread_id@ by {
        if j == entries.len() {
            assert(!entry_at(entries, entry.thread_id@, i));
        } else {
            assert(entries[i].thread_id@ != entries[j].thread_id@);
        }
    }
}

/// Where the entry of a thread is.
fn find_entry(entries: &Vec<DashboardAgentEntry>, id: &str) -> (result: Option<usize>)
    ensures
        result matches Some(i) ==> entry_at(entries@, id@, i as int),
        result is None ==> forall|i: int| !(#[trigger] entry_at(entries@, id@, i)),
{
    let mut i: usize = 0;
    while i < entries.len()
        invariant
            i <= entries.len(),
            forall|j: int| j < i ==> !(#[trigger] entry_at(entries@, id@, j)),
        decreases entries.len() - i,
    {
        if same_text(entries[i].thread_id.as_str(), id) {
            return Some(i);
        }
        i += 1;
    }
    None
}

/// Puts an entry in, in place of the one of the same thread if there is one.
fn put_entry(entries: &mut Vec<DashboardAgentEntry>, entry: DashboardAgentEntry)
    requires
        distinct_ids(old(entries)@),
    ensures
        distinct_ids(final(entries)@),
        agents_map(final(entries)@) == agents_map(old(entries)@).insert(entry.thread_id@, entry@),
{
    match find_entry(entries, entry.thread_id.as_str()) {
        Some(i) => {
            proof {
                lemma_map_update(entries@, i as int, entry);
            }
            entries.set(i, entry);
        },
        None => {
            proof {
                lemma_map_push(entries@, entry);
            }
            entries.push(entry);
        },
    }
}

/// The state behind the dashboard, as a value.
#[verifier::ext_equal]
pub struct AppView {
    pub parent_thread_id: Seq<char>,
    pub parent_label: Seq<char>,
    pub parent: Option<ParentView>,
    pub agents: Map<Seq<char>, AgentView>,
    pub refresh_error: Option<Seq<char>>,
}

/// The state behind the dashboard.
#[derive(Debug)]
pub struct DashboardApp {
    pub parent_thread_id: String,
    pub parent_label: String,
    pub parent: Option<DashboardParentEntry>,
    /// The entries of the child threads, each thread once.
    pub agents: Vec<DashboardAgentEntry>,
    pub refresh_error: Option<String>,
}

/// The view of an optional parent entry.
pub open spec fn opt_parent(parent: Option<DashboardParentEntry>) -> Option<ParentView> {
    match parent {
        Some(parent) => Some(parent@),
        None => None,
    }
}

impl View for DashboardApp {
    type V = AppView;

    open spec fn view(&self) -> AppView {
        AppView {
            parent_thread_id: self.parent_thread_id@,
            parent_label: self.parent_label@,
            parent: opt_parent(self.parent),
            agents: agents_map(self.agents@),
            refresh_error: opt_text(self.refresh_error),
        }
    }
}

/// A thread works.
pub open spec fn is_active(status: ThreadStatus) -> bool {
    status is Active
}

fn thread_is_active(status: ThreadStatus) -> (result: bool)
    ensures
        result == is_active(status),
{
    matches!(status, ThreadStatus::Active)
}

/// The preview of a reported thread: a live one stays while the thread works,
/// else the finished one counts.
pub open spec fn kept_preview(thread: Thread, existing: Option<PreviewView>) -> PreviewView {
    match existing {
        Some(preview) if is_active(thread.status) && preview.live => preview,
        _ => thread_preview(thread),
    }
}

fn preview_to_keep(thread: &Thread, existing: Option<&DashboardPreview>) -> (result:
    DashboardPreview)
    ensures
        result@ == kept_preview(
            *thread,
            match existing {
                Some(preview) => Some(preview@),
                None => None,
            },
        ),
{
    if let Some(preview) = existing {
        if thread_is_active(thread.status) && preview.live {
            return preview.clone();
        }
    }
    committed_preview(thread)
}

/// The first of the threads with the given identity.
pub open spec fn first_with_id(threads: Seq<Thread>, id: Seq<char>) -> Option<Thread>
    decreases threads.len(),
{
    if threads.len() == 0 {
        None
    } else if threads[0].id@ == id {
        Some(threads[0])
    } else {
        first_with_id(threads.skip(1), id)
    }
}

/// The children among the threads, by identity, each with the preview that it
/// keeps.
pub open spec fn refreshed_agents(
    before: Map<Seq<char>, AgentView>,
    parent: Seq<char>,
    threads: Seq<Thread>,
) -> Map<Seq<char>, AgentView>
    decreases threads.len(),
{
    if threads.len() == 0 {
        Map::empty()
    } else {
        let rest = refreshed_agents(before, parent, threads.drop_last());
        let thread = threads.last();
        if opt_text(thread.parent_thread_id) == Some(parent) {
            let existing = if before.contains_key(thread.id@) {
                Some(before[thread.id@].preview)
            } else {
                None
            };
            rest.insert(thread.id@, agent_view(thread, kept_preview(thread, existing)))
        } else {
            rest
        }
    }
}

/// The state after the server listed its threads.
pub open spec fn refreshed(app: AppView, threads: Seq<Thread>) -> AppView {
    let agents = refreshed_agents(app.agents, app.parent_thread_id, threads);
    match first_with_id(threads, app.parent_thread_id) {
        Some(thread) => {
            let existing = match app.parent {
                Some(parent) => Some(parent.preview),
                None => None,
            };
            AppView {
                parent_label: label(thread),
                parent: Some(parent_view(thread, kept_preview(thread, existing))),
                agents,
                refresh_error: None,
                ..app
            }
        },
        None => AppView {
            parent_label: "thread "@ + short_id(app.parent_thread_id),
            parent: None,
            agents,
            refresh_error: Some(
                "parent thread "@ + app.parent_thread_id
                    + " is not loaded in the connected app-server"@,
            ),
            ..app
        },
    }
}

/// A preview after more text streamed in: text of a higher precedence takes
/// its place, text of the same source goes on, other text is dropped.
pub open spec fn with_delta(
    preview: PreviewView,
    delta: Seq<char>,
    source: PreviewSource,
) -> PreviewView {
    if !preview.live || source.rank() < preview.source.rank() {
        PreviewView { text: normalized(delta), source, live: true }
    } else if source == preview.source {
        PreviewView { text: normalized(preview.text + delta), source, live: true }
    } else {
        preview
    }
}

/// Lets a preview follow text that streams in.
pub fn apply_preview_delta(preview: &mut DashboardPreview, delta: &str, source: PreviewSource)
    ensures
        final(preview)@ == with_delta(old(preview)@, delta@, source),
{
    if !preview.live || source.rank_number() < preview.source.rank_number() {
        *preview = DashboardPreview { text: normalize_preview(delta), source, live: true };
    } else if source == preview.source {
        let mut text = preview.text.clone();
        text.append(delta);
        preview.text = normalize_preview(text.as_str());
        preview.live = true;
    }
}

/// The state after text streamed in for a thread.
pub open spec fn with_live_delta(
    app: AppView,
    thread_id: Seq<char>,
    delta: Seq<char>,
    source: PreviewSource,
    now: i64,
) -> AppView {
    if thread_id == app.parent_thread_id {
        match app.parent {
            Some(parent) => AppView {
                parent: Some(
                    ParentView {
                        preview: with_delta(parent.preview, delta, source),
                        updated_at: now,
                        ..parent
                    },
                ),
                ..app
            },
            None => app,
        }
    } else if app.agents.contains_key(thread_id) {
        let agent = app.agents[thread_id];
        AppView {
            agents: app.agents.insert(
                thread_id,
                AgentView {
                    preview: with_delta(agent.preview, delta, source),
                    updated_at: now,
                    ..agent
                },
            ),
            ..app
        }
    } else {
        app
    }
}

/// What the server reports while the dashboard runs.
#[derive(Debug)]
pub enum ServerNotification {
    ThreadStarted { thread: Thread },
    ThreadStatusChanged { thread_id: String, status: ThreadStatus },
    ThreadClosed { thread_id: String },
    AgentMessageDelta { thread_id: String, delta: String },
    PlanDelta { thread_id: String, delta: String },
    ReasoningSummaryTextDelta { thread_id: String, delta: String },
    ReasoningTextDelta { thread_id: String, delta: String },
    /// Anything else.
    Other,
}

/// What the connection to the server brings.
#[derive(Debug)]
pub enum DashboardEvent {
    Notification(ServerNotification),
    /// So many notifications were lost.
    Lagged(usize),
    Disconnected(String),
}

/// The state after a notification that comes at the given time, and whether
/// the threads are to be listed anew.
pub open spec fn notified(app: AppView, notification: ServerNotification, now: i64) -> (
    AppView,
    bool,
) {
    match notification {
        ServerNotification::ThreadStarted { thread } => if thread.id@ == app.parent_thread_id {
            (
                AppView {
                    parent_label: label(thread),
                    parent: Some(parent_view(thread, thread_preview(thread))),
                    refresh_error: None,
                    ..app
                },
                false,
            )
        } else if opt_text(thread.parent_thread_id) == Some(app.parent_thread_id) {
            (
                AppView {
                    agents: app.agents.insert(
                        thread.id@,
                        agent_view(thread, thread_preview(thread)),
                    ),
                    ..app
                },
                false,
            )
        } else {
            (app, false)
        },
        ServerNotification::ThreadStatusChanged { thread_id, status } => if thread_id@
            == app.parent_thread_id {
            match app.parent {
                Some(parent) => (
                    AppView {
                        parent: Some(ParentView { status, updated_at: now, ..parent }),
                        ..app
                    },
                    !is_active(status),
                ),
                None => (app, true),
            }
        } else if app.agents.contains_key(thread_id@) {
            (
                AppView {
                    agents: app.agents.insert(
                        thread_id@,
                        AgentView { status, ..app.agents[thread_id@] },
                    ),
                    ..app
                },
                !is_active(status),
            )
        } else {
            (app, false)
        },
        ServerNotification::ThreadClosed { thread_id } => if thread_id@ == app.parent_thread_id {
            (
                AppView {
                    parent: None,
                    agents: Map::empty(),
                    refresh_error: Some(
                        "parent thread "@ + short_id(thread_id@) + " was closed"@,
                    ),
                    ..app
                },
                false,
            )
        } else {
            (AppView { agents: app.agents.remove(thread_id@), ..app }, false)
        },
        ServerNotification::AgentMessageDelta { thread_id, delta } => (
            with_live_delta(app, thread_id@, delta@, PreviewSource::AgentMessage, now),
            false,
        ),
        ServerNotification::PlanDelta { thread_id, delta } => (
            with_live_delta(app, thread_id@, delta@, PreviewSource::Plan, now),
            false,
        ),
        ServerNotification::ReasoningSummaryTextDelta { thread_id, delta } => (
            with_live_delta(app, thread_id@, delta@, PreviewSource::ReasoningSummary, now),
            false,
        ),
        ServerNotification::ReasoningTextDelta { thread_id, delta } => (
            with_live_delta(app, thread_id@, delta@, PreviewSource::ReasoningText, now),
            false,
        ),
        ServerNotification::Other => (app, false),
    }
}

/// The state after an event of the connection, and whether the threads are to
/// be listed anew. The end of the connection is dealt with elsewhere.
pub open spec fn handled(app: AppView, event: DashboardEvent, now: i64) -> (AppView, bool) {
    match event {
        DashboardEvent::Notification(notification) => notified(app, notification, now),
        DashboardEvent::Lagged(skipped) => (
            AppView {
                refresh_error: Some(
                    "dashboard skipped "@ + decimal(skipped as nat)
                        + " app-server notifications; refreshing"@,
                ),
                ..app
            },
            true,
        ),
        DashboardEvent::Disconnected(_) => (app, false),
    }
}

impl DashboardApp {
    /// No two entries are of the same thread.
    pub open spec fn well_formed(self) -> bool {
        distinct_ids(self.agents@)
    }

    /// A dashboard for the given parent thread, before anything is known.
    pub fn new(parent_thread_id: String) -> (result: DashboardApp)
        ensures
            result.well_formed(),
            result@ == (AppView {
                parent_thread_id: parent_thread_id@,
                parent_label: "loading…"@,
                parent: None,
                agents: Map::empty(),
                refresh_error: None,
            }),
    {
        DashboardApp {
            parent_thread_id,
            parent_label: "loading…".to_owned(),
            parent: None,
            agents: Vec::new(),
            refresh_error: None,
        }
    }

    /// Takes in that the connection, or a listing of the threads, failed.
    pub fn disconnect(&mut self, message: String)
        requires
            old(self).well_formed(),
        ensures
            final(self).well_formed(),
            final(self)@ == (AppView { refresh_error: Some(message@), ..old(self)@ }),
    {
        self.refresh_error = Some(message);
    }

    /// Takes in a listing of the threads, or that there was none.
    pub fn refresh(&mut self, loaded: Result<Vec<Thread>, String>)
        requires
            old(self).well_formed(),
        ensures
            final(self).well_formed(),
            final(self)@ == (match loaded {
                Ok(threads) => refreshed(old(self)@, threads@),
                Err(error) => AppView { refresh_error: Some(error@), ..old(self)@ },
            }),
    {
        match loaded {
            Ok(threads) => self.apply_refresh(&threads),
            Err(error) => {
                self.refresh_error = Some(error);
            },
        }
    }

    /// Takes in a listing of the threads.
    #[verifier::rlimit(30)]
    pub fn apply_refresh(&mut self, threads: &Vec<Thread>)
        requires
            old(self).well_formed(),
        ensures
            final(self).well_formed(),
            final(self)@ == refreshed(old(self)@, threads@),
    {
        let ghost before = self@;
        let previous_parent = self.parent.take();
        match find_thread(threads, self.parent_thread_id.as_str()) {
            Some(i) => {
                let thread = &threads[i];
                self.parent_label = thread_label(thread);
                let existing = match &previous_parent {
                    Some(parent) => Some(&parent.preview),
                    None => None,
                };
                let preview = preview_to_keep(thread, existing);
                self.parent = Some(DashboardParentEntry::from_thread(thread, preview));
                self.refresh_error = None;
            },
            None => {
                self.parent_label = "thread ".to_owned().concat(
                    short_thread_id(self.parent_thread_id.as_str()).as_str(),
                );
                self.parent = None;
                self.refresh_error = Some(
                    "parent thread ".to_owned().concat(self.parent_thread_id.as_str()).concat(
                        " is not loaded in the connected app-server",
                    ),
                );
            },
        }
        let agents = refresh_agents(&self.agents, self.parent_thread_id.as_str(), threads);
        self.agents = agents;
        assert(self@ =~= refreshed(before, threads@));
    }

    /// Takes in text that streams in for a thread at the given time.
    pub fn apply_live_delta_at(
        &mut self,
        thread_id: &str,
        delta: &str,
        source: PreviewSource,
        now: i64,
    )
        requires
            old(self).well_formed(),
        ensures
            final(self).well_formed(),
            final(self)@ == with_live_delta(old(self)@, thread_id@, delta@, source, now),
    {
        if same_text(thread_id, self.parent_thread_id.as_str()) {
            let current = self.parent.take();
            match current {
                Some(parent) => {
                    let mut parent = parent;
                    apply_preview_delta(&mut parent.preview, delta, source);
                    parent.updated_at = now;
                    self.parent = Some(parent);
                },
                None => {},
            }
            return ;
        }
        proof {
            lemma_agents_map(self.agents@, thread_id@);
        }
        if let Some(i) = find_entry(&self.agents, thread_id) {
            let ghost before = self.agents@;
            assert(entry_at(before, thread_id@, i as int));
            let mut agent = self.agents[i].clone();
            apply_preview_delta(&mut agent.preview, delta, source);
            agent.updated_at = now;
            proof {
                lemma_map_update(before, i as int, agent);
            }
            self.agents.set(i, agent);
        }
    }

    /// Takes in text that streams in for a thread now.
    pub fn apply_live_delta(&mut self, thread_id: &str, delta: &str, source: PreviewSource)
        requires
            old(self).well_formed(),
        ensures
            final(self).well_formed(),
            exists|now: i64|
                final(self)@ == #[trigger] with_live_delta(
                    old(self)@,
                    thread_id@,
                    delta@,
                    source,
                    now,
                ),
    {
        let now: i64 = unix_seconds_now();
        self.apply_live_delta_at(thread_id, delta, source, now);
    }

    fn thread_started(&mut self, thread: &Thread)
        requires
            old(self).well_formed(),
        ensures
            final(self).well_formed(),
            final(self)@ == (if thread.id@ == old(self)@.parent_thread_id {
                AppView {
                    parent_label: label(*thread),
                    parent: Some(parent_view(*thread, thread_preview(*thread))),
                    refresh_error: None,
                    ..old(self)@
                }
            } else if opt_text(thread.parent_thread_id) == Some(old(self)@.parent_thread_id) {
                AppView {
                    agents: old(self)@.agents.insert(
                        thread.id@,
                        agent_view(*thread, thread_preview(*thread)),
                    ),
                    ..old(self)@
                }
            } else {
                old(self)@
            }),
    {
        if same_text(thread.id.as_str(), self.parent_thread_id.as_str()) {
            self.parent_label = thread_label(thread);
            self.parent = Some(
                DashboardParentEntry::from_thread(thread, committed_preview(thread)),
            );
            self.refresh_error = None;
            return ;
        }
        if is_child_of(thread, self.parent_thread_id.as_str()) {
            let entry = DashboardAgentEntry::from_thread(thread, committed_preview(thread));
            put_entry(&mut self.agents, entry);
        }
    }

    fn thread_closed(&mut self, thread_id: &str)
        requires
            old(self).well_formed(),
        ensures
            final(self).well_formed(),
            final(self)@ == (if thread_id@ == old(self)@.parent_thread_id {
                AppView {
                    parent: None,
                    agents: Map::empty(),
                    refresh_error: Some(
                        "parent thread "@ + short_id(thread_id@) + " was closed"@,
                    ),
                    ..old(self)@
                }
            } else {
                AppView { agents: old(self)@.agents.remove(thread_id@), ..old(self)@ }
            }),
    {
        if same_text(thread_id, self.parent_thread_id.as_str()) {
            self.parent = None;
            self.agents = Vec::new();
            self.refresh_error = Some(
                "parent thread ".to_owned().concat(short_thread_id(thread_id).as_str()).concat(
                    " was closed",
                ),
            );
            assert(self@.agents =~= Map::empty());
            return ;
        }
        let ghost before = self@.agents;
        proof {
            lemma_agents_map(self.agents@, thread_id@);
        }
        match find_entry(&self.agents, thread_id) {
            Some(i) => {
                proof {
                    lemma_map_remove(self.agents@, i as int);
                }
                self.agents.remove(i);
            },
            None => {
                assert(before.remove(thread_id@) =~= before);
            },
        }
    }

    fn thread_status_changed(&mut self, thread_id: &str, status: ThreadStatus, now: i64) -> (result:
        bool)
        requires
            old(self).well_formed(),
        ensures
            final(self).well_formed(),
            (final(self)@, result) == (if thread_id@ == old(self)@.parent_thread_id {
                match old(self)@.parent {
                    Some(parent) => (
                        AppView {
                            parent: Some(ParentView { status, updated_at: now, ..parent }),
                            ..old(self)@
                        },
                        !is_active(status),
                    ),
                    None => (old(self)@, true),
                }
            } else if old(self)@.agents.contains_key(thread_id@) {
                (
                    AppView {
                        agents: old(self)@.agents.insert(
                            thread_id@,
                            AgentView { status, ..old(self)@.agents[thread_id@] },
                        ),
                        ..old(self)@
                    },
                    !is_active(status),
                )
            } else {
                (old(self)@, false)
            }),
    {
        if same_text(thread_id, self.parent_thread_id.as_str()) {
            let current = self.parent.take();
            return match current {
                Some(parent) => {
                    let mut parent = parent;
                    parent.status = status;
                    parent.updated_at = now;
                    self.parent = Some(parent);
                    !thread_is_active(status)
                },
                None => true,
            };
        }
        proof {
            lemma_agents_map(self.agents@, thread_id@);
        }
        match find_entry(&self.agents, thread_id) {
            Some(i) => {
                let ghost before = self.agents@;
                assert(entry_at(before, thread_id@, i as int));
                let mut agent = self.agents[i].clone();
                agent.status = status;
                proof {
                    lemma_map_update(before, i as int, agent);
                }
                self.agents.set(i, agent);
                !thread_is_active(status)
            },
            None => false,
        }
    }

    /// Takes in a notification that comes at the given time; the result says
    /// whether the threads are to be listed anew.
    pub fn handle_notification_at(&mut self, notification: ServerNotification, now: i64) -> (result:
        bool)
        requires
            old(self).well_formed(),
        ensures
            final(self).well_formed(),
            (final(self)@, result) == notified(old(self)@, notification, now),
    {
        match notification {
            ServerNotification::ThreadStarted { thread } => {
                self.thread_started(&thread);
                false
            },
            ServerNotification::ThreadStatusChanged { thread_id, status } => {
                self.thread_status_changed(thread_id.as_str(), status, now)
            },
            ServerNotification::ThreadClosed { thread_id } => {
                self.thread_closed(thread_id.as_str());
                false
            },
            ServerNotification::AgentMessageDelta { thread_id, delta } => {
                self.apply_live_delta_at(
                    thread_id.as_str(),
                    delta.as_str(),
                    PreviewSource::AgentMessage,
                    now,
                );
                false
            },
            ServerNotification::PlanDelta { thread_id, delta } => {
                self.apply_live_delta_at(
                    thread_id.as_str(),
                    delta.as_str(),
                    PreviewSource::Plan,
                    now,
                );
                false
            },
            ServerNotification::ReasoningSummaryTextDelta { thread_id, delta } => {
                self.apply_live_delta_at(
                    thread_id.as_str(),
                    delta.as_str(),
                    PreviewSource::ReasoningSummary,
                    now,
                );
                false
            },
            ServerNotification::ReasoningTextDelta { thread_id, delta } => {
                self.apply_live_delta_at(
                    thread_id.as_str(),
                    delta.as_str(),
                    PreviewSource::ReasoningText,
                    now,
                );
                false
            },
            ServerNotification::Other => false,
        }
    }

    /// Takes in a notification that comes now; the result says whether the
    /// threads are to be listed anew.
    pub fn handle_notification(&mut self, notification: ServerNotification) -> (result: bool)
        requires
            old(self).well_formed(),
        ensures
            final(self).well_formed(),
            exists|now: i64|
                (final(self)@, result) == #[trigger] notified(old(self)@, notification, now),
    {
        let now: i64 = unix_seconds_now();
        self.handle_notification_at(notification, now)
    }

    /// Takes in an event of the connection; the result says whether the
    /// threads are to be listed anew.
    pub fn handle_event(&mut self, event: DashboardEvent) -> (result: bool)
        requires
            old(self).well_formed(),
        ensures
            final(self).well_formed(),
            exists|now: i64| (final(self)@, result) == #[trigger] handled(old(self)@, event, now),
    {
        let now: i64 = unix_seconds_now();
        let ghost before = self@;
        match event {
            DashboardEvent::Notification(notification) => {
                let result = self.handle_notification_at(notification, now);
                assert((self@, result) == handled(before, event, now));
                result
            },
            DashboardEvent::Lagged(skipped) => {
                self.refresh_error = Some(
                    "dashboard skipped ".to_owned().concat(
                        decimal_text(skipped as u64).as_str(),
                    ).concat(" app-server notifications; refreshing"),
                );
                assert((self@, true) == handled(before, event, now));
                true
            },
            DashboardEvent::Disconnected(_) => {
                assert((self@, false) == handled(before, event, now));
                false
            },
        }
    }
}

/// Where the first thread with the given identity is.
fn find_thread(threads: &Vec<Thread>, id: &str) -> (result: Option<usize>)
    ensures
        match result {
            Some(i) => i < threads@.len() && first_with_id(threads@, id@) == Some(
                threads@[i as int],
            ),
            None => first_with_id(threads@, id@) is None,
        },
{
    let mut i: usize = 0;
    assert(threads@.skip(0) =~= threads@);
    while i < threads.len()
        invariant
            i <= threads.len(),
            first_with_id(threads@, id@) == first_with_id(threads@.skip(i as int), id@),
        decreases threads.len() - i,
    {
        assert(threads@.skip(i as int)[0] == threads@[i as int]);
        if same_text(threads[i].id.as_str(), id) {
            return Some(i);
        }
        assert(threads@.skip(i as int).skip(1) =~= threads@.skip(i + 1));
        i += 1;
    }
    None
}

fn is_child_of(thread: &Thread, parent: &str) -> (result: bool)
    ensures
        result == (opt_text(thread.parent_thread_id) == Some(parent@)),
{
    match &thread.parent_thread_id {
        Some(id) => same_text(id.as_str(), parent),
        None => false,
    }
}

fn refresh_agents(
    before: &Vec<DashboardAgentEntry>,
    parent: &str,
    threads: &Vec<Thread>,
) -> (result: Vec<DashboardAgentEntry>)
    requires
        distinct_ids(before@),
    ensures
        distinct_ids(result@),
        agents_map(result@) == refreshed_agents(agents_map(before@), parent@, threads@),
{
    let ghost known = agents_map(before@);
    let mut agents: Vec<DashboardAgentEntry> = Vec::new();
    let mut i: usize = 0;
    assert(agents_map(agents@) =~= refreshed_agents(known, parent@, threads@.take(0)));
    while i < threads.len()
        invariant
            i <= threads.len(),
            distinct_ids(before@),
            known == agents_map(before@),
            distinct_ids(agents@),
            agents_map(agents@) == refreshed_agents(known, parent@, threads@.take(i as int)),
        decreases threads.len() - i,
    {
        let thread = &threads[i];
        assert(threads@.take(i + 1).drop_last() =~= threads@.take(i as int));
        if is_child_of(thread, parent) {
            proof {
                lemma_agents_map(before@, thread.id@);
            }
            let existing = match find_entry(before, thread.id.as_str()) {
                Some(k) => {
                    assert(entry_at(before@, thread.id@, k as int));
                    Some(&before[k].preview)
                },
                None => None,
            };
            let preview = preview_to_keep(thread, existing);
            let entry = DashboardAgentEntry::from_thread(thread, preview);
            put_entry(&mut agents, entry);
        }
        i += 1;
    }
    assert(threads@.take(i as int) =~= threads@);
    agents
}

fn clone_entries(entries: &Vec<DashboardAgentEntry>) -> (result: Vec<DashboardAgentEntry>)
    ensures
        result@ == entries@,
{
    let mut result: Vec<DashboardAgentEntry> = Vec::new();
    let mut i: usize = 0;
    while i < entries.len()
        invariant
            i <= entries.len(),
            result@ == entries@.take(i as int),
        decreases entries.len() - i,
    {
        result.push(entries[i].clone());
        i += 1;
        assert(entries@.take(i as int) =~= entries@.take(i - 1).push(entries@[i - 1]));
    }
    assert(entries@.take(i as int) =~= entries@);
    result
}

proof fn lemma_same_items(
    a: Seq<DashboardAgentEntry>,
    b: Seq<DashboardAgentEntry>,
    entry: DashboardAgentEntry,
)
    requires
        a.to_multiset() == b.to_multiset(),
    ensures
        a.contains(entry) <==> b.contains(entry),
{
    broadcast use vstd::seq_lib::group_to_multiset_ensures;

    assert(a.contains(entry) <==> a.to_multiset().count(entry) > 0);
    assert(b.contains(entry) <==> b.to_multiset().count(entry) > 0);
}

proof fn lemma_rearranged(a: Seq<DashboardAgentEntry>, b: Seq<DashboardAgentEntry>)
    requires
        distinct_ids(a),
        a.to_multiset() == b.to_multiset(),
    ensures
        distinct_ids(b),
        agents_map(a) == agents_map(b),
{
    broadcast use vstd::seq_lib::group_to_multiset_ensures;

    assert(a.no_duplicates()) by {
        assert forall|i: int, j: int|
            0 <= i < a.len() && 0 <= j < a.len() && i != j implies a[i] != a[j] by {
            if i < j {
                assert(a[i].thread_id@ != a[j].thread_id@);
            } else {
                assert(a[j].thread_id@ != a[i].thread_id@);
            }
        }
    }
    a.lemma_multiset_has_no_duplicates();
    b.lemma_multiset_has_no_duplicates_conv();
    assert(distinct_ids(b)) by {
        assert forall|i: int, j: int| 0 <= i < j < b.len() implies (#[trigger] b[i]).thread_id@ != (
        #[trigger] b[j]).thread_id@ by {
            assert(b.contains(b[i]) && b.contains(b[j]));
            lemma_same_items(a, b, b[i]);
            lemma_same_items(a, b, b[j]);
            let k = choose|k: int| 0 <= k < a.len() && a[k] == b[i];
            let l = choose|l: int| 0 <= l < a.len() && a[l] == b[j];
            assert(b[i] != b[j]);
            if k < l {
                assert(a[k].thread_id@ != a[l].thread_id@);
            } else {
                assert(a[l].thread_id@ != a[k].thread_id@);
            }
        }
    }
    assert forall|id: Seq<char>|
        {
            &&& #[trigger] agents_map(a).dom().contains(id) <==> agents_map(b).dom().contains(id)
            &&& agents_map(a).dom().contains(id) ==> agents_map(a)[id] == agents_map(b)[id]
        } by {
        lemma_agents_map(a, id);
        lemma_agents_map(b, id);
        if agents_map(a).contains_key(id) {
            let k = choose|k: int| #[trigger] entry_at(a, id, k);
            assert(a.contains(a[k]));
            lemma_same_items(a, b, a[k]);
            let l = choose|l: int| 0 <= l < b.len() && b[l] == a[k];
            assert(entry_at(b, id, l));
        }
        if agents_map(b).contains_key(id) {
            let k = choose|k: int| #[trigger] entry_at(b, id, k);
            assert(b.contains(b[k]));
            lemma_same_items(a, b, b[k]);
            let l = choose|l: int| 0 <= l < a.len() && a[l] == b[k];
            assert(entry_at(a, id, l));
        }
    }
    assert(agents_map(a) =~= agents_map(b));
}

impl DashboardApp {
    /// Everything that is shown now. The agents are all there, each once, in
    /// order.
    pub fn snapshot(&self) -> (result: DashboardSnapshot)
        requires
            self.well_formed(),
        ensures
            result.parent_thread_id@ == self@.parent_thread_id,
            result.parent_label@ == self@.parent_label,
            opt_parent(result.parent) == self@.parent,
            opt_text(result.refresh_error) == self@.refresh_error,
            distinct_ids(result.agents@),
            agents_map(result.agents@) == self@.agents,
            in_order(result.agents@),
    {
        let agents = sort_stable(clone_entries(&self.agents));
        proof {
            lemma_entries_ranked();
            lemma_rearranged(self.agents@, agents@);
        }
        DashboardSnapshot {
            parent_thread_id: self.parent_thread_id.clone(),
            parent_label: self.parent_label.clone(),
            parent: self.parent.clone(),
            agents,
            refresh_error: self.refresh_error.clone(),
        }
    }
}

/// What is shown is settled by what is known: two listings of the same
/// entries, each thread once and in order, show the same at every place.
pub proof fn lemma_snapshot_unique(a: Seq<DashboardAgentEntry>, b: Seq<DashboardAgentEntry>)
    requires
        distinct_ids(a),
        distinct_ids(b),
        in_order(a),
        in_order(b),
        agents_map(a) == agents_map(b),
    ensures
        a.len() == b.len(),
        forall|i: int| 0 <= i < a.len() ==> (#[trigger] a[i])@ == b[i]@,
    decreases a.len(),
{
    if a.len() == 0 {
        if b.len() > 0 {
            lemma_agents_map(b, b[0].thread_id@);
            assert(entry_at(b, b[0].thread_id@, 0));
        }
    } else {
        lemma_agents_map(a, a[0].thread_id@);
        lemma_agents_map(b, a[0].thread_id@);
        assert(entry_at(a, a[0].thread_id@, 0));
        let k = choose|k: int| #[trigger] entry_at(b, a[0].thread_id@, k);
        assert(b[k]@ == a[0]@);
        lemma_agents_map(b, b[0].thread_id@);
        lemma_agents_map(a, b[0].thread_id@);
        assert(entry_at(b, b[0].thread_id@, 0));
        let m = choose|m: int| #[trigger] entry_at(a, b[0].thread_id@, m);
        assert(a[m]@ == b[0]@);
        if k > 0 {
            assert(b[0].thread_id@ != b[k].thread_id@);
            crate::text::lemma_text_lt_total(b[0].thread_id@, b[k].thread_id@);
            assert(!b[k].precedes(b[0]));
            assert(b[0].precedes(b[k]));
            assert(m > 0);
            assert(!a[m].precedes(a[0]));
        }
        assert(a[0]@ == b[0]@);
        lemma_map_remove(a, 0);
        lemma_map_remove(b, 0);
        let (ta, tb) = (a.remove(0), b.remove(0));
        assert(in_order(ta)) by {
            assert forall|i: int, j: int| 0 <= i < j < ta.len() implies !(
            #[trigger] ta[j]).precedes(#[trigger] ta[i]) by {
                assert(!a[j + 1].precedes(a[i + 1]));
            }
        }
        assert(in_order(tb)) by {
            assert forall|i: int, j: int| 0 <= i < j < tb.len() implies !(
            #[trigger] tb[j]).precedes(#[trigger] tb[i]) by {
                assert(!b[j + 1].precedes(b[i + 1]));
            }
        }
        lemma_snapshot_unique(ta, tb);
        assert forall|i: int| 0 <= i < a.len() implies (#[trigger] a[i])@ == b[i]@ by {
            if i > 0 {
                assert(ta[i - 1]@ == tb[i - 1]@);
            }
        }
    }
}

/// While the parent works, a listing of the threads does not take the place
/// of the text that streams in for it.
pub proof fn lemma_refresh_keeps_live_parent(app: AppView, threads: Seq<Thread>)
    requires
        first_with_id(threads, app.parent_thread_id) matches Some(thread) && is_active(
            thread.status,
        ),
        app.parent matches Some(parent) && parent.preview.live,
    ensures
        refreshed(app, threads).parent matches Some(parent) && parent.preview
            == app.parent->0.preview,
{
}

/// While a child works, a listing of the threads does not take the place of
/// the text that streams in for it.
pub proof fn lemma_refresh_keeps_live_child(
    before: Map<Seq<char>, AgentView>,
    parent: Seq<char>,
    threads: Seq<Thread>,
    i: int,
)
    requires
        0 <= i < threads.len(),
        forall|j: int| i < j < threads.len() ==> (#[trigger] threads[j]).id@ != threads[i].id@,
        opt_text(threads[i].parent_thread_id) == Some(parent),
        is_active(threads[i].status),
        before.contains_key(threads[i].id@),
        before[threads[i].id@].preview.live,
    ensures
        refreshed_agents(before, parent, threads).contains_key(threads[i].id@),
        refreshed_agents(before, parent, threads)[threads[i].id@].preview
            == before[threads[i].id@].preview,
    decreases threads.len(),
{
    if i < threads.len() - 1 {
        let front = threads.drop_last();
        assert forall|j: int| i < j < front.len() implies (#[trigger] front[j]).id@
            != front[i].id@ by {
            assert(threads[j].id@ != threads[i].id@);
        }
        lemma_refresh_keeps_live_child(before, parent, front, i);
        assert(threads[threads.len() - 1].id@ != threads[i].id@);
    }
}

/// Text of a lower precedence does not take the place of text that streams
/// in already.
pub proof fn lemma_delta_of_lower_precedence_dropped(
    preview: PreviewView,
    delta: Seq<char>,
    source: PreviewSource,
)
    requires
        preview.live,
        preview.source.rank() < source.rank(),
    ensures
        with_delta(preview, delta, source) == preview,
{
}

/// A listing of the threads takes the place of what streamed in, unless the
/// thread works and text still streams in for it.
pub proof fn lemma_committed_takes_over(thread: Thread, existing: Option<PreviewView>)
    ensures
        existing is Some && existing->0.live && thread.status is Active ==> kept_preview(
            thread,
            existing,
        ) == existing->0,
        !(thread.status is Active) ==> kept_preview(thread, existing) == thread_preview(thread),
        existing is None ==> kept_preview(thread, existing) == thread_preview(thread),
        existing is Some && !existing->0.live ==> kept_preview(thread, existing)
            == thread_preview(thread),
{
}

/// Text that streams in is shown as live text of its own source. It takes the
/// place of a finished preview and of live text of a lower precedence; to live
/// text of its own source it is added at the end; live text of a higher
/// precedence stays.
pub proof fn lemma_streamed_text_is_shown(
    preview: PreviewView,
    delta: Seq<char>,
    source: PreviewSource,
)
    ensures
        ({
            let after = with_delta(preview, delta, source);
            &&& after.live
            &&& !preview.live || source.rank() < preview.source.rank() ==> after.text
                == normalized(delta) && after.source == source
            &&& preview.live && source == preview.source ==> after.text == normalized(
                preview.text + delta,
            ) && after.source == source
            &&& preview.live && preview.source.rank() < source.rank() ==> after == preview
        }),
{
}

/// Text that streams in changes the preview and the time of its own thread,
/// and nothing else: no other thread, no label, no status, and nothing at all
/// where the thread is not shown.
pub proof fn lemma_streamed_text_stays_with_its_thread(
    app: AppView,
    thread_id: Seq<char>,
    delta: Seq<char>,
    source: PreviewSource,
    now: i64,
    other: Seq<char>,
)
    ensures
        ({
            let after = with_live_delta(app, thread_id, delta, source, now);
            &&& after.parent_thread_id == app.parent_thread_id
            &&& after.parent_label == app.parent_label
            &&& after.refresh_error == app.refresh_error
            &&& after.agents.dom() == app.agents.dom()
            &&& other != thread_id && app.agents.contains_key(other) ==> after.agents[other]
                == app.agents[other]
            &&& thread_id != app.parent_thread_id ==> after.parent == app.parent
            &&& thread_id == app.parent_thread_id ==> after.agents == app.agents && (after.parent
                is Some <==> app.parent is Some)
            &&& thread_id == app.parent_thread_id && app.parent is Some
                ==> after.parent->0.preview == with_delta(app.parent->0.preview, delta, source)
                && after.parent->0.updated_at == now && after.parent->0.status
                == app.parent->0.status && after.parent->0.label == app.parent->0.label
                && after.parent->0.thread_id == app.parent->0.thread_id
            &&& thread_id != app.parent_thread_id && app.agents.contains_key(thread_id)
                ==> after.agents[thread_id].preview == with_delta(
                app.agents[thread_id].preview,
                delta,
                source,
            ) && after.agents[thread_id].updated_at == now && after.agents[thread_id].status
                == app.agents[thread_id].status && after.agents[thread_id].nickname
                == app.agents[thread_id].nickname && after.agents[thread_id].role
                == app.agents[thread_id].role
            &&& thread_id != app.parent_thread_id && !app.agents.contains_key(thread_id) ==> after
                == app
        }),
{
    let after = with_live_delta(app, thread_id, delta, source, now);
    assert(after.agents.dom() =~= app.agents.dom());
}

/// Each kind of text that streams in is shown as what it is, and never asks
/// for a listing of the threads.
pub proof fn lemma_deltas_by_their_source(
    app: AppView,
    thread_id: String,
    delta: String,
    now: i64,
)
    ensures
        notified(app, ServerNotification::AgentMessageDelta { thread_id, delta }, now) == (
            with_live_delta(app, thread_id@, delta@, PreviewSource::AgentMessage, now),
            false,
        ),
        notified(app, ServerNotification::PlanDelta { thread_id, delta }, now) == (
            with_live_delta(app, thread_id@, delta@, PreviewSource::Plan, now),
            false,
        ),
        notified(app, ServerNotification::ReasoningSummaryTextDelta { thread_id, delta }, now) == (
            with_live_delta(app, thread_id@, delta@, PreviewSource::ReasoningSummary, now),
            false,
        ),
        notified(app, ServerNotification::ReasoningTextDelta { thread_id, delta }, now) == (
            with_live_delta(app, thread_id@, delta@, PreviewSource::ReasoningText, now),
            false,
        ),
        notified(app, ServerNotification::Other, now) == (app, false),
{
}

/// A thread that starts is shown where it is the parent or one of its
/// children, with its own names, status and finished preview; a thread of
/// another parent changes nothing. No other thread that is shown changes.
pub proof fn lemma_started_thread_is_shown(
    app: AppView,
    thread: Thread,
    now: i64,
    other: Seq<char>,
)
    ensures
        ({
            let (after, refresh) = notified(app, ServerNotification::ThreadStarted { thread }, now);
            let own = thread.id@ == app.parent_thread_id;
            let child = !own && thread.parent_thread_id is Some && thread.parent_thread_id->0@
                == app.parent_thread_id;
            &&& !refresh
            &&& after.parent_thread_id == app.parent_thread_id
            &&& own ==> after.parent is Some && after.parent->0.thread_id == thread.id@
                && after.parent->0.status == thread.status && after.parent->0.updated_at
                == thread.updated_at && after.parent->0.label == label(thread)
                && after.parent->0.preview == thread_preview(thread)
            &&& own ==> after.parent_label == label(thread) && after.refresh_error is None
                && after.agents == app.agents
            &&& child ==> after.agents.contains_key(thread.id@)
                && after.agents[thread.id@].thread_id == thread.id@
                && after.agents[thread.id@].status == thread.status
                && after.agents[thread.id@].updated_at == thread.updated_at
                && after.agents[thread.id@].preview == thread_preview(thread)
                && after.agents[thread.id@].nickname == opt_text(thread.agent_nickname)
                && after.agents[thread.id@].role == opt_text(thread.agent_role)
            &&& child ==> after.parent == app.parent && after.refresh_error == app.refresh_error
            &&& other != thread.id@ ==> (after.agents.contains_key(other)
                <==> app.agents.contains_key(other)) && (app.agents.contains_key(other)
                ==> after.agents[other] == app.agents[other])
            &&& !own && !child ==> after == app
        }),
{
}

/// A change of status is shown for its own thread and no other. When a thread
/// that is shown stops working the threads are listed anew; so they are where
/// the parent's status changes and the parent is not shown.
pub proof fn lemma_status_change_is_shown(
    app: AppView,
    thread_id: String,
    status: ThreadStatus,
    now: i64,
    other: Seq<char>,
)
    ensures
        ({
            let (after, refresh) = notified(
                app,
                ServerNotification::ThreadStatusChanged { thread_id, status },
                now,
            );
            let own = thread_id@ == app.parent_thread_id;
            let child = !own && app.agents.contains_key(thread_id@);
            &&& after.agents.dom() == app.agents.dom()
            &&& after.parent_label == app.parent_label
            &&& after.refresh_error == app.refresh_error
            &&& own && app.parent is Some ==> after.parent is Some && after.parent->0.status
                == status && after.parent->0.updated_at == now && after.parent->0.preview
                == app.parent->0.preview && after.parent->0.label == app.parent->0.label
                && refresh == !(status is Active) && after.agents == app.agents
            &&& own && app.parent is None ==> after == app && refresh
            &&& child ==> after.agents[thread_id@].status == status
                && after.agents[thread_id@].preview == app.agents[thread_id@].preview
                && after.agents[thread_id@].updated_at == app.agents[thread_id@].updated_at
                && after.agents[thread_id@].nickname == app.agents[thread_id@].nickname
                && refresh == !(status is Active) && after.parent == app.parent
            &&& other != thread_id@ && app.agents.contains_key(other) ==> after.agents[other]
                == app.agents[other]
            &&& !own && !child ==> after == app && !refresh
        }),
{
    let (after, refresh) = notified(
        app,
        ServerNotification::ThreadStatusChanged { thread_id, status },
        now,
    );
    assert(after.agents.dom() =~= app.agents.dom());
}

/// A thread that is closed is shown no more, and the others stay. With the
/// parent all its agents go, and it is said why.
pub proof fn lemma_closed_thread_goes(
    app: AppView,
    thread_id: String,
    now: i64,
    other: Seq<char>,
)
    ensures
        ({
            let (after, refresh) = notified(
                app,
                ServerNotification::ThreadClosed { thread_id },
                now,
            );
            let own = thread_id@ == app.parent_thread_id;
            &&& !refresh
            &&& !after.agents.contains_key(thread_id@)
            &&& own ==> after.parent is None && after.agents.dom() =~= Set::<Seq<char>>::empty()
                && after.refresh_error == Some(
                "parent thread "@ + short_id(thread_id@) + " was closed"@,
            )
            &&& !own ==> after.parent == app.parent && after.refresh_error == app.refresh_error
                && after.parent_label == app.parent_label
            &&& !own && other != thread_id@ ==> (after.agents.contains_key(other)
                <==> app.agents.contains_key(other)) && (app.agents.contains_key(other)
                ==> after.agents[other] == app.agents[other])
        }),
{
}

/// Where notifications were lost, it is said how many, and the threads are
/// listed anew.
pub proof fn lemma_lost_notifications_refresh(app: AppView, skipped: usize, now: i64)
    ensures
        ({
            let (after, refresh) = handled(app, DashboardEvent::Lagged(skipped), now);
            &&& refresh
            &&& after.agents == app.agents
            &&& after.parent == app.parent
            &&& after.refresh_error == Some(
                "dashboard skipped "@ + decimal(skipped as nat)
                    + " app-server notifications; refreshing"@,
            )
        }),
        forall|notification: ServerNotification|
            #[trigger] handled(app, DashboardEvent::Notification(notification), now) == notified(
                app,
                notification,
                now,
            ),
{
}

/// The thread with an identity is the first of those that have it; there is
/// none only where no thread has it.
pub proof fn lemma_first_with_id(threads: Seq<Thread>, id: Seq<char>, i: int)
    requires
        0 <= i < threads.len(),
        threads[i].id@ == id,
        forall|j: int| 0 <= j < i ==> (#[trigger] threads[j]).id@ != id,
    ensures
        first_with_id(threads, id) == Some(threads[i]),
    decreases i,
{
    if i > 0 {
        assert(threads[0].id@ != id);
        let rest = threads.skip(1);
        assert(rest[i - 1] == threads[i]);
        assert forall|j: int| 0 <= j < i - 1 implies (#[trigger] rest[j]).id@ != id by {
            assert(rest[j] == threads[j + 1]);
        }
        lemma_first_with_id(rest, id, i - 1);
    }
}

/// No thread has an identity: none is found by it.
pub proof fn lemma_none_with_id(threads: Seq<Thread>, id: Seq<char>)
    requires
        forall|j: int| 0 <= j < threads.len() ==> (#[trigger] threads[j]).id@ != id,
    ensures
        first_with_id(threads, id) is None,
    decreases threads.len(),
{
    if threads.len() > 0 {
        assert(threads[0].id@ != id);
        let rest = threads.skip(1);
        assert forall|j: int| 0 <= j < rest.len() implies (#[trigger] rest[j]).id@ != id by {
            assert(rest[j] == threads[j + 1]);
        }
        lemma_none_with_id(rest, id);
    }
}

/// A listing shows exactly the children of the parent: every thread that the
/// parent spawned, as it is listed last, and no other. What is listed of a
/// child is its own, and its preview is the live one that it keeps or its
/// finished one.
pub proof fn lemma_refresh_shows_the_children(
    before: Map<Seq<char>, AgentView>,
    parent: Seq<char>,
    threads: Seq<Thread>,
    id: Seq<char>,
)
    ensures
        ({
            let after = refreshed_agents(before, parent, threads);
            &&& after.contains_key(id) <==> exists|i: int|
                #![trigger threads[i]]
                0 <= i < threads.len() && threads[i].id@ == id && threads[i].parent_thread_id
                    is Some && threads[i].parent_thread_id->0@ == parent
            &&& after.contains_key(id) ==> exists|i: int|
                #![trigger threads[i]]
                {
                    &&& 0 <= i < threads.len()
                    &&& threads[i].id@ == id
                    &&& threads[i].parent_thread_id is Some
                    &&& threads[i].parent_thread_id->0@ == parent
                    &&& forall|j: int|
                        #![trigger threads[j]]
                        i < j < threads.len() && threads[j].id@ == id ==> !(
                        threads[j].parent_thread_id is Some && threads[j].parent_thread_id->0@
                            == parent)
                    &&& after[id].thread_id == id
                    &&& after[id].status == threads[i].status
                    &&& after[id].updated_at == threads[i].updated_at
                    &&& after[id].nickname == opt_text(threads[i].agent_nickname)
                    &&& after[id].role == opt_text(threads[i].agent_role)
                    &&& after[id].preview == (if threads[i].status is Active
                        && before.contains_key(id) && before[id].preview.live {
                        before[id].preview
                    } else {
                        thread_preview(threads[i])
                    })
                }
        }),
    decreases threads.len(),
{
    let after = refreshed_agents(before, parent, threads);
    if threads.len() > 0 {
        let front = threads.drop_last();
        let last = threads.last();
        let n = threads.len() - 1;
        lemma_refresh_shows_the_children(before, parent, front, id);
        let earlier = refreshed_agents(before, parent, front);
        let is_child = last.parent_thread_id is Some && last.parent_thread_id->0@ == parent;
        assert(threads[n] == last);
        if is_child && last.id@ == id {
            assert(after.contains_key(id));
        } else {
            assert(after.contains_key(id) == earlier.contains_key(id));
            if earlier.contains_key(id) {
                let i = choose|i: int|
                    #![trigger front[i]]
                    {
                        &&& 0 <= i < front.len()
                        &&& front[i].id@ == id
                        &&& front[i].parent_thread_id is Some
                        &&& front[i].parent_thread_id->0@ == parent
                        &&& forall|j: int|
                            #![trigger front[j]]
                            i < j < front.len() && front[j].id@ == id ==> !(
                            front[j].parent_thread_id is Some && front[j].parent_thread_id->0@
                                == parent)
                        &&& earlier[id].thread_id == id
                        &&& earlier[id].status == front[i].status
                        &&& earlier[id].updated_at == front[i].updated_at
                        &&& earlier[id].nickname == opt_text(front[i].agent_nickname)
                        &&& earlier[id].role == opt_text(front[i].agent_role)
                        &&& earlier[id].preview == (if front[i].status is Active
                            && before.contains_key(id) && before[id].preview.live {
                            before[id].preview
                        } else {
                            thread_preview(front[i])
                        })
                    };
                assert(threads[i] == front[i]);
                assert forall|j: int|
                    #![trigger threads[j]]
                    i < j < threads.len() && threads[j].id@ == id implies !(
                threads[j].parent_thread_id is Some && threads[j].parent_thread_id->0@
                    == parent) by {
                    if j < n {
                        assert(front[j] == threads[j]);
                    }
                }
            } else {
                assert forall|i: int|
                    #![trigger threads[i]]
                    0 <= i < threads.len() implies !(threads[i].id@ == id
                    && threads[i].parent_thread_id is Some && threads[i].parent_thread_id->0@
                    == parent) by {
                    if i < n {
                        assert(front[i] == threads[i]);
                    }
                }
            }
        }
    }
}

/// A listing that holds the parent shows it under its own name, and takes back
/// what went wrong before; one that does not shows no parent, and says so. The
/// identity of the parent never changes.
pub proof fn lemma_refresh_shows_the_parent(app: AppView, threads: Seq<Thread>)
    ensures
        ({
            let after = refreshed(app, threads);
            &&& after.parent_thread_id == app.parent_thread_id
            &&& after.agents == refreshed_agents(app.agents, app.parent_thread_id, threads)
            &&& match first_with_id(threads, app.parent_thread_id) {
                Some(thread) => {
                    &&& after.refresh_error is None
                    &&& after.parent_label == label(thread)
                    &&& after.parent is Some
                    &&& after.parent->0.thread_id == thread.id@
                    &&& after.parent->0.label == label(thread)
                    &&& after.parent->0.status == thread.status
                    &&& after.parent->0.updated_at == thread.updated_at
                    &&& after.parent->0.preview == (if thread.status is Active && app.parent
                        is Some && app.parent->0.preview.live {
                        app.parent->0.preview
                    } else {
                        thread_preview(thread)
                    })
                },
                None => {
                    &&& after.parent is None
                    &&& after.parent_label == "thread "@ + short_id(app.parent_thread_id)
                    &&& after.refresh_error == Some(
                        "parent thread "@ + app.parent_thread_id
                            + " is not loaded in the connected app-server"@,
                    )
                },
            }
        }),
{
}

} // verus!
