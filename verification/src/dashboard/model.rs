//! Threads as the server reports them, and what the dashboard shows of them.

use vstd::prelude::*;
use crate::paths::{file_name, path_file_name, PathText};
use crate::sort::{ranks, Ordered};
use crate::text::{
    blank, is_blank, lemma_text_lt_irreflexive, lemma_text_lt_transitive,
    lemma_text_not_lt_transitive, opt_text, text_less, text_lt,
};

verus! {

/// How a thread stands.
#[derive(Clone, Copy, Debug, PartialEq, Eq, Structural)]
pub enum ThreadStatus {
    NotLoaded,
    Idle,
    SystemError,
    Active,
}

/// An item of a turn, as far as previews are made of it.
#[derive(Debug)]
pub enum ThreadItem {
    AgentMessage { text: String },
    Plan { text: String },
    Reasoning { summary: Vec<String>, content: Vec<String> },
    Other,
}

/// A turn of a thread.
#[derive(Debug)]
pub struct Turn {
    pub items: Vec<ThreadItem>,
}

/// A thread as the server reports it.
#[derive(Debug)]
pub struct Thread {
    pub id: String,
    pub preview: String,
    pub updated_at: i64,
    pub status: ThreadStatus,
    pub cwd: PathText,
    pub parent_thread_id: Option<String>,
    pub agent_nickname: Option<String>,
    pub agent_role: Option<String>,
    pub name: Option<String>,
    pub turns: Vec<Turn>,
}

/// What a preview is made of. An earlier one takes precedence over a later
/// one while text streams in.
#[derive(Clone, Copy, Debug, PartialEq, Eq, Structural)]
pub enum PreviewSource {
    AgentMessage,
    Plan,
    ReasoningSummary,
    ReasoningText,
    ThreadPreview,
}

impl PreviewSource {
    /// The precedence of a source; a lower one comes first.
    pub open spec fn rank(self) -> nat {
        match self {
            PreviewSource::AgentMessage => 0,
            PreviewSource::Plan => 1,
            PreviewSource::ReasoningSummary => 2,
            PreviewSource::ReasoningText => 3,
            PreviewSource::ThreadPreview => 4,
        }
    }

    /// The precedence of a source as a number.
    pub fn rank_number(self) -> (result: u8)
        ensures
            result as nat == self.rank(),
    {
        match self {
            PreviewSource::AgentMessage => 0,
            PreviewSource::Plan => 1,
            PreviewSource::ReasoningSummary => 2,
            PreviewSource::ReasoningText => 3,
            PreviewSource::ThreadPreview => 4,
        }
    }

    /// The name of the source as it is shown.
    pub fn label(self) -> (result: &'static str)
        ensures
            result@ == (match self {
                PreviewSource::AgentMessage => "message"@,
                PreviewSource::Plan => "plan"@,
                PreviewSource::ReasoningSummary => "summary"@,
                PreviewSource::ReasoningText => "reasoning"@,
                PreviewSource::ThreadPreview => "preview"@,
            }),
    {
        match self {
            PreviewSource::AgentMessage => "message",
            PreviewSource::Plan => "plan",
            PreviewSource::ReasoningSummary => "summary",
            PreviewSource::ReasoningText => "reasoning",
            PreviewSource::ThreadPreview => "preview",
        }
    }
}

/// A short text that shows what a thread is doing.
#[derive(Debug)]
pub struct DashboardPreview {
    pub text: String,
    pub source: PreviewSource,
    /// The text streams in and is not part of a finished item yet.
    pub live: bool,
}

/// A preview as a value.
#[verifier::ext_equal]
pub struct PreviewView {
    pub text: Seq<char>,
    pub source: PreviewSource,
    pub live: bool,
}

impl View for DashboardPreview {
    type V = PreviewView;

    open spec fn view(&self) -> PreviewView {
        PreviewView { text: self.text@, source: self.source, live: self.live }
    }
}

impl Clone for DashboardPreview {
    fn clone(&self) -> (result: Self)
        ensures
            result == *self,
    {
        DashboardPreview { text: self.text.clone(), source: self.source, live: self.live }
    }
}

/// The first characters of a thread's identity.
pub open spec fn short_id(thread_id: Seq<char>) -> Seq<char> {
    if thread_id.len() <= 8 {
        thread_id
    } else {
        thread_id.take(8)
    }
}

/// The first characters of a thread's identity.
pub fn short_thread_id(thread_id: &str) -> (result: String)
    ensures
        result@ == short_id(thread_id@),
{
    let n: usize = thread_id.unicode_len();
    if n <= 8 {
        thread_id.to_owned()
    } else {
        assert(thread_id@.subrange(0, 8) =~= thread_id@.take(8));
        thread_id.substring_char(0, 8).to_owned()
    }
}

/// The project of a thread: the last name of its working directory, unless
/// that is blank.
pub open spec fn project_name(thread: Thread) -> Option<Seq<char>> {
    match file_name(thread.cwd.style, thread.cwd.text@) {
        Some(name) if !is_blank(name) => Some(name),
        _ => None,
    }
}

/// The project of a thread.
pub fn thread_project_name(thread: &Thread) -> (result: Option<String>)
    ensures
        opt_text(result) == project_name(*thread),
{
    match path_file_name(thread.cwd.style, thread.cwd.text.as_str()) {
        Some(name) => {
            if blank(name.as_str()) {
                None
            } else {
                Some(name)
            }
        },
        None => None,
    }
}

/// What a thread is called: its name, else its project, else its preview,
/// else its identity.
pub open spec fn label(thread: Thread) -> Seq<char> {
    if thread.name is Some && !is_blank(thread.name->0@) {
        thread.name->0@
    } else if project_name(thread) is Some {
        project_name(thread)->0
    } else if !is_blank(thread.preview@) {
        thread.preview@
    } else {
        "thread "@ + short_id(thread.id@)
    }
}

/// What a thread is called.
pub fn thread_label(thread: &Thread) -> (result: String)
    ensures
        result@ == label(*thread),
{
    if let Some(name) = &thread.name {
        if !blank(name.as_str()) {
            return name.clone();
        }
    }
    if let Some(name) = thread_project_name(thread) {
        return name;
    }
    if !blank(thread.preview.as_str()) {
        return thread.preview.clone();
    }
    "thread ".to_owned().concat(short_thread_id(thread.id.as_str()).as_str())
}

/// A child thread as the dashboard shows it.
#[derive(Debug)]
pub struct DashboardAgentEntry {
    pub thread_id: String,
    pub nickname: Option<String>,
    pub role: Option<String>,
    pub status: ThreadStatus,
    pub updated_at: i64,
    pub preview: DashboardPreview,
}

/// A child thread as the dashboard shows it, as a value.
#[verifier::ext_equal]
pub struct AgentView {
    pub thread_id: Seq<char>,
    pub nickname: Option<Seq<char>>,
    pub role: Option<Seq<char>>,
    pub status: ThreadStatus,
    pub updated_at: i64,
    pub preview: PreviewView,
}

impl View for DashboardAgentEntry {
    type V = AgentView;

    open spec fn view(&self) -> AgentView {
        AgentView {
            thread_id: self.thread_id@,
            nickname: opt_text(self.nickname),
            role: opt_text(self.role),
            status: self.status,
            updated_at: self.updated_at,
            preview: self.preview@,
        }
    }
}

impl Clone for DashboardAgentEntry {
    fn clone(&self) -> (result: Self)
        ensures
            result == *self,
    {
        DashboardAgentEntry {
            thread_id: self.thread_id.clone(),
            nickname: self.nickname.clone(),
            role: self.role.clone(),
            status: self.status,
            updated_at: self.updated_at,
            preview: self.preview.clone(),
        }
    }
}

/// What an entry is called: the nickname, or the start of the identity, with
/// the role behind it.
pub open spec fn entry_title(entry: AgentView) -> Seq<char> {
    let base = match entry.nickname {
        Some(nickname) => nickname,
        None => short_id(entry.thread_id),
    };
    match entry.role {
        Some(role) => base + " ["@ + role + "]"@,
        None => base,
    }
}

/// The place of a status: active threads come first.
pub open spec fn rank_of_status(status: ThreadStatus) -> nat {
    match status {
        ThreadStatus::Active => 0,
        ThreadStatus::Idle => 1,
        ThreadStatus::SystemError => 2,
        ThreadStatus::NotLoaded => 3,
    }
}

/// A child thread as the dashboard shows it with the given preview.
pub open spec fn agent_view(thread: Thread, preview: PreviewView) -> AgentView {
    AgentView {
        thread_id: thread.id@,
        nickname: opt_text(thread.agent_nickname),
        role: opt_text(thread.agent_role),
        status: thread.status,
        updated_at: thread.updated_at,
        preview,
    }
}

impl DashboardAgentEntry {
    /// A child thread with the given preview.
    pub fn from_thread(thread: &Thread, preview: DashboardPreview) -> (result: DashboardAgentEntry)
        ensures
            result@ == agent_view(*thread, preview@),
    {
        DashboardAgentEntry {
            thread_id: thread.id.clone(),
            nickname: thread.agent_nickname.clone(),
            role: thread.agent_role.clone(),
            status: thread.status,
            updated_at: thread.updated_at,
            preview,
        }
    }

    /// The place of the entry's status.
    pub fn status_rank(&self) -> (result: u8)
        ensures
            result as nat == rank_of_status(self.status),
    {
        match self.status {
            ThreadStatus::Active => 0,
            ThreadStatus::Idle => 1,
            ThreadStatus::SystemError => 2,
            ThreadStatus::NotLoaded => 3,
        }
    }

    /// What the entry is called.
    pub fn title(&self) -> (result: String)
        ensures
            result@ == entry_title(self@),
    {
        let base = match &self.nickname {
            Some(nickname) => nickname.clone(),
            None => short_thread_id(self.thread_id.as_str()),
        };
        match &self.role {
            Some(role) => base.concat(" [").concat(role.as_str()).concat("]"),
            None => base,
        }
    }
}

/// One entry comes before another: by status, then the newer one, then by
/// identity.
pub open spec fn agent_before(a: AgentView, b: AgentView) -> bool {
    let (ra, rb) = (rank_of_status(a.status), rank_of_status(b.status));
    ||| ra < rb
    ||| ra == rb && a.updated_at > b.updated_at
    ||| ra == rb && a.updated_at == b.updated_at && text_lt(a.thread_id, b.thread_id)
}

impl Ordered for DashboardAgentEntry {
    open spec fn precedes(self, other: Self) -> bool {
        agent_before(self@, other@)
    }

    fn comes_before(&self, other: &Self) -> (result: bool) {
        let left: u8 = self.status_rank();
        let right: u8 = other.status_rank();
        if left != right {
            return left < right;
        }
        if self.updated_at != other.updated_at {
            return self.updated_at > other.updated_at;
        }
        text_less(self.thread_id.as_str(), other.thread_id.as_str())
    }
}

/// Entries are ranked.
pub proof fn lemma_entries_ranked()
    ensures
        ranks::<DashboardAgentEntry>(),
{
    assert forall|a: DashboardAgentEntry, b: DashboardAgentEntry| #[trigger]
        a.precedes(b) implies !b.precedes(a) by {
        if text_lt(a.thread_id@, b.thread_id@) && text_lt(b.thread_id@, a.thread_id@) {
            lemma_text_lt_transitive(a.thread_id@, b.thread_id@, a.thread_id@);
            lemma_text_lt_irreflexive(a.thread_id@);
        }
    }
    assert forall|a: DashboardAgentEntry, b: DashboardAgentEntry, c: DashboardAgentEntry|
        !(#[trigger] a.precedes(b)) && !(#[trigger] b.precedes(c)) implies !a.precedes(c) by {
        if !text_lt(a.thread_id@, b.thread_id@) && !text_lt(b.thread_id@, c.thread_id@) {
            lemma_text_not_lt_transitive(a.thread_id@, b.thread_id@, c.thread_id@);
        }
    }
}

/// The parent thread as the dashboard shows it.
#[derive(Debug)]
pub struct DashboardParentEntry {
    pub thread_id: String,
    pub label: String,
    pub status: ThreadStatus,
    pub updated_at: i64,
    pub preview: DashboardPreview,
}

/// The parent thread as the dashboard shows it, as a value.
#[verifier::ext_equal]
pub struct ParentView {
    pub thread_id: Seq<char>,
    pub label: Seq<char>,
    pub status: ThreadStatus,
    pub updated_at: i64,
    pub preview: PreviewView,
}

impl View for DashboardParentEntry {
    type V = ParentView;

    open spec fn view(&self) -> ParentView {
        ParentView {
            thread_id: self.thread_id@,
            label: self.label@,
            status: self.status,
            updated_at: self.updated_at,
            preview: self.preview@,
        }
    }
}

impl Clone for DashboardParentEntry {
    fn clone(&self) -> (result: Self)
        ensures
            result == *self,
    {
        DashboardParentEntry {
            thread_id: self.thread_id.clone(),
            label: self.label.clone(),
            status: self.status,
            updated_at: self.updated_at,
            preview: self.preview.clone(),
        }
    }
}

/// The parent thread as the dashboard shows it with the given preview.
pub open spec fn parent_view(thread: Thread, preview: PreviewView) -> ParentView {
    ParentView {
        thread_id: thread.id@,
        label: label(thread),
        status: thread.status,
        updated_at: thread.updated_at,
        preview,
    }
}

impl DashboardParentEntry {
    /// The parent thread with the given preview.
    pub fn from_thread(thread: &Thread, preview: DashboardPreview) -> (result:
        DashboardParentEntry)
        ensures
            result@ == parent_view(*thread, preview@),
    {
        DashboardParentEntry {
            thread_id: thread.id.clone(),
            label: thread_label(thread),
            status: thread.status,
            updated_at: thread.updated_at,
            preview,
        }
    }
}

/// Everything that the dashboard shows at one time.
#[derive(Debug)]
pub struct DashboardSnapshot {
    pub parent_thread_id: String,
    pub parent_label: String,
    pub parent: Option<DashboardParentEntry>,
    pub agents: Vec<DashboardAgentEntry>,
    pub refresh_error: Option<String>,
}

/// Text of a message counts before that of a plan, that before a summary of
/// reasoning, that before the reasoning itself, and a thread's own preview
/// counts last.
pub proof fn lemma_precedence_of_sources()
    ensures
        PreviewSource::AgentMessage.rank() < PreviewSource::Plan.rank(),
        PreviewSource::Plan.rank() < PreviewSource::ReasoningSummary.rank(),
        PreviewSource::ReasoningSummary.rank() < PreviewSource::ReasoningText.rank(),
        PreviewSource::ReasoningText.rank() < PreviewSource::ThreadPreview.rank(),
{
}

/// Threads that work come before idle ones, those before ones with an error,
/// and those before ones that are not loaded, whatever their times are. Among
/// threads of one status the newer one comes first, and of equally new ones
/// the one with the smaller identity. No thread comes before itself.
pub proof fn lemma_order_of_entries(a: AgentView, b: AgentView)
    ensures
        a.status is Active && !(b.status is Active) ==> agent_before(a, b) && !agent_before(b, a),
        a.status is Idle && (b.status is SystemError || b.status is NotLoaded) ==> agent_before(
            a,
            b,
        ) && !agent_before(b, a),
        a.status is SystemError && b.status is NotLoaded ==> agent_before(a, b) && !agent_before(
            b,
            a,
        ),
        a.status == b.status && a.updated_at > b.updated_at ==> agent_before(a, b)
            && !agent_before(b, a),
        a.status == b.status && a.updated_at == b.updated_at ==> (agent_before(a, b) <==> text_lt(
            a.thread_id,
            b.thread_id,
        )),
{
}

/// The short form of an identity is its start: eight characters of a longer
/// one, all of a shorter one.
pub proof fn lemma_short_id_is_the_start(thread_id: Seq<char>)
    ensures
        short_id(thread_id).is_prefix_of(thread_id),
        thread_id.len() >= 8 ==> short_id(thread_id).len() == 8,
        thread_id.len() <= 8 ==> short_id(thread_id) == thread_id,
{
}

/// A thread is called by its name where that says something; else by the last
/// name of its working directory; else by its preview; else by its identity. A
/// blank one never counts.
pub proof fn lemma_what_threads_are_called(thread: Thread)
    ensures
        ({
            let folder = file_name(thread.cwd.style, thread.cwd.text@);
            let named = thread.name is Some && !is_blank(thread.name->0@);
            let placed = folder is Some && !is_blank(folder->0);
            &&& named ==> label(thread) == thread.name->0@
            &&& !named && placed ==> label(thread) == folder->0
            &&& !named && !placed && !is_blank(thread.preview@) ==> label(thread)
                == thread.preview@
            &&& !named && !placed && is_blank(thread.preview@) ==> label(thread) == "thread "@
                + short_id(thread.id@)
            &&& project_name(thread) is Some <==> placed
            &&& placed ==> project_name(thread) == folder
        }),
{
}

/// An entry is called by its nickname or, without one, by the start of its
/// identity; its role, if it has one, stands behind it in brackets.
pub proof fn lemma_what_entries_are_called(entry: AgentView)
    ensures
        match (entry.nickname, entry.role) {
            (Some(nickname), Some(role)) => entry_title(entry) == nickname + " ["@ + role + "]"@,
            (Some(nickname), None) => entry_title(entry) == nickname,
            (None, Some(role)) => entry_title(entry) == short_id(entry.thread_id) + " ["@ + role
                + "]"@,
            (None, None) => entry_title(entry) == short_id(entry.thread_id),
        },
{
}

/// An entry shows its own thread: identity, names, status and time are the
/// thread's, and the preview is the one that is given.
pub proof fn lemma_entries_show_their_thread(thread: Thread, preview: PreviewView)
    ensures
        agent_view(thread, preview).thread_id == thread.id@,
        agent_view(thread, preview).nickname == opt_text(thread.agent_nickname),
        agent_view(thread, preview).role == opt_text(thread.agent_role),
        agent_view(thread, preview).status == thread.status,
        agent_view(thread, preview).updated_at == thread.updated_at,
        agent_view(thread, preview).preview == preview,
        parent_view(thread, preview).thread_id == thread.id@,
        parent_view(thread, preview).label == label(thread),
        parent_view(thread, preview).status == thread.status,
        parent_view(thread, preview).updated_at == thread.updated_at,
        parent_view(thread, preview).preview == preview,
{
}

} // verus!
