//! Agents: the threads they run on, their paths, their status and what is
//! known of each.

use vstd::prelude::*;
use crate::text::{chars_of, same_text, starts_with};

verus! {

/// The identity of a thread, a 128-bit number.
#[derive(Clone, Copy, Debug, PartialEq, Eq, Structural, Hash)]
pub struct ThreadId {
    pub bits: u128,
}

/// The hexadecimal digit with the given value.
pub open spec fn hex_digit(d: nat) -> char {
    if d < 10 {
        ('0' as nat + d) as char
    } else {
        ('a' as nat + (d - 10)) as char
    }
}

/// A number without its last `k` hexadecimal digits.
pub open spec fn without_digits(n: nat, k: nat) -> nat
    decreases k,
{
    if k == 0 {
        n
    } else {
        without_digits(n, (k - 1) as nat) / 16
    }
}

/// The hexadecimal digit of a number at place `k`, counted from the last.
pub open spec fn hex_digit_at(n: nat, k: nat) -> char {
    hex_digit(without_digits(n, k) % 16)
}

/// How many of the hyphens of an identity's text come before place `i`.
pub open spec fn hyphens_before(i: int) -> int {
    if i <= 8 {
        0
    } else if i <= 13 {
        1
    } else if i <= 18 {
        2
    } else if i <= 23 {
        3
    } else {
        4
    }
}

/// The text of an identity: 32 hexadecimal digits in five groups of 8, 4, 4,
/// 4 and 12, with hyphens between the groups.
pub open spec fn thread_id_text(bits: u128) -> Seq<char> {
    Seq::new(
        36,
        |i: int|
            if i == 8 || i == 13 || i == 18 || i == 23 {
                '-'
            } else {
                hex_digit_at(bits as nat, (31 - (i - hyphens_before(i))) as nat)
            },
    )
}

fn hex_char(d: u8) -> (result: char)
    requires
        d < 16,
    ensures
        result == hex_digit(d as nat),
{
    if d < 10 {
        (48u8 + d) as char
    } else {
        (87u8 + d) as char
    }
}

impl ThreadId {
    /// The text of the identity, as `thread_id_text` states it.
    pub fn to_text(self) -> (result: String)
        ensures
            result@ == thread_id_text(self.bits),
    {
        let mut digits: Vec<char> = Vec::new();
        let mut rest: u128 = self.bits;
        while digits.len() < 32
            invariant
                digits.len() <= 32,
                rest as nat == without_digits(self.bits as nat, digits.len() as nat),
                forall|k: int|
                    0 <= k < digits.len() ==> digits@[k] == hex_digit_at(
                        self.bits as nat,
                        k as nat,
                    ),
            decreases 32 - digits.len(),
        {
            let d: u8 = (rest % 16) as u8;
            digits.push(hex_char(d));
            rest = rest / 16;
        }
        let mut out = String::new();
        let mut i: usize = 0;
        let mut left: usize = 32;
        while i < 36
            invariant
                i <= 36,
                left == 32 - (i - hyphens_before(i as int)),
                digits.len() == 32,
                forall|k: int|
                    0 <= k < 32 ==> digits@[k] == hex_digit_at(self.bits as nat, k as nat),
                out@ == thread_id_text(self.bits).take(i as int),
            decreases 36 - i,
        {
            if i == 8 || i == 13 || i == 18 || i == 23 {
                out.push('-');
            } else {
                left -= 1;
                out.push(digits[left]);
            }
            i += 1;
            assert(out@ =~= thread_id_text(self.bits).take(i as int));
        }
        assert(thread_id_text(self.bits).take(36) =~= thread_id_text(self.bits));
        out
    }
}

/// The path of the root agent.
pub open spec fn root_path() -> Seq<char> {
    "/root"@
}

/// Two slashes stand side by side at place `i`.
pub open spec fn double_slash_at(s: Seq<char>, i: int) -> bool {
    0 <= i < s.len() - 1 && s[i] == '/' && s[i + 1] == '/'
}

/// Whether a text is an agent path: `/root`, or `/root/` followed by names
/// that are not empty and are separated by single slashes.
pub open spec fn is_agent_path(s: Seq<char>) -> bool {
    ||| s == root_path()
    ||| {
        &&& (root_path() + seq!['/']).is_prefix_of(s)
        &&& s.last() != '/'
        &&& forall|i: int| !(#[trigger] double_slash_at(s, i))
    }
}

/// An agent path is another one or lies below it.
pub open spec fn path_within(path: Seq<char>, prefix: Seq<char>) -> bool {
    path == prefix || (prefix + seq!['/']).is_prefix_of(path)
}

/// The place of the last slash; -1 where there is none.
pub open spec fn last_slash(s: Seq<char>) -> int
    decreases s.len(),
{
    if s.len() == 0 {
        -1
    } else if s.last() == '/' {
        s.len() - 1
    } else {
        last_slash(s.drop_last())
    }
}

pub proof fn lemma_last_slash(s: Seq<char>)
    ensures
        -1 <= last_slash(s) < s.len(),
        last_slash(s) >= 0 ==> s[last_slash(s)] == '/',
        forall|i: int| last_slash(s) < i < s.len() ==> s[i] != '/',
    decreases s.len(),
{
    if s.len() > 0 && s.last() != '/' {
        lemma_last_slash(s.drop_last());
        assert forall|i: int| last_slash(s) < i < s.len() implies s[i] != '/' by {
            if i < s.len() - 1 {
                assert(s.drop_last()[i] == s[i]);
            }
        }
    }
}

/// The place of the last slash, where there is one.
fn find_last_slash(chars: &Vec<char>) -> (result: Option<usize>)
    ensures
        result matches Some(at) ==> at == last_slash(chars@),
        result is None <==> last_slash(chars@) < 0,
{
    let mut n: usize = chars.len();
    assert(chars@.take(n as int) =~= chars@);
    while n > 0
        invariant
            n <= chars.len(),
            last_slash(chars@) == last_slash(chars@.take(n as int)),
        decreases n,
    {
        if chars[n - 1] == '/' {
            return Some(n - 1);
        }
        assert(chars@.take(n as int).drop_last() =~= chars@.take(n - 1));
        n -= 1;
    }
    None
}

/// The path of an agent in its tree.
#[derive(Debug)]
pub struct AgentPath {
    text: String,
}

impl AgentPath {
    #[verifier::type_invariant]
    spec fn inv(self) -> bool {
        is_agent_path(self.text@)
    }

    /// The text of the path.
    pub closed spec fn view(&self) -> Seq<char> {
        self.text@
    }

    /// The path of the root agent.
    pub fn root() -> (result: AgentPath)
        ensures
            result@ == root_path(),
    {
        AgentPath { text: "/root".to_owned() }
    }

    /// The agent path with the given text, where the text is one.
    pub fn from_text(text: &str) -> (result: Option<AgentPath>)
        ensures
            result matches Some(path) ==> path@ == text@ && is_agent_path(text@),
            result is None <==> !is_agent_path(text@),
    {
        if same_text(text, "/root") {
            return Some(AgentPath { text: text.to_owned() });
        }
        proof {
            reveal_strlit("/root/");
            reveal_strlit("/root");
            assert("/root/"@ =~= root_path() + seq!['/']);
        }
        if !starts_with(text, "/root/") {
            return None;
        }
        let chars = chars_of(text);
        if chars[chars.len() - 1] == '/' {
            return None;
        }
        let mut i: usize = 0;
        while i + 1 < chars.len()
            invariant
                chars@ == text@,
                0 < chars.len(),
                i < chars.len(),
                text@ != root_path(),
                forall|j: int| 0 <= j < i ==> !(#[trigger] double_slash_at(text@, j)),
            decreases chars.len() - i,
        {
            if chars[i] == '/' && chars[i + 1] == '/' {
                assert(double_slash_at(text@, i as int));
                return None;
            }
            i += 1;
        }
        Some(AgentPath { text: text.to_owned() })
    }

    /// The text of the path.
    pub fn as_str(&self) -> (result: &str)
        ensures
            result@ == self@,
            is_agent_path(self@),
    {
        proof {
            use_type_invariant(self);
        }
        self.text.as_str()
    }

    /// Whether this is the path of the root agent.
    pub fn is_root(&self) -> (result: bool)
        ensures
            result == (self@ == root_path()),
    {
        same_text(self.text.as_str(), "/root")
    }

    /// Whether two paths are the same.
    pub fn same(&self, other: &AgentPath) -> (result: bool)
        ensures
            result == (self@ == other@),
    {
        same_text(self.text.as_str(), other.text.as_str())
    }

    /// Whether this path is the other one or lies below it.
    pub fn within(&self, prefix: &AgentPath) -> (result: bool)
        ensures
            result == path_within(self@, prefix@),
    {
        if self.same(prefix) {
            return true;
        }
        let mut below = prefix.text.clone();
        below.push('/');
        assert(below@ =~= prefix@ + seq!['/']);
        starts_with(self.text.as_str(), below.as_str())
    }

    /// The last name of the path.
    pub fn name(&self) -> (result: &str)
        ensures
            result@ == self@.skip(last_slash(self@) + 1),
    {
        let chars = chars_of(self.text.as_str());
        let start: usize = match find_last_slash(&chars) {
            Some(at) => {
                proof {
                    lemma_last_slash(chars@);
                }
                at + 1
            },
            None => {
                proof {
                    lemma_last_slash(chars@);
                }
                0
            },
        };
        assert(self@.subrange(start as int, chars@.len() as int) =~= self@.skip(start as int));
        self.text.as_str().substring_char(start, chars.len())
    }

    /// The path one level up; the root agent has none.
    pub fn parent(&self) -> (result: Option<AgentPath>)
        ensures
            result matches Some(parent) ==> parent@ == self@.take(last_slash(self@))
                && is_agent_path(self@.take(last_slash(self@))),
            result is None <==> !is_agent_path(self@.take(last_slash(self@))),
            result is None <==> self@ == root_path(),
    {
        let chars = chars_of(self.text.as_str());
        proof {
            use_type_invariant(self);
            lemma_last_slash(chars@);
            lemma_parent_path(self@);
        }
        match find_last_slash(&chars) {
            Some(at) => {
                assert(self@.subrange(0, at as int) =~= self@.take(at as int));
                AgentPath::from_text(self.text.as_str().substring_char(0, at))
            },
            None => None,
        }
    }
}

impl Clone for AgentPath {
    fn clone(&self) -> (result: Self)
        ensures
            result == *self,
    {
        proof {
            use_type_invariant(self);
        }
        AgentPath { text: self.text.clone() }
    }
}

/// Every agent path but the root's has a parent, which is an agent path too.
pub proof fn lemma_parent_path(s: Seq<char>)
    requires
        is_agent_path(s),
    ensures
        last_slash(s) >= 0,
        is_agent_path(s.take(last_slash(s))) <==> s != root_path(),
        s != root_path() ==> path_within(s, s.take(last_slash(s))),
{
    reveal_strlit("/root");
    lemma_last_slash(s);
    let at = last_slash(s);
    if s == root_path() {
        assert(s[0] == '/');
        assert(at == 0) by {
            assert(s[1] != '/' && s[2] != '/' && s[3] != '/' && s[4] != '/');
        }
        assert(s.take(0).len() == 0);
    } else {
        let up = s.take(at);
        assert(s[5] == '/') by {
            assert(s.subrange(0, 6)[5] == '/');
        }
        assert(at >= 5);
        assert forall|i: int| 0 <= i < 5 implies s[i] == root_path()[i] by {
            assert(s.subrange(0, 6)[i] == (root_path() + seq!['/'])[i]);
        }
        if at == 5 {
            assert(up =~= root_path());
        } else {
            assert(up.subrange(0, 6) =~= s.subrange(0, 6)) by {
                assert(at >= 6);
            }
            assert(up.last() != '/') by {
                assert(!double_slash_at(s, at - 1));
            }
            assert forall|i: int| !(#[trigger] double_slash_at(up, i)) by {
                assert(!double_slash_at(s, i));
            }
        }
        assert(s.subrange(0, at + 1) =~= up + seq!['/']);
    }
}

/// Every agent path lies at or below the root's.
pub proof fn lemma_all_within_root(s: Seq<char>)
    requires
        is_agent_path(s),
    ensures
        path_within(s, root_path()),
{
}

/// What lies below a path that lies below another lies below that one too.
pub proof fn lemma_path_within_transitive(a: Seq<char>, b: Seq<char>, c: Seq<char>)
    requires
        path_within(a, b),
        path_within(b, c),
    ensures
        path_within(a, c),
{
    if a != b && b != c {
        let cs = c + seq!['/'];
        assert(a.subrange(0, cs.len() as int) =~= cs) by {
            assert forall|i: int| 0 <= i < cs.len() implies a[i] == cs[i] by {
                assert(a.subrange(0, (b + seq!['/']).len() as int)[i] == (b + seq!['/'])[i]);
                assert(b.subrange(0, cs.len() as int)[i] == cs[i]);
            }
        }
    }
}

/// Two paths that each lie at or below the other are the same.
pub proof fn lemma_path_within_antisymmetric(a: Seq<char>, b: Seq<char>)
    requires
        path_within(a, b),
        path_within(b, a),
    ensures
        a == b,
{
}

/// The state of an agent's work.
#[derive(Debug)]
pub enum AgentStatus {
    /// The agent was created and has not started.
    PendingInit,
    /// A turn runs.
    Running,
    /// The current turn was stopped before its end.
    Interrupted,
    /// The work ended, with the agent's last message where there is one.
    Completed(Option<String>),
    /// The work ended with an error.
    Errored(String),
    /// The agent was shut down.
    Shutdown,
    /// No such agent.
    NotFound,
}

/// A final status is not followed by another one unless the agent gets new
/// work.
pub open spec fn is_final_status(status: AgentStatus) -> bool {
    !(status is PendingInit || status is Running || status is Interrupted)
}

/// Whether a status is final.
pub fn is_final(status: &AgentStatus) -> (result: bool)
    ensures
        result == is_final_status(*status),
{
    match status {
        AgentStatus::PendingInit | AgentStatus::Running | AgentStatus::Interrupted => false,
        _ => true,
    }
}

impl Clone for AgentStatus {
    fn clone(&self) -> (result: Self)
        ensures
            result == *self,
    {
        match self {
            AgentStatus::PendingInit => AgentStatus::PendingInit,
            AgentStatus::Running => AgentStatus::Running,
            AgentStatus::Interrupted => AgentStatus::Interrupted,
            AgentStatus::Completed(message) => AgentStatus::Completed(message.clone()),
            AgentStatus::Errored(message) => AgentStatus::Errored(message.clone()),
            AgentStatus::Shutdown => AgentStatus::Shutdown,
            AgentStatus::NotFound => AgentStatus::NotFound,
        }
    }
}

/// Where a session comes from.
#[derive(Debug)]
pub enum SessionSource {
    /// Another thread spawned it as a sub-agent.
    ThreadSpawn {
        parent_thread_id: ThreadId,
        depth: i32,
        agent_path: Option<AgentPath>,
        agent_nickname: Option<String>,
        agent_role: Option<String>,
    },
    /// It was not spawned by a thread.
    Other,
}

impl SessionSource {
    /// The thread that spawned the session.
    pub open spec fn spec_parent(self) -> Option<ThreadId> {
        match self {
            SessionSource::ThreadSpawn { parent_thread_id, .. } => Some(parent_thread_id),
            SessionSource::Other => None,
        }
    }

    /// The path of the session's agent.
    pub open spec fn spec_agent_path(self) -> Option<AgentPath> {
        match self {
            SessionSource::ThreadSpawn { agent_path, .. } => agent_path,
            SessionSource::Other => None,
        }
    }

    /// The thread that spawned the session.
    pub fn parent_thread_id(&self) -> (result: Option<ThreadId>)
        ensures
            result == self.spec_parent(),
    {
        match self {
            SessionSource::ThreadSpawn { parent_thread_id, .. } => Some(*parent_thread_id),
            SessionSource::Other => None,
        }
    }

    /// The path of the session's agent.
    pub fn get_agent_path(&self) -> (result: Option<AgentPath>)
        ensures
            result == self.spec_agent_path(),
    {
        match self {
            SessionSource::ThreadSpawn { agent_path, .. } => agent_path.clone(),
            SessionSource::Other => None,
        }
    }

    /// The path of the session's agent; that of the root where it has none.
    pub fn agent_path_or_root(&self) -> (result: AgentPath)
        ensures
            match self.spec_agent_path() {
                Some(path) => result == path,
                None => result@ == root_path(),
            },
    {
        match self.get_agent_path() {
            Some(path) => path,
            None => AgentPath::root(),
        }
    }
}

/// How many spawns lie between the root session and this one; none for a
/// session that no thread spawned.
pub fn thread_spawn_depth(session_source: &SessionSource) -> (result: Option<i32>)
    ensures
        result == (match *session_source {
            SessionSource::ThreadSpawn { depth, .. } => Some(depth),
            SessionSource::Other => None,
        }),
{
    match session_source {
        SessionSource::ThreadSpawn { depth, .. } => Some(*depth),
        SessionSource::Other => None,
    }
}

/// What is known of an agent.
#[derive(Debug)]
pub struct AgentMetadata {
    pub agent_id: Option<ThreadId>,
    pub parent_thread_id: Option<ThreadId>,
    pub agent_path: Option<AgentPath>,
    pub agent_nickname: Option<String>,
    pub agent_role: Option<String>,
    pub last_task_message: Option<String>,
}

impl Default for AgentMetadata {
    fn default() -> (result: Self)
        ensures
            result == (AgentMetadata {
                agent_id: None,
                parent_thread_id: None,
                agent_path: None,
                agent_nickname: None,
                agent_role: None,
                last_task_message: None,
            }),
    {
        AgentMetadata {
            agent_id: None,
            parent_thread_id: None,
            agent_path: None,
            agent_nickname: None,
            agent_role: None,
            last_task_message: None,
        }
    }
}

impl Clone for AgentMetadata {
    fn clone(&self) -> (result: Self)
        ensures
            result == *self,
    {
        AgentMetadata {
            agent_id: self.agent_id,
            parent_thread_id: self.parent_thread_id,
            agent_path: self.agent_path.clone(),
            agent_nickname: self.agent_nickname.clone(),
            agent_role: self.agent_role.clone(),
            last_task_message: self.last_task_message.clone(),
        }
    }
}

/// The metadata that a spawned session's source gives: the source's own
/// parent and names where a thread spawned it, else the given parent alone.
pub open spec fn metadata_of_source(
    thread_id: ThreadId,
    parent_thread_id: ThreadId,
    source: SessionSource,
) -> AgentMetadata {
    match source {
        SessionSource::ThreadSpawn { parent_thread_id, agent_path, agent_nickname, agent_role, .. } => AgentMetadata {
            agent_id: Some(thread_id),
            parent_thread_id: Some(parent_thread_id),
            agent_path,
            agent_nickname,
            agent_role,
            last_task_message: None,
        },
        SessionSource::Other => AgentMetadata {
            agent_id: Some(thread_id),
            parent_thread_id: Some(parent_thread_id),
            agent_path: None,
            agent_nickname: None,
            agent_role: None,
            last_task_message: None,
        },
    }
}

/// The metadata of a live thread that its session's source gives.
pub fn agent_metadata_from_thread_spawn_source(
    thread_id: ThreadId,
    parent_thread_id: ThreadId,
    session_source: &SessionSource,
) -> (result: AgentMetadata)
    ensures
        result == metadata_of_source(thread_id, parent_thread_id, *session_source),
{
    let mut metadata = AgentMetadata::default();
    metadata.agent_id = Some(thread_id);
    metadata.parent_thread_id = Some(parent_thread_id);
    if let SessionSource::ThreadSpawn {
        parent_thread_id,
        agent_path,
        agent_nickname,
        agent_role,
        ..
    } = session_source {
        metadata.parent_thread_id = Some(*parent_thread_id);
        metadata.agent_path = agent_path.clone();
        metadata.agent_nickname = agent_nickname.clone();
        metadata.agent_role = agent_role.clone();
    }
    metadata
}

/// Whether an agent belongs under a path prefix: everything belongs under the
/// root's path, an agent without a path under no other one.
pub open spec fn matches_prefix(agent_path: Option<AgentPath>, prefix: AgentPath) -> bool {
    prefix@ == root_path() || (agent_path matches Some(path) && path_within(path@, prefix@))
}

/// Whether an agent belongs under a path prefix.
pub fn agent_matches_prefix(agent_path: Option<&AgentPath>, prefix: &AgentPath) -> (result: bool)
    ensures
        result == (prefix@ == root_path() || (agent_path matches Some(path) && path_within(
            path@,
            prefix@,
        ))),
{
    if prefix.is_root() {
        return true;
    }
    match agent_path {
        Some(path) => path.within(prefix),
        None => false,
    }
}

/// An agent that completed, failed, was shut down or cannot be found has a
/// final status; one that has not started, runs or was interrupted has not.
pub proof fn lemma_final_statuses(message: Option<String>, error: String)
    ensures
        is_final_status(AgentStatus::Completed(message)),
        is_final_status(AgentStatus::Errored(error)),
        is_final_status(AgentStatus::Shutdown),
        is_final_status(AgentStatus::NotFound),
        !is_final_status(AgentStatus::PendingInit),
        !is_final_status(AgentStatus::Running),
        !is_final_status(AgentStatus::Interrupted),
{
}

/// The number that hexadecimal digits show, hyphens left out.
pub open spec fn hex_number_shown(text: Seq<char>) -> int
    decreases text.len(),
{
    if text.len() == 0 {
        0
    } else if text.last() == '-' {
        hex_number_shown(text.drop_last())
    } else {
        hex_number_shown(text.drop_last()) * 16 + (if text.last() <= '9' {
            text.last() as int - '0' as int
        } else {
            text.last() as int - 'a' as int + 10
        })
    }
}

proof fn lemma_without_digits_bound(n: nat, k: nat, m: nat)
    requires
        k <= m,
        n < vstd::arithmetic::power::pow(16, m),
    ensures
        without_digits(n, k) < vstd::arithmetic::power::pow(16, (m - k) as nat),
    decreases k,
{
    if k > 0 {
        lemma_without_digits_bound(n, (k - 1) as nat, m);
        let rest = (m - k) as nat;
        reveal(vstd::arithmetic::power::pow);
        assert(vstd::arithmetic::power::pow(16, (rest + 1) as nat) == 16
            * vstd::arithmetic::power::pow(16, rest));
    }
}

proof fn lemma_hex_shown_so_far(bits: u128, i: int)
    requires
        0 <= i <= 36,
    ensures
        hex_number_shown(thread_id_text(bits).take(i)) == without_digits(
            bits as nat,
            (32 - (i - hyphens_before(i))) as nat,
        ),
    decreases i,
{
    let text = thread_id_text(bits);
    if i == 0 {
        reveal(vstd::arithmetic::power::pow);
        reveal_with_fuel(vstd::arithmetic::power::pow, 33);
        assert(vstd::arithmetic::power::pow(16, 32)
            == 0x1_0000_0000_0000_0000_0000_0000_0000_0000);
        lemma_without_digits_bound(bits as nat, 32, 32);
        assert(text.take(0).len() == 0);
    } else {
        lemma_hex_shown_so_far(bits, i - 1);
        assert(text.take(i).drop_last() =~= text.take(i - 1));
        assert(text.take(i).last() == text[i - 1]);
        if !(i - 1 == 8 || i - 1 == 13 || i - 1 == 18 || i - 1 == 23) {
            let k = (31 - (i - 1 - hyphens_before(i - 1))) as nat;
            let left = without_digits(bits as nat, k);
            assert(text[i - 1] == hex_digit(left % 16));
            assert(without_digits(bits as nat, (k + 1) as nat) == left / 16);
            assert((32 - (i - hyphens_before(i))) as nat == k);
        } else {
            assert(text[i - 1] == '-');
        }
    }
}

/// The text of an identity shows the whole number in hexadecimal digits, 32 of
/// them with a hyphen after 8, 12, 16 and 20 of them. So different identities
/// have different texts.
pub proof fn lemma_identity_can_be_read(bits: u128, other: u128)
    ensures
        thread_id_text(bits).len() == 36,
        hex_number_shown(thread_id_text(bits)) == bits,
        forall|i: int|
            0 <= i < 36 ==> ((#[trigger] thread_id_text(bits)[i]) == '-' <==> i == 8 || i == 13
                || i == 18 || i == 23),
        forall|i: int|
            0 <= i < 36 && (#[trigger] thread_id_text(bits)[i]) != '-' ==> '0'
                <= thread_id_text(bits)[i] <= '9' || 'a' <= thread_id_text(bits)[i] <= 'f',
        thread_id_text(bits) == thread_id_text(other) ==> bits == other,
{
    lemma_hex_shown_so_far(bits, 36);
    lemma_hex_shown_so_far(other, 36);
    assert(thread_id_text(bits).take(36) =~= thread_id_text(bits));
    assert(thread_id_text(other).take(36) =~= thread_id_text(other));
}

/// A path lies below another where it begins with it and goes on with a slash.
pub proof fn lemma_below_a_path(path: Seq<char>, prefix: Seq<char>)
    ensures
        path_within(path, path),
        path.len() < prefix.len() ==> !path_within(path, prefix),
        path.len() == prefix.len() ==> (path_within(path, prefix) <==> path == prefix),
        path.len() > prefix.len() ==> (path_within(path, prefix) <==> path.take(
            prefix.len() as int,
        ) == prefix && path[prefix.len() as int] == '/'),
{
    if path.len() > prefix.len() {
        let n = prefix.len() as int;
        let longer = prefix + seq!['/'];
        assert(path.take(n) == prefix && path[n] == '/' ==> longer =~= path.subrange(0, n + 1));
        if longer.is_prefix_of(path) {
            assert(path.take(n) =~= prefix) by {
                assert forall|i: int| 0 <= i < n implies path[i] == prefix[i] by {
                    assert(longer[i] == path.subrange(0, n + 1)[i]);
                }
            }
            assert(longer[n] == path.subrange(0, n + 1)[n]);
        }
    }
}

/// A name that is not empty and holds no slash, put below an agent path, makes
/// an agent path again, which has that name and the other one as its parent.
pub proof fn lemma_name_below_a_path(path: Seq<char>, name: Seq<char>)
    requires
        is_agent_path(path),
        name.len() > 0,
        !name.contains('/'),
    ensures
        ({
            let below = path + seq!['/'] + name;
            &&& is_agent_path(below)
            &&& last_slash(below) == path.len()
            &&& below.take(last_slash(below)) == path
            &&& below.skip(last_slash(below) + 1) == name
            &&& path_within(below, path)
            &&& !path_within(path, below)
        }),
{
    reveal_strlit("/root");
    let below = path + seq!['/'] + name;
    let n = path.len() as int;
    let root = root_path() + seq!['/'];
    lemma_last_slash(below);
    assert(below[n] == '/');
    assert forall|i: int| n < i < below.len() implies below[i] != '/' by {
        assert(below[i] == name[i - n - 1]);
        assert(name.contains(name[i - n - 1]));
    }
    assert(last_slash(below) == n);
    assert(below.take(n) =~= path);
    assert(below.skip(n + 1) =~= name);
    assert((path + seq!['/']).is_prefix_of(below));
    assert(root.is_prefix_of(below)) by {
        if path == root_path() {
            assert(below.subrange(0, root.len() as int) =~= root);
        } else {
            assert(root =~= path.subrange(0, root.len() as int));
            assert(below.subrange(0, root.len() as int) =~= root);
        }
    }
    assert forall|i: int| !(#[trigger] double_slash_at(below, i)) by {
        if 0 <= i < below.len() - 1 {
            if i + 1 < n {
                assert(below[i] == path[i] && below[i + 1] == path[i + 1]);
                if path == root_path() {
                    assert(path[i + 1] != '/');
                } else {
                    assert(!double_slash_at(path, i));
                }
            } else if i + 1 == n {
                assert(below[i] == path[i]);
                assert(path.last() != '/');
            } else {
                assert(below[i + 1] != '/');
            }
        }
    }
    assert(below.last() != '/');
}

/// What is known of a spawned session are its own identity, the parent and the
/// names that its source gives; of another one only the given parent.
pub proof fn lemma_known_of_a_session(
    thread_id: ThreadId,
    parent: ThreadId,
    spawner: ThreadId,
    depth: i32,
    agent_path: Option<AgentPath>,
    agent_nickname: Option<String>,
    agent_role: Option<String>,
)
    ensures
        ({
            let source = SessionSource::ThreadSpawn {
                parent_thread_id: spawner,
                depth,
                agent_path,
                agent_nickname,
                agent_role,
            };
            let known = metadata_of_source(thread_id, parent, source);
            &&& known.agent_id == Some(thread_id)
            &&& known.parent_thread_id == Some(spawner)
            &&& known.agent_path == agent_path
            &&& known.agent_nickname == agent_nickname
            &&& known.agent_role == agent_role
            &&& known.last_task_message is None
            &&& source.spec_parent() == Some(spawner)
            &&& source.spec_agent_path() == agent_path
        }),
        ({
            let known = metadata_of_source(thread_id, parent, SessionSource::Other);
            &&& known.agent_id == Some(thread_id)
            &&& known.parent_thread_id == Some(parent)
            &&& known.agent_path is None && known.agent_nickname is None && known.agent_role
                is None && known.last_task_message is None
        }),
        SessionSource::Other.spec_parent() is None,
        SessionSource::Other.spec_agent_path() is None,
{
}

/// Every agent belongs under the root's path. Under any other path belong the
/// agent with that path and those below it, and no agent without a path.
pub proof fn lemma_who_belongs_under_a_path(agent_path: Option<AgentPath>, prefix: AgentPath)
    ensures
        prefix@ == root_path() ==> matches_prefix(agent_path, prefix),
        prefix@ != root_path() && agent_path is None ==> !matches_prefix(agent_path, prefix),
        prefix@ != root_path() && agent_path is Some ==> (matches_prefix(agent_path, prefix)
            <==> path_within(agent_path->0@, prefix@)),
{
}

} // verus!
