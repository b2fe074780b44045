//! Ending processes together with all that they started: which system calls
//! are made, and what their outcomes mean. A process identity is a signed
//! number, as the system has it.

use std::collections::{HashMap, HashSet};
use vstd::prelude::*;
use crate::text::{
    chars_of, decimal, first_pos, lemma_first_pos, signed_decimal, split_once, strip_prefix, trim,
    trimmed,
};

verus! {

/// What a system call came to.
#[derive(Clone, Copy, Debug, PartialEq, Eq, Structural)]
pub enum CallOutcome {
    Done,
    /// What it was about does not exist.
    NotFound,
    /// It is not permitted.
    NotPermitted,
    /// It failed otherwise.
    Failed,
}

/// The kind of system that processes run on, as far as it matters to how they
/// are ended.
#[derive(Clone, Copy, Debug, PartialEq, Eq, Structural)]
pub enum SystemKind {
    /// Processes form groups, and the system lists them with their parents.
    Linux,
    /// Processes form groups.
    OtherUnix,
    /// There are no groups of processes.
    NotUnix,
}

/// How far a process is with asking to be ended when its parent ends.
#[derive(Clone, Copy, Debug, PartialEq, Eq, Structural)]
pub enum DeathSignalProgress {
    Start,
    /// It was asked for.
    Requested(CallOutcome),
    /// The parent, as it is now.
    Parent(i32),
    /// The process signalled itself.
    Raised,
}

/// What a process does next to be ended when its parent ends.
#[derive(Clone, Copy, Debug, PartialEq, Eq, Structural)]
pub enum DeathSignalAction {
    /// Ask for the signal to end when the parent ends.
    Request,
    /// Find out who the parent is now.
    GetParent,
    /// Send itself the signal to end.
    Raise,
    Succeed,
    Fail,
}

/// What a process does next to be ended when its parent ends.
pub open spec fn death_signal_next(
    system: SystemKind,
    parent_pid: i32,
    progress: DeathSignalProgress,
) -> DeathSignalAction {
    if system !is Linux {
        DeathSignalAction::Succeed
    } else {
        match progress {
            DeathSignalProgress::Start => DeathSignalAction::Request,
            DeathSignalProgress::Requested(outcome) => if outcome is Done {
                DeathSignalAction::GetParent
            } else {
                DeathSignalAction::Fail
            },
            DeathSignalProgress::Parent(current) => if current != parent_pid {
                DeathSignalAction::Raise
            } else {
                DeathSignalAction::Succeed
            },
            DeathSignalProgress::Raised => DeathSignalAction::Succeed,
        }
    }
}

/// What a process does next to be ended when its parent ends. A parent that
/// is another one than before has ended already, so the signal is raised.
/// Where the system is not Linux nothing is done, and that is a success.
pub fn set_parent_death_signal(
    system: SystemKind,
    parent_pid: i32,
    progress: DeathSignalProgress,
) -> (result: DeathSignalAction)
    ensures
        result == death_signal_next(system, parent_pid, progress),
{
    if system != SystemKind::Linux {
        return DeathSignalAction::Succeed;
    }
    match progress {
        DeathSignalProgress::Start => DeathSignalAction::Request,
        DeathSignalProgress::Requested(CallOutcome::Done) => DeathSignalAction::GetParent,
        DeathSignalProgress::Requested(_) => DeathSignalAction::Fail,
        DeathSignalProgress::Parent(current) => {
            if current != parent_pid {
                DeathSignalAction::Raise
            } else {
                DeathSignalAction::Succeed
            }
        },
        DeathSignalProgress::Raised => DeathSignalAction::Succeed,
    }
}

/// What a process does next to leave its terminal or its group.
#[derive(Clone, Copy, Debug, PartialEq, Eq, Structural)]
pub enum DetachAction {
    /// Start a session of its own.
    NewSession,
    /// Start a group of its own.
    NewGroup,
    Succeed,
    Fail,
}

/// What a process does next to get a group of its own.
pub open spec fn own_group_next(system: SystemKind, tried: Option<CallOutcome>) -> DetachAction {
    match tried {
        _ if system is NotUnix => DetachAction::Succeed,
        None => DetachAction::NewGroup,
        Some(outcome) => if outcome is Done {
            DetachAction::Succeed
        } else {
            DetachAction::Fail
        },
    }
}

/// What a process does next to leave its terminal.
pub open spec fn detach_next(
    system: SystemKind,
    session: Option<CallOutcome>,
    group: Option<CallOutcome>,
) -> DetachAction {
    match session {
        _ if system is NotUnix => DetachAction::Succeed,
        None => DetachAction::NewSession,
        Some(CallOutcome::Done) => DetachAction::Succeed,
        Some(CallOutcome::NotPermitted) => match group {
            None => DetachAction::NewGroup,
            Some(outcome) => if outcome is Done {
                DetachAction::Succeed
            } else {
                DetachAction::Fail
            },
        },
        Some(_) => DetachAction::Fail,
    }
}

/// What a process does next to get a group of its own; the outcome of
/// starting one, once that was tried. Where there are no groups nothing is
/// done, and that is a success.
pub fn set_process_group(system: SystemKind, tried: Option<CallOutcome>) -> (result: DetachAction)
    ensures
        result == own_group_next(system, tried),
{
    if system == SystemKind::NotUnix {
        return DetachAction::Succeed;
    }
    match tried {
        None => DetachAction::NewGroup,
        Some(CallOutcome::Done) => DetachAction::Succeed,
        Some(_) => DetachAction::Fail,
    }
}

/// What a process does next to leave its terminal: it starts a session of its
/// own, and where that is not permitted a group of its own. The outcomes are
/// those of starting a session and a group, once they were tried. Where there
/// are no groups nothing is done, and that is a success.
pub fn detach_from_tty(
    system: SystemKind,
    session: Option<CallOutcome>,
    group: Option<CallOutcome>,
) -> (result: DetachAction)
    ensures
        result == detach_next(system, session, group),
{
    if system == SystemKind::NotUnix {
        return DetachAction::Succeed;
    }
    match session {
        None => DetachAction::NewSession,
        Some(CallOutcome::Done) => DetachAction::Succeed,
        Some(CallOutcome::NotPermitted) => set_process_group(system, group),
        Some(_) => DetachAction::Fail,
    }
}

/// How far the ending of a process's group is.
#[derive(Clone, Copy, Debug)]
pub enum GroupKillProgress {
    Start,
    /// The group of the process, or why it is not known.
    Group(Result<i32, CallOutcome>),
    /// The group was sent the signal to end at once.
    Killed(CallOutcome),
}

/// What is done next to end a process's group.
#[derive(Clone, Copy, Debug, PartialEq, Eq, Structural)]
pub enum GroupKillAction {
    /// Find out the group of this process.
    GetGroup(i32),
    /// Send this group the signal to end at once.
    KillGroup(i32),
    Succeed,
    Fail(CallOutcome),
}

/// What follows from what the signal to end at once came to: what does not
/// exist any more needs no signal.
pub open spec fn group_killed(outcome: CallOutcome) -> GroupKillAction {
    if outcome is Done || outcome is NotFound {
        GroupKillAction::Succeed
    } else {
        GroupKillAction::Fail(outcome)
    }
}

fn after_kill(outcome: CallOutcome) -> (result: GroupKillAction)
    ensures
        result == group_killed(outcome),
{
    match outcome {
        CallOutcome::Done | CallOutcome::NotFound => GroupKillAction::Succeed,
        failed => GroupKillAction::Fail(failed),
    }
}

/// What is done next to end a group at once.
pub open spec fn kill_group_next(
    system: SystemKind,
    process_group_id: u32,
    killed: Option<CallOutcome>,
) -> GroupKillAction {
    match killed {
        _ if system is NotUnix => GroupKillAction::Succeed,
        None => GroupKillAction::KillGroup(process_group_id as i32),
        Some(outcome) => group_killed(outcome),
    }
}

/// What is done next to end a group at once; what the signal came to, once it
/// was sent. Where there are no groups nothing is done, and that is a success.
pub fn kill_process_group(
    system: SystemKind,
    process_group_id: u32,
    killed: Option<CallOutcome>,
) -> (result: GroupKillAction)
    ensures
        result == kill_group_next(system, process_group_id, killed),
{
    if system == SystemKind::NotUnix {
        return GroupKillAction::Succeed;
    }
    match killed {
        None => GroupKillAction::KillGroup(process_group_id as i32),
        Some(outcome) => after_kill(outcome),
    }
}

/// What is done next to ask a group to end.
#[derive(Clone, Copy, Debug, PartialEq, Eq, Structural)]
pub enum TerminateAction {
    /// Send this group the signal to end.
    Signal(i32),
    /// It is over; whether a group got the signal.
    Return(bool),
    Fail(CallOutcome),
}

/// What is done next to ask a group to end.
pub open spec fn terminate_next(
    system: SystemKind,
    process_group_id: u32,
    asked: Option<CallOutcome>,
) -> TerminateAction {
    match asked {
        _ if system is NotUnix => TerminateAction::Return(false),
        None => TerminateAction::Signal(process_group_id as i32),
        Some(CallOutcome::Done) => TerminateAction::Return(true),
        Some(CallOutcome::NotFound) => TerminateAction::Return(false),
        Some(failed) => TerminateAction::Fail(failed),
    }
}

/// What is done next to ask a group to end; what the signal came to, once it
/// was sent. A group that does not exist any more does not get it, and neither
/// does any where there are no groups.
pub fn terminate_process_group(
    system: SystemKind,
    process_group_id: u32,
    asked: Option<CallOutcome>,
) -> (result: TerminateAction)
    ensures
        result == terminate_next(system, process_group_id, asked),
{
    if system == SystemKind::NotUnix {
        return TerminateAction::Return(false);
    }
    match asked {
        None => TerminateAction::Signal(process_group_id as i32),
        Some(CallOutcome::Done) => TerminateAction::Return(true),
        Some(CallOutcome::NotFound) => TerminateAction::Return(false),
        Some(failed) => TerminateAction::Fail(failed),
    }
}

/// What is done next to end a process's group. A process or a group that does
/// not exist any more is a success. Where there are no groups nothing is done,
/// and that is a success, too.
pub open spec fn group_kill_next(
    system: SystemKind,
    pid: u32,
    progress: GroupKillProgress,
) -> GroupKillAction {
    if system is NotUnix {
        GroupKillAction::Succeed
    } else {
        match progress {
            GroupKillProgress::Start => GroupKillAction::GetGroup(pid as i32),
            GroupKillProgress::Group(Ok(group)) => GroupKillAction::KillGroup(group),
            GroupKillProgress::Group(Err(outcome)) => if outcome is NotFound {
                GroupKillAction::Succeed
            } else {
                GroupKillAction::Fail(outcome)
            },
            GroupKillProgress::Killed(outcome) => group_killed(outcome),
        }
    }
}

/// What is done next to end a process's group.
pub fn kill_process_group_by_pid(
    system: SystemKind,
    pid: u32,
    progress: GroupKillProgress,
) -> (result: GroupKillAction)
    ensures
        result == group_kill_next(system, pid, progress),
{
    if system == SystemKind::NotUnix {
        return GroupKillAction::Succeed;
    }
    match progress {
        GroupKillProgress::Start => GroupKillAction::GetGroup(pid as i32),
        GroupKillProgress::Group(Ok(group)) => GroupKillAction::KillGroup(group),
        GroupKillProgress::Group(Err(CallOutcome::NotFound)) => GroupKillAction::Succeed,
        GroupKillProgress::Group(Err(outcome)) => GroupKillAction::Fail(outcome),
        GroupKillProgress::Killed(outcome) => after_kill(outcome),
    }
}

/// What is done next to end the group of a child.
pub open spec fn child_group_kill_next(
    system: SystemKind,
    pid: Option<u32>,
    progress: GroupKillProgress,
) -> GroupKillAction {
    match pid {
        Some(pid) => group_kill_next(system, pid, progress),
        None => GroupKillAction::Succeed,
    }
}

/// What is done next to end the group of a child: nothing where it has no
/// identity any more.
pub fn kill_child_process_group(
    system: SystemKind,
    pid: Option<u32>,
    progress: GroupKillProgress,
) -> (result: GroupKillAction)
    ensures
        result == child_group_kill_next(system, pid, progress),
{
    match pid {
        Some(pid) => kill_process_group_by_pid(system, pid, progress),
        None => GroupKillAction::Succeed,
    }
}

/// The value of a decimal digit; more than nine for another character.
pub open spec fn digit_value(c: char) -> int {
    if '0' <= c <= '9' {
        c as int - '0' as int
    } else {
        10
    }
}

/// The value of a row of decimal digits.
pub open spec fn digits_value(s: Seq<char>) -> Option<int>
    decreases s.len(),
{
    if s.len() == 0 {
        Some(0)
    } else {
        match digits_value(s.drop_last()) {
            Some(value) if digit_value(s.last()) < 10 => Some(value * 10 + digit_value(s.last())),
            _ => None,
        }
    }
}

/// The number that a text spells, with an optional sign.
pub open spec fn number_value(s: Seq<char>) -> Option<int> {
    if s.len() > 0 && (s[0] == '-' || s[0] == '+') {
        match digits_value(s.skip(1)) {
            Some(value) if s.len() > 1 => Some(
                if s[0] == '-' {
                    -value
                } else {
                    value
                },
            ),
            _ => None,
        }
    } else if s.len() > 0 {
        digits_value(s)
    } else {
        None
    }
}

/// The process identity that a text spells.
pub open spec fn pid_value(s: Seq<char>) -> Option<i32> {
    match number_value(s) {
        Some(value) if i32::MIN <= value <= i32::MAX => Some(value as i32),
        _ => None,
    }
}

proof fn lemma_digits_value_grows(s: Seq<char>, n: int)
    requires
        0 <= n <= s.len(),
    ensures
        digits_value(s) matches Some(value) ==> (digits_value(s.take(n)) matches Some(part) && 0
            <= part <= value),
    decreases s.len() - n,
{
    if n == s.len() {
        assert(s.take(n) =~= s);
        lemma_digits_value_nonnegative(s);
    } else {
        lemma_digits_value_grows(s, n + 1);
        assert(s.take(n + 1).drop_last() =~= s.take(n));
        lemma_digits_value_nonnegative(s.take(n));
    }
}

proof fn lemma_digits_value_nonnegative(s: Seq<char>)
    ensures
        digits_value(s) matches Some(value) ==> value >= 0,
    decreases s.len(),
{
    if s.len() > 0 {
        lemma_digits_value_nonnegative(s.drop_last());
    }
}

/// The value of the digits from the given place on, where it is at most that
/// of a signed number of 33 bits.
fn digits_from(chars: &Vec<char>, start: usize) -> (result: Option<i64>)
    requires
        start <= chars@.len(),
    ensures
        match result {
            Some(value) => digits_value(chars@.skip(start as int)) == Some(value as int) && 0 <= value
                <= 0x1_0000_0000,
            None => match digits_value(chars@.skip(start as int)) {
                Some(value) => value > 0x8000_0000,
                None => true,
            },
        },
{
    let ghost digits = chars@.skip(start as int);
    let mut value: i64 = 0;
    let mut i: usize = start;
    assert(digits.take(0) =~= Seq::<char>::empty());
    while i < chars.len()
        invariant
            start <= i <= chars.len(),
            digits == chars@.skip(start as int),
            0 <= value <= 0x8000_0000,
            digits_value(digits.take(i - start)) == Some(value as int),
        decreases chars.len() - i,
    {
        let c = chars[i];
        proof {
            assert(digits[i - start] == c);
            assert(digits.take(i - start + 1).drop_last() =~= digits.take(i - start));
            lemma_digits_value_grows(digits, i - start + 1);
        }
        if !('0' <= c && c <= '9') {
            return None;
        }
        let digit: i64 = (c as u32 - 48) as i64;
        value = value * 10 + digit;
        i += 1;
        if value > 0x8000_0000 {
            return None;
        }
    }
    assert(digits.take(i - start) =~= digits);
    Some(value)
}

/// The process identity that a text spells.
pub fn parse_pid(text: &str) -> (result: Option<i32>)
    ensures
        result == pid_value(text@),
{
    let chars = chars_of(text);
    if chars.len() == 0 {
        return None;
    }
    let signed = chars[0] == '-' || chars[0] == '+';
    if signed && chars.len() == 1 {
        return None;
    }
    let start: usize = if signed {
        1
    } else {
        0
    };
    proof {
        assert(text@.skip(0) =~= text@);
        lemma_digits_value_nonnegative(text@.skip(start as int));
    }
    let magnitude: i64 = match digits_from(&chars, start) {
        Some(value) => value,
        None => {
            return None;
        },
    };
    let value: i64 = if chars[0] == '-' {
        -magnitude
    } else {
        magnitude
    };
    if value < -0x8000_0000 || value > 0x7fff_ffff {
        return None;
    }
    Some(value as i32)
}

/// The rest of the first line of a text that begins with the given prefix.
pub open spec fn line_value(s: Seq<char>, prefix: Seq<char>) -> Option<Seq<char>>
    decreases s.len(),
{
    let end = first_pos(s, '\n') as int;
    let line = s.take(end);
    if prefix.is_prefix_of(line) {
        Some(line.skip(prefix.len() as int))
    } else if s.len() > 0 && end < s.len() {
        line_value(s.skip(end + 1), prefix)
    } else {
        None
    }
}

/// The parent that the text of a process's status names.
pub open spec fn status_parent(status: Seq<char>) -> Option<i32> {
    match line_value(status, "PPid:\t"@) {
        Some(value) => pid_value(trim(value)),
        None => None,
    }
}

/// The parent that the text of a process's status names.
pub fn parent_pid_from_status(status: &str) -> (result: Option<i32>)
    ensures
        result == status_parent(status@),
{
    let mut rest = status;
    loop
        invariant
            line_value(status@, "PPid:\t"@) == line_value(rest@, "PPid:\t"@),
        decreases rest@.len(),
    {
        proof {
            lemma_first_pos(rest@, '\n');
        }
        match split_once(rest, '\n') {
            Some((line, after)) => {
                if let Some(value) = strip_prefix(line, "PPid:\t") {
                    return parse_pid(trimmed(value));
                }
                rest = after;
            },
            None => {
                assert(rest@.take(first_pos(rest@, '\n') as int) =~= rest@);
                return match strip_prefix(rest, "PPid:\t") {
                    Some(value) => parse_pid(trimmed(value)),
                    None => None,
                };
            },
        }
    }
}

/// A process and its parent.
#[derive(Clone, Copy, Debug, PartialEq, Eq, Structural)]
pub struct ProcessEntry {
    pub pid: i32,
    pub parent_pid: i32,
}

/// A process as the system lists it.
pub open spec fn listed_process(name: Seq<char>, status: Option<Seq<char>>) -> Option<
    ProcessEntry,
> {
    match (pid_value(name), status) {
        (Some(pid), Some(status)) => match status_parent(status) {
            Some(parent_pid) => Some(ProcessEntry { pid, parent_pid }),
            None => None,
        },
        _ => None,
    }
}

/// A process as the system lists it: its name in the listing and the text of
/// its status, where it can be read. Anything that is no process, or cannot
/// be read, is left out.
pub fn process_entry(name: &str, status: Option<&str>) -> (result: Option<ProcessEntry>)
    ensures
        result == listed_process(name@, crate::text::opt_str(status)),
{
    match (parse_pid(name), status) {
        (Some(pid), Some(status)) => match parent_pid_from_status(status) {
            Some(parent_pid) => Some(ProcessEntry { pid, parent_pid }),
            None => None,
        },
        _ => None,
    }
}

/// The children of one process.
pub open spec fn kids_of(children: Map<i32, Seq<i32>>, parent: i32) -> Seq<i32> {
    if children.contains_key(parent) {
        children[parent]
    } else {
        Seq::empty()
    }
}

/// The children of every process, in the order of the listing.
pub open spec fn children_by_parent(processes: Seq<ProcessEntry>) -> Map<i32, Seq<i32>>
    decreases processes.len(),
{
    if processes.len() == 0 {
        Map::empty()
    } else {
        let before = children_by_parent(processes.drop_last());
        let last = processes.last();
        before.insert(last.parent_pid, kids_of(before, last.parent_pid).push(last.pid))
    }
}

/// The descendants of the processes on a stack: the children of the topmost
/// one, which then are on the stack in its place, and so on. The children of
/// a process are taken once.
pub open spec fn tree_walk(children: Map<i32, Seq<i32>>, stack: Seq<i32>) -> Seq<i32>
    decreases children.dom().len(), stack.len(),
    when children.dom().finite()
{
    if stack.len() == 0 {
        Seq::empty()
    } else {
        let kids = kids_of(children, stack.last());
        kids + tree_walk(children.remove(stack.last()), stack.drop_last() + kids)
    }
}

/// The descendants of a process.
pub open spec fn process_descendants(processes: Seq<ProcessEntry>, root: i32) -> Seq<i32> {
    tree_walk(children_by_parent(processes), seq![root])
}

/// The children of every process, as sequences.
pub open spec fn kids_view(children: Map<i32, Vec<i32>>) -> Map<i32, Seq<i32>> {
    children.map_values(|list: Vec<i32>| list@)
}

fn gather_children(processes: &Vec<ProcessEntry>) -> (result: HashMap<i32, Vec<i32>>)
    ensures
        kids_view(result@) == children_by_parent(processes@),
{
    let mut children: HashMap<i32, Vec<i32>> = HashMap::new();
    let mut i: usize = 0;
    assert(kids_view(children@) =~= children_by_parent(processes@.take(0)));
    while i < processes.len()
        invariant
            i <= processes.len(),
            kids_view(children@) == children_by_parent(processes@.take(i as int)),
        decreases processes.len() - i,
    {
        let process = processes[i];
        let ghost before = kids_view(children@);
        let ghost all = children@;
        assert(processes@.take(i + 1).drop_last() =~= processes@.take(i as int));
        let mut kids: Vec<i32> = match children.remove(&process.parent_pid) {
            Some(kids) => kids,
            None => Vec::new(),
        };
        assert(kids@ =~= kids_of(before, process.parent_pid)) by {
            assert(before.contains_key(process.parent_pid) <==> all.contains_key(
                process.parent_pid,
            ));
        }
        kids.push(process.pid);
        children.insert(process.parent_pid, kids);
        i += 1;
        assert(kids_view(children@) =~= children_by_parent(processes@.take(i as int)));
    }
    assert(processes@.take(i as int) =~= processes@);
    children
}

#[verifier::spinoff_prover]
fn gather_descendants(children: HashMap<i32, Vec<i32>>, root: i32) -> (result: Vec<i32>)
    ensures
        result@ == tree_walk(kids_view(children@), seq![root]),
{
    let ghost all = kids_view(children@);
    let mut children = children;
    let mut descendants: Vec<i32> = Vec::new();
    let mut stack: Vec<i32> = Vec::new();
    stack.push(root);
    assert(stack@ =~= seq![root]);
    assert(descendants@ + tree_walk(all, stack@) =~= tree_walk(all, seq![root]));
    loop
        invariant
            children@.dom().finite(),
            descendants@ + tree_walk(kids_view(children@), stack@) == tree_walk(all, seq![root]),
        ensures
            stack@.len() == 0,
        decreases children@.dom().len(), stack@.len(),
    {
        let ghost before = children@;
        let ghost on_stack = stack@;
        let ghost done = descendants@;
        proof {
            assert(kids_view(before).dom() =~= before.dom());
        }
        match stack.pop() {
            Some(parent) => {
                let found = children.remove(&parent);
                assert(kids_view(children@) =~= kids_view(before).remove(parent));
                let ghost kids = kids_of(kids_view(before), parent);
                match found {
                    Some(list) => {
                        assert(list@ =~= kids);
                        descendants.extend_from_slice(list.as_slice());
                        stack.extend_from_slice(list.as_slice());
                        assert(descendants@ =~= done + kids);
                        assert(stack@ =~= on_stack.drop_last() + kids);
                    },
                    None => {
                        assert(descendants@ =~= done + kids);
                        assert(stack@ =~= on_stack.drop_last() + kids);
                    },
                }
                assert(descendants@ + tree_walk(kids_view(children@), stack@) =~= done
                    + tree_walk(kids_view(before), on_stack));
            },
            None => {
                break ;
            },
        }
    }
    assert(kids_view(children@).dom() =~= children@.dom());
    assert(descendants@ =~= tree_walk(all, seq![root]));
    descendants
}

/// How a process is ended together with all that descends from it.
pub struct TreeKillPlan {
    pub root: i32,
    /// The descendants in the order in which they are ended.
    pub descendants: Vec<i32>,
    /// The process and its descendants.
    pub tree: HashSet<i32>,
}

/// How a process is ended together with all that descends from it: its
/// descendants first, in the opposite order to that in which they are found,
/// so that none is ended before its own descendants.
pub fn kill_process_tree_by_pid(pid: u32, processes: &Vec<ProcessEntry>) -> (result: TreeKillPlan)
    ensures
        result.root == pid as i32,
        result.descendants@ == process_descendants(processes@, pid as i32).reverse(),
        forall|p: i32| #[trigger]
            result.tree@.contains(p) <==> p == pid as i32 || process_descendants(
                processes@,
                pid as i32,
            ).contains(p),
{
    let root: i32 = pid as i32;
    let found = gather_descendants(gather_children(processes), root);
    let mut tree: HashSet<i32> = HashSet::new();
    tree.insert(root);
    let mut descendants: Vec<i32> = Vec::new();
    let mut n: usize = found.len();
    assert(found@.skip(n as int).reverse() =~= Seq::<i32>::empty());
    while n > 0
        invariant
            n <= found@.len(),
            descendants@ == found@.skip(n as int).reverse(),
            forall|p: i32| #[trigger]
                tree@.contains(p) <==> p == root || found@.skip(n as int).contains(p),
        decreases n,
    {
        let ghost before = found@.skip(n as int);
        n -= 1;
        let ghost after = found@.skip(n as int);
        descendants.push(found[n]);
        tree.insert(found[n]);
        assert(descendants@ =~= after.reverse());
        assert forall|p: i32| #[trigger] tree@.contains(p) <==> p == root || after.contains(p) by {
            assert(after[0] == found@[n as int]);
            if before.contains(p) {
                let i = choose|i: int| 0 <= i < before.len() && before[i] == p;
                assert(after[i + 1] == p);
            }
            if after.contains(p) && p != after[0] {
                let i = choose|i: int| 0 <= i < after.len() && after[i] == p;
                assert(before[i - 1] == p);
            }
        }
    }
    assert(found@.skip(0) =~= found@);
    TreeKillPlan { root, descendants, tree }
}

impl TreeKillPlan {
    /// The group to end along with a descendant: its own, where the group
    /// belongs to the tree.
    pub fn group_to_kill(&self, group: Option<i32>) -> (result: Option<i32>)
        ensures
            result == (match group {
                Some(group) if group != -1 && self.tree@.contains(group) => Some(group),
                _ => None,
            }),
    {
        match group {
            Some(group) => {
                if group != -1 && self.tree.contains(&group) {
                    Some(group)
                } else {
                    None
                }
            },
            None => None,
        }
    }
}

/// The plan for a process tree once the processes of the system were asked
/// for. Where they cannot be listed, that is the end of it, and nothing is
/// signalled.
pub fn begin_process_tree_kill(
    pid: u32,
    listing: Result<Vec<ProcessEntry>, CallOutcome>,
) -> (result: Result<TreeKillPlan, CallOutcome>)
    ensures
        match listing {
            Ok(processes) => {
                &&& result matches Ok(plan)
                &&& plan.root == pid as i32
                &&& plan.descendants@ == process_descendants(processes@, pid as i32).reverse()
                &&& forall|p: i32| #[trigger]
                    plan.tree@.contains(p) <==> p == pid as i32 || process_descendants(
                        processes@,
                        pid as i32,
                    ).contains(p)
            },
            Err(outcome) => result matches Err(kept) && kept == outcome,
        },
{
    match listing {
        Ok(processes) => Ok(kill_process_tree_by_pid(pid, &processes)),
        Err(outcome) => Err(outcome),
    }
}

/// How far the ending of a process tree is; descendants are named by their
/// place in the plan.
#[derive(Clone, Copy, Debug, PartialEq, Eq, Structural)]
pub enum TreeKillState {
    Start,
    /// The group of a descendant is asked for.
    AskingGroup { at: usize },
    /// The group of a descendant is signalled.
    EndingGroup { at: usize },
    /// A descendant is signalled.
    EndingDescendant { at: usize },
    /// The group of the process itself is asked for.
    AskingRootGroup,
    /// The group of the process itself is signalled.
    EndingRootGroup,
    /// The process itself is signalled.
    EndingRoot,
}

/// What the system answers.
#[derive(Clone, Copy, Debug, PartialEq, Eq, Structural)]
pub enum TreeKillAnswer {
    /// Nothing was asked yet.
    Nothing,
    /// The group that was asked for, if there is one.
    Group(Option<i32>),
    /// What a signal came to.
    Signalled(CallOutcome),
}

/// What is done next to end a process tree.
#[derive(Clone, Copy, Debug, PartialEq, Eq, Structural)]
pub enum TreeKillAction {
    GetGroup(i32),
    /// Send all processes of a group the signal to end at once.
    EndGroup(i32),
    /// Send a process the signal to end at once.
    End(i32),
    /// The tree is ended; that is a success.
    Succeed,
}

/// The place that a state names is one of the plan's.
pub open spec fn is_tree_kill_state(plan: TreeKillPlan, state: TreeKillState) -> bool {
    match state {
        TreeKillState::AskingGroup { at } => at < plan.descendants@.len(),
        TreeKillState::EndingGroup { at } => at < plan.descendants@.len(),
        TreeKillState::EndingDescendant { at } => at < plan.descendants@.len(),
        _ => true,
    }
}

/// What is done about the descendant at a place; behind the last one, about
/// the process itself.
pub open spec fn next_in_tree(plan: TreeKillPlan, at: int) -> (
    Option<TreeKillState>,
    TreeKillAction,
) {
    if at < plan.descendants@.len() {
        (
            Some(TreeKillState::AskingGroup { at: at as usize }),
            TreeKillAction::GetGroup(plan.descendants@[at]),
        )
    } else {
        (Some(TreeKillState::AskingRootGroup), TreeKillAction::GetGroup(plan.root))
    }
}

/// What is done next to end a process tree. Each descendant is signalled,
/// after its group where that belongs to the tree; then the group of the
/// process, and the process. What came of a signal makes no difference.
pub open spec fn tree_kill_next(
    plan: TreeKillPlan,
    state: TreeKillState,
    answer: TreeKillAnswer,
) -> (Option<TreeKillState>, TreeKillAction) {
    match state {
        TreeKillState::Start => next_in_tree(plan, 0),
        TreeKillState::AskingGroup { at } => match answer {
            TreeKillAnswer::Group(Some(group)) if group != -1 && plan.tree@.contains(group) => (
                Some(TreeKillState::EndingGroup { at }),
                TreeKillAction::EndGroup(group),
            ),
            _ => (
                Some(TreeKillState::EndingDescendant { at }),
                TreeKillAction::End(plan.descendants@[at as int]),
            ),
        },
        TreeKillState::EndingGroup { at } => (
            Some(TreeKillState::EndingDescendant { at }),
            TreeKillAction::End(plan.descendants@[at as int]),
        ),
        TreeKillState::EndingDescendant { at } => next_in_tree(plan, at + 1),
        TreeKillState::AskingRootGroup => match answer {
            TreeKillAnswer::Group(Some(group)) => (
                Some(TreeKillState::EndingRootGroup),
                TreeKillAction::EndGroup(group),
            ),
            _ => (Some(TreeKillState::EndingRoot), TreeKillAction::End(plan.root)),
        },
        TreeKillState::EndingRootGroup => (
            Some(TreeKillState::EndingRoot),
            TreeKillAction::End(plan.root),
        ),
        TreeKillState::EndingRoot => (None, TreeKillAction::Succeed),
    }
}

impl TreeKillPlan {
    fn next_descendant(&self, at: usize) -> (result: (Option<TreeKillState>, TreeKillAction))
        ensures
            result == next_in_tree(*self, at as int),
    {
        if at < self.descendants.len() {
            (
                Some(TreeKillState::AskingGroup { at }),
                TreeKillAction::GetGroup(self.descendants[at]),
            )
        } else {
            (Some(TreeKillState::AskingRootGroup), TreeKillAction::GetGroup(self.root))
        }
    }

    /// What is done next to end the process tree, given what the system
    /// answered to what was done last: the state to go on with, if it is not
    /// over, and the action.
    pub fn kill_step(&self, state: TreeKillState, answer: TreeKillAnswer) -> (result: (
        Option<TreeKillState>,
        TreeKillAction,
    ))
        requires
            is_tree_kill_state(*self, state),
        ensures
            result == tree_kill_next(*self, state, answer),
            result.0 matches Some(next) ==> is_tree_kill_state(*self, next),
    {
        match state {
            TreeKillState::Start => self.next_descendant(0),
            TreeKillState::AskingGroup { at } => {
                let group = match answer {
                    TreeKillAnswer::Group(group) => self.group_to_kill(group),
                    _ => None,
                };
                match group {
                    Some(group) => (
                        Some(TreeKillState::EndingGroup { at }),
                        TreeKillAction::EndGroup(group),
                    ),
                    None => (
                        Some(TreeKillState::EndingDescendant { at }),
                        TreeKillAction::End(self.descendants[at]),
                    ),
                }
            },
            TreeKillState::EndingGroup { at } => (
                Some(TreeKillState::EndingDescendant { at }),
                TreeKillAction::End(self.descendants[at]),
            ),
            TreeKillState::EndingDescendant { at } => {
                let count: usize = self.descendants.len();
                assert(at < count);
                self.next_descendant(at + 1)
            },
            TreeKillState::AskingRootGroup => match answer {
                TreeKillAnswer::Group(Some(group)) => (
                    Some(TreeKillState::EndingRootGroup),
                    TreeKillAction::EndGroup(group),
                ),
                _ => (Some(TreeKillState::EndingRoot), TreeKillAction::End(self.root)),
            },
            TreeKillState::EndingRootGroup => (
                Some(TreeKillState::EndingRoot),
                TreeKillAction::End(self.root),
            ),
            TreeKillState::EndingRoot => (None, TreeKillAction::Succeed),
        }
    }
}

/// How much is left to do at most.
pub open spec fn tree_kill_rank(plan: TreeKillPlan, state: TreeKillState) -> nat {
    let count = plan.descendants@.len() as int;
    (match state {
        TreeKillState::Start => 3 * count + 4,
        TreeKillState::AskingGroup { at } => 3 * (count - at) + 3,
        TreeKillState::EndingGroup { at } => 3 * (count - at) + 2,
        TreeKillState::EndingDescendant { at } => 3 * (count - at) + 1,
        TreeKillState::AskingRootGroup => 3,
        TreeKillState::EndingRootGroup => 2,
        TreeKillState::EndingRoot => 1,
    }) as nat
}

/// All that is done from a state on, where the system answers what is given
/// for each state.
pub open spec fn tree_kill_actions(
    plan: TreeKillPlan,
    state: TreeKillState,
    answers: spec_fn(TreeKillState) -> TreeKillAnswer,
) -> Seq<TreeKillAction>
    decreases tree_kill_rank(plan, state),
    when is_tree_kill_state(plan, state)
{
    proof {
        assert(plan.descendants.len() == plan.descendants@.len());
    }
    let (next, action) = tree_kill_next(plan, state, answers(state));
    match next {
        Some(next) => seq![action] + tree_kill_actions(plan, next, answers),
        None => seq![action],
    }
}

/// The processes that are signalled one by one.
pub open spec fn ended(actions: Seq<TreeKillAction>) -> Seq<i32>
    decreases actions.len(),
{
    if actions.len() == 0 {
        Seq::empty()
    } else {
        match actions[0] {
            TreeKillAction::End(process) => seq![process] + ended(actions.skip(1)),
            _ => ended(actions.skip(1)),
        }
    }
}

/// The processes that are still to be signalled in a state.
spec fn still_to_end(plan: TreeKillPlan, state: TreeKillState) -> Seq<i32> {
    match state {
        TreeKillState::Start => plan.descendants@.push(plan.root),
        TreeKillState::AskingGroup { at } => plan.descendants@.skip(at as int).push(plan.root),
        TreeKillState::EndingGroup { at } => plan.descendants@.skip(at as int).push(plan.root),
        TreeKillState::EndingDescendant { at } => plan.descendants@.skip(at + 1).push(plan.root),
        TreeKillState::AskingRootGroup => seq![plan.root],
        TreeKillState::EndingRootGroup => seq![plan.root],
        TreeKillState::EndingRoot => Seq::empty(),
    }
}

proof fn lemma_ends_from(
    plan: TreeKillPlan,
    state: TreeKillState,
    answers: spec_fn(TreeKillState) -> TreeKillAnswer,
)
    requires
        is_tree_kill_state(plan, state),
    ensures
        ({
            let actions = tree_kill_actions(plan, state, answers);
            &&& ended(actions) == still_to_end(plan, state)
            &&& actions.len() > 0
            &&& actions.last() is Succeed
            &&& forall|i: int|
                0 <= i < actions.len() ==> ((#[trigger] actions[i]) matches TreeKillAction::EndGroup(
                    group,
                ) ==> plan.tree@.contains(group) || answers(TreeKillState::AskingRootGroup)
                    == TreeKillAnswer::Group(Some(group)))
        }),
    decreases tree_kill_rank(plan, state),
{
    let actions = tree_kill_actions(plan, state, answers);
    let (next, action) = tree_kill_next(plan, state, answers(state));
    assert(plan.descendants.len() == plan.descendants@.len());
    match next {
        Some(next) => {
            let rest = tree_kill_actions(plan, next, answers);
            assert(is_tree_kill_state(plan, next));
            lemma_ends_from(plan, next, answers);
            assert(actions =~= seq![action] + rest);
            assert(actions.skip(1) =~= rest);
            assert(actions.last() == rest.last());
            assert forall|i: int| 0 <= i < actions.len() implies ((
            #[trigger] actions[i]) matches TreeKillAction::EndGroup(group)
                ==> plan.tree@.contains(group) || answers(TreeKillState::AskingRootGroup)
                == TreeKillAnswer::Group(Some(group))) by {
                if i > 0 {
                    assert(actions[i] == rest[i - 1]);
                }
            }
            match state {
                TreeKillState::Start => {
                    assert(plan.descendants@.skip(0) =~= plan.descendants@);
                    if plan.descendants@.len() == 0 {
                        assert(plan.descendants@.push(plan.root) =~= seq![plan.root]);
                    }
                },
                TreeKillState::AskingGroup { at } => {
                    assert(plan.descendants@.skip(at as int).push(plan.root) =~= seq![
                        plan.descendants@[at as int],
                    ] + plan.descendants@.skip(at + 1).push(plan.root));
                },
                TreeKillState::EndingGroup { at } => {
                    assert(plan.descendants@.skip(at as int).push(plan.root) =~= seq![
                        plan.descendants@[at as int],
                    ] + plan.descendants@.skip(at + 1).push(plan.root));
                },
                TreeKillState::EndingDescendant { at } => {
                    if at + 1 == plan.descendants@.len() {
                        assert(plan.descendants@.skip(at + 1).push(plan.root) =~= seq![plan.root]);
                    }
                },
                _ => {
                    assert(seq![plan.root] + Seq::<i32>::empty() =~= seq![plan.root]);
                },
            }
            assert(actions[0] == action);
            assert(ended(actions) == (match action {
                TreeKillAction::End(process) => seq![process] + ended(rest),
                _ => ended(rest),
            }));
        },
        None => {
            assert(actions =~= seq![action]);
            assert(actions.skip(1) =~= Seq::<TreeKillAction>::empty());
            assert(ended(actions.skip(1)) =~= Seq::<i32>::empty());
            assert(ended(actions) =~= still_to_end(plan, state));
        },
    }
}

/// Whatever the system answers, and whether or not signals arrive, every
/// descendant is signalled in the order of the plan, and the process itself
/// last, each once for each time that it is listed; no other process is
/// signalled alone. A group is signalled only where it belongs to the tree, or
/// is the process's own. In the end that is a success.
pub proof fn lemma_tree_is_ended(
    plan: TreeKillPlan,
    answers: spec_fn(TreeKillState) -> TreeKillAnswer,
)
    ensures
        ({
            let actions = tree_kill_actions(plan, TreeKillState::Start, answers);
            &&& ended(actions) == plan.descendants@.push(plan.root)
            &&& actions.len() > 0
            &&& actions.last() is Succeed
            &&& forall|i: int|
                0 <= i < actions.len() ==> ((#[trigger] actions[i]) matches TreeKillAction::EndGroup(
                    group,
                ) ==> plan.tree@.contains(group) || answers(TreeKillState::AskingRootGroup)
                    == TreeKillAnswer::Group(Some(group)))
        }),
{
    lemma_ends_from(plan, TreeKillState::Start, answers);
}

/// How a process is ended with what belongs to it.
#[derive(Clone, Copy, Debug, PartialEq, Eq, Structural)]
pub enum TreeKillWay {
    /// Its descendants are looked for and ended with it.
    Tree,
    /// Its group is ended.
    Group,
    /// Nothing is done, and that is a success.
    Nothing,
}

/// How a process is ended with what belongs to it on a kind of system.
pub open spec fn way_on(system: SystemKind) -> TreeKillWay {
    match system {
        SystemKind::Linux => TreeKillWay::Tree,
        SystemKind::OtherUnix => TreeKillWay::Group,
        SystemKind::NotUnix => TreeKillWay::Nothing,
    }
}

/// How a process is ended with what belongs to it on a kind of system.
pub fn tree_kill_way(system: SystemKind) -> (result: TreeKillWay)
    ensures
        result == way_on(system),
{
    match system {
        SystemKind::Linux => TreeKillWay::Tree,
        SystemKind::OtherUnix => TreeKillWay::Group,
        SystemKind::NotUnix => TreeKillWay::Nothing,
    }
}

/// What is done next to end a process with what belongs to it where its
/// descendants are not looked for.
pub open spec fn tree_kill_fallback(
    system: SystemKind,
    pid: u32,
    progress: GroupKillProgress,
) -> Option<GroupKillAction> {
    match way_on(system) {
        TreeKillWay::Tree => None,
        TreeKillWay::Group => Some(group_kill_next(system, pid, progress)),
        TreeKillWay::Nothing => Some(GroupKillAction::Succeed),
    }
}

/// What is done next to end a process with what belongs to it where its
/// descendants are not looked for; nothing where they are.
pub fn kill_process_tree_without_listing(
    system: SystemKind,
    pid: u32,
    progress: GroupKillProgress,
) -> (result: Option<GroupKillAction>)
    ensures
        result == tree_kill_fallback(system, pid, progress),
{
    match tree_kill_way(system) {
        TreeKillWay::Tree => None,
        TreeKillWay::Group => Some(kill_process_group_by_pid(system, pid, progress)),
        TreeKillWay::Nothing => Some(GroupKillAction::Succeed),
    }
}

/// What the system answers while a process's group is ended.
pub ghost struct GroupAnswers {
    /// The group of the process, or why it is not known.
    pub group: Result<i32, CallOutcome>,
    /// What the signal to the group comes to.
    pub killed: CallOutcome,
}

/// All that is done to end a group: what is done first, and what follows from
/// the system's answers.
pub open spec fn group_actions(
    next: spec_fn(GroupKillProgress) -> GroupKillAction,
    answers: GroupAnswers,
) -> Seq<GroupKillAction> {
    let first = next(GroupKillProgress::Start);
    if first !is GetGroup {
        seq![first]
    } else {
        let second = next(GroupKillProgress::Group(answers.group));
        if second !is KillGroup {
            seq![first, second]
        } else {
            seq![first, second, next(GroupKillProgress::Killed(answers.killed))]
        }
    }
}

/// Where the system is not Linux, ending a process with what belongs to it is
/// ending its group: whatever the system answers, the same is asked, the same
/// is signalled, and the result is the same. Where there are no groups either,
/// nothing is asked or signalled, and that is a success.
pub proof fn lemma_tree_kill_falls_back_to_group(
    system: SystemKind,
    pid: u32,
    answers: GroupAnswers,
)
    requires
        system !is Linux,
    ensures
        way_on(system) !is Tree,
        forall|progress: GroupKillProgress| #[trigger]
            tree_kill_fallback(system, pid, progress) == Some(
                group_kill_next(system, pid, progress),
            ),
        ({
            let tree = group_actions(
                |progress: GroupKillProgress| tree_kill_fallback(system, pid, progress)->0,
                answers,
            );
            let group = group_actions(
                |progress: GroupKillProgress| group_kill_next(system, pid, progress),
                answers,
            );
            &&& tree == group
            &&& system is NotUnix ==> tree == seq![GroupKillAction::Succeed]
        }),
{
}

/// No process is listed twice.
pub open spec fn listed_once(processes: Seq<ProcessEntry>) -> bool {
    forall|i: int, j: int|
        0 <= i < j < processes.len() ==> (#[trigger] processes[i]).pid != (
        #[trigger] processes[j]).pid
}

/// No process has two places among the children of all processes.
spec fn apart(children: Map<i32, Seq<i32>>) -> bool {
    forall|p: i32, i: int, q: i32, j: int|
        0 <= i < kids_of(children, p).len() && 0 <= j < kids_of(children, q).len()
            && #[trigger] kids_of(children, p)[i] == #[trigger] kids_of(children, q)[j] ==> p == q
            && i == j
}

proof fn lemma_kids_apart(processes: Seq<ProcessEntry>)
    requires
        listed_once(processes),
    ensures
        apart(children_by_parent(processes)),
        forall|p: i32, i: int|
            0 <= i < kids_of(children_by_parent(processes), p).len() ==> exists|k: int|
                0 <= k < processes.len() && (#[trigger] processes[k]).pid == #[trigger] kids_of(
                    children_by_parent(processes),
                    p,
                )[i],
    decreases processes.len(),
{
    if processes.len() > 0 {
        let front = processes.drop_last();
        let before = children_by_parent(front);
        let after = children_by_parent(processes);
        let last = processes.last();
        lemma_kids_apart(front);
        assert forall|p: i32, i: int| 0 <= i < kids_of(after, p).len() implies exists|k: int|
            0 <= k < processes.len() && (#[trigger] processes[k]).pid == #[trigger] kids_of(
                after,
                p,
            )[i] by {
            if i < kids_of(before, p).len() {
                assert(kids_of(before, p)[i] == kids_of(after, p)[i]);
                let k = choose|k: int|
                    0 <= k < front.len() && (#[trigger] front[k]).pid == kids_of(before, p)[i];
                assert(processes[k] == front[k]);
            } else {
                assert(processes[processes.len() - 1].pid == kids_of(after, p)[i]);
            }
        }
        assert forall|p: i32, i: int, q: i32, j: int|
            0 <= i < kids_of(after, p).len() && 0 <= j < kids_of(after, q).len()
                && #[trigger] kids_of(after, p)[i] == #[trigger] kids_of(after, q)[j] implies p == q
            && i == j by {
            if i < kids_of(before, p).len() {
                assert(kids_of(before, p)[i] == kids_of(after, p)[i]);
                let k = choose|k: int|
                    0 <= k < front.len() && (#[trigger] front[k]).pid == kids_of(before, p)[i];
                assert(processes[k] == front[k]);
                assert(processes[k].pid != processes[processes.len() - 1].pid);
            }
            if j < kids_of(before, q).len() {
                assert(kids_of(before, q)[j] == kids_of(after, q)[j]);
                let k = choose|k: int|
                    0 <= k < front.len() && (#[trigger] front[k]).pid == kids_of(before, q)[j];
                assert(processes[k] == front[k]);
                assert(processes[k].pid != processes[processes.len() - 1].pid);
            }
        }
    }
}

/// A process is listed as the child of some process.
spec fn is_some_kid(children: Map<i32, Seq<i32>>, process: i32) -> bool {
    exists|p: i32, i: int|
        0 <= i < kids_of(children, p).len() && #[trigger] kids_of(children, p)[i] == process
}

proof fn lemma_walk_once(children: Map<i32, Seq<i32>>, stack: Seq<i32>)
    requires
        children.dom().finite(),
        apart(children),
    ensures
        tree_walk(children, stack).no_duplicates(),
        forall|n: int|
            0 <= n < tree_walk(children, stack).len() ==> is_some_kid(
                children,
                #[trigger] tree_walk(children, stack)[n],
            ),
    decreases children.dom().len(), stack.len(),
{
    if stack.len() > 0 {
        let top = stack.last();
        let kids = kids_of(children, top);
        let left = children.remove(top);
        let rest = tree_walk(left, stack.drop_last() + kids);
        let walk = tree_walk(children, stack);
        assert(walk == kids + rest);
        assert forall|p: i32| p != top implies #[trigger] kids_of(left, p) == kids_of(
            children,
            p,
        ) by {}
        assert(kids_of(left, top) =~= Seq::<i32>::empty());
        assert(apart(left));
        lemma_walk_once(left, stack.drop_last() + kids);
        assert forall|n: int| 0 <= n < walk.len() implies is_some_kid(
            children,
            #[trigger] walk[n],
        ) by {
            if n < kids.len() {
                assert(kids_of(children, top)[n] == walk[n]);
            } else {
                assert(walk[n] == rest[n - kids.len()]);
                let (p, i) = choose|p: i32, i: int|
                    0 <= i < kids_of(left, p).len() && #[trigger] kids_of(left, p)[i]
                        == rest[n - kids.len()];
                assert(kids_of(children, p)[i] == walk[n]);
            }
        }
        assert forall|m: int, n: int|
            0 <= m < n < walk.len() implies walk[m] != walk[n] by {
            if n < kids.len() {
                assert(kids_of(children, top)[m] == walk[m]);
                assert(kids_of(children, top)[n] == walk[n]);
            } else if m >= kids.len() {
                assert(walk[m] == rest[m - kids.len()]);
                assert(walk[n] == rest[n - kids.len()]);
            } else {
                assert(kids_of(children, top)[m] == walk[m]);
                assert(walk[n] == rest[n - kids.len()]);
                let (p, i) = choose|p: i32, i: int|
                    0 <= i < kids_of(left, p).len() && #[trigger] kids_of(left, p)[i]
                        == rest[n - kids.len()];
                assert(p != top);
                assert(kids_of(children, p)[i] == walk[n]);
            }
        }
    }
}

/// Where no process is listed twice, no process is signalled alone twice when
/// a process tree is ended, unless the listing makes the process its own
/// descendant.
pub proof fn lemma_each_process_is_ended_once(
    processes: Seq<ProcessEntry>,
    plan: TreeKillPlan,
    answers: spec_fn(TreeKillState) -> TreeKillAnswer,
)
    requires
        listed_once(processes),
        plan.descendants@ == process_descendants(processes, plan.root).reverse(),
    ensures
        plan.descendants@.no_duplicates(),
        !process_descendants(processes, plan.root).contains(plan.root) ==> ended(
            tree_kill_actions(plan, TreeKillState::Start, answers),
        ).no_duplicates(),
{
    let walk = process_descendants(processes, plan.root);
    lemma_tree_is_ended(plan, answers);
    lemma_kids_apart(processes);
    lemma_children_finite(processes);
    lemma_walk_once(children_by_parent(processes), seq![plan.root]);
    assert forall|m: int, n: int|
        0 <= m < n < plan.descendants@.len() implies plan.descendants@[m]
        != plan.descendants@[n] by {
        assert(plan.descendants@[m] == walk[walk.len() - 1 - m]);
        assert(plan.descendants@[n] == walk[walk.len() - 1 - n]);
    }
    if !walk.contains(plan.root) {
        let all = plan.descendants@.push(plan.root);
        assert forall|m: int, n: int| 0 <= m < n < all.len() implies all[m] != all[n] by {
            assert(all[m] == walk[walk.len() - 1 - m]);
        }
    }
}

/// One process is a child of another.
pub open spec fn is_kid(children: Map<i32, Seq<i32>>, parent: i32, child: i32) -> bool {
    children.contains_key(parent) && children[parent].contains(child)
}

/// The descendant at the given place stands behind one of its parents, or is a
/// child of a process on the stack.
pub open spec fn has_parent_before(
    children: Map<i32, Seq<i32>>,
    stack: Seq<i32>,
    found: Seq<i32>,
    j: int,
) -> bool {
    exists|parent: i32| #[trigger]
        is_kid(children, parent, found[j]) && (stack.contains(parent) || found.take(j).contains(
            parent,
        ))
}

/// Each descendant that is found stands behind one of its parents, or is a
/// child of a process on the stack.
pub open spec fn parents_first(
    children: Map<i32, Seq<i32>>,
    stack: Seq<i32>,
    found: Seq<i32>,
) -> bool {
    forall|j: int|
        0 <= j < found.len() ==> #[trigger] has_parent_before(children, stack, found, j)
}

proof fn lemma_walk_parents_first(children: Map<i32, Seq<i32>>, stack: Seq<i32>)
    requires
        children.dom().finite(),
    ensures
        parents_first(children, stack, tree_walk(children, stack)),
    decreases children.dom().len(), stack.len(),
{
    if stack.len() > 0 {
        let top = stack.last();
        let kids = kids_of(children, top);
        let fewer = children.remove(top);
        let next = stack.drop_last() + kids;
        let rest = tree_walk(fewer, next);
        let all = tree_walk(children, stack);
        assert(fewer.dom() =~= children.dom().remove(top));
        if !children.contains_key(top) {
            assert(fewer =~= children);
            assert(next =~= stack.drop_last());
        }
        lemma_walk_parents_first(fewer, next);
        assert(all =~= kids + rest);
        assert(stack[stack.len() - 1] == top);
        assert forall|j: int| 0 <= j < all.len() implies #[trigger] has_parent_before(
            children,
            stack,
            all,
            j,
        ) by {
            if j < kids.len() {
                assert(all[j] == kids[j]);
                assert(is_kid(children, top, all[j]));
                assert(stack.contains(top));
            } else {
                let k = j - kids.len();
                assert(all[j] == rest[k]);
                assert(has_parent_before(fewer, next, rest, k));
                let parent = choose|parent: i32| #[trigger]
                    is_kid(fewer, parent, rest[k]) && (next.contains(parent) || rest.take(
                        k,
                    ).contains(parent));
                assert(is_kid(children, parent, all[j]));
                if next.contains(parent) {
                    let i = choose|i: int| 0 <= i < next.len() && next[i] == parent;
                    if i < stack.len() - 1 {
                        assert(stack[i] == parent);
                    } else {
                        let m = i - (stack.len() - 1);
                        assert(kids[m] == parent);
                        assert(all.take(j)[m] == parent);
                    }
                } else {
                    let i = choose|i: int| 0 <= i < rest.take(k).len() && rest.take(k)[i] == parent;
                    assert(all.take(j)[kids.len() + i] == parent);
                }
            }
        }
    }
}

/// Every descendant of a process stands, in the order in which they are found,
/// behind one of its parents or is a child of the process itself: ended in
/// the opposite order, none is ended before what it is found through.
pub proof fn lemma_descendants_after_parents(processes: Seq<ProcessEntry>, root: i32)
    ensures
        parents_first(
            children_by_parent(processes),
            seq![root],
            process_descendants(processes, root),
        ),
{
    lemma_children_finite(processes);
    lemma_walk_parents_first(children_by_parent(processes), seq![root]);
}

proof fn lemma_children_finite(processes: Seq<ProcessEntry>)
    ensures
        children_by_parent(processes).dom().finite(),
    decreases processes.len(),
{
    if processes.len() > 0 {
        lemma_children_finite(processes.drop_last());
    }
}

proof fn lemma_walk_closed(children: Map<i32, Seq<i32>>, stack: Seq<i32>)
    requires
        children.dom().finite(),
    ensures
        forall|parent: i32, child: i32|
            (stack.contains(parent) || tree_walk(children, stack).contains(parent)) && #[trigger]
                is_kid(children, parent, child) ==> tree_walk(children, stack).contains(child),
    decreases children.dom().len(), stack.len(),
{
    let all = tree_walk(children, stack);
    if stack.len() == 0 {
        assert(all =~= Seq::<i32>::empty());
    } else {
        let top = stack.last();
        let kids = kids_of(children, top);
        let fewer = children.remove(top);
        let next = stack.drop_last() + kids;
        let rest = tree_walk(fewer, next);
        assert(fewer.dom() =~= children.dom().remove(top));
        if !children.contains_key(top) {
            assert(fewer =~= children);
            assert(next =~= stack.drop_last());
        }
        lemma_walk_closed(fewer, next);
        assert(all =~= kids + rest);
        assert forall|parent: i32, child: i32|
            (stack.contains(parent) || all.contains(parent)) && #[trigger] is_kid(
                children,
                parent,
                child,
            ) implies all.contains(child) by {
            if parent == top {
                let i = choose|i: int| 0 <= i < kids.len() && kids[i] == child;
                assert(all[i] == child);
            } else {
                assert(is_kid(fewer, parent, child));
                if stack.contains(parent) {
                    let i = choose|i: int| 0 <= i < stack.len() && stack[i] == parent;
                    assert(next[i] == parent);
                } else {
                    let i = choose|i: int| 0 <= i < all.len() && all[i] == parent;
                    if i < kids.len() {
                        assert(next[stack.len() - 1 + i] == parent);
                    } else {
                        assert(rest[i - kids.len()] == parent);
                    }
                }
                assert(rest.contains(child));
                let i = choose|i: int| 0 <= i < rest.len() && rest[i] == child;
                assert(all[kids.len() + i] == child);
            }
        }
    }
}

/// No process escapes: the children of the process, and of every descendant
/// that is found, are found too.
pub proof fn lemma_no_descendant_escapes(
    processes: Seq<ProcessEntry>,
    root: i32,
    parent: i32,
    child: i32,
)
    requires
        parent == root || process_descendants(processes, root).contains(parent),
        is_kid(children_by_parent(processes), parent, child),
    ensures
        process_descendants(processes, root).contains(child),
{
    lemma_children_finite(processes);
    lemma_walk_closed(children_by_parent(processes), seq![root]);
    assert(seq![root][0] == root);
}

/// Every listed process is a child of its parent.
pub proof fn lemma_listed_is_kid(processes: Seq<ProcessEntry>, i: int)
    requires
        0 <= i < processes.len(),
    ensures
        is_kid(children_by_parent(processes), processes[i].parent_pid, processes[i].pid),
    decreases processes.len(),
{
    let front = processes.drop_last();
    let last = processes.last();
    let before = children_by_parent(front);
    let kids = kids_of(before, last.parent_pid).push(last.pid);
    if i == processes.len() - 1 {
        assert(kids[kids.len() - 1] == last.pid);
    } else {
        lemma_listed_is_kid(front, i);
        if processes[i].parent_pid == last.parent_pid {
            let list = before[last.parent_pid];
            let k = choose|k: int| 0 <= k < list.len() && list[k] == processes[i].pid;
            assert(kids[k] == processes[i].pid);
        }
    }
}

/// One more process is put behind the other children of its parent, and no
/// other process gets or loses a child; without processes nobody has any.
pub proof fn lemma_one_more_process(
    processes: Seq<ProcessEntry>,
    process: ProcessEntry,
    parent: i32,
)
    ensures
        kids_of(children_by_parent(Seq::empty()), parent).len() == 0,
        kids_of(children_by_parent(processes.push(process)), parent) == if parent
            == process.parent_pid {
            kids_of(children_by_parent(processes), parent).push(process.pid)
        } else {
            kids_of(children_by_parent(processes), parent)
        },
{
    assert(processes.push(process).drop_last() =~= processes);
}

/// A process counts as the child of another only where it is listed with that
/// parent.
pub proof fn lemma_kid_is_listed(processes: Seq<ProcessEntry>, parent: i32, child: i32)
    requires
        is_kid(children_by_parent(processes), parent, child),
    ensures
        processes.contains(ProcessEntry { pid: child, parent_pid: parent }),
    decreases processes.len(),
{
    if processes.len() > 0 {
        let front = processes.drop_last();
        let last = processes.last();
        let before = kids_of(children_by_parent(front), parent);
        let n = processes.len() - 1;
        assert(processes =~= front.push(last));
        if last.parent_pid == parent {
            let all = before.push(last.pid);
            let k = choose|k: int| 0 <= k < all.len() && all[k] == child;
            if k == before.len() {
                assert(processes[n] == (ProcessEntry { pid: child, parent_pid: parent }));
            } else {
                assert(before[k] == child);
                assert(is_kid(children_by_parent(front), parent, child));
            }
        }
        if is_kid(children_by_parent(front), parent, child) {
            lemma_kid_is_listed(front, parent, child);
            let k = choose|k: int|
                0 <= k < front.len() && front[k] == (ProcessEntry {
                    pid: child,
                    parent_pid: parent,
                });
            assert(processes[k] == front[k]);
        }
    }
}

/// A row of characters is a number exactly when all of them are digits, and
/// one more digit counts ten times what was before it and itself.
pub proof fn lemma_digits_are_a_number(s: Seq<char>, c: char)
    ensures
        digits_value(Seq::empty()) == Some(0int),
        '0' <= c <= '9' && digits_value(s) is Some ==> digits_value(s.push(c)) == Some(
            digits_value(s)->0 * 10 + (c as int - '0' as int),
        ),
        c < '0' || c > '9' || digits_value(s) is None ==> digits_value(s.push(c)) is None,
{
    assert(s.push(c).drop_last() =~= s);
}

proof fn lemma_digits_of_decimal(n: nat)
    ensures
        digits_value(decimal(n)) == Some(n as int),
        decimal(n).len() > 0,
        '0' <= decimal(n)[0] <= '9',
    decreases n,
{
    if n < 10 {
        assert(decimal(n).drop_last() =~= Seq::<char>::empty());
        assert(digits_value(Seq::<char>::empty()) == Some(0int));
    } else {
        lemma_digits_of_decimal(n / 10);
        assert(decimal(n).drop_last() =~= decimal(n / 10));
        assert(decimal(n)[0] == decimal(n / 10)[0]);
    }
}

/// The identity of a process is read back from its decimal notation. A number
/// that does not fit, an empty text and a sign alone are no identity; a plus
/// sign changes nothing.
pub proof fn lemma_identities_are_read_back(n: int)
    ensures
        number_value(signed_decimal(n)) == Some(n),
        n >= 0 ==> number_value(seq!['+'] + decimal(n as nat)) == Some(n),
        i32::MIN <= n <= i32::MAX ==> pid_value(signed_decimal(n)) == Some(n as i32),
        n < i32::MIN || n > i32::MAX ==> pid_value(signed_decimal(n)) is None,
        pid_value(Seq::empty()) is None,
        pid_value(seq!['-']) is None,
        pid_value(seq!['+']) is None,
{
    let digits = if n < 0 {
        decimal((-n) as nat)
    } else {
        decimal(n as nat)
    };
    if n < 0 {
        lemma_digits_of_decimal((-n) as nat);
        assert(signed_decimal(n).skip(1) =~= digits);
    } else {
        lemma_digits_of_decimal(n as nat);
        let signed = seq!['+'] + digits;
        assert(signed.skip(1) =~= digits);
        assert(signed[0] == '+');
    }
    let minus: Seq<char> = seq!['-'];
    let plus: Seq<char> = seq!['+'];
    assert(minus[0] == '-' && minus.len() == 1);
    assert(plus[0] == '+' && plus.len() == 1);
}

/// The value is taken from the first line that begins with the prefix: lines
/// before it are passed over, and those behind it do not count.
pub proof fn lemma_first_line_with_the_prefix(line: Seq<char>, rest: Seq<char>, prefix: Seq<char>)
    requires
        !line.contains('\n'),
    ensures
        prefix.is_prefix_of(line) ==> line_value(line, prefix) == Some(
            line.skip(prefix.len() as int),
        ) && line_value(line + seq!['\n'] + rest, prefix) == Some(line.skip(prefix.len() as int)),
        !prefix.is_prefix_of(line) ==> line_value(line, prefix) is None && line_value(
            line + seq!['\n'] + rest,
            prefix,
        ) == line_value(rest, prefix),
{
    let all = line + seq!['\n'] + rest;
    let n = line.len() as int;
    lemma_first_pos(all, '\n');
    lemma_first_pos(line, '\n');
    assert(all[n] == '\n');
    assert(all.contains('\n'));
    assert forall|i: int| 0 <= i < n implies all[i] != '\n' by {
        assert(all[i] == line[i]);
        assert(line.contains(line[i]));
    }
    assert(first_pos(all, '\n') == n);
    assert(all.take(n) =~= line);
    assert(all.skip(n + 1) =~= rest);
    assert(line.take(n) =~= line);
}

/// The parent of a process is the number behind `PPid:` in its status.
pub proof fn lemma_parent_in_a_status(before: Seq<char>, rest: Seq<char>, parent: i32)
    requires
        line_value(before, "PPid:\t"@) is None,
        before.len() == 0 || before.last() == '\n',
    ensures
        status_parent(before) is None,
        status_parent("PPid:\t"@ + signed_decimal(parent as int) + seq!['\n'] + rest) == Some(
            parent,
        ),
{
    reveal_strlit("PPid:\t");
    let prefix = "PPid:\t"@;
    let value = signed_decimal(parent as int);
    let line = prefix + value;
    crate::text::lemma_decimal_shows_the_number(
        (if parent < 0 {
            -(parent as int)
        } else {
            parent as int
        }) as nat,
    );
    assert forall|i: int| 0 <= i < value.len() implies value[i] == '-' || '0' <= #[trigger] value[i]
        <= '9' by {
        if parent < 0 && i > 0 {
            assert(value[i] == decimal((-(parent as int)) as nat)[i - 1]);
        }
    }
    assert(!line.contains('\n')) by {
        assert forall|i: int| 0 <= i < line.len() implies line[i] != '\n' by {
            if i >= prefix.len() {
                assert(line[i] == value[i - prefix.len()]);
            }
        }
    }
    lemma_first_line_with_the_prefix(line, rest, prefix);
    assert(prefix.is_prefix_of(line));
    assert(line.skip(prefix.len() as int) =~= value);
    let span = crate::text::lemma_trim_keeps_the_middle(value);
    assert(value.len() > 0);
    assert(!crate::text::is_whitespace(value[0]));
    assert(!crate::text::is_whitespace(value[value.len() - 1]));
    assert(span.0 == 0 && span.1 == value.len());
    assert(value.subrange(0, value.len() as int) =~= value);
    lemma_identities_are_read_back(parent as int);
}

/// The group of a process is asked for and ended at once. A process or a group
/// that is gone is a success, any other failure fails. Where there are no
/// groups that is a success at once.
pub proof fn lemma_ending_a_group(
    system: SystemKind,
    pid: u32,
    group: i32,
    outcome: CallOutcome,
    progress: GroupKillProgress,
)
    ensures
        system is NotUnix ==> group_kill_next(system, pid, progress) is Succeed,
        system !is NotUnix ==> {
            &&& group_kill_next(system, pid, GroupKillProgress::Start) == GroupKillAction::GetGroup(
                pid as i32,
            )
            &&& group_kill_next(system, pid, GroupKillProgress::Group(Ok(group)))
                == GroupKillAction::KillGroup(group)
            &&& outcome is NotFound ==> group_kill_next(
                system,
                pid,
                GroupKillProgress::Group(Err(outcome)),
            ) is Succeed
            &&& outcome !is NotFound ==> group_kill_next(
                system,
                pid,
                GroupKillProgress::Group(Err(outcome)),
            ) == GroupKillAction::Fail(outcome)
            &&& group_kill_next(system, pid, GroupKillProgress::Killed(outcome)) == group_killed(
                outcome,
            )
        },
        group_killed(CallOutcome::Done) is Succeed,
        group_killed(CallOutcome::NotFound) is Succeed,
        group_killed(CallOutcome::NotPermitted) == GroupKillAction::Fail(
            CallOutcome::NotPermitted,
        ),
        group_killed(CallOutcome::Failed) == GroupKillAction::Fail(CallOutcome::Failed),
        way_on(SystemKind::Linux) is Tree,
        way_on(SystemKind::OtherUnix) is Group,
        way_on(SystemKind::NotUnix) is Nothing,
{
}

/// The group of a descendant is ended before the descendant, and exactly where
/// the group is known and belongs to the tree; the group of the process itself
/// wherever it is known. Whatever comes of a signal, the next one follows.
pub proof fn lemma_groups_before_processes(
    plan: TreeKillPlan,
    at: usize,
    group: i32,
    outcome: CallOutcome,
)
    requires
        at < plan.descendants@.len(),
    ensures
        ({
            let process = plan.descendants@[at as int];
            let asked = TreeKillState::AskingGroup { at };
            let ends = tree_kill_next(plan, asked, TreeKillAnswer::Group(Some(group)));
            let after = tree_kill_next(
                plan,
                TreeKillState::EndingGroup { at },
                TreeKillAnswer::Signalled(outcome),
            );
            &&& plan.tree@.contains(group) && group != -1 ==> ends == (
                Some(TreeKillState::EndingGroup { at }),
                TreeKillAction::EndGroup(group),
            )
            &&& !plan.tree@.contains(group) || group == -1 ==> ends.1 == TreeKillAction::End(
                process,
            )
            &&& tree_kill_next(plan, asked, TreeKillAnswer::Group(None)).1 == TreeKillAction::End(
                process,
            )
            &&& after == (
                Some(TreeKillState::EndingDescendant { at }),
                TreeKillAction::End(process),
            )
        }),
        tree_kill_next(
            plan,
            TreeKillState::AskingRootGroup,
            TreeKillAnswer::Group(Some(group)),
        ).1 == TreeKillAction::EndGroup(group),
        tree_kill_next(plan, TreeKillState::AskingRootGroup, TreeKillAnswer::Group(None)).1
            == TreeKillAction::End(plan.root),
        tree_kill_next(
            plan,
            TreeKillState::EndingRootGroup,
            TreeKillAnswer::Signalled(outcome),
        ).1 == TreeKillAction::End(plan.root),
{
}

/// To be ended with its parent a process asks for that, and once it may looks
/// who its parent is: it signals itself exactly where that is another one than
/// before. It fails where it may not ask. On other systems nothing is done.
pub proof fn lemma_ended_with_the_parent(
    system: SystemKind,
    parent_pid: i32,
    current: i32,
    outcome: CallOutcome,
    progress: DeathSignalProgress,
)
    ensures
        system !is Linux ==> death_signal_next(system, parent_pid, progress) is Succeed,
        system is Linux ==> {
            &&& death_signal_next(system, parent_pid, DeathSignalProgress::Start) is Request
            &&& death_signal_next(system, parent_pid, DeathSignalProgress::Requested(outcome))
                is GetParent <==> outcome is Done
            &&& death_signal_next(system, parent_pid, DeathSignalProgress::Requested(outcome))
                is Fail <==> outcome !is Done
            &&& death_signal_next(system, parent_pid, DeathSignalProgress::Parent(current))
                is Raise <==> current != parent_pid
            &&& death_signal_next(system, parent_pid, DeathSignalProgress::Parent(current))
                is Succeed <==> current == parent_pid
            &&& death_signal_next(system, parent_pid, DeathSignalProgress::Raised) is Succeed
        },
{
}

/// A process leaves its terminal by starting a session of its own; only where
/// that is not permitted does it start a group instead. It succeeds where one of
/// the two did, and fails where the last that was tried did not.
pub proof fn lemma_leaving_the_terminal(
    system: SystemKind,
    session: CallOutcome,
    group: Option<CallOutcome>,
    outcome: CallOutcome,
)
    ensures
        system is NotUnix ==> detach_next(system, Some(session), group) is Succeed && detach_next(
            system,
            None,
            group,
        ) is Succeed && own_group_next(system, group) is Succeed,
        system !is NotUnix ==> {
            &&& detach_next(system, None, group) is NewSession
            &&& session is Done ==> detach_next(system, Some(session), group) is Succeed
            &&& session is NotFound || session is Failed ==> detach_next(
                system,
                Some(session),
                group,
            ) is Fail
            &&& session is NotPermitted ==> detach_next(system, Some(session), group)
                == own_group_next(system, group)
            &&& own_group_next(system, None) is NewGroup
            &&& own_group_next(system, Some(outcome)) is Succeed <==> outcome is Done
            &&& own_group_next(system, Some(outcome)) is Fail <==> outcome !is Done
        },
{
}

/// A group is signalled once. To end it at once succeeds also where it is gone;
/// to ask it to end tells whether it got the signal, which one that is gone did
/// not. Any other failure is told. Without groups nothing is signalled, and
/// neither is anything for a child that has no identity any more.
pub proof fn lemma_signals_to_groups(
    system: SystemKind,
    group: u32,
    outcome: CallOutcome,
    progress: GroupKillProgress,
)
    ensures
        system !is NotUnix ==> {
            &&& kill_group_next(system, group, None) == GroupKillAction::KillGroup(group as i32)
            &&& kill_group_next(system, group, Some(outcome)) is Succeed <==> outcome is Done
                || outcome is NotFound
            &&& outcome is NotPermitted || outcome is Failed ==> kill_group_next(
                system,
                group,
                Some(outcome),
            ) == GroupKillAction::Fail(outcome)
            &&& terminate_next(system, group, None) == TerminateAction::Signal(group as i32)
            &&& terminate_next(system, group, Some(CallOutcome::Done)) == TerminateAction::Return(
                true,
            )
            &&& terminate_next(system, group, Some(CallOutcome::NotFound))
                == TerminateAction::Return(false)
            &&& outcome is NotPermitted || outcome is Failed ==> terminate_next(
                system,
                group,
                Some(outcome),
            ) == TerminateAction::Fail(outcome)
        },
        system is NotUnix ==> kill_group_next(system, group, None) is Succeed && terminate_next(
            system,
            group,
            None,
        ) == TerminateAction::Return(false),
        child_group_kill_next(system, None, progress) is Succeed,
        child_group_kill_next(system, Some(group), progress) == group_kill_next(
            system,
            group,
            progress,
        ),
{
}

/// What the system lists is a process where its name is a number and its status
/// names a parent; it has that number and that parent.
pub proof fn lemma_what_is_listed_as_a_process(name: Seq<char>, status: Seq<char>)
    ensures
        listed_process(name, None) is None,
        pid_value(name) is None ==> listed_process(name, Some(status)) is None,
        status_parent(status) is None ==> listed_process(name, Some(status)) is None,
        pid_value(name) is Some && status_parent(status) is Some ==> listed_process(
            name,
            Some(status),
        ) is Some && listed_process(name, Some(status))->0.pid == pid_value(name)->0
            && listed_process(name, Some(status))->0.parent_pid == status_parent(status)->0,
{
}

} // verus!
