//! Watching one generation of a child's work until its completion can be told
//! to the parent. The watcher is a machine: each phase asks for one thing, and
//! the answer decides the next phase.

use vstd::prelude::*;
use crate::agent::{is_final, is_final_status, AgentStatus, ThreadId};
use crate::wake::{
    is_leaf_only, is_superseded, AgentWakeDescendantPolicy, ParentWakeSubscription, WakeState,
};

verus! {

/// How long to wait before a notice that was not delivered is tried again.
pub const NOTICE_RETRY_MS: u64 = 250;

/// How often a watcher looks again while descendants block a wake.
pub const LEAF_ONLY_POLL_MS: u64 = 25;

/// Which completion a watcher waits for.
#[derive(Clone, Copy, Debug, PartialEq, Eq, Structural)]
pub enum CompletionWatcherMode {
    /// One that has happened already counts.
    CurrentOrNextTerminal,
    /// The status has to change first.
    NextStatusChangeThenTerminal,
}

/// Where a watcher stands.
#[derive(Debug)]
pub enum WatchPhase {
    /// It wants to see the child's status changes.
    Subscribe { mode: CompletionWatcherMode },
    /// The child was final from the start; the first change is awaited.
    FirstChange,
    /// The child works; a final status is awaited.
    Terminal,
    /// No more changes will come; the last status is asked for.
    Closed,
    /// The child is final; whether its descendants are active is asked.
    Descendants { status: AgentStatus },
    /// Descendants blocked the wake: whether they still do.
    LeafDescendants,
    /// They do not; the child's status now.
    LeafStatus,
    /// A change or the next look is awaited.
    LeafPause,
    /// No more changes will come while blocked.
    LeafClosed,
    /// The child became final again: whether descendants still block.
    LeafChangeDescendants { status: AgentStatus },
    /// They do not: whether the child is about to work again.
    LeafChangeTurn { status: AgentStatus },
    /// The pause is over: whether descendants still block.
    LeafLookDescendants,
    /// They do not; the child's status now.
    LeafLookStatus,
    /// It is final: whether the child is about to work again.
    LeafLookTurn { status: AgentStatus },
    /// Over, with the status to tell of, if any.
    Done(Option<AgentStatus>),
}

/// What a watcher asks for.
#[derive(Clone, Copy, Debug, PartialEq, Eq, Structural)]
pub enum WatchAction {
    Subscribe,
    AwaitChange,
    AwaitChangeOrPause,
    GetStatus,
    AskDescendants,
    AskTurn,
    Nothing,
}

/// What a watcher hears.
#[derive(Debug)]
pub enum WatchEvent {
    /// Changes can be seen; the status at the start.
    Subscribed(AgentStatus),
    SubscribeFailed,
    Changed(AgentStatus),
    ChangesClosed,
    PauseOver,
    Status(AgentStatus),
    ActiveDescendants(bool),
    ScheduledOrActiveTurn(bool),
}

/// A final status can be told of at once, unless the child's descendants may
/// block it.
pub open spec fn on_final(
    subscriptions: Map<u128, ParentWakeSubscription>,
    child: ThreadId,
    status: AgentStatus,
) -> WatchPhase {
    if is_leaf_only(subscriptions, child) {
        WatchPhase::Descendants { status }
    } else {
        WatchPhase::Done(Some(status))
    }
}

/// A superseded watcher stops; else the child works or is final.
pub open spec fn on_status(
    subscriptions: Map<u128, ParentWakeSubscription>,
    child: ThreadId,
    generation: u64,
    status: AgentStatus,
) -> WatchPhase {
    if is_superseded(subscriptions, child, generation) {
        WatchPhase::Done(None)
    } else if !is_final_status(status) {
        WatchPhase::Terminal
    } else {
        on_final(subscriptions, child, status)
    }
}

/// The changes ended: a superseded watcher stops, another asks for the last
/// status.
pub open spec fn on_closed(
    subscriptions: Map<u128, ParentWakeSubscription>,
    child: ThreadId,
    generation: u64,
) -> WatchPhase {
    if is_superseded(subscriptions, child, generation) {
        WatchPhase::Done(None)
    } else {
        WatchPhase::Closed
    }
}

/// The wake was blocked: a superseded watcher stops, another looks again.
pub open spec fn on_blocked(
    subscriptions: Map<u128, ParentWakeSubscription>,
    child: ThreadId,
    generation: u64,
) -> WatchPhase {
    if is_superseded(subscriptions, child, generation) {
        WatchPhase::Done(None)
    } else if is_leaf_only(subscriptions, child) {
        WatchPhase::LeafDescendants
    } else {
        WatchPhase::LeafStatus
    }
}

/// The child's status changed while the wake was blocked.
pub open spec fn on_blocked_change(
    subscriptions: Map<u128, ParentWakeSubscription>,
    child: ThreadId,
    generation: u64,
    status: AgentStatus,
) -> WatchPhase {
    if is_superseded(subscriptions, child, generation) {
        WatchPhase::Done(None)
    } else if !is_final_status(status) {
        on_status(subscriptions, child, generation, status)
    } else if is_leaf_only(subscriptions, child) {
        WatchPhase::LeafChangeDescendants { status }
    } else {
        WatchPhase::LeafChangeTurn { status }
    }
}

/// The phase after an answer. What a phase did not ask for changes nothing.
pub open spec fn watch_next(
    subscriptions: Map<u128, ParentWakeSubscription>,
    child: ThreadId,
    generation: u64,
    phase: WatchPhase,
    event: WatchEvent,
) -> WatchPhase {
    match (phase, event) {
        (WatchPhase::Subscribe { mode }, WatchEvent::Subscribed(status)) => if mode
            is NextStatusChangeThenTerminal && is_final_status(status) {
            WatchPhase::FirstChange
        } else {
            on_status(subscriptions, child, generation, status)
        },
        (WatchPhase::Subscribe { .. }, WatchEvent::SubscribeFailed) => WatchPhase::Closed,
        (WatchPhase::FirstChange, WatchEvent::Changed(status)) => on_status(
            subscriptions,
            child,
            generation,
            status,
        ),
        (WatchPhase::FirstChange, WatchEvent::ChangesClosed) => on_closed(
            subscriptions,
            child,
            generation,
        ),
        (WatchPhase::Terminal, WatchEvent::Changed(status)) => on_status(
            subscriptions,
            child,
            generation,
            status,
        ),
        (WatchPhase::Terminal, WatchEvent::ChangesClosed) => on_closed(
            subscriptions,
            child,
            generation,
        ),
        (WatchPhase::Closed, WatchEvent::Status(status)) => WatchPhase::Done(Some(status)),
        (WatchPhase::Descendants { status }, WatchEvent::ActiveDescendants(active)) => if active {
            on_blocked(subscriptions, child, generation)
        } else {
            WatchPhase::Done(Some(status))
        },
        (WatchPhase::LeafDescendants, WatchEvent::ActiveDescendants(active)) => if active {
            WatchPhase::LeafPause
        } else {
            WatchPhase::LeafStatus
        },
        (WatchPhase::LeafStatus, WatchEvent::Status(status)) => if is_final_status(status) {
            WatchPhase::LeafPause
        } else {
            on_status(subscriptions, child, generation, status)
        },
        (WatchPhase::LeafPause, WatchEvent::Changed(status)) => on_blocked_change(
            subscriptions,
            child,
            generation,
            status,
        ),
        (WatchPhase::LeafPause, WatchEvent::ChangesClosed) => WatchPhase::LeafClosed,
        (WatchPhase::LeafPause, WatchEvent::PauseOver) => if is_leaf_only(subscriptions, child) {
            WatchPhase::LeafLookDescendants
        } else {
            WatchPhase::LeafLookStatus
        },
        (WatchPhase::LeafClosed, WatchEvent::Status(status)) => on_status(
            subscriptions,
            child,
            generation,
            status,
        ),
        (WatchPhase::LeafChangeDescendants { status }, WatchEvent::ActiveDescendants(active)) => if active {
            on_blocked(subscriptions, child, generation)
        } else {
            WatchPhase::LeafChangeTurn { status }
        },
        (WatchPhase::LeafChangeTurn { status }, WatchEvent::ScheduledOrActiveTurn(busy)) => if busy {
            on_blocked(subscriptions, child, generation)
        } else {
            on_status(subscriptions, child, generation, status)
        },
        (WatchPhase::LeafLookDescendants, WatchEvent::ActiveDescendants(active)) => if active {
            on_blocked(subscriptions, child, generation)
        } else {
            WatchPhase::LeafLookStatus
        },
        (WatchPhase::LeafLookStatus, WatchEvent::Status(status)) => if is_final_status(status) {
            WatchPhase::LeafLookTurn { status }
        } else {
            on_status(subscriptions, child, generation, status)
        },
        (WatchPhase::LeafLookTurn { status }, WatchEvent::ScheduledOrActiveTurn(busy)) => if busy {
            on_blocked(subscriptions, child, generation)
        } else {
            on_status(subscriptions, child, generation, status)
        },
        _ => phase,
    }
}

impl WatchPhase {
    /// The statuses that a phase holds on to are final.
    pub open spec fn well_formed(self) -> bool {
        match self {
            WatchPhase::Descendants { status } => is_final_status(status),
            WatchPhase::LeafChangeDescendants { status } => is_final_status(status),
            WatchPhase::LeafChangeTurn { status } => is_final_status(status),
            WatchPhase::LeafLookTurn { status } => is_final_status(status),
            _ => true,
        }
    }

    /// What the phase asks for.
    pub open spec fn asked(self) -> WatchAction {
        match self {
            WatchPhase::Subscribe { .. } => WatchAction::Subscribe,
            WatchPhase::FirstChange | WatchPhase::Terminal => WatchAction::AwaitChange,
            WatchPhase::Closed | WatchPhase::LeafStatus | WatchPhase::LeafClosed
            | WatchPhase::LeafLookStatus => WatchAction::GetStatus,
            WatchPhase::Descendants { .. } | WatchPhase::LeafDescendants
            | WatchPhase::LeafChangeDescendants { .. }
            | WatchPhase::LeafLookDescendants => WatchAction::AskDescendants,
            WatchPhase::LeafPause => WatchAction::AwaitChangeOrPause,
            WatchPhase::LeafChangeTurn { .. } | WatchPhase::LeafLookTurn { .. } => WatchAction::AskTurn,
            WatchPhase::Done(_) => WatchAction::Nothing,
        }
    }

    /// What the phase asks for.
    pub fn action(&self) -> (result: WatchAction)
        ensures
            result == self.asked(),
    {
        match self {
            WatchPhase::Subscribe { .. } => WatchAction::Subscribe,
            WatchPhase::FirstChange | WatchPhase::Terminal => WatchAction::AwaitChange,
            WatchPhase::Closed | WatchPhase::LeafStatus | WatchPhase::LeafClosed
            | WatchPhase::LeafLookStatus => WatchAction::GetStatus,
            WatchPhase::Descendants { .. } | WatchPhase::LeafDescendants
            | WatchPhase::LeafChangeDescendants { .. }
            | WatchPhase::LeafLookDescendants => WatchAction::AskDescendants,
            WatchPhase::LeafPause => WatchAction::AwaitChangeOrPause,
            WatchPhase::LeafChangeTurn { .. } | WatchPhase::LeafLookTurn { .. } => WatchAction::AskTurn,
            WatchPhase::Done(_) => WatchAction::Nothing,
        }
    }
}

/// A watcher that ended with a status is to tell the parent of it.
pub open spec fn has_to_tell(
    subscriptions: Map<u128, ParentWakeSubscription>,
    child: ThreadId,
    generation: u64,
    status: Option<AgentStatus>,
) -> bool {
    &&& status matches Some(status)
    &&& is_final_status(status)
    &&& !is_superseded(subscriptions, child, generation)
}

impl WakeState {
    fn watch_on_status(&self, child: ThreadId, generation: u64, status: AgentStatus) -> (result:
        WatchPhase)
        ensures
            result == on_status(self.subscriptions@, child, generation, status),
    {
        if self.completion_watcher_superseded(child, generation) {
            WatchPhase::Done(None)
        } else if !is_final(&status) {
            WatchPhase::Terminal
        } else if self.leaf_only(child) {
            WatchPhase::Descendants { status }
        } else {
            WatchPhase::Done(Some(status))
        }
    }

    fn watch_on_closed(&self, child: ThreadId, generation: u64) -> (result: WatchPhase)
        ensures
            result == on_closed(self.subscriptions@, child, generation),
    {
        if self.completion_watcher_superseded(child, generation) {
            WatchPhase::Done(None)
        } else {
            WatchPhase::Closed
        }
    }

    fn watch_on_blocked(&self, child: ThreadId, generation: u64) -> (result: WatchPhase)
        ensures
            result == on_blocked(self.subscriptions@, child, generation),
    {
        if self.completion_watcher_superseded(child, generation) {
            WatchPhase::Done(None)
        } else if self.leaf_only(child) {
            WatchPhase::LeafDescendants
        } else {
            WatchPhase::LeafStatus
        }
    }

    fn watch_on_blocked_change(&self, child: ThreadId, generation: u64, status: AgentStatus) -> (result:
        WatchPhase)
        ensures
            result == on_blocked_change(self.subscriptions@, child, generation, status),
    {
        if self.completion_watcher_superseded(child, generation) {
            WatchPhase::Done(None)
        } else if !is_final(&status) {
            self.watch_on_status(child, generation, status)
        } else if self.leaf_only(child) {
            WatchPhase::LeafChangeDescendants { status }
        } else {
            WatchPhase::LeafChangeTurn { status }
        }
    }

    /// The phase of a child's watcher after an answer.
    pub fn watch_step(
        &self,
        child_thread_id: ThreadId,
        completion_watcher_generation: u64,
        phase: WatchPhase,
        event: WatchEvent,
    ) -> (result: WatchPhase)
        ensures
            result == watch_next(
                self.subscriptions@,
                child_thread_id,
                completion_watcher_generation,
                phase,
                event,
            ),
            phase.well_formed() ==> result.well_formed(),
    {
        let child = child_thread_id;
        let generation: u64 = completion_watcher_generation;
        match (phase, event) {
            (WatchPhase::Subscribe { mode }, WatchEvent::Subscribed(status)) => {
                if matches!(mode, CompletionWatcherMode::NextStatusChangeThenTerminal) && is_final(
                    &status,
                ) {
                    WatchPhase::FirstChange
                } else {
                    self.watch_on_status(child, generation, status)
                }
            },
            (WatchPhase::Subscribe { .. }, WatchEvent::SubscribeFailed) => WatchPhase::Closed,
            (WatchPhase::FirstChange, WatchEvent::Changed(status)) => self.watch_on_status(
                child,
                generation,
                status,
            ),
            (WatchPhase::FirstChange, WatchEvent::ChangesClosed) => self.watch_on_closed(
                child,
                generation,
            ),
            (WatchPhase::Terminal, WatchEvent::Changed(status)) => self.watch_on_status(
                child,
                generation,
                status,
            ),
            (WatchPhase::Terminal, WatchEvent::ChangesClosed) => self.watch_on_closed(
                child,
                generation,
            ),
            (WatchPhase::Closed, WatchEvent::Status(status)) => WatchPhase::Done(Some(status)),
            (WatchPhase::Descendants { status }, WatchEvent::ActiveDescendants(active)) => {
                if active {
                    self.watch_on_blocked(child, generation)
                } else {
                    WatchPhase::Done(Some(status))
                }
            },
            (WatchPhase::LeafDescendants, WatchEvent::ActiveDescendants(active)) => {
                if active {
                    WatchPhase::LeafPause
                } else {
                    WatchPhase::LeafStatus
                }
            },
            (WatchPhase::LeafStatus, WatchEvent::Status(status)) => {
                if is_final(&status) {
                    WatchPhase::LeafPause
                } else {
                    self.watch_on_status(child, generation, status)
                }
            },
            (WatchPhase::LeafPause, WatchEvent::Changed(status)) => self.watch_on_blocked_change(
                child,
                generation,
                status,
            ),
            (WatchPhase::LeafPause, WatchEvent::ChangesClosed) => WatchPhase::LeafClosed,
            (WatchPhase::LeafPause, WatchEvent::PauseOver) => {
                if self.leaf_only(child) {
                    WatchPhase::LeafLookDescendants
                } else {
                    WatchPhase::LeafLookStatus
                }
            },
            (WatchPhase::LeafClosed, WatchEvent::Status(status)) => self.watch_on_status(
                child,
                generation,
                status,
            ),
            (WatchPhase::LeafChangeDescendants { status }, WatchEvent::ActiveDescendants(active)) => {
                if active {
                    self.watch_on_blocked(child, generation)
                } else {
                    WatchPhase::LeafChangeTurn { status }
                }
            },
            (WatchPhase::LeafChangeTurn { status }, WatchEvent::ScheduledOrActiveTurn(busy)) => {
                if busy {
                    self.watch_on_blocked(child, generation)
                } else {
                    self.watch_on_status(child, generation, status)
                }
            },
            (WatchPhase::LeafLookDescendants, WatchEvent::ActiveDescendants(active)) => {
                if active {
                    self.watch_on_blocked(child, generation)
                } else {
                    WatchPhase::LeafLookStatus
                }
            },
            (WatchPhase::LeafLookStatus, WatchEvent::Status(status)) => {
                if is_final(&status) {
                    WatchPhase::LeafLookTurn { status }
                } else {
                    self.watch_on_status(child, generation, status)
                }
            },
            (WatchPhase::LeafLookTurn { status }, WatchEvent::ScheduledOrActiveTurn(busy)) => {
                if busy {
                    self.watch_on_blocked(child, generation)
                } else {
                    self.watch_on_status(child, generation, status)
                }
            },
            (phase, _) => phase,
        }
    }

    /// Whether a watcher that ended with a status is to tell the parent of
    /// it, and to keep trying until that is settled.
    pub fn keeps_notifying(
        &self,
        child_thread_id: ThreadId,
        completion_watcher_generation: u64,
        status: Option<&AgentStatus>,
    ) -> (result: bool)
        ensures
            result <==> has_to_tell(
                self.subscriptions@,
                child_thread_id,
                completion_watcher_generation,
                match status {
                    Some(status) => Some(*status),
                    None => None,
                },
            ),
    {
        match status {
            Some(status) => is_final(status) && !self.completion_watcher_superseded(
                child_thread_id,
                completion_watcher_generation,
            ),
            None => false,
        }
    }
}

/// A child whose descendants are active does not get to tell its parent: no
/// watcher ends with a status on hearing of active descendants.
pub proof fn lemma_active_descendants_block(
    subscriptions: Map<u128, ParentWakeSubscription>,
    child: ThreadId,
    generation: u64,
    phase: WatchPhase,
)
    requires
        phase !is Done,
    ensures
        !(watch_next(
            subscriptions,
            child,
            generation,
            phase,
            WatchEvent::ActiveDescendants(true),
        ) matches WatchPhase::Done(Some(_))),
{
}

/// Under the leaf-only policy a watcher ends with a status only on hearing
/// that no descendant is active, or when the child's thread is gone and no
/// change can be seen any more.
pub proof fn lemma_leaf_only_needs_rest(
    subscriptions: Map<u128, ParentWakeSubscription>,
    child: ThreadId,
    generation: u64,
    phase: WatchPhase,
    event: WatchEvent,
)
    requires
        is_leaf_only(subscriptions, child),
        phase !is Done,
        watch_next(subscriptions, child, generation, phase, event) matches WatchPhase::Done(Some(_)),
    ensures
        (phase is Descendants && event == WatchEvent::ActiveDescendants(false)) || phase is Closed,
{
}

/// While changes can be seen, a watcher ends with final statuses only.
pub proof fn lemma_watch_ends_final(
    subscriptions: Map<u128, ParentWakeSubscription>,
    child: ThreadId,
    generation: u64,
    phase: WatchPhase,
    event: WatchEvent,
)
    requires
        phase.well_formed(),
        phase !is Done,
        phase !is Closed,
    ensures
        watch_next(subscriptions, child, generation, phase, event) matches WatchPhase::Done(
            Some(status),
        ) ==> is_final_status(status),
{
}

/// A superseded watcher that hears a change of status stops without a status
/// to tell of.
pub proof fn lemma_superseded_watcher_stops(
    subscriptions: Map<u128, ParentWakeSubscription>,
    child: ThreadId,
    generation: u64,
    phase: WatchPhase,
    status: AgentStatus,
)
    requires
        is_superseded(subscriptions, child, generation),
        phase is FirstChange || phase is Terminal || phase is LeafPause,
    ensures
        watch_next(subscriptions, child, generation, phase, WatchEvent::Changed(status))
            == WatchPhase::Done(None),
{
}

/// A watcher is the current one of a child that is subscribed with a policy.
pub open spec fn watches_with(
    subscriptions: Map<u128, ParentWakeSubscription>,
    child: ThreadId,
    generation: u64,
    policy: AgentWakeDescendantPolicy,
) -> bool {
    &&& subscriptions.contains_key(child.bits)
    &&& subscriptions[child.bits].completion_watcher_generation == generation
    &&& subscriptions[child.bits].wake_descendant_policy == policy
}

/// A watcher whose child is final, and that hears that no descendant of the
/// child is active, ends with exactly that status to tell of, and has to tell
/// it while its generation is the current one.
pub proof fn lemma_rest_is_told(
    subscriptions: Map<u128, ParentWakeSubscription>,
    child: ThreadId,
    generation: u64,
    status: AgentStatus,
)
    ensures
        watch_next(
            subscriptions,
            child,
            generation,
            WatchPhase::Descendants { status },
            WatchEvent::ActiveDescendants(false),
        ) == WatchPhase::Done(Some(status)),
        (status is Completed || status is Errored || status is Shutdown || status is NotFound)
            && subscriptions.contains_key(child.bits)
            && subscriptions[child.bits].completion_watcher_generation == generation
            ==> has_to_tell(subscriptions, child, generation, Some(status)),
{
}

/// A watcher whose generation is the current one never ends without a status
/// to tell of.
pub proof fn lemma_current_watcher_ends_with_status(
    subscriptions: Map<u128, ParentWakeSubscription>,
    child: ThreadId,
    generation: u64,
    phase: WatchPhase,
    event: WatchEvent,
)
    requires
        subscriptions.contains_key(child.bits),
        subscriptions[child.bits].completion_watcher_generation == generation,
        phase !is Done,
    ensures
        watch_next(subscriptions, child, generation, phase, event) matches WatchPhase::Done(told)
            ==> told is Some,
{
}

/// There is something to tell only of a final status, and only while the
/// child is subscribed with the watcher's own generation; and then there is.
pub proof fn lemma_what_is_to_tell(
    subscriptions: Map<u128, ParentWakeSubscription>,
    child: ThreadId,
    generation: u64,
    status: AgentStatus,
)
    ensures
        !has_to_tell(subscriptions, child, generation, None),
        status is PendingInit || status is Running || status is Interrupted ==> !has_to_tell(
            subscriptions,
            child,
            generation,
            Some(status),
        ),
        !subscriptions.contains_key(child.bits) ==> !has_to_tell(
            subscriptions,
            child,
            generation,
            Some(status),
        ),
        subscriptions.contains_key(child.bits)
            && subscriptions[child.bits].completion_watcher_generation != generation
            ==> !has_to_tell(subscriptions, child, generation, Some(status)),
        subscriptions.contains_key(child.bits)
            && subscriptions[child.bits].completion_watcher_generation == generation && (
        status is Completed || status is Errored || status is Shutdown || status is NotFound)
            ==> has_to_tell(subscriptions, child, generation, Some(status)),
{
}

/// On hearing a final status, the current watcher of a child that may wake its
/// parent at once ends with that status; that of a child that has to wait for
/// its descendants asks for them, and keeps the status. Without a final status
/// it goes on waiting for a change.
pub proof fn lemma_heard_status_is_taken_up(
    subscriptions: Map<u128, ParentWakeSubscription>,
    child: ThreadId,
    generation: u64,
    phase: WatchPhase,
    status: AgentStatus,
)
    requires
        phase is FirstChange || phase is Terminal,
    ensures
        ({
            let next = watch_next(
                subscriptions,
                child,
                generation,
                phase,
                WatchEvent::Changed(status),
            );
            let last = status is Completed || status is Errored || status is Shutdown
                || status is NotFound;
            &&& watches_with(
                subscriptions,
                child,
                generation,
                AgentWakeDescendantPolicy::Immediate,
            ) && last ==> next == WatchPhase::Done(Some(status))
            &&& watches_with(subscriptions, child, generation, AgentWakeDescendantPolicy::LeafOnly)
                && last ==> next == (WatchPhase::Descendants { status })
            &&& subscriptions.contains_key(child.bits)
                && subscriptions[child.bits].completion_watcher_generation == generation && !last
                ==> next !is Done && next.asked() is AwaitChange
        }),
{
}

/// Where a completion that has happened already counts, a watcher takes it up
/// as it subscribes. Where it does not, the watcher awaits a change first,
/// whatever the child's status was.
pub proof fn lemma_subscribing_counts_by_mode(
    subscriptions: Map<u128, ParentWakeSubscription>,
    child: ThreadId,
    generation: u64,
    status: AgentStatus,
)
    requires
        subscriptions.contains_key(child.bits),
        subscriptions[child.bits].completion_watcher_generation == generation,
    ensures
        ({
            let now = watch_next(
                subscriptions,
                child,
                generation,
                WatchPhase::Subscribe { mode: CompletionWatcherMode::CurrentOrNextTerminal },
                WatchEvent::Subscribed(status),
            );
            let later = watch_next(
                subscriptions,
                child,
                generation,
                WatchPhase::Subscribe { mode: CompletionWatcherMode::NextStatusChangeThenTerminal },
                WatchEvent::Subscribed(status),
            );
            &&& later !is Done && later.asked() is AwaitChange
            &&& status is PendingInit || status is Running || status is Interrupted ==> now !is Done
                && now.asked() is AwaitChange
            &&& (status is Completed || status is Errored || status is Shutdown
                || status is NotFound) ==> now == (if subscriptions[child.bits].wake_descendant_policy
                is LeafOnly {
                WatchPhase::Descendants { status }
            } else {
                WatchPhase::Done(Some(status))
            })
        }),
{
}

/// An event answers what a watcher asks for.
pub open spec fn is_answer(action: WatchAction, event: WatchEvent) -> bool {
    match event {
        WatchEvent::Subscribed(_) | WatchEvent::SubscribeFailed => action is Subscribe,
        WatchEvent::Changed(_) | WatchEvent::ChangesClosed => action is AwaitChange
            || action is AwaitChangeOrPause,
        WatchEvent::PauseOver => action is AwaitChangeOrPause,
        WatchEvent::Status(_) => action is GetStatus,
        WatchEvent::ActiveDescendants(_) => action is AskDescendants,
        WatchEvent::ScheduledOrActiveTurn(_) => action is AskTurn,
    }
}

/// What a watcher did not ask for leaves it where it is. A watcher that ended
/// asks for nothing, and stays as it ended; no other one asks for nothing.
pub proof fn lemma_only_answers_move_a_watcher(
    subscriptions: Map<u128, ParentWakeSubscription>,
    child: ThreadId,
    generation: u64,
    phase: WatchPhase,
    event: WatchEvent,
)
    ensures
        !is_answer(phase.asked(), event) ==> watch_next(
            subscriptions,
            child,
            generation,
            phase,
            event,
        ) == phase,
        phase is Done <==> phase.asked() is Nothing,
{
}

/// Once a child was given other work or was forgotten, no status that its old
/// watcher hears lets it wait on or tell: it stops with nothing to tell.
pub proof fn lemma_superseded_watcher_tells_nothing(
    subscriptions: Map<u128, ParentWakeSubscription>,
    child: ThreadId,
    generation: u64,
    phase: WatchPhase,
    status: AgentStatus,
)
    requires
        !subscriptions.contains_key(child.bits)
            || subscriptions[child.bits].completion_watcher_generation != generation,
    ensures
        phase is FirstChange || phase is Terminal || phase is LeafPause ==> watch_next(
            subscriptions,
            child,
            generation,
            phase,
            WatchEvent::Changed(status),
        ) == WatchPhase::Done(None),
        phase is FirstChange || phase is Terminal ==> watch_next(
            subscriptions,
            child,
            generation,
            phase,
            WatchEvent::ChangesClosed,
        ) == WatchPhase::Done(None),
        phase is LeafClosed ==> watch_next(
            subscriptions,
            child,
            generation,
            phase,
            WatchEvent::Status(status),
        ) == WatchPhase::Done(None),
        phase is Descendants || phase is LeafChangeDescendants || phase is LeafLookDescendants
            ==> watch_next(
            subscriptions,
            child,
            generation,
            phase,
            WatchEvent::ActiveDescendants(true),
        ) == WatchPhase::Done(None),
        forall|busy: bool|
            phase is LeafChangeTurn || phase is LeafLookTurn ==> #[trigger] watch_next(
                subscriptions,
                child,
                generation,
                phase,
                WatchEvent::ScheduledOrActiveTurn(busy),
            ) == WatchPhase::Done(None),
        watch_next(
            subscriptions,
            child,
            generation,
            WatchPhase::Subscribe { mode: CompletionWatcherMode::CurrentOrNextTerminal },
            WatchEvent::Subscribed(status),
        ) == WatchPhase::Done(None),
{
}

/// Where a child's changes can be seen no more, or never could, its current
/// watcher asks for the last status and ends with it.
pub proof fn lemma_last_status_is_told(
    subscriptions: Map<u128, ParentWakeSubscription>,
    child: ThreadId,
    generation: u64,
    phase: WatchPhase,
    status: AgentStatus,
)
    requires
        subscriptions.contains_key(child.bits),
        subscriptions[child.bits].completion_watcher_generation == generation,
        phase is Subscribe || phase is FirstChange || phase is Terminal,
    ensures
        ({
            let gone = if phase is Subscribe {
                WatchEvent::SubscribeFailed
            } else {
                WatchEvent::ChangesClosed
            };
            let next = watch_next(subscriptions, child, generation, phase, gone);
            &&& next.asked() is GetStatus
            &&& watch_next(subscriptions, child, generation, next, WatchEvent::Status(status))
                == WatchPhase::Done(Some(status))
        }),
{
}

/// What a watcher could find out, as long as it stays so.
pub ghost struct WatchWorld {
    pub status: AgentStatus,
    pub active_descendants: bool,
    /// The child is about to work again.
    pub busy: bool,
}

impl WatchWorld {
    /// The true answer to what a watcher asks for.
    pub open spec fn answer(self, action: WatchAction) -> WatchEvent {
        match action {
            WatchAction::Subscribe => WatchEvent::Subscribed(self.status),
            WatchAction::AwaitChange => WatchEvent::Changed(self.status),
            WatchAction::AwaitChangeOrPause => WatchEvent::PauseOver,
            WatchAction::GetStatus => WatchEvent::Status(self.status),
            WatchAction::AskDescendants => WatchEvent::ActiveDescendants(self.active_descendants),
            WatchAction::AskTurn => WatchEvent::ScheduledOrActiveTurn(self.busy),
            WatchAction::Nothing => WatchEvent::PauseOver,
        }
    }
}

/// Where a watcher stands after a number of true answers.
pub open spec fn watched(
    subscriptions: Map<u128, ParentWakeSubscription>,
    child: ThreadId,
    generation: u64,
    phase: WatchPhase,
    world: WatchWorld,
    steps: nat,
) -> WatchPhase
    decreases steps,
{
    if steps == 0 {
        phase
    } else {
        let before = watched(
            subscriptions,
            child,
            generation,
            phase,
            world,
            (steps - 1) as nat,
        );
        watch_next(subscriptions, child, generation, before, world.answer(before.asked()))
    }
}

/// The phases that a watcher goes through while descendants keep a final child
/// from telling.
pub open spec fn is_held_back(phase: WatchPhase, status: AgentStatus) -> bool {
    ||| phase == (WatchPhase::Descendants { status })
    ||| phase is LeafDescendants
    ||| phase is LeafPause
    ||| phase is LeafLookDescendants
}

proof fn lemma_stays_held_back(
    subscriptions: Map<u128, ParentWakeSubscription>,
    child: ThreadId,
    generation: u64,
    phase: WatchPhase,
    world: WatchWorld,
    steps: nat,
)
    requires
        watches_with(subscriptions, child, generation, AgentWakeDescendantPolicy::LeafOnly),
        world.active_descendants,
        is_held_back(phase, world.status),
    ensures
        is_held_back(
            watched(subscriptions, child, generation, phase, world, steps),
            world.status,
        ),
    decreases steps,
{
    if steps > 0 {
        lemma_stays_held_back(
            subscriptions,
            child,
            generation,
            phase,
            world,
            (steps - 1) as nat,
        );
    }
}

/// How many answers are left at most until a watcher at rest ends.
spec fn answers_left(phase: WatchPhase, status: AgentStatus) -> nat {
    match phase {
        WatchPhase::Done(_) => 0,
        WatchPhase::Descendants { .. } => 1,
        WatchPhase::Subscribe { .. } => 2,
        WatchPhase::LeafLookTurn { .. } => 2,
        WatchPhase::LeafLookStatus => 3,
        WatchPhase::LeafLookDescendants => 4,
        WatchPhase::LeafPause => 5,
        WatchPhase::LeafStatus => 6,
        _ => 7,
    }
}

proof fn lemma_rest_is_noticed(
    subscriptions: Map<u128, ParentWakeSubscription>,
    child: ThreadId,
    generation: u64,
    phase: WatchPhase,
    status: AgentStatus,
    steps: nat,
)
    requires
        watches_with(subscriptions, child, generation, AgentWakeDescendantPolicy::LeafOnly),
        is_final_status(status),
        is_held_back(phase, status) || phase is LeafStatus || phase is LeafLookStatus || phase == (
        WatchPhase::LeafLookTurn { status }) || phase == WatchPhase::Done(Some(status)) || phase
            == (WatchPhase::Subscribe { mode: CompletionWatcherMode::CurrentOrNextTerminal }),
        steps >= answers_left(phase, status),
    ensures
        watched(
            subscriptions,
            child,
            generation,
            phase,
            WatchWorld { status, active_descendants: false, busy: false },
            steps,
        ) == WatchPhase::Done(Some(status)),
    decreases steps,
{
    let rest = WatchWorld { status, active_descendants: false, busy: false };
    if steps > 0 {
        let left = (steps - 1) as nat;
        let next = watch_next(subscriptions, child, generation, phase, rest.answer(phase.asked()));
        lemma_run_shift(subscriptions, child, generation, phase, rest, left);
        lemma_rest_is_noticed(subscriptions, child, generation, next, status, left);
    }
}

/// Under the leaf-only policy a final child is held back for as long as its
/// descendants work, however often the watcher looks. Once they are at rest,
/// and the child is not about to work again, the watcher ends within a few
/// looks, with the child's status to tell of.
pub proof fn lemma_wake_waits_for_descendants_and_comes(
    subscriptions: Map<u128, ParentWakeSubscription>,
    child: ThreadId,
    generation: u64,
    status: AgentStatus,
    busy: bool,
    looks: nat,
)
    requires
        watches_with(subscriptions, child, generation, AgentWakeDescendantPolicy::LeafOnly),
        status is Completed || status is Errored || status is Shutdown || status is NotFound,
    ensures
        ({
            let start = WatchPhase::Subscribe {
                mode: CompletionWatcherMode::CurrentOrNextTerminal,
            };
            let work = WatchWorld { status, active_descendants: true, busy };
            let rest = WatchWorld { status, active_descendants: false, busy: false };
            let held = watched(subscriptions, child, generation, start, work, looks);
            &&& held !is Done
            &&& watched(subscriptions, child, generation, held, rest, 9) == WatchPhase::Done(
                Some(status),
            )
        }),
{
    let start = WatchPhase::Subscribe { mode: CompletionWatcherMode::CurrentOrNextTerminal };
    let work = WatchWorld { status, active_descendants: true, busy };
    let rest = WatchWorld { status, active_descendants: false, busy: false };
    let first = WatchPhase::Descendants { status };
    let held = watched(subscriptions, child, generation, start, work, looks);
    if looks > 0 {
        lemma_run_shift(subscriptions, child, generation, start, work, (looks - 1) as nat);
        assert(watch_next(subscriptions, child, generation, start, work.answer(start.asked()))
            == first);
        lemma_stays_held_back(subscriptions, child, generation, first, work, (looks - 1) as nat);
        assert(is_held_back(held, status));
    } else {
        assert(held == start);
    }
    lemma_rest_is_noticed(subscriptions, child, generation, held, status, 9);
}

proof fn lemma_run_shift(
    subscriptions: Map<u128, ParentWakeSubscription>,
    child: ThreadId,
    generation: u64,
    phase: WatchPhase,
    world: WatchWorld,
    steps: nat,
)
    ensures
        watched(subscriptions, child, generation, phase, world, steps + 1) == watched(
            subscriptions,
            child,
            generation,
            watch_next(subscriptions, child, generation, phase, world.answer(phase.asked())),
            world,
            steps,
        ),
    decreases steps,
{
    reveal_with_fuel(watched, 2);
    if steps > 0 {
        lemma_run_shift(subscriptions, child, generation, phase, world, (steps - 1) as nat);
    }
}

/// While a wake is held back, a change to a final status is told of only once
/// the watcher has heard that descendants are at rest and that the child is
/// not about to work again; a change to work lets it wait for the end of that
/// work. What was heard of is kept.
pub proof fn lemma_change_while_held_back(
    subscriptions: Map<u128, ParentWakeSubscription>,
    child: ThreadId,
    generation: u64,
    status: AgentStatus,
)
    requires
        watches_with(subscriptions, child, generation, AgentWakeDescendantPolicy::LeafOnly),
    ensures
        ({
            let next = |phase: WatchPhase, event: WatchEvent|
                watch_next(subscriptions, child, generation, phase, event);
            let heard = next(WatchPhase::LeafPause, WatchEvent::Changed(status));
            if status is PendingInit || status is Running || status is Interrupted {
                heard !is Done && heard.asked() is AwaitChange
            } else {
                let rested = next(heard, WatchEvent::ActiveDescendants(false));
                let free = next(rested, WatchEvent::ScheduledOrActiveTurn(false));
                &&& heard.asked() is AskDescendants
                &&& next(heard, WatchEvent::ActiveDescendants(true)).asked() is AskDescendants
                &&& rested.asked() is AskTurn
                &&& next(rested, WatchEvent::ScheduledOrActiveTurn(true)).asked() is AskDescendants
                &&& free.asked() is AskDescendants
                &&& next(free, WatchEvent::ActiveDescendants(false)) == WatchPhase::Done(
                    Some(status),
                )
            }
        }),
{
}

/// A watcher that is held back notices when its child works again: it goes on
/// to wait for the end of that work.
pub proof fn lemma_work_again_is_noticed(
    subscriptions: Map<u128, ParentWakeSubscription>,
    child: ThreadId,
    generation: u64,
    phase: WatchPhase,
    status: AgentStatus,
)
    requires
        subscriptions.contains_key(child.bits),
        subscriptions[child.bits].completion_watcher_generation == generation,
        phase is LeafStatus || phase is LeafLookStatus || phase is LeafClosed,
        status is PendingInit || status is Running || status is Interrupted,
    ensures
        watch_next(subscriptions, child, generation, phase, WatchEvent::Status(status))
            == WatchPhase::Terminal,
{
}

} // verus!
