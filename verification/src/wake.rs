//! Waking a parent when one of its children completes: who is to be told, for
//! which generation of the child's work, and whether it has been told.

use std::collections::HashMap;
use vstd::prelude::*;
use crate::agent::{
    is_final, is_final_status, path_within, thread_id_text, AgentPath, AgentStatus, SessionSource, ThreadId,
};

verus! {

/// When a child may wake its parent.
#[derive(Clone, Copy, Debug, PartialEq, Eq, Structural)]
pub enum AgentWakeDescendantPolicy {
    /// As soon as the child completes.
    Immediate,
    /// Once none of the child's own descendants is active any more.
    LeafOnly,
}

impl Default for AgentWakeDescendantPolicy {
    /// A child waits for its descendants where nothing else is configured.
    fn default() -> (result: Self)
        ensures
            result is LeafOnly,
    {
        AgentWakeDescendantPolicy::LeafOnly
    }
}

/// Whether a child wakes its parent where nothing else is configured.
pub const WAKE_PARENT_ON_COMPLETION_DEFAULT: bool = true;

/// A parent's interest in the completion of one child.
#[derive(Debug)]
pub struct ParentWakeSubscription {
    pub parent_thread_id: ThreadId,
    pub wake_parent_on_completion: bool,
    pub wake_descendant_policy: AgentWakeDescendantPolicy,
    pub child_reference: String,
    pub child_agent_path: Option<AgentPath>,
    /// The generation of the child's work that the current watcher watches.
    pub completion_watcher_generation: u64,
    /// The last generation whose completion the parent was told of.
    pub last_notified_generation: Option<u64>,
    /// The last generation whose notice somebody took on, while it is on its
    /// way.
    pub notice_in_flight: Option<u64>,
}

impl Clone for ParentWakeSubscription {
    fn clone(&self) -> (result: Self)
        ensures
            result == *self,
    {
        ParentWakeSubscription {
            parent_thread_id: self.parent_thread_id,
            wake_parent_on_completion: self.wake_parent_on_completion,
            wake_descendant_policy: self.wake_descendant_policy,
            child_reference: self.child_reference.clone(),
            child_agent_path: self.child_agent_path.clone(),
            completion_watcher_generation: self.completion_watcher_generation,
            last_notified_generation: self.last_notified_generation,
            notice_in_flight: self.notice_in_flight,
        }
    }
}

/// Whether a child was spawned to wake its parent.
#[derive(Clone, Copy, Debug, PartialEq, Eq, Structural)]
pub struct ParentWakePreference {
    pub wake_parent_on_completion: bool,
}

/// The subscriptions and preferences of all children, by the bits of the
/// child's identity.
pub struct WakeState {
    pub subscriptions: HashMap<u128, ParentWakeSubscription>,
    pub preferences: HashMap<u128, ParentWakePreference>,
}

/// What a watcher for one generation of a child's work needs.
#[derive(Debug)]
pub struct CompletionWatcherArm {
    pub parent_thread_id: ThreadId,
    pub child_reference: String,
    pub child_agent_path: Option<AgentPath>,
    pub completion_watcher_generation: u64,
}

/// The right to tell a parent of one completion, and the duty to go on until
/// it is told. There is one for every notice that is on its way.
#[derive(Debug)]
pub struct NoticeTicket {
    child: ThreadId,
    generation: u64,
    wake: bool,
}

impl NoticeTicket {
    /// The child that completed.
    pub closed spec fn of_child(self) -> ThreadId {
        self.child
    }

    /// The generation of the child's work that is over.
    pub closed spec fn of_generation(self) -> u64 {
        self.generation
    }

    /// The notice wakes the parent.
    pub closed spec fn wakes(self) -> bool {
        self.wake
    }

    pub(crate) fn issue(child: ThreadId, generation: u64, wake: bool) -> (result: NoticeTicket)
        ensures
            result.of_child() == child,
            result.of_generation() == generation,
            result.wakes() == wake,
    {
        NoticeTicket { child, generation, wake }
    }

    /// The child that completed.
    pub fn child_thread_id(&self) -> (result: ThreadId)
        ensures
            result == self.of_child(),
    {
        self.child
    }

    /// The generation of the child's work that is over.
    pub fn completion_watcher_generation(&self) -> (result: u64)
        ensures
            result == self.of_generation(),
    {
        self.generation
    }

    /// Whether the notice wakes the parent.
    pub fn wakes_parent(&self) -> (result: bool)
        ensures
            result == self.wakes(),
    {
        self.wake
    }
}

/// What is handed over for a notice that is owed: whether it wakes the parent.
pub open spec fn is_ticket_for(
    ticket: Option<NoticeTicket>,
    owed: Option<bool>,
    child: ThreadId,
    generation: u64,
) -> bool {
    match owed {
        Some(wake) => ticket matches Some(ticket) && ticket.of_child() == child
            && ticket.of_generation() == generation && ticket.wakes() == wake,
        None => ticket is None,
    }
}

/// What comes of giving a child new work.
#[derive(Debug)]
pub struct CompletionWatcherRearm {
    /// The watcher to start once the work was handed over.
    pub arm: CompletionWatcherArm,
    /// The generation that the child worked on before.
    pub previous_generation: u64,
    /// The notice of that generation, if it completed, the parent has not been
    /// told, and nobody is about to tell it. Its watchers are superseded, so
    /// whoever gives the new work tells it.
    pub previous_notice: Option<NoticeTicket>,
}

/// A generation of a subscription whose completion the parent was told of.
pub open spec fn is_notified(subscription: ParentWakeSubscription, generation: u64) -> bool {
    subscription.last_notified_generation == Some(generation)
}

/// The parent still waits for the completion of the current generation.
pub open spec fn is_pending(subscription: ParentWakeSubscription) -> bool {
    !is_notified(subscription, subscription.completion_watcher_generation)
}

/// The notice of a generation is on its way.
pub open spec fn is_in_flight(subscription: ParentWakeSubscription, generation: u64) -> bool {
    subscription.notice_in_flight == Some(generation)
}

/// Descendants keep a child from waking its parent.
pub open spec fn is_blocked(subscription: ParentWakeSubscription, active_descendants: bool) -> bool {
    subscription.wake_descendant_policy is LeafOnly && active_descendants
}

/// The notice that giving a child new work owes the parent for the work
/// before: the child completed it, the parent was not told and nobody is about
/// to tell it, and the child moves on to another generation. Where the child's
/// descendants block the notice, or one of them gives the new work, the work
/// before was not over: it goes on in the new generation, whose notice stands
/// for both, and none is owed for it.
pub open spec fn overtaken_notice(
    before: ParentWakeSubscription,
    policy: Option<AgentWakeDescendantPolicy>,
    status: AgentStatus,
    suppressed: bool,
    active_descendants: bool,
) -> Option<bool> {
    if is_final_status(status) && !suppressed && !is_blocked(
        with_policy(before, policy),
        active_descendants,
    ) && is_pending(before) && !is_in_flight(before, before.completion_watcher_generation)
        && before.completion_watcher_generation < u64::MAX {
        Some(before.wake_parent_on_completion)
    } else {
        None
    }
}

/// The watcher of a generation is superseded once the child has another
/// generation, or no subscription at all.
pub open spec fn is_superseded(
    subscriptions: Map<u128, ParentWakeSubscription>,
    child: ThreadId,
    generation: u64,
) -> bool {
    !subscriptions.contains_key(child.bits)
        || subscriptions[child.bits].completion_watcher_generation != generation
}

/// The child's subscription lets it wake the parent only when its own
/// descendants are at rest.
pub open spec fn is_leaf_only(
    subscriptions: Map<u128, ParentWakeSubscription>,
    child: ThreadId,
) -> bool {
    subscriptions.contains_key(child.bits)
        && subscriptions[child.bits].wake_descendant_policy == AgentWakeDescendantPolicy::LeafOnly
}

/// The text by which a child is referred to: its path, or its identity where
/// it has no path.
pub open spec fn child_reference_text(child: ThreadId, path: Option<AgentPath>) -> Seq<char> {
    match path {
        Some(path) => path@,
        None => thread_id_text(child.bits),
    }
}

/// A child counts as wake-enabled for a parent.
pub open spec fn is_wake_enabled(
    subscriptions: Map<u128, ParentWakeSubscription>,
    parent: ThreadId,
    child: ThreadId,
) -> bool {
    &&& subscriptions.contains_key(child.bits)
    &&& subscriptions[child.bits].parent_thread_id == parent
    &&& subscriptions[child.bits].wake_parent_on_completion
}

/// Some child of the parent has yet to wake it.
pub open spec fn has_pending(
    subscriptions: Map<u128, ParentWakeSubscription>,
    parent: ThreadId,
) -> bool {
    exists|child: u128| #[trigger]
        subscriptions.contains_key(child) && subscriptions[child].parent_thread_id == parent
            && subscriptions[child].wake_parent_on_completion && is_pending(subscriptions[child])
}

/// A subscription as it is before its child's first completion.
pub open spec fn is_fresh(
    subscription: ParentWakeSubscription,
    parent: ThreadId,
    wake: bool,
    policy: AgentWakeDescendantPolicy,
    reference: Seq<char>,
    path: Option<AgentPath>,
) -> bool {
    &&& subscription.parent_thread_id == parent
    &&& subscription.wake_parent_on_completion == wake
    &&& subscription.wake_descendant_policy == policy
    &&& subscription.child_reference@ == reference
    &&& subscription.child_agent_path == path
    &&& subscription.completion_watcher_generation == 0
    &&& subscription.last_notified_generation is None
    &&& subscription.notice_in_flight is None
}

/// No generation of a subscription was told of, or is about to be, that the
/// child has not reached.
pub open spec fn reached_only(subscription: ParentWakeSubscription) -> bool {
    &&& subscription.last_notified_generation matches Some(generation) ==> generation
        <= subscription.completion_watcher_generation
    &&& subscription.notice_in_flight matches Some(generation) ==> generation
        <= subscription.completion_watcher_generation
}

/// Two maps agree but for one key, which the second one has.
pub open spec fn replaced_at<V>(before: Map<u128, V>, after: Map<u128, V>, key: u128) -> bool {
    &&& after.contains_key(key)
    &&& after.remove(key) == before.remove(key)
}

/// The subscription after its child was given new work.
pub open spec fn with_next_generation(
    subscription: ParentWakeSubscription,
    policy: Option<AgentWakeDescendantPolicy>,
) -> ParentWakeSubscription {
    ParentWakeSubscription {
        completion_watcher_generation: if subscription.completion_watcher_generation == u64::MAX {
            u64::MAX
        } else {
            (subscription.completion_watcher_generation + 1) as u64
        },
        ..with_policy(subscription, policy)
    }
}

/// The subscription with the policy that was read for it, where one was.
pub open spec fn with_policy(
    subscription: ParentWakeSubscription,
    policy: Option<AgentWakeDescendantPolicy>,
) -> ParentWakeSubscription {
    match policy {
        Some(policy) => ParentWakeSubscription { wake_descendant_policy: policy, ..subscription },
        None => subscription,
    }
}

/// New work gets a watcher of its own where the child's work so far is over,
/// has not begun, or has been told of.
pub open spec fn allows_rearm(status: AgentStatus, subscription: ParentWakeSubscription) -> bool {
    is_final_status(status) || status is PendingInit || !is_pending(subscription)
}

/// A child's completion is to wake its parent: as it was asked for, else by the
/// default, which holds for spawned sessions only.
pub open spec fn is_to_wake(
    preferences: Map<u128, ParentWakePreference>,
    child: ThreadId,
    spawned: bool,
    fallback_default: bool,
) -> bool {
    if preferences.contains_key(child.bits) {
        preferences[child.bits].wake_parent_on_completion
    } else {
        fallback_default && spawned
    }
}

/// An author is one of a subscribed child's own descendants.
pub open spec fn comes_from_below(
    subscriptions: Map<u128, ParentWakeSubscription>,
    child: ThreadId,
    author: Seq<char>,
) -> bool {
    &&& subscriptions.contains_key(child.bits)
    &&& subscriptions[child.bits].child_agent_path matches Some(path)
    &&& path_within(author, path@)
    &&& author != path@
}

impl WakeState {
    /// No generation was told of, or is about to be, that the child has not
    /// reached.
    pub open spec fn well_formed(self) -> bool {
        forall|child: u128| #[trigger]
            self.subscriptions@.contains_key(child) ==> reached_only(self.subscriptions@[child])
    }

    /// No subscriptions and no preferences.
    pub fn new() -> (result: WakeState)
        ensures
            result.subscriptions@ == Map::<u128, ParentWakeSubscription>::empty(),
            result.preferences@ == Map::<u128, ParentWakePreference>::empty(),
            result.well_formed(),
    {
        WakeState { subscriptions: HashMap::new(), preferences: HashMap::new() }
    }

    /// Whether the watcher of a generation is superseded.
    pub fn completion_watcher_superseded(
        &self,
        child_thread_id: ThreadId,
        completion_watcher_generation: u64,
    ) -> (result: bool)
        ensures
            result == is_superseded(
                self.subscriptions@,
                child_thread_id,
                completion_watcher_generation,
            ),
    {
        match self.subscriptions.get(&child_thread_id.bits) {
            Some(subscription) => subscription.completion_watcher_generation
                != completion_watcher_generation,
            None => true,
        }
    }

    /// Forgets everything about a child.
    pub fn clear_parent_wake_state(&mut self, child_thread_id: ThreadId)
        ensures
            final(self).subscriptions@ == old(self).subscriptions@.remove(child_thread_id.bits),
            final(self).preferences@ == old(self).preferences@.remove(child_thread_id.bits),
            old(self).well_formed() ==> final(self).well_formed(),
    {
        self.subscriptions.remove(&child_thread_id.bits);
        self.preferences.remove(&child_thread_id.bits);
        assert(self.subscriptions@ =~= old(self).subscriptions@.remove(child_thread_id.bits));
        assert(self.preferences@ =~= old(self).preferences@.remove(child_thread_id.bits));
    }

    /// Records a child's subscription and preference, replacing earlier ones.
    /// A session that no thread spawned has no parent to wake.
    pub fn register_parent_wake_subscription(
        &mut self,
        child_thread_id: ThreadId,
        session_source: Option<&SessionSource>,
        wake_parent_on_completion: bool,
        wake_descendant_policy: AgentWakeDescendantPolicy,
    )
        ensures
            match session_source {
                Some(SessionSource::ThreadSpawn { parent_thread_id, agent_path, .. }) => {
                    &&& final(self).preferences@ == old(self).preferences@.insert(
                        child_thread_id.bits,
                        ParentWakePreference { wake_parent_on_completion },
                    )
                    &&& replaced_at(
                        old(self).subscriptions@,
                        final(self).subscriptions@,
                        child_thread_id.bits,
                    )
                    &&& is_fresh(
                        final(self).subscriptions@[child_thread_id.bits],
                        *parent_thread_id,
                        wake_parent_on_completion,
                        wake_descendant_policy,
                        child_reference_text(child_thread_id, *agent_path),
                        *agent_path,
                    )
                },
                _ => {
                    &&& final(self).preferences@ == old(self).preferences@
                    &&& final(self).subscriptions@ == old(self).subscriptions@
                },
            },
            old(self).well_formed() ==> final(self).well_formed(),
    {
        if let Some(SessionSource::ThreadSpawn { parent_thread_id, agent_path, .. }) = session_source {
            let child_reference = match agent_path {
                Some(path) => path.as_str().to_owned(),
                None => child_thread_id.to_text(),
            };
            self.preferences.insert(
                child_thread_id.bits,
                ParentWakePreference { wake_parent_on_completion },
            );
            self.subscriptions.insert(
                child_thread_id.bits,
                ParentWakeSubscription {
                    parent_thread_id: *parent_thread_id,
                    wake_parent_on_completion,
                    wake_descendant_policy,
                    child_reference,
                    child_agent_path: agent_path.clone(),
                    completion_watcher_generation: 0,
                    last_notified_generation: None,
                    notice_in_flight: None,
                },
            );
            assert(self.subscriptions@.remove(child_thread_id.bits)
                =~= old(self).subscriptions@.remove(child_thread_id.bits));
        }
    }

    /// Whether a child's completion is to wake its parent: as it was asked
    /// for, else by the default, which holds for spawned sessions only.
    pub fn wake_parent_on_completion_for_thread(
        &self,
        child_thread_id: ThreadId,
        session_source: Option<&SessionSource>,
        fallback_default: bool,
    ) -> (result: bool)
        ensures
            result == is_to_wake(
                self.preferences@,
                child_thread_id,
                session_source is Some && session_source->0 is ThreadSpawn,
                fallback_default,
            ),
    {
        if let Some(preference) = self.preferences.get(&child_thread_id.bits) {
            return preference.wake_parent_on_completion;
        }
        match session_source {
            Some(SessionSource::ThreadSpawn { .. }) => fallback_default,
            _ => false,
        }
    }

    /// Subscribes a reloaded child again, keeping its preference.
    pub fn restore_parent_wake_subscription_for_loaded_thread(
        &mut self,
        child_thread_id: ThreadId,
        session_source: &SessionSource,
        agent_wake_parent_on_completion_default: bool,
        agent_wake_descendant_policy: AgentWakeDescendantPolicy,
    )
        ensures
            match *session_source {
                SessionSource::ThreadSpawn { parent_thread_id, agent_path, .. } => {
                    let wake = if old(self).preferences@.contains_key(child_thread_id.bits) {
                        old(self).preferences@[child_thread_id.bits].wake_parent_on_completion
                    } else {
                        agent_wake_parent_on_completion_default
                    };
                    &&& final(self).preferences@ == old(self).preferences@.insert(
                        child_thread_id.bits,
                        ParentWakePreference { wake_parent_on_completion: wake },
                    )
                    &&& replaced_at(
                        old(self).subscriptions@,
                        final(self).subscriptions@,
                        child_thread_id.bits,
                    )
                    &&& is_fresh(
                        final(self).subscriptions@[child_thread_id.bits],
                        parent_thread_id,
                        wake,
                        agent_wake_descendant_policy,
                        child_reference_text(child_thread_id, agent_path),
                        agent_path,
                    )
                },
                SessionSource::Other => {
                    &&& final(self).preferences@ == old(self).preferences@
                    &&& final(self).subscriptions@ == old(self).subscriptions@
                },
            },
            old(self).well_formed() ==> final(self).well_formed(),
    {
        let wake_parent_on_completion = self.wake_parent_on_completion_for_thread(
            child_thread_id,
            Some(session_source),
            agent_wake_parent_on_completion_default,
        );
        self.register_parent_wake_subscription(
            child_thread_id,
            Some(session_source),
            wake_parent_on_completion,
            agent_wake_descendant_policy,
        );
    }

    /// Subscribes a spawned child that has no subscription yet, without
    /// asking for a wake, and gives the watcher to start for its first
    /// generation. A session that no thread spawned gets no watcher.
    pub fn maybe_start_completion_watcher(
        &mut self,
        child_thread_id: ThreadId,
        session_source: Option<&SessionSource>,
        child_reference: String,
        child_agent_path: Option<AgentPath>,
    ) -> (result: Option<CompletionWatcherArm>)
        ensures
            result is Some <==> (session_source matches Some(source) && source is ThreadSpawn),
            match result {
                Some(arm) => {
                    &&& Some(arm.parent_thread_id) == session_source->0.spec_parent()
                    &&& arm.child_reference == child_reference
                    &&& arm.child_agent_path == child_agent_path
                    &&& arm.completion_watcher_generation == 0
                    &&& if old(self).subscriptions@.contains_key(child_thread_id.bits) {
                        final(self).subscriptions@ == old(self).subscriptions@
                    } else {
                        &&& replaced_at(
                            old(self).subscriptions@,
                            final(self).subscriptions@,
                            child_thread_id.bits,
                        )
                        &&& is_fresh(
                            final(self).subscriptions@[child_thread_id.bits],
                            arm.parent_thread_id,
                            false,
                            AgentWakeDescendantPolicy::Immediate,
                            child_reference@,
                            child_agent_path,
                        )
                    }
                    &&& final(self).preferences@ == if old(self).preferences@.contains_key(
                        child_thread_id.bits,
                    ) {
                        old(self).preferences@
                    } else {
                        old(self).preferences@.insert(
                            child_thread_id.bits,
                            ParentWakePreference { wake_parent_on_completion: false },
                        )
                    }
                },
                None => {
                    &&& final(self).preferences@ == old(self).preferences@
                    &&& final(self).subscriptions@ == old(self).subscriptions@
                },
            },
            old(self).well_formed() ==> final(self).well_formed(),
    {
        let parent_thread_id = match session_source {
            Some(SessionSource::ThreadSpawn { parent_thread_id, .. }) => *parent_thread_id,
            _ => {
                return None;
            },
        };
        if !self.subscriptions.contains_key(&child_thread_id.bits) {
            self.subscriptions.insert(
                child_thread_id.bits,
                ParentWakeSubscription {
                    parent_thread_id,
                    wake_parent_on_completion: false,
                    wake_descendant_policy: AgentWakeDescendantPolicy::Immediate,
                    child_reference: child_reference.clone(),
                    child_agent_path: child_agent_path.clone(),
                    completion_watcher_generation: 0,
                    last_notified_generation: None,
                    notice_in_flight: None,
                },
            );
            assert(self.subscriptions@.remove(child_thread_id.bits)
                =~= old(self).subscriptions@.remove(child_thread_id.bits));
        }
        if !self.preferences.contains_key(&child_thread_id.bits) {
            self.preferences.insert(
                child_thread_id.bits,
                ParentWakePreference { wake_parent_on_completion: false },
            );
        }
        Some(
            CompletionWatcherArm {
                parent_thread_id,
                child_reference,
                child_agent_path,
                completion_watcher_generation: 0,
            },
        )
    }

    /// Prepares a child for new work that starts a turn: its subscription
    /// moves on to the next generation, whose watcher is handed back, with the
    /// notice that is owed for the work before. The status is the one the child
    /// had, none where the child is not there.
    pub fn maybe_prepare_completion_watcher_rearm(
        &mut self,
        child_thread_id: ThreadId,
        trigger_turn: bool,
        suppress_immediate_parent_notification: bool,
        current_status: Option<&AgentStatus>,
        wake_descendant_policy: Option<AgentWakeDescendantPolicy>,
        has_active_descendants: bool,
    ) -> (result: Option<CompletionWatcherRearm>)
        ensures
            result is Some <==> {
                &&& trigger_turn
                &&& current_status is Some
                &&& old(self).subscriptions@.contains_key(child_thread_id.bits)
                &&& allows_rearm(
                    *current_status->0,
                    old(self).subscriptions@[child_thread_id.bits],
                )
            },
            result matches Some(rearm) ==> {
                let before = old(self).subscriptions@[child_thread_id.bits];
                let after = with_next_generation(before, wake_descendant_policy);
                &&& final(self).subscriptions@ == old(self).subscriptions@.insert(
                    child_thread_id.bits,
                    after,
                )
                &&& rearm.previous_generation == before.completion_watcher_generation
                &&& is_ticket_for(
                    rearm.previous_notice,
                    overtaken_notice(
                        before,
                        wake_descendant_policy,
                        *current_status->0,
                        suppress_immediate_parent_notification,
                        has_active_descendants,
                    ),
                    child_thread_id,
                    before.completion_watcher_generation,
                )
                &&& rearm.arm == (CompletionWatcherArm {
                    parent_thread_id: before.parent_thread_id,
                    child_reference: before.child_reference,
                    child_agent_path: before.child_agent_path,
                    completion_watcher_generation: after.completion_watcher_generation,
                })
            },
            result is None ==> final(self).subscriptions@ == (if trigger_turn && current_status is Some
                && old(self).subscriptions@.contains_key(child_thread_id.bits) {
                old(self).subscriptions@.insert(
                    child_thread_id.bits,
                    with_policy(
                        old(self).subscriptions@[child_thread_id.bits],
                        wake_descendant_policy,
                    ),
                )
            } else {
                old(self).subscriptions@
            }),
            final(self).preferences@ == old(self).preferences@,
            old(self).well_formed() ==> final(self).well_formed(),
    {
        if !trigger_turn {
            return None;
        }
        let status = match current_status {
            Some(status) => status,
            None => {
                return None;
            },
        };
        let status_is_final = is_final(status);
        let status_allows_rearm = status_is_final || matches!(status, AgentStatus::PendingInit);
        let mut subscription = match self.subscriptions.get(&child_thread_id.bits) {
            Some(subscription) => subscription.clone(),
            None => {
                return None;
            },
        };
        if let Some(policy) = wake_descendant_policy {
            subscription.wake_descendant_policy = policy;
        }
        let previous_generation: u64 = subscription.completion_watcher_generation;
        let already_notified = match subscription.last_notified_generation {
            Some(generation) => generation == previous_generation,
            None => false,
        };
        if !status_allows_rearm && !already_notified {
            self.subscriptions.insert(child_thread_id.bits, subscription);
            return None;
        }
        let in_flight = match subscription.notice_in_flight {
            Some(generation) => generation == previous_generation,
            None => false,
        };
        let blocked = has_active_descendants && matches!(
            subscription.wake_descendant_policy,
            AgentWakeDescendantPolicy::LeafOnly
        );
        let previous_notice = if status_is_final && !suppress_immediate_parent_notification
            && !blocked && !already_notified && !in_flight && previous_generation < u64::MAX {
            Some(
                NoticeTicket::issue(
                    child_thread_id,
                    previous_generation,
                    subscription.wake_parent_on_completion,
                ),
            )
        } else {
            None
        };
        let child_reference = subscription.child_reference.clone();
        let child_agent_path = subscription.child_agent_path.clone();
        subscription.completion_watcher_generation = previous_generation.saturating_add(1);
        let arm = CompletionWatcherArm {
            parent_thread_id: subscription.parent_thread_id,
            child_reference,
            child_agent_path,
            completion_watcher_generation: subscription.completion_watcher_generation,
        };
        self.subscriptions.insert(child_thread_id.bits, subscription);
        Some(CompletionWatcherRearm { arm, previous_generation, previous_notice })
    }

    /// Whether the child may wake its parent only when its own descendants
    /// are at rest.
    pub fn leaf_only(&self, child_thread_id: ThreadId) -> (result: bool)
        ensures
            result == is_leaf_only(self.subscriptions@, child_thread_id),
    {
        match self.subscriptions.get(&child_thread_id.bits) {
            Some(subscription) => matches!(
                subscription.wake_descendant_policy,
                AgentWakeDescendantPolicy::LeafOnly
            ),
            None => false,
        }
    }

    /// Whether a child's descendants keep it from waking its parent.
    pub fn leaf_only_wake_blocked(
        &self,
        child_thread_id: ThreadId,
        has_active_descendants: bool,
    ) -> (result: bool)
        ensures
            result == (is_leaf_only(self.subscriptions@, child_thread_id)
                && has_active_descendants),
    {
        self.leaf_only(child_thread_id) && has_active_descendants
    }

    /// Whether new work for a child comes from one of the child's own
    /// descendants.
    pub fn communication_reuses_child_from_descendant(
        &self,
        child_thread_id: ThreadId,
        author: &AgentPath,
    ) -> (result: bool)
        ensures
            result == comes_from_below(self.subscriptions@, child_thread_id, author@),
    {
        match self.subscriptions.get(&child_thread_id.bits) {
            Some(subscription) => match &subscription.child_agent_path {
                Some(path) => {
                    let below = author.within(path);
                    let same = author.same(path);
                    below && !same
                },
                None => false,
            },
            None => false,
        }
    }

    /// Those of the given children that are to wake the given parent, in the
    /// order given.
    pub fn wake_enabled_children_for_parent(
        &self,
        parent_thread_id: ThreadId,
        child_thread_ids: &Vec<ThreadId>,
    ) -> (result: Vec<ThreadId>)
        ensures
            result@ == child_thread_ids@.filter(
                |child: ThreadId| is_wake_enabled(self.subscriptions@, parent_thread_id, child),
            ),
    {
        let ghost enabled = |child: ThreadId|
            is_wake_enabled(self.subscriptions@, parent_thread_id, child);
        let mut result: Vec<ThreadId> = Vec::new();
        let mut i: usize = 0;
        assert(child_thread_ids@.take(0).filter(enabled) =~= Seq::<ThreadId>::empty()) by {
            reveal(Seq::filter);
        }
        while i < child_thread_ids.len()
            invariant
                i <= child_thread_ids.len(),
                enabled == (|child: ThreadId|
                    is_wake_enabled(self.subscriptions@, parent_thread_id, child)),
                result@ == child_thread_ids@.take(i as int).filter(enabled),
            decreases child_thread_ids.len() - i,
        {
            let child = child_thread_ids[i];
            proof {
                assert(child_thread_ids@.take(i + 1) =~= child_thread_ids@.take(i as int).push(
                    child,
                ));
                child_thread_ids@.take(i as int).lemma_filter_push(child, enabled);
            }
            if let Some(subscription) = self.subscriptions.get(&child.bits) {
                if subscription.parent_thread_id == parent_thread_id
                    && subscription.wake_parent_on_completion {
                    result.push(child);
                }
            }
            i += 1;
        }
        assert(child_thread_ids@.take(i as int) =~= child_thread_ids@);
        result
    }

    /// Whether some child has yet to wake the given parent.
    pub fn has_pending_wake_enabled_children_for_parent(
        &self,
        parent_thread_id: ThreadId,
    ) -> (result: bool)
        ensures
            result == has_pending(self.subscriptions@, parent_thread_id),
    {
        for entry in iter: self.subscriptions.iter()
            invariant
                forall|k: int|
                    0 <= k < iter.index() ==> {
                        let subscription = *(#[trigger] iter.seq()[k]).1;
                        !(subscription.parent_thread_id == parent_thread_id
                            && subscription.wake_parent_on_completion && is_pending(subscription))
                    },
        {
            let subscription = entry.1;
            if subscription.parent_thread_id == parent_thread_id
                && subscription.wake_parent_on_completion {
                let pending = match subscription.last_notified_generation {
                    Some(generation) => generation != subscription.completion_watcher_generation,
                    None => true,
                };
                if pending {
                    assert(self.subscriptions@.contains_key(*entry.0));
                    return true;
                }
            }
        }
        false
    }
}

/// A watcher goes on being the current one as long as its child is on the
/// generation that it watches, and no longer.
pub proof fn lemma_current_watchers(
    subscriptions: Map<u128, ParentWakeSubscription>,
    child: ThreadId,
    subscription: ParentWakeSubscription,
    generation: u64,
)
    ensures
        is_superseded(subscriptions.remove(child.bits), child, generation),
        is_superseded(subscriptions.insert(child.bits, subscription), child, generation)
            <==> subscription.completion_watcher_generation != generation,
{
}

/// New work moves a child on to the next generation and keeps everything else
/// but the policy, which is the one that was read, if one was. The watcher of
/// the old generation is superseded, the one of the new is not, and the parent
/// waits for the new one. Other children notice nothing.
pub proof fn lemma_new_work_moves_on(
    subscriptions: Map<u128, ParentWakeSubscription>,
    child: ThreadId,
    policy: Option<AgentWakeDescendantPolicy>,
    other: ThreadId,
    generation: u64,
)
    requires
        subscriptions.contains_key(child.bits),
    ensures
        ({
            let before = subscriptions[child.bits];
            let after = with_next_generation(before, policy);
            let all = subscriptions.insert(child.bits, after);
            let old_generation = before.completion_watcher_generation;
            &&& after.parent_thread_id == before.parent_thread_id
            &&& after.wake_parent_on_completion == before.wake_parent_on_completion
            &&& after.child_reference == before.child_reference
            &&& after.child_agent_path == before.child_agent_path
            &&& after.last_notified_generation == before.last_notified_generation
            &&& after.notice_in_flight == before.notice_in_flight
            &&& policy is Some ==> after.wake_descendant_policy == policy->0
            &&& policy is None ==> after.wake_descendant_policy == before.wake_descendant_policy
            &&& with_policy(before, policy).wake_descendant_policy == after.wake_descendant_policy
            &&& with_policy(before, policy).completion_watcher_generation == old_generation
            &&& with_policy(before, policy).last_notified_generation
                == before.last_notified_generation
            &&& old_generation < u64::MAX ==> {
                &&& is_superseded(all, child, old_generation)
                &&& !is_superseded(all, child, (old_generation + 1) as u64)
                &&& reached_only(before) ==> is_pending(after)
            }
            &&& old_generation == u64::MAX ==> after.completion_watcher_generation == u64::MAX
            &&& other.bits != child.bits ==> is_superseded(all, other, generation)
                == is_superseded(subscriptions, other, generation)
        }),
{
}

/// Giving new work owes a notice for the work before exactly when the child was
/// done with it, no descendant stands in the way or gives the work, the parent
/// was not told, nobody is about to tell it, and there is a next generation. The
/// notice wakes the parent where the subscription says so.
pub proof fn lemma_notice_of_overtaken_work(
    before: ParentWakeSubscription,
    policy: Option<AgentWakeDescendantPolicy>,
    status: AgentStatus,
    suppressed: bool,
    active_descendants: bool,
)
    ensures
        ({
            let owed = overtaken_notice(before, policy, status, suppressed, active_descendants);
            let generation = before.completion_watcher_generation;
            let leaf_only = if policy is Some {
                policy->0 is LeafOnly
            } else {
                before.wake_descendant_policy is LeafOnly
            };
            &&& owed is Some ==> owed->0 == before.wake_parent_on_completion
            &&& owed is Some <==> {
                &&& status is Completed || status is Errored || status is Shutdown || status
                    is NotFound
                &&& !suppressed
                &&& !(leaf_only && active_descendants)
                &&& before.last_notified_generation != Some(generation)
                &&& before.notice_in_flight != Some(generation)
                &&& generation < u64::MAX
            }
        }),
{
}

/// New work gets a watcher of its own unless the child is at work, or was
/// interrupted, on something that the parent has not been told of.
pub proof fn lemma_when_new_work_is_watched(
    status: AgentStatus,
    subscription: ParentWakeSubscription,
)
    ensures
        status is Running || status is Interrupted ==> (allows_rearm(status, subscription) <==>
            subscription.last_notified_generation == Some(
            subscription.completion_watcher_generation,
        )),
        !(status is Running || status is Interrupted) ==> allows_rearm(status, subscription),
{
}

/// A parent has something to wait for exactly when one of its children is to
/// wake it and has not told it of its current work: one more subscription adds
/// only itself.
pub proof fn lemma_whom_a_parent_waits_for(
    subscriptions: Map<u128, ParentWakeSubscription>,
    parent: ThreadId,
    child: u128,
    subscription: ParentWakeSubscription,
)
    ensures
        !has_pending(Map::empty(), parent),
        has_pending(subscriptions.insert(child, subscription), parent) <==> (
        subscription.parent_thread_id == parent && subscription.wake_parent_on_completion
            && subscription.last_notified_generation != Some(
            subscription.completion_watcher_generation,
        )) || has_pending(subscriptions.remove(child), parent),
        forall|id: ThreadId|
            id.bits == child ==> (#[trigger] is_wake_enabled(
                subscriptions.insert(child, subscription),
                parent,
                id,
            ) <==> subscription.parent_thread_id == parent
                && subscription.wake_parent_on_completion),
        forall|id: ThreadId|
            id.bits == child ==> (#[trigger] is_leaf_only(
                subscriptions.insert(child, subscription),
                id,
            ) <==> subscription.wake_descendant_policy is LeafOnly),
{
    let with = subscriptions.insert(child, subscription);
    let without = subscriptions.remove(child);
    if has_pending(with, parent) {
        let id = choose|id: u128| #[trigger]
            with.contains_key(id) && with[id].parent_thread_id == parent
                && with[id].wake_parent_on_completion && is_pending(with[id]);
        if id != child {
            assert(without.contains_key(id) && without[id] == with[id]);
        }
    }
    if has_pending(without, parent) {
        let id = choose|id: u128| #[trigger]
            without.contains_key(id) && without[id].parent_thread_id == parent
                && without[id].wake_parent_on_completion && is_pending(without[id]);
        assert(with.contains_key(id) && with[id] == without[id]);
    }
    assert(with.contains_key(child));
}

/// A child that is subscribed anew wakes the parent that it was subscribed for
/// as was asked for, is on its first generation, and nothing was told of it
/// yet. No other child is touched.
pub proof fn lemma_subscribed_anew(
    before: Map<u128, ParentWakeSubscription>,
    after: Map<u128, ParentWakeSubscription>,
    child: ThreadId,
    other: u128,
    parent: ThreadId,
    wake: bool,
    policy: AgentWakeDescendantPolicy,
    path: Option<AgentPath>,
)
    requires
        replaced_at(before, after, child.bits),
        is_fresh(
            after[child.bits],
            parent,
            wake,
            policy,
            child_reference_text(child, path),
            path,
        ),
    ensures
        is_wake_enabled(after, parent, child) <==> wake,
        wake ==> has_pending(after, parent),
        !is_superseded(after, child, 0),
        is_leaf_only(after, child) <==> policy is LeafOnly,
        is_pending(after[child.bits]),
        after[child.bits].notice_in_flight is None,
        path is Some ==> after[child.bits].child_reference@ == path->0@,
        path is None ==> after[child.bits].child_reference@ == thread_id_text(child.bits),
        other != child.bits ==> (after.contains_key(other) <==> before.contains_key(other)) && (
        before.contains_key(other) ==> after[other] == before[other]),
{
    assert(after.contains_key(child.bits));
    if other != child.bits {
        assert(after.remove(child.bits).contains_key(other) <==> before.remove(
            child.bits,
        ).contains_key(other));
        if before.contains_key(other) {
            assert(after.remove(child.bits)[other] == before.remove(child.bits)[other]);
        }
    }
}

/// What is handed over names the child and the generation that it is for, and
/// wakes the parent as is owed; nothing is handed over where nothing is owed.
pub proof fn lemma_tickets(
    ticket: Option<NoticeTicket>,
    owed: Option<bool>,
    child: ThreadId,
    generation: u64,
)
    requires
        is_ticket_for(ticket, owed, child, generation),
    ensures
        ticket is Some <==> owed is Some,
        ticket is Some ==> ticket->0.of_child() == child && ticket->0.of_generation()
            == generation && ticket->0.wakes() == owed->0,
{
}

/// What was asked for a child decides whether it wakes its parent, whatever the
/// default is; where nothing was asked for the default decides, for a spawned
/// session alone.
pub proof fn lemma_who_is_to_wake(
    preferences: Map<u128, ParentWakePreference>,
    child: ThreadId,
    preference: ParentWakePreference,
    spawned: bool,
    fallback_default: bool,
)
    ensures
        is_to_wake(preferences.insert(child.bits, preference), child, spawned, fallback_default)
            == preference.wake_parent_on_completion,
        is_to_wake(preferences.remove(child.bits), child, true, fallback_default)
            == fallback_default,
        !is_to_wake(preferences.remove(child.bits), child, false, fallback_default),
{
}

/// Work comes from below a child where its author's path goes on from the
/// child's with a slash; the child itself, the agents above it and those beside
/// it are not below it, and nobody is below a child without a path.
pub proof fn lemma_who_is_below_a_child(
    subscriptions: Map<u128, ParentWakeSubscription>,
    child: ThreadId,
    subscription: ParentWakeSubscription,
    author: Seq<char>,
)
    ensures
        ({
            let all = subscriptions.insert(child.bits, subscription);
            let path = subscription.child_agent_path;
            &&& path is None ==> !comes_from_below(all, child, author)
            &&& path is Some ==> (comes_from_below(all, child, author) <==> author.len()
                > path->0@.len() && author.take(path->0@.len() as int) == path->0@
                && author[path->0@.len() as int] == '/')
        }),
        !comes_from_below(subscriptions.remove(child.bits), child, author),
{
    if subscription.child_agent_path is Some {
        crate::agent::lemma_below_a_path(author, subscription.child_agent_path->0@);
    }
}

} // verus!
