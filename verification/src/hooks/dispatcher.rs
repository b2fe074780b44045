//! Picking the hooks that run for an event, and what is shown of their runs.

use vstd::prelude::*;
use crate::clock::unix_seconds_now;
use crate::hooks::matcher::{admits, matches_matcher, regex_error, regex_finds, uses_matcher};
use crate::hooks::model::{
    handler_views, ConfiguredHandler, ConfiguredHandlerView, HookConditionsView, HookEventName,
    HookSource,
};
use crate::sort::{
    lemma_stable_sorted, lemma_stable_sorted_contains, lemma_stable_sorted_keeps_ties, ranks,
    sort_stable, stable_sorted, Ordered,
};
use crate::text::{opt_str, opt_text, same_text, texts};

verus! {

/// What hooks are picked by.
#[derive(Clone, Copy, Debug)]
pub struct HookSelectionContext<'a> {
    pub event_name: HookEventName,
    pub matcher_input: Option<&'a str>,
    pub active_profile: Option<&'a str>,
    pub model: Option<&'a str>,
    pub permission_mode: Option<&'a str>,
}

/// A condition holds: nothing is declared, or the actual value is the single
/// declared one or one of the many.
pub open spec fn condition_holds(
    actual: Option<Seq<char>>,
    single: Option<Seq<char>>,
    many: Seq<Seq<char>>,
) -> bool {
    ||| single is None && many.len() == 0
    ||| actual is Some && (single == actual || many.contains(actual->0))
}

/// All declared conditions hold.
pub open spec fn conditions_hold(
    conditions: HookConditionsView,
    profile: Option<Seq<char>>,
    model: Option<Seq<char>>,
    permission_mode: Option<Seq<char>>,
) -> bool {
    &&& condition_holds(profile, conditions.profile, conditions.profiles)
    &&& condition_holds(model, conditions.model, conditions.models)
    &&& condition_holds(permission_mode, conditions.permission_mode, conditions.permission_modes)
}

/// A matcher admits one of the inputs; where there are none, it has to admit
/// the absence of input.
pub open spec fn admits_some(matcher: Option<Seq<char>>, inputs: Seq<Seq<char>>) -> bool {
    if inputs.len() == 0 {
        admits(matcher, None)
    } else {
        exists|i: int| 0 <= i < inputs.len() && admits(matcher, Some(#[trigger] inputs[i]))
    }
}

/// A handler runs: it is for the event, its conditions hold, and its matcher
/// admits an input where the event uses matchers.
pub open spec fn is_selected(
    handler: ConfiguredHandlerView,
    selection: HookSelectionContext<'_>,
    inputs: Seq<Seq<char>>,
) -> bool {
    &&& handler.event_name == selection.event_name
    &&& conditions_hold(
        handler.conditions,
        opt_str(selection.active_profile),
        opt_str(selection.model),
        opt_str(selection.permission_mode),
    )
    &&& uses_matcher(selection.event_name) ==> admits_some(handler.matcher, inputs)
}

/// The handlers that run, in the order in which they are configured.
pub open spec fn selected(
    handlers: Seq<ConfiguredHandlerView>,
    selection: HookSelectionContext<'_>,
    inputs: Seq<Seq<char>>,
) -> Seq<ConfiguredHandlerView> {
    handlers.filter(|handler: ConfiguredHandlerView| is_selected(handler, selection, inputs))
}

/// The inputs of an event: one or none.
pub open spec fn event_inputs(selection: HookSelectionContext<'_>) -> Seq<Seq<char>> {
    match selection.matcher_input {
        Some(input) => seq![input@],
        None => Seq::empty(),
    }
}

/// The views of borrowed strings.
pub open spec fn str_views(list: Seq<&str>) -> Seq<Seq<char>> {
    list.map_values(|s: &str| s@)
}

fn matches_condition_value(actual: Option<&str>, single: Option<&str>, many: &Vec<String>) -> (result:
    bool)
    ensures
        result == condition_holds(opt_str(actual), opt_str(single), texts(many@)),
{
    if single.is_none() && many.len() == 0 {
        return true;
    }
    let value = match actual {
        Some(value) => value,
        None => {
            return false;
        },
    };
    if let Some(expected) = single {
        if same_text(expected, value) {
            return true;
        }
    }
    let ghost all = texts(many@);
    let mut i: usize = 0;
    while i < many.len()
        invariant
            i <= many.len(),
            all == texts(many@),
            actual == Some(value),
            forall|j: int| 0 <= j < i ==> all[j] != value@,
        decreases many.len() - i,
    {
        assert(all[i as int] == many@[i as int]@);
        if same_text(many[i].as_str(), value) {
            assert(all.contains(value@));
            return true;
        }
        i += 1;
    }
    assert(!all.contains(value@));
    false
}

/// Borrows an optional string.
fn as_opt_str(s: &Option<String>) -> (result: Option<&str>)
    ensures
        opt_str(result) == opt_text(*s),
{
    match s {
        Some(s) => Some(s.as_str()),
        None => None,
    }
}

fn matches_conditions(handler: &ConfiguredHandler, selection: HookSelectionContext<'_>) -> (result:
    bool)
    ensures
        result == conditions_hold(
            handler@.conditions,
            opt_str(selection.active_profile),
            opt_str(selection.model),
            opt_str(selection.permission_mode),
        ),
{
    matches_condition_value(
        selection.active_profile,
        as_opt_str(&handler.conditions.profile),
        &handler.conditions.profiles,
    ) && matches_condition_value(
        selection.model,
        as_opt_str(&handler.conditions.model),
        &handler.conditions.models,
    ) && matches_condition_value(
        selection.permission_mode,
        as_opt_str(&handler.conditions.permission_mode),
        &handler.conditions.permission_modes,
    )
}

fn matches_some(matcher: Option<&str>, inputs: &[&str]) -> (result: bool)
    ensures
        result == admits_some(opt_str(matcher), str_views(inputs@)),
{
    if inputs.len() == 0 {
        return matches_matcher(matcher, None);
    }
    let ghost all = str_views(inputs@);
    let mut i: usize = 0;
    while i < inputs.len()
        invariant
            i <= inputs.len(),
            inputs.len() > 0,
            all == str_views(inputs@),
            forall|j: int| 0 <= j < i ==> !admits(opt_str(matcher), Some(#[trigger] all[j])),
        decreases inputs.len() - i,
    {
        let input = inputs[i];
        assert(all[i as int] == input@);
        if matches_matcher(matcher, Some(input)) {
            assert(admits(opt_str(matcher), Some(all[i as int])));
            return true;
        }
        i += 1;
    }
    false
}

/// Whether a handler runs, given whether its matcher admits the input.
pub fn runs_given(
    handler: &ConfiguredHandler,
    selection: HookSelectionContext<'_>,
    matcher_admits: bool,
) -> (result: bool)
    ensures
        result <==> {
            &&& handler.event_name == selection.event_name
            &&& conditions_hold(
                handler@.conditions,
                opt_str(selection.active_profile),
                opt_str(selection.model),
                opt_str(selection.permission_mode),
            )
            &&& uses_matcher(selection.event_name) ==> matcher_admits
        },
{
    if handler.event_name != selection.event_name {
        return false;
    }
    if !matches_conditions(handler, selection) {
        return false;
    }
    match selection.event_name {
        HookEventName::UserPromptSubmit | HookEventName::Stop => true,
        _ => matcher_admits,
    }
}

/// The handlers that run for an event with the given inputs, each once and in
/// the order in which they are configured.
pub fn select_handlers_for_matcher_inputs(
    handlers: &[ConfiguredHandler],
    selection: HookSelectionContext<'_>,
    matcher_inputs: &[&str],
) -> (result: Vec<ConfiguredHandler>)
    ensures
        handler_views(result@) == selected(
            handler_views(handlers@),
            selection,
            str_views(matcher_inputs@),
        ),
{
    let ghost inputs = str_views(matcher_inputs@);
    let ghost keep = |handler: ConfiguredHandlerView| is_selected(handler, selection, inputs);
    let ghost all = handler_views(handlers@);
    let mut result: Vec<ConfiguredHandler> = Vec::new();
    let mut i: usize = 0;
    proof {
        reveal(Seq::filter);
        assert(handler_views(result@) =~= all.take(0).filter(keep));
    }
    while i < handlers.len()
        invariant
            i <= handlers.len(),
            inputs == str_views(matcher_inputs@),
            keep == (|handler: ConfiguredHandlerView| is_selected(handler, selection, inputs)),
            all == handler_views(handlers@),
            handler_views(result@) == all.take(i as int).filter(keep),
        decreases handlers.len() - i,
    {
        let handler = &handlers[i];
        let ghost before = result@;
        proof {
            assert(all[i as int] == handler@);
            assert(all.take(i + 1) =~= all.take(i as int).push(handler@));
            all.take(i as int).lemma_filter_push(handler@, keep);
        }
        let admitted = matches_some(as_opt_str(&handler.matcher), matcher_inputs);
        if runs_given(handler, selection, admitted) {
            assert(keep(handler@));
            let copy = handler.clone();
            result.push(copy);
            assert(handler_views(result@) =~= handler_views(before).push(copy@));
        }
        i += 1;
    }
    assert(all.take(i as int) =~= all);
    result
}

/// The handlers that run for an event.
pub fn select_handlers(
    handlers: &[ConfiguredHandler],
    selection: HookSelectionContext<'_>,
) -> (result: Vec<ConfiguredHandler>)
    ensures
        handler_views(result@) == selected(
            handler_views(handlers@),
            selection,
            event_inputs(selection),
        ),
{
    let mut inputs: Vec<&str> = Vec::new();
    if let Some(input) = selection.matcher_input {
        inputs.push(input);
    }
    assert(str_views(inputs@) =~= event_inputs(selection));
    select_handlers_for_matcher_inputs(handlers, selection, inputs.as_slice())
}

/// Handlers in the order in which they were found.
pub open spec fn in_display_order(handlers: Seq<ConfiguredHandlerView>) -> bool {
    forall|i: int, j: int|
        0 <= i < j < handlers.len() ==> (#[trigger] handlers[i]).display_order < (
        #[trigger] handlers[j]).display_order
}

/// The handlers that run keep the order in which they are configured, and
/// each of them is one of the configured handlers, all of whose conditions
/// hold.
pub proof fn lemma_selected_keeps_order(
    handlers: Seq<ConfiguredHandlerView>,
    selection: HookSelectionContext<'_>,
    inputs: Seq<Seq<char>>,
)
    requires
        in_display_order(handlers),
    ensures
        in_display_order(selected(handlers, selection, inputs)),
        forall|i: int|
            0 <= i < selected(handlers, selection, inputs).len() ==> handlers.contains(
                #[trigger] selected(handlers, selection, inputs)[i],
            ) && is_selected(selected(handlers, selection, inputs)[i], selection, inputs),
    decreases handlers.len(),
{
    let keep = |handler: ConfiguredHandlerView| is_selected(handler, selection, inputs);
    let all = selected(handlers, selection, inputs);
    if handlers.len() == 0 {
        reveal(Seq::filter);
    } else {
        let front = handlers.drop_last();
        let last = handlers.last();
        assert(handlers =~= front.push(last));
        front.lemma_filter_push(last, keep);
        assert(in_display_order(front)) by {
            assert forall|i: int, j: int| 0 <= i < j < front.len() implies (
            #[trigger] front[i]).display_order < (#[trigger] front[j]).display_order by {
                assert(handlers[i] == front[i] && handlers[j] == front[j]);
            }
        }
        lemma_selected_keeps_order(front, selection, inputs);
        let picked = selected(front, selection, inputs);
        assert forall|i: int| 0 <= i < all.len() implies handlers.contains(#[trigger] all[i])
            && is_selected(all[i], selection, inputs) by {
            if i < picked.len() {
                assert(all[i] == picked[i]);
                let k = choose|k: int| 0 <= k < front.len() && front[k] == picked[i];
                assert(handlers[k] == all[i]);
            } else {
                assert(keep(last) && all[i] == last);
                assert(handlers[handlers.len() - 1] == last);
            }
        }
        assert forall|i: int, j: int| 0 <= i < j < all.len() implies (
        #[trigger] all[i]).display_order < (#[trigger] all[j]).display_order by {
            assert(all[i] == picked[i]);
            if j < picked.len() {
                assert(all[j] == picked[j]);
            } else {
                assert(all[j] == last);
                let k = choose|k: int| 0 <= k < front.len() && front[k] == picked[i];
                assert(handlers[k] == picked[i]);
                assert(handlers[handlers.len() - 1] == last);
            }
        }
    }
}

/// What a hook belongs to.
#[derive(Clone, Copy, Debug, PartialEq, Eq, Structural)]
pub enum HookScope {
    Thread,
    Turn,
}

/// How a hook runs.
#[derive(Clone, Copy, Debug, PartialEq, Eq, Structural)]
pub enum HookHandlerType {
    Command,
}

/// Whether a hook is waited for.
#[derive(Clone, Copy, Debug, PartialEq, Eq, Structural)]
pub enum HookExecutionMode {
    Sync,
}

/// How a run of a hook stands.
#[derive(Clone, Copy, Debug, PartialEq, Eq, Structural)]
pub enum HookRunStatus {
    Running,
    Completed,
    Failed,
}

/// What an entry of a hook's output is.
#[derive(Clone, Copy, Debug, PartialEq, Eq, Structural)]
pub enum HookOutputEntryKind {
    Warning,
    Error,
    Context,
}

/// An entry of a hook's output.
#[derive(Debug)]
pub struct HookOutputEntry {
    pub kind: HookOutputEntryKind,
    pub text: String,
}

/// What is shown of a run of a hook.
#[derive(Debug)]
pub struct HookRunSummary {
    pub id: String,
    pub event_name: HookEventName,
    pub handler_type: HookHandlerType,
    pub execution_mode: HookExecutionMode,
    pub scope: HookScope,
    pub source_path: String,
    pub source: HookSource,
    pub display_order: i64,
    pub status: HookRunStatus,
    pub status_message: Option<String>,
    pub started_at: i64,
    pub completed_at: Option<i64>,
    pub duration_ms: Option<i64>,
    pub entries: Vec<HookOutputEntry>,
}

/// What a hook of an event belongs to.
pub open spec fn event_scope(event: HookEventName) -> HookScope {
    if event is SessionStart {
        HookScope::Thread
    } else {
        HookScope::Turn
    }
}

/// What a hook of an event belongs to: those that run at the start of a
/// session to the thread, all others to the turn.
pub fn scope_for_event(event_name: HookEventName) -> (result: HookScope)
    ensures
        result == event_scope(event_name),
{
    match event_name {
        HookEventName::SessionStart => HookScope::Thread,
        _ => HookScope::Turn,
    }
}

/// A summary shows the given handler's run.
pub open spec fn summarizes(
    summary: HookRunSummary,
    handler: ConfiguredHandler,
    id: String,
) -> bool {
    &&& summary.id == id
    &&& summary.event_name == handler.event_name
    &&& summary.handler_type is Command
    &&& summary.execution_mode is Sync
    &&& summary.scope == event_scope(handler.event_name)
    &&& summary.source_path == handler.source_path
    &&& summary.source == handler.source
    &&& summary.display_order == handler.display_order
    &&& summary.status_message == handler.status_message
}

/// What is shown of a run that started at the given time.
pub fn running_summary_at(handler: &ConfiguredHandler, run_id: String, started_at: i64) -> (result:
    HookRunSummary)
    ensures
        summarizes(result, *handler, run_id),
        result.status is Running,
        result.started_at == started_at,
        result.completed_at is None,
        result.duration_ms is None,
        result.entries@.len() == 0,
{
    HookRunSummary {
        id: run_id,
        event_name: handler.event_name,
        handler_type: HookHandlerType::Command,
        execution_mode: HookExecutionMode::Sync,
        scope: scope_for_event(handler.event_name),
        source_path: handler.source_path.clone(),
        source: handler.source,
        display_order: handler.display_order,
        status: HookRunStatus::Running,
        status_message: handler.status_message.clone(),
        started_at,
        completed_at: None,
        duration_ms: None,
        entries: Vec::new(),
    }
}

/// What is shown of a run that starts now.
pub fn running_summary(handler: &ConfiguredHandler, run_id: String) -> (result: HookRunSummary)
    ensures
        summarizes(result, *handler, run_id),
        result.status is Running,
        result.completed_at is None,
        result.duration_ms is None,
        result.entries@.len() == 0,
{
    running_summary_at(handler, run_id, unix_seconds_now())
}

/// What came of running a hook's command.
#[derive(Debug)]
pub struct CommandRunResult {
    pub started_at: i64,
    pub completed_at: i64,
    pub duration_ms: i64,
    pub exit_code: Option<i32>,
    pub stdout: String,
    pub stderr: String,
    pub error: Option<String>,
}

/// What is shown of a run that ended.
pub fn completed_summary(
    handler: &ConfiguredHandler,
    run_id: String,
    run_result: &CommandRunResult,
    status: HookRunStatus,
    entries: Vec<HookOutputEntry>,
) -> (result: HookRunSummary)
    ensures
        summarizes(result, *handler, run_id),
        result.status == status,
        result.started_at == run_result.started_at,
        result.completed_at == Some(run_result.completed_at),
        result.duration_ms == Some(run_result.duration_ms),
        result.entries == entries,
{
    HookRunSummary {
        id: run_id,
        event_name: handler.event_name,
        handler_type: HookHandlerType::Command,
        execution_mode: HookExecutionMode::Sync,
        scope: scope_for_event(handler.event_name),
        source_path: handler.source_path.clone(),
        source: handler.source,
        display_order: handler.display_order,
        status,
        status_message: handler.status_message.clone(),
        started_at: run_result.started_at,
        completed_at: Some(run_result.completed_at),
        duration_ms: Some(run_result.duration_ms),
        entries,
    }
}

/// A hook's run that ended, as it is reported.
#[derive(Debug)]
pub struct HookCompletedEvent {
    pub turn_id: Option<String>,
    pub run: HookRunSummary,
}

/// What was read from a hook's run.
#[derive(Debug)]
pub struct ParsedHandler<T> {
    pub completed: HookCompletedEvent,
    pub data: T,
    /// The place of the run among all runs, by when they ended.
    pub completion_order: usize,
}

/// A run that ended, with the place of its handler among those that ran.
#[derive(Debug)]
pub struct CompletedRun<T> {
    pub configured_order: usize,
    pub parsed: ParsedHandler<T>,
}

impl<T> Ordered for CompletedRun<T> {
    open spec fn precedes(self, other: Self) -> bool {
        self.configured_order < other.configured_order
    }

    fn comes_before(&self, other: &Self) -> (result: bool) {
        self.configured_order < other.configured_order
    }
}

/// The runs, each with its place in the given order, which is that in which
/// they ended.
pub open spec fn with_completion_order<T>(runs: Seq<CompletedRun<T>>) -> Seq<CompletedRun<T>> {
    Seq::new(
        runs.len(),
        |i: int|
            CompletedRun {
                configured_order: runs[i].configured_order,
                parsed: ParsedHandler { completion_order: i as usize, ..runs[i].parsed },
            },
    )
}

/// What was read from the runs of hooks, given in the order in which they
/// ended: each gets its place in that order, and they are put in the order in
/// which their handlers are configured.
pub fn order_completed<T>(runs: Vec<CompletedRun<T>>) -> (result: Vec<ParsedHandler<T>>)
    ensures
        result@ == stable_sorted(with_completion_order(runs@)).map_values(
            |run: CompletedRun<T>| run.parsed,
        ),
{
    let ghost all = runs@;
    let mut rest = runs;
    let mut numbered: Vec<CompletedRun<T>> = Vec::new();
    let mut place: usize = 0;
    let total: usize = rest.len();
    while rest.len() > 0
        invariant
            place + rest@.len() == all.len(),
            all.len() == total,
            rest@ == all.skip(place as int),
            numbered@ == with_completion_order(all).take(place as int),
        decreases rest.len(),
    {
        let mut run = rest.remove(0);
        assert(run == all[place as int]);
        run.parsed.completion_order = place;
        numbered.push(run);
        assert(rest@ =~= all.skip(place + 1));
        assert(numbered@ =~= with_completion_order(all).take(place + 1));
        place += 1;
    }
    assert(with_completion_order(all).take(place as int) =~= with_completion_order(all));
    let mut sorted = sort_stable(numbered);
    let ghost order = sorted@;
    let ghost parsed_of = |run: CompletedRun<T>| run.parsed;
    let mut result: Vec<ParsedHandler<T>> = Vec::new();
    assert(order.skip(0) =~= order);
    while sorted.len() > 0
        invariant
            parsed_of == (|run: CompletedRun<T>| run.parsed),
            result@.len() + sorted@.len() == order.len(),
            sorted@ == order.skip(result@.len() as int),
            result@ == order.take(result@.len() as int).map_values(parsed_of),
        decreases sorted.len(),
    {
        let ghost n = result@.len() as int;
        let run = sorted.remove(0);
        assert(run == order[n]);
        result.push(run.parsed);
        assert(sorted@ =~= order.skip(n + 1));
        assert(result@ =~= order.take(n + 1).map_values(parsed_of));
    }
    assert(order.take(result@.len() as int) =~= order);
    result
}

/// A value is declared: it is the single one or one of the many.
pub open spec fn is_declared(
    value: Option<Seq<char>>,
    single: Option<Seq<char>>,
    many: Seq<Seq<char>>,
) -> bool {
    value matches Some(value) && (single == Some(value) || exists|i: int|
        0 <= i < many.len() && #[trigger] many[i] == value)
}

/// A hook that runs is one of the event's. Where it declares a profile or
/// profiles, the active profile is among them; so it is, each on its own, for
/// the model and for the permission mode: what is declared and does not hold
/// keeps the hook from running. Where the event has matchers, the hook's
/// admits everything or one of the inputs.
pub proof fn lemma_selected_fits(
    handlers: Seq<ConfiguredHandlerView>,
    selection: HookSelectionContext<'_>,
    inputs: Seq<Seq<char>>,
    i: int,
)
    requires
        0 <= i < selected(handlers, selection, inputs).len(),
    ensures
        ({
            let handler = selected(handlers, selection, inputs)[i];
            let conditions = handler.conditions;
            &&& handlers.contains(handler)
            &&& handler.event_name == selection.event_name
            &&& conditions.profile is Some || conditions.profiles.len() > 0 ==> is_declared(
                opt_str(selection.active_profile),
                conditions.profile,
                conditions.profiles,
            )
            &&& conditions.model is Some || conditions.models.len() > 0 ==> is_declared(
                opt_str(selection.model),
                conditions.model,
                conditions.models,
            )
            &&& conditions.permission_mode is Some || conditions.permission_modes.len() > 0
                ==> is_declared(
                opt_str(selection.permission_mode),
                conditions.permission_mode,
                conditions.permission_modes,
            )
            &&& {
                ||| selection.event_name is UserPromptSubmit
                ||| selection.event_name is Stop
                ||| handler.matcher is None
                ||| handler.matcher->0.len() == 0
                ||| handler.matcher->0 == "*"@
                ||| exists|k: int|
                    0 <= k < inputs.len() && regex_error(handler.matcher->0) is None
                        && regex_finds(handler.matcher->0, #[trigger] inputs[k])
            }
        }),
{
    let keep = |handler: ConfiguredHandlerView| is_selected(handler, selection, inputs);
    let all = selected(handlers, selection, inputs);
    handlers.lemma_filter_pred(keep, i);
    handlers.lemma_filter_contains_rev(keep, all[i]);
    assert(keep(all[i]));
    assert(condition_holds(
        opt_str(selection.model),
        all[i].conditions.model,
        all[i].conditions.models,
    ));
}

/// Every hook of the event runs whose declared conditions hold, and whose
/// matcher admits an input where the event has matchers: one that declares
/// nothing and has no matcher always does.
pub proof fn lemma_fitting_handler_is_selected(
    handlers: Seq<ConfiguredHandlerView>,
    selection: HookSelectionContext<'_>,
    inputs: Seq<Seq<char>>,
    k: int,
)
    requires
        0 <= k < handlers.len(),
        handlers[k].event_name == selection.event_name,
        (handlers[k].conditions.profile is None && handlers[k].conditions.profiles.len() == 0)
            || is_declared(
            opt_str(selection.active_profile),
            handlers[k].conditions.profile,
            handlers[k].conditions.profiles,
        ),
        (handlers[k].conditions.model is None && handlers[k].conditions.models.len() == 0)
            || is_declared(
            opt_str(selection.model),
            handlers[k].conditions.model,
            handlers[k].conditions.models,
        ),
        (handlers[k].conditions.permission_mode is None
            && handlers[k].conditions.permission_modes.len() == 0) || is_declared(
            opt_str(selection.permission_mode),
            handlers[k].conditions.permission_mode,
            handlers[k].conditions.permission_modes,
        ),
        selection.event_name is UserPromptSubmit || selection.event_name is Stop
            || handlers[k].matcher is None || handlers[k].matcher->0.len() == 0
            || handlers[k].matcher->0 == "*"@ || exists|i: int|
            0 <= i < inputs.len() && regex_error(handlers[k].matcher->0) is None && regex_finds(
                handlers[k].matcher->0,
                #[trigger] inputs[i],
            ),
    ensures
        selected(handlers, selection, inputs).contains(handlers[k]),
{
    let keep = |handler: ConfiguredHandlerView| is_selected(handler, selection, inputs);
    let handler = handlers[k];
    if uses_matcher(selection.event_name) && inputs.len() > 0 {
        if handler.matcher is None || handler.matcher->0.len() == 0 || handler.matcher->0 == "*"@ {
            assert(admits(handler.matcher, Some(inputs[0])));
        } else {
            let i = choose|i: int|
                0 <= i < inputs.len() && regex_error(handlers[k].matcher->0) is None
                    && regex_finds(handlers[k].matcher->0, #[trigger] inputs[i]);
            assert(admits(handler.matcher, Some(inputs[i])));
        }
    }
    assert(keep(handler));
    handlers.lemma_filter_contains(keep, k);
}

/// One more configured hook changes nothing in what is picked before it: it
/// comes last, once, or not at all.
pub proof fn lemma_one_more_handler(
    handlers: Seq<ConfiguredHandlerView>,
    handler: ConfiguredHandlerView,
    selection: HookSelectionContext<'_>,
    inputs: Seq<Seq<char>>,
)
    ensures
        selected(Seq::empty(), selection, inputs).len() == 0,
        ({
            let before = selected(handlers, selection, inputs);
            let after = selected(handlers.push(handler), selection, inputs);
            after == before || after == before.push(handler)
        }),
        handler.event_name != selection.event_name ==> selected(
            handlers.push(handler),
            selection,
            inputs,
        ) == selected(handlers, selection, inputs),
{
    let keep = |handler: ConfiguredHandlerView| is_selected(handler, selection, inputs);
    reveal(Seq::filter);
    handlers.lemma_filter_push(handler, keep);
}

/// An event has its input, if it has one, and no other.
pub proof fn lemma_event_has_its_input(selection: HookSelectionContext<'_>)
    ensures
        selection.matcher_input is None ==> event_inputs(selection).len() == 0,
        selection.matcher_input matches Some(input) ==> event_inputs(selection).len() == 1
            && event_inputs(selection)[0] == input@,
{
}

/// Hooks of the start of a session belong to the thread, all others to the
/// turn.
pub proof fn lemma_scope_of_events(event: HookEventName)
    ensures
        event_scope(event) is Thread <==> event is SessionStart,
        event_scope(event) is Turn <==> event is PreToolUse || event is PermissionRequest
            || event is PostToolUse || event is PreCompact || event is PostCompact
            || event is AfterCompaction || event is UserPromptSubmit || event is Stop,
{
}

/// A summary names the run, the event, the place and the source of the
/// handler that it is of, and no other's.
pub proof fn lemma_summary_is_of_its_handler(
    summary: HookRunSummary,
    handler: ConfiguredHandler,
    id: String,
)
    requires
        summarizes(summary, handler, id),
    ensures
        summary.id@ == id@,
        summary.event_name == handler.event_name,
        summary.source_path@ == handler.source_path@,
        summary.source == handler.source,
        summary.display_order == handler.display_order,
        summary.status_message == handler.status_message,
        summary.scope is Thread <==> handler.event_name is SessionStart,
        summary.handler_type is Command,
        summary.execution_mode is Sync,
{
}

/// Runs are reported in the order in which their handlers are configured,
/// each once and with its place in the order in which the runs ended; runs of
/// handlers of the same place stay in the order in which they ended.
pub proof fn lemma_completed_in_configured_order<T>(runs: Seq<CompletedRun<T>>)
    requires
        runs.len() <= usize::MAX,
    ensures
        ({
            let reported = stable_sorted(with_completion_order(runs));
            &&& reported.len() == runs.len()
            &&& forall|i: int, j: int|
                0 <= i < j < reported.len() ==> (#[trigger] reported[i]).configured_order <= (
                #[trigger] reported[j]).configured_order
            &&& forall|i: int|
                0 <= i < runs.len() ==> reported.contains(
                    CompletedRun {
                        configured_order: (#[trigger] runs[i]).configured_order,
                        parsed: ParsedHandler {
                            completed: runs[i].parsed.completed,
                            data: runs[i].parsed.data,
                            completion_order: i as usize,
                        },
                    },
                )
            &&& forall|j: int|
                #![trigger reported[j]]
                0 <= j < reported.len() ==> {
                    let place = reported[j].parsed.completion_order as int;
                    &&& 0 <= place < runs.len()
                    &&& reported[j].configured_order == runs[place].configured_order
                    &&& reported[j].parsed.completed == runs[place].parsed.completed
                    &&& reported[j].parsed.data == runs[place].parsed.data
                }
            &&& forall|i: int, j: int|
                0 <= i < j < reported.len() && (#[trigger] reported[i]).configured_order == (
                #[trigger] reported[j]).configured_order
                    ==> reported[i].parsed.completion_order < reported[j].parsed.completion_order
        }),
{
    let numbered = with_completion_order(runs);
    let reported = stable_sorted(numbered);
    lemma_stable_sorted(numbered);
    assert(ranks::<CompletedRun<T>>());
    let place_of = |run: CompletedRun<T>| run.parsed.completion_order as int;
    lemma_stable_sorted_keeps_ties(numbered, place_of);
    assert forall|i: int, j: int|
        0 <= i < j < reported.len() && (#[trigger] reported[i]).configured_order == (
        #[trigger] reported[j]).configured_order implies reported[i].parsed.completion_order
        < reported[j].parsed.completion_order by {
        assert(place_of(reported[i]) < place_of(reported[j]));
    }
    assert forall|i: int| 0 <= i < runs.len() implies reported.contains(
        CompletedRun {
            configured_order: (#[trigger] runs[i]).configured_order,
            parsed: ParsedHandler {
                completed: runs[i].parsed.completed,
                data: runs[i].parsed.data,
                completion_order: i as usize,
            },
        },
    ) by {
        lemma_stable_sorted_contains(numbered, numbered[i]);
        assert(numbered.contains(numbered[i]));
    }
    assert forall|j: int|
        #![trigger reported[j]]
        0 <= j < reported.len() implies {
        let place = reported[j].parsed.completion_order as int;
        &&& 0 <= place < runs.len()
        &&& reported[j].configured_order == runs[place].configured_order
        &&& reported[j].parsed.completed == runs[place].parsed.completed
        &&& reported[j].parsed.data == runs[place].parsed.data
    } by {
        lemma_stable_sorted_contains(numbered, reported[j]);
        assert(reported.contains(reported[j]));
        let i = choose|i: int| 0 <= i < numbered.len() && numbered[i] == reported[j];
        assert(numbered[i].parsed.completion_order == i);
    }
}

} // verus!
