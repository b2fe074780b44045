//! The hooks that run after a conversation was compacted.

use vstd::prelude::*;
use crate::agent::{thread_id_text, ThreadId};
use crate::clock::unix_seconds_now;
use crate::hooks::dispatcher::{
    completed_summary, event_inputs, running_summary_at, select_handlers, selected, summarizes,
    CommandRunResult, HookCompletedEvent, HookOutputEntry, HookOutputEntryKind, HookRunStatus,
    HookRunSummary, HookSelectionContext, ParsedHandler,
};
use crate::hooks::model::{handler_views, ConfiguredHandler, HookEventName};
use crate::text::{
    chars_of, opt_text, signed_decimal, signed_decimal_text, texts, trim, trimmed,
};

verus! {

/// What had a conversation compacted.
#[derive(Clone, Copy, Debug, PartialEq, Eq, Structural)]
pub enum AfterCompactionSource {
    Manual,
    Auto,
    ModelSwitch,
}

impl AfterCompactionSource {
    /// The name of the source, which matchers are held against.
    pub open spec fn name(self) -> Seq<char> {
        match self {
            AfterCompactionSource::Manual => "manual"@,
            AfterCompactionSource::Auto => "auto"@,
            AfterCompactionSource::ModelSwitch => "modelSwitch"@,
        }
    }

    /// The name of the source, which matchers are held against.
    pub fn as_str(self) -> (result: &'static str)
        ensures
            result@ == self.name(),
    {
        match self {
            AfterCompactionSource::Manual => "manual",
            AfterCompactionSource::Auto => "auto",
            AfterCompactionSource::ModelSwitch => "modelSwitch",
        }
    }
}

/// A compaction that hooks are to be run for.
#[derive(Debug)]
pub struct AfterCompactionRequest {
    pub session_id: ThreadId,
    pub turn_id: String,
    pub cwd: String,
    pub transcript_path: Option<String>,
    pub active_profile: Option<String>,
    pub model: String,
    pub permission_mode: String,
    pub source: AfterCompactionSource,
}

/// What the hooks of a compaction are picked by.
pub open spec fn is_request_selection(
    selection: HookSelectionContext<'_>,
    request: AfterCompactionRequest,
) -> bool {
    &&& selection.event_name is AfterCompaction
    &&& selection.matcher_input matches Some(input) && input@ == request.source.name()
    &&& crate::text::opt_str(selection.active_profile) == opt_text(request.active_profile)
    &&& selection.model matches Some(model) && model@ == request.model@
    &&& selection.permission_mode matches Some(mode) && mode@ == request.permission_mode@
}

/// What the hooks of a compaction are picked by: the source as the input of
/// matchers, and the conditions of the request.
pub fn request_selection(request: &AfterCompactionRequest) -> (result: HookSelectionContext<'_>)
    ensures
        is_request_selection(result, *request),
{
    HookSelectionContext {
        event_name: HookEventName::AfterCompaction,
        matcher_input: Some(request.source.as_str()),
        active_profile: match &request.active_profile {
            Some(profile) => Some(profile.as_str()),
            None => None,
        },
        model: Some(request.model.as_str()),
        permission_mode: Some(request.permission_mode.as_str()),
    }
}

/// The handlers that run for a compaction.
pub fn matched_handlers(handlers: &[ConfiguredHandler], request: &AfterCompactionRequest) -> (result:
    Vec<ConfiguredHandler>)
    ensures
        exists|selection: HookSelectionContext<'_>| #[trigger]
            is_request_selection(selection, *request) && handler_views(result@) == selected(
                handler_views(handlers@),
                selection,
                event_inputs(selection),
            ),
{
    let selection = request_selection(request);
    select_handlers(handlers, selection)
}

/// What is shown of the runs of the given handlers, which start at the given
/// time; each handler comes with the identity of its run.
pub fn preview_at(matched: &Vec<ConfiguredHandler>, run_ids: &Vec<String>, started_at: i64) -> (result:
    Vec<HookRunSummary>)
    requires
        matched@.len() == run_ids@.len(),
    ensures
        result@.len() == matched@.len(),
        forall|i: int|
            0 <= i < matched@.len() ==> {
                &&& summarizes(#[trigger] result@[i], matched@[i], run_ids@[i])
                &&& result@[i].status is Running
                &&& result@[i].started_at == started_at
                &&& result@[i].completed_at is None
                &&& result@[i].duration_ms is None
                &&& result@[i].entries@.len() == 0
            },
{
    let mut result: Vec<HookRunSummary> = Vec::new();
    let mut i: usize = 0;
    while i < matched.len()
        invariant
            i <= matched.len(),
            matched@.len() == run_ids@.len(),
            result@.len() == i,
            forall|j: int|
                0 <= j < i ==> {
                    &&& summarizes(#[trigger] result@[j], matched@[j], run_ids@[j])
                    &&& result@[j].status is Running
                    &&& result@[j].started_at == started_at
                    &&& result@[j].completed_at is None
                    &&& result@[j].duration_ms is None
                    &&& result@[j].entries@.len() == 0
                },
        decreases matched.len() - i,
    {
        result.push(running_summary_at(&matched[i], run_ids[i].clone(), started_at));
        i += 1;
    }
    result
}

/// What is shown of the runs of the given handlers, which start now.
pub fn preview(matched: &Vec<ConfiguredHandler>, run_ids: &Vec<String>) -> (result: Vec<
    HookRunSummary,
>)
    requires
        matched@.len() == run_ids@.len(),
    ensures
        result@.len() == matched@.len(),
        forall|i: int|
            0 <= i < matched@.len() ==> {
                &&& summarizes(#[trigger] result@[i], matched@[i], run_ids@[i])
                &&& result@[i].status is Running
                &&& result@[i].completed_at is None
                &&& result@[i].duration_ms is None
                &&& result@[i].entries@.len() == 0
            },
{
    preview_at(matched, run_ids, unix_seconds_now())
}

/// What a hook is told about a compaction.
#[derive(Debug)]
pub struct AfterCompactionCommandInput {
    pub session_id: String,
    pub turn_id: String,
    pub transcript_path: Option<String>,
    pub cwd: String,
    pub hook_event_name: String,
    pub active_profile: Option<String>,
    pub model: String,
    pub permission_mode: String,
    pub source: String,
}

/// What a hook is told about a compaction.
pub fn command_input(request: &AfterCompactionRequest) -> (result: AfterCompactionCommandInput)
    ensures
        result.session_id@ == thread_id_text(request.session_id.bits),
        result.turn_id == request.turn_id,
        result.transcript_path == request.transcript_path,
        result.cwd == request.cwd,
        result.hook_event_name@ == "AfterCompaction"@,
        result.active_profile == request.active_profile,
        result.model == request.model,
        result.permission_mode == request.permission_mode,
        result.source@ == request.source.name(),
{
    AfterCompactionCommandInput {
        session_id: request.session_id.to_text(),
        turn_id: request.turn_id.clone(),
        transcript_path: request.transcript_path.clone(),
        cwd: request.cwd.clone(),
        hook_event_name: "AfterCompaction".to_owned(),
        active_profile: request.active_profile.clone(),
        model: request.model.clone(),
        permission_mode: request.permission_mode.clone(),
        source: request.source.as_str().to_owned(),
    }
}

/// What a hook's output says, where it is in the form that hooks answer in.
#[derive(Debug)]
pub struct AfterCompactionOutput {
    pub system_message: Option<String>,
    pub additional_context: Option<String>,
}

/// What a hook adds to the conversation.
#[derive(Debug)]
pub struct AfterCompactionHandlerData {
    pub additional_contexts_for_model: Vec<String>,
}

/// An entry of a hook's output, as a value.
pub type EntryView = (HookOutputEntryKind, Seq<char>);

/// Entries of a hook's output, as values.
pub open spec fn entry_views(entries: Seq<HookOutputEntry>) -> Seq<EntryView> {
    entries.map_values(|entry: HookOutputEntry| (entry.kind, entry.text@))
}

/// What is read from a hook's run.
#[verifier::ext_equal]
pub struct ReadRun {
    pub status: HookRunStatus,
    pub entries: Seq<EntryView>,
    pub contexts: Seq<Seq<char>>,
}

/// A text begins with a brace or a bracket.
pub open spec fn looks_like_json(text: Seq<char>) -> bool {
    text.len() > 0 && (text[0] == '{' || text[0] == '[')
}

/// What is read from the output of a hook that succeeded: what its answer
/// says, or the trimmed text itself, unless that looks like a broken answer.
pub open spec fn read_output(stdout: Seq<char>, parsed: Option<AfterCompactionOutput>) -> ReadRun {
    let text = trim(stdout);
    if text.len() == 0 {
        ReadRun { status: HookRunStatus::Completed, entries: Seq::empty(), contexts: Seq::empty() }
    } else if let Some(output) = parsed {
        let message = match output.system_message {
            Some(message) => seq![(HookOutputEntryKind::Warning, message@)],
            None => Seq::empty(),
        };
        match output.additional_context {
            Some(context) => ReadRun {
                status: HookRunStatus::Completed,
                entries: message.push((HookOutputEntryKind::Context, context@)),
                contexts: seq![context@],
            },
            None => ReadRun {
                status: HookRunStatus::Completed,
                entries: message,
                contexts: Seq::empty(),
            },
        }
    } else if looks_like_json(text) {
        ReadRun {
            status: HookRunStatus::Failed,
            entries: seq![
                (
                    HookOutputEntryKind::Error,
                    "hook returned invalid after compaction JSON output"@,
                ),
            ],
            contexts: Seq::empty(),
        }
    } else {
        ReadRun {
            status: HookRunStatus::Completed,
            entries: seq![(HookOutputEntryKind::Context, text)],
            contexts: seq![text],
        }
    }
}

/// What is read from a hook's run: the error that kept it from running, its
/// output where it succeeded, else that it failed and what it said then.
pub open spec fn read_run(
    run_result: CommandRunResult,
    parsed: Option<AfterCompactionOutput>,
) -> ReadRun {
    if let Some(error) = run_result.error {
        ReadRun {
            status: HookRunStatus::Failed,
            entries: seq![(HookOutputEntryKind::Error, error@)],
            contexts: Seq::empty(),
        }
    } else {
        match run_result.exit_code {
            Some(0) => read_output(run_result.stdout@, parsed),
            Some(code) => {
                let failed = seq![
                    (
                        HookOutputEntryKind::Error,
                        "hook exited with code "@ + signed_decimal(code as int),
                    ),
                ];
                let said = trim(run_result.stderr@);
                ReadRun {
                    status: HookRunStatus::Failed,
                    entries: if said.len() > 0 {
                        failed.push((HookOutputEntryKind::Error, said))
                    } else {
                        failed
                    },
                    contexts: Seq::empty(),
                }
            },
            None => ReadRun {
                status: HookRunStatus::Failed,
                entries: seq![
                    (HookOutputEntryKind::Error, "hook terminated without an exit code"@),
                ],
                contexts: Seq::empty(),
            },
        }
    }
}

fn push_entry(entries: &mut Vec<HookOutputEntry>, kind: HookOutputEntryKind, text: String)
    ensures
        entry_views(final(entries)@) == entry_views(old(entries)@).push((kind, text@)),
{
    entries.push(HookOutputEntry { kind, text });
    assert(entry_views(entries@) =~= entry_views(old(entries)@).push((kind, text@)));
}

/// Adds a context to the conversation, and to what is shown of the run.
fn append_additional_context(
    entries: &mut Vec<HookOutputEntry>,
    contexts: &mut Vec<String>,
    context: String,
)
    ensures
        entry_views(final(entries)@) == entry_views(old(entries)@).push(
            (HookOutputEntryKind::Context, context@),
        ),
        texts(final(contexts)@) == texts(old(contexts)@).push(context@),
{
    push_entry(entries, HookOutputEntryKind::Context, context.clone());
    contexts.push(context);
    assert(texts(contexts@) =~= texts(old(contexts)@).push(context@));
}

/// The text without white space at its ends, unless nothing is left.
pub fn trimmed_non_empty(text: &str) -> (result: Option<String>)
    ensures
        opt_text(result) == (if trim(text@).len() > 0 {
            Some(trim(text@))
        } else {
            None
        }),
{
    let rest = trimmed(text);
    if rest.unicode_len() == 0 {
        None
    } else {
        Some(rest.to_owned())
    }
}

/// Reads a hook's run. What the hook's output says in the form that hooks
/// answer in is given, if it is in that form.
pub fn parse_completed(
    handler: &ConfiguredHandler,
    run_id: String,
    run_result: &CommandRunResult,
    parsed: Option<AfterCompactionOutput>,
    turn_id: Option<String>,
) -> (result: ParsedHandler<AfterCompactionHandlerData>)
    ensures
        ({
            let run = result.completed.run;
            let read = read_run(*run_result, parsed);
            &&& result.completed.turn_id == turn_id
            &&& summarizes(run, *handler, run_id)
            &&& run.started_at == run_result.started_at
            &&& run.completed_at == Some(run_result.completed_at)
            &&& run.duration_ms == Some(run_result.duration_ms)
            &&& run.status == read.status
            &&& entry_views(run.entries@) == read.entries
            &&& texts(result.data.additional_contexts_for_model@) == read.contexts
            &&& result.completion_order == 0
        }),
{
    let mut entries: Vec<HookOutputEntry> = Vec::new();
    let mut status = HookRunStatus::Completed;
    let mut contexts: Vec<String> = Vec::new();
    assert(entry_views(entries@) =~= Seq::<EntryView>::empty());
    assert(texts(contexts@) =~= Seq::<Seq<char>>::empty());
    match &run_result.error {
        Some(error) => {
            status = HookRunStatus::Failed;
            push_entry(&mut entries, HookOutputEntryKind::Error, error.clone());
        },
        None => match run_result.exit_code {
            Some(0) => {
                let text = trimmed(run_result.stdout.as_str());
                let chars = chars_of(text);
                if chars.len() == 0 {
                } else if let Some(output) = parsed {
                    if let Some(message) = output.system_message {
                        push_entry(&mut entries, HookOutputEntryKind::Warning, message);
                    }
                    if let Some(context) = output.additional_context {
                        append_additional_context(&mut entries, &mut contexts, context);
                    }
                } else if chars[0] == '{' || chars[0] == '[' {
                    status = HookRunStatus::Failed;
                    push_entry(
                        &mut entries,
                        HookOutputEntryKind::Error,
                        "hook returned invalid after compaction JSON output".to_owned(),
                    );
                } else {
                    append_additional_context(&mut entries, &mut contexts, text.to_owned());
                }
            },
            Some(exit_code) => {
                status = HookRunStatus::Failed;
                push_entry(
                    &mut entries,
                    HookOutputEntryKind::Error,
                    "hook exited with code ".to_owned().concat(
                        signed_decimal_text(exit_code as i64).as_str(),
                    ),
                );
                if let Some(stderr) = trimmed_non_empty(run_result.stderr.as_str()) {
                    push_entry(&mut entries, HookOutputEntryKind::Error, stderr);
                }
            },
            None => {
                status = HookRunStatus::Failed;
                push_entry(
                    &mut entries,
                    HookOutputEntryKind::Error,
                    "hook terminated without an exit code".to_owned(),
                );
            },
        },
    }
    proof {
        let read = read_run(*run_result, parsed);
        assert(entry_views(entries@) =~= read.entries);
        assert(texts(contexts@) =~= read.contexts);
    }
    let run = completed_summary(handler, run_id, run_result, status, entries);
    ParsedHandler {
        completed: HookCompletedEvent { turn_id, run },
        data: AfterCompactionHandlerData { additional_contexts_for_model: contexts },
        completion_order: 0,
    }
}

/// What came of the hooks of a compaction.
#[derive(Debug)]
pub struct AfterCompactionOutcome {
    pub hook_events: Vec<HookCompletedEvent>,
    pub additional_contexts: Vec<String>,
}

/// What all runs add to the conversation, in the order of the runs.
pub open spec fn all_contexts(
    results: Seq<ParsedHandler<AfterCompactionHandlerData>>,
) -> Seq<Seq<char>>
    decreases results.len(),
{
    if results.len() == 0 {
        Seq::empty()
    } else {
        all_contexts(results.drop_last()) + texts(
            results.last().data.additional_contexts_for_model@,
        )
    }
}

/// What came of the hooks of a compaction, given what was read from their
/// runs in the order in which the hooks are configured.
pub fn after_compaction_outcome(results: Vec<ParsedHandler<AfterCompactionHandlerData>>) -> (result:
    AfterCompactionOutcome)
    ensures
        result.hook_events@ == results@.map_values(
            |parsed: ParsedHandler<AfterCompactionHandlerData>| parsed.completed,
        ),
        texts(result.additional_contexts@) == all_contexts(results@),
{
    let ghost all = results@;
    let ghost event_of = |parsed: ParsedHandler<AfterCompactionHandlerData>| parsed.completed;
    let mut rest = results;
    let mut hook_events: Vec<HookCompletedEvent> = Vec::new();
    let mut additional_contexts: Vec<String> = Vec::new();
    assert(all.skip(0) =~= all);
    assert(texts(additional_contexts@) =~= all_contexts(all.take(0)));
    while rest.len() > 0
        invariant
            event_of == (|parsed: ParsedHandler<AfterCompactionHandlerData>| parsed.completed),
            hook_events@.len() + rest@.len() == all.len(),
            rest@ == all.skip(hook_events@.len() as int),
            hook_events@ == all.take(hook_events@.len() as int).map_values(event_of),
            texts(additional_contexts@) == all_contexts(all.take(hook_events@.len() as int)),
        decreases rest.len(),
    {
        let ghost n = hook_events@.len() as int;
        let ghost before = additional_contexts@;
        let parsed = rest.remove(0);
        assert(parsed == all[n]);
        let mut contexts = parsed.data.additional_contexts_for_model;
        let ghost added = contexts@;
        additional_contexts.append(&mut contexts);
        hook_events.push(parsed.completed);
        assert(rest@ =~= all.skip(n + 1));
        assert(hook_events@ =~= all.take(n + 1).map_values(event_of));
        assert(all.take(n + 1).drop_last() =~= all.take(n));
        assert(texts(additional_contexts@) =~= texts(before) + texts(added));
    }
    assert(all.take(hook_events@.len() as int) =~= all);
    AfterCompactionOutcome { hook_events, additional_contexts }
}

/// What came of the hooks of a compaction where they could not even be told
/// of it: what is reported of them, and nothing for the conversation.
pub fn serialization_failure_outcome(hook_events: Vec<HookCompletedEvent>) -> (result:
    AfterCompactionOutcome)
    ensures
        result.hook_events == hook_events,
        result.additional_contexts@.len() == 0,
{
    AfterCompactionOutcome { hook_events, additional_contexts: Vec::new() }
}

/// The hooks of a compaction are picked for that event, by its source, and by
/// the profile, the model and the mode of the request.
pub proof fn lemma_what_compaction_hooks_are_picked_by(
    selection: HookSelectionContext<'_>,
    request: AfterCompactionRequest,
)
    requires
        is_request_selection(selection, request),
    ensures
        selection.event_name is AfterCompaction,
        selection.matcher_input is Some,
        request.source is Manual ==> selection.matcher_input->0@ == "manual"@,
        request.source is Auto ==> selection.matcher_input->0@ == "auto"@,
        request.source is ModelSwitch ==> selection.matcher_input->0@ == "modelSwitch"@,
        selection.active_profile is Some <==> request.active_profile is Some,
        selection.active_profile is Some ==> selection.active_profile->0@
            == request.active_profile->0@,
        selection.model is Some && selection.model->0@ == request.model@,
        selection.permission_mode is Some && selection.permission_mode->0@
            == request.permission_mode@,
{
}

/// A run fails exactly when it could not be started, ended without a code or
/// with another one than zero, or answered with something broken that looks like
/// an answer. A run that failed adds nothing to the conversation, and tells an
/// error.
pub proof fn lemma_when_a_run_fails(
    run_result: CommandRunResult,
    parsed: Option<AfterCompactionOutput>,
)
    ensures
        ({
            let read = read_run(run_result, parsed);
            let said = trim(run_result.stdout@);
            &&& read.status is Failed || read.status is Completed
            &&& read.status is Failed <==> run_result.error is Some || run_result.exit_code
                != Some(0i32) || (parsed is None && said.len() > 0 && (said[0] == '{' || said[0]
                == '['))
            &&& read.status is Failed ==> read.contexts.len() == 0 && read.entries.len() > 0
                && read.entries[0].0 is Error
        }),
{
}

/// What a failed run tells: the error that kept it from running before anything
/// else, its code and what it said on its error stream, or that it ended without
/// a code.
pub proof fn lemma_what_a_failed_run_tells(
    run_result: CommandRunResult,
    parsed: Option<AfterCompactionOutput>,
)
    ensures
        ({
            let read = read_run(run_result, parsed);
            let said = trim(run_result.stderr@);
            &&& run_result.error is Some ==> read.entries == seq![
                (HookOutputEntryKind::Error, run_result.error->0@),
            ]
            &&& run_result.error is None && run_result.exit_code is None ==> read.entries == seq![
                (HookOutputEntryKind::Error, "hook terminated without an exit code"@),
            ]
            &&& run_result.error is None && run_result.exit_code is Some
                && run_result.exit_code->0 != 0 ==> {
                &&& read.entries[0] == (
                    HookOutputEntryKind::Error,
                    "hook exited with code "@ + signed_decimal(run_result.exit_code->0 as int),
                )
                &&& said.len() == 0 ==> read.entries.len() == 1
                &&& said.len() > 0 ==> read.entries.len() == 2 && read.entries[1] == (
                    HookOutputEntryKind::Error,
                    said,
                )
            }
        }),
{
}

/// What a run that succeeded adds to the conversation is the context that its
/// answer holds or, where it gave no answer, its text without white space at
/// the ends; each is shown as well. A message in an answer is shown as a warning
/// and is not added.
pub proof fn lemma_what_a_run_adds(stdout: Seq<char>, parsed: Option<AfterCompactionOutput>)
    ensures
        ({
            let read = read_output(stdout, parsed);
            let text = trim(stdout);
            &&& text.len() == 0 ==> read.contexts.len() == 0 && read.entries.len() == 0
            &&& text.len() > 0 && parsed is None && text[0] != '{' && text[0] != '[' ==> {
                &&& read.contexts == seq![text]
                &&& read.entries == seq![(HookOutputEntryKind::Context, text)]
            }
            &&& text.len() > 0 && parsed is Some ==> {
                let output = parsed->0;
                &&& output.additional_context is Some ==> read.contexts == seq![
                    output.additional_context->0@,
                ] && read.entries.last() == (
                    HookOutputEntryKind::Context,
                    output.additional_context->0@,
                )
                &&& output.additional_context is None ==> read.contexts.len() == 0
                &&& output.system_message is Some ==> read.entries[0] == (
                    HookOutputEntryKind::Warning,
                    output.system_message->0@,
                )
                &&& read.entries.len() == (if output.system_message is Some {
                    1int
                } else {
                    0
                }) + (if output.additional_context is Some {
                    1int
                } else {
                    0
                })
            }
        }),
{
}

/// What one more run adds comes behind what the others add.
pub proof fn lemma_one_more_run(
    results: Seq<ParsedHandler<AfterCompactionHandlerData>>,
    result: ParsedHandler<AfterCompactionHandlerData>,
)
    ensures
        all_contexts(Seq::empty()).len() == 0,
        all_contexts(results.push(result)) == all_contexts(results) + texts(
            result.data.additional_contexts_for_model@,
        ),
{
    assert(results.push(result).drop_last() =~= results);
}

} // verus!
