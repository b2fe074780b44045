//! Finding the hooks that the configuration layers declare.

use vstd::prelude::*;
use crate::hooks::matcher::{
    matcher_error, matcher_pattern_for_event, regex_error, uses_matcher, validate_matcher_pattern,
};
use crate::hooks::model::{
    handler_views, hook_source_for_config_layer_source, layer_hook_source, ConfigLayerSource,
    ConfiguredHandler, ConfiguredHandlerView, HookConditions, HookConditionsView, HookEventName,
    HookEvents, HookHandlerConfig, HookSource, MatcherGroup,
};
use crate::text::{blank, is_blank, opt_str, opt_text, texts};

verus! {

/// The text of a string as `{:?}` writes it.
pub uninterp spec fn debug_text(text: Seq<char>) -> Seq<char>;

/// Calls `<str as std::fmt::Debug>::fmt` through `format!`: the string in
/// quotes, with escapes. That the same string always gives the same text is
/// all that is claimed.
#[verifier::external_body]
fn debug_string(text: &str) -> (result: String)
    ensures
        result@ == debug_text(text@),
{
    format!("{text:?}")
}

/// The time that a hook gets where its configuration names none.
pub const DEFAULT_TIMEOUT_SEC: u64 = 600;

/// What the hooks of one group have in common.
pub struct AppendGroupSpec<'a> {
    pub source_path: &'a str,
    pub source: HookSource,
    pub event_name: HookEventName,
    pub matcher: Option<&'a str>,
    pub conditions: HookConditions,
}

/// What the hooks of one group have in common, as a value.
#[verifier::ext_equal]
pub struct GroupSpecView {
    pub source_path: Seq<char>,
    pub source: HookSource,
    pub event_name: HookEventName,
    pub matcher: Option<Seq<char>>,
    pub conditions: HookConditionsView,
}

impl<'a> View for AppendGroupSpec<'a> {
    type V = GroupSpecView;

    open spec fn view(&self) -> GroupSpecView {
        GroupSpecView {
            source_path: self.source_path@,
            source: self.source,
            event_name: self.event_name,
            matcher: opt_str(self.matcher),
            conditions: self.conditions@,
        }
    }
}

/// What has been found so far: the handlers, the warnings, and the place that
/// the next handler gets.
#[verifier::ext_equal]
pub struct Discovery {
    pub handlers: Seq<ConfiguredHandlerView>,
    pub warnings: Seq<Seq<char>>,
    pub order: int,
}

/// A warning is added.
pub open spec fn warned(found: Discovery, warning: Seq<char>) -> Discovery {
    Discovery { warnings: found.warnings.push(warning), ..found }
}

/// How long a hook may run, in seconds: at least one.
pub open spec fn timeout_for(configured: Option<u64>) -> u64 {
    match configured {
        Some(0) => 1,
        Some(seconds) => seconds,
        None => DEFAULT_TIMEOUT_SEC,
    }
}

/// A hook is looked at: a command that is not blank and not asynchronous
/// becomes a handler, anything else a warning.
pub open spec fn with_hook(
    found: Discovery,
    spec_view: GroupSpecView,
    hook: HookHandlerConfig,
) -> Discovery {
    match hook {
        HookHandlerConfig::Command { command, timeout_sec, is_async, status_message } => if is_async {
            warned(
                found,
                "skipping async hook in "@ + spec_view.source_path
                    + ": async hooks are not supported yet"@,
            )
        } else if is_blank(command@) {
            warned(found, "skipping empty hook command in "@ + spec_view.source_path)
        } else {
            Discovery {
                handlers: found.handlers.push(
                    ConfiguredHandlerView {
                        event_name: spec_view.event_name,
                        matcher: spec_view.matcher,
                        conditions: spec_view.conditions,
                        command: command@,
                        timeout_sec: timeout_for(timeout_sec),
                        status_message: opt_text(status_message),
                        source_path: spec_view.source_path,
                        source: spec_view.source,
                        display_order: found.order,
                    },
                ),
                order: found.order + 1,
                ..found
            }
        },
        HookHandlerConfig::Prompt => warned(
            found,
            "skipping prompt hook in "@ + spec_view.source_path
                + ": prompt hooks are not supported yet"@,
        ),
        HookHandlerConfig::Agent => warned(
            found,
            "skipping agent hook in "@ + spec_view.source_path
                + ": agent hooks are not supported yet"@,
        ),
    }
}

/// The hooks are looked at, one after the other.
pub open spec fn with_hooks(
    found: Discovery,
    spec_view: GroupSpecView,
    hooks: Seq<HookHandlerConfig>,
) -> Discovery
    decreases hooks.len(),
{
    if hooks.len() == 0 {
        found
    } else {
        with_hook(with_hooks(found, spec_view, hooks.drop_last()), spec_view, hooks.last())
    }
}

/// A group is looked at: one with a broken matcher gives a warning, another
/// its hooks.
pub open spec fn with_group(
    found: Discovery,
    spec_view: GroupSpecView,
    hooks: Seq<HookHandlerConfig>,
) -> Discovery {
    if spec_view.matcher is Some && matcher_error(spec_view.matcher->0) is Some {
        warned(
            found,
            "invalid matcher "@ + debug_text(spec_view.matcher->0) + " in "@
                + spec_view.source_path + ": "@ + matcher_error(spec_view.matcher->0)->0,
        )
    } else {
        with_hooks(found, spec_view, hooks)
    }
}

/// What the hooks of a configured group have in common. Events without
/// matchers drop the group's.
pub open spec fn group_spec(
    source_path: Seq<char>,
    source: HookSource,
    event_name: HookEventName,
    group: MatcherGroup,
) -> GroupSpecView {
    GroupSpecView {
        source_path,
        source,
        event_name,
        matcher: if uses_matcher(event_name) {
            opt_text(group.matcher)
        } else {
            None
        },
        conditions: group.conditions@,
    }
}

/// The groups of an event are looked at, one after the other.
pub open spec fn with_groups(
    found: Discovery,
    source_path: Seq<char>,
    source: HookSource,
    event_name: HookEventName,
    groups: Seq<MatcherGroup>,
) -> Discovery
    decreases groups.len(),
{
    if groups.len() == 0 {
        found
    } else {
        with_group(
            with_groups(found, source_path, source, event_name, groups.drop_last()),
            group_spec(source_path, source, event_name, groups.last()),
            groups.last().hooks@,
        )
    }
}

/// The events of a configuration file are looked at, in a fixed order.
pub open spec fn with_events(
    found: Discovery,
    source_path: Seq<char>,
    source: HookSource,
    events: HookEvents,
) -> Discovery {
    let found = with_groups(
        found,
        source_path,
        source,
        HookEventName::PreToolUse,
        events.pre_tool_use@,
    );
    let found = with_groups(
        found,
        source_path,
        source,
        HookEventName::PermissionRequest,
        events.permission_request@,
    );
    let found = with_groups(
        found,
        source_path,
        source,
        HookEventName::PostToolUse,
        events.post_tool_use@,
    );
    let found = with_groups(
        found,
        source_path,
        source,
        HookEventName::SessionStart,
        events.session_start@,
    );
    let found = with_groups(
        found,
        source_path,
        source,
        HookEventName::UserPromptSubmit,
        events.user_prompt_submit@,
    );
    let found = with_groups(found, source_path, source, HookEventName::Stop, events.stop@);
    with_groups(
        found,
        source_path,
        source,
        HookEventName::AfterCompaction,
        events.after_compaction@,
    )
}

/// What a configuration layer holds of hooks.
#[derive(Debug)]
pub enum HooksFileRead {
    /// The layer has no folder, or no file with hooks in it.
    Absent,
    /// The file cannot be read.
    Unreadable { error: String },
    /// The file does not say what a file with hooks says.
    Unparsable { error: String },
    Parsed { hooks: HookEvents },
}

/// A configuration layer and its file with hooks.
#[derive(Debug)]
pub struct HookLayer {
    pub name: ConfigLayerSource,
    pub source_path: String,
    pub file: HooksFileRead,
}

/// A layer is looked at.
pub open spec fn with_layer(found: Discovery, layer: HookLayer) -> Discovery {
    match layer.file {
        HooksFileRead::Absent => found,
        HooksFileRead::Unreadable { error } => warned(
            found,
            "failed to read hooks config "@ + layer.source_path@ + ": "@ + error@,
        ),
        HooksFileRead::Unparsable { error } => warned(
            found,
            "failed to parse hooks config "@ + layer.source_path@ + ": "@ + error@,
        ),
        HooksFileRead::Parsed { hooks } => with_events(
            found,
            layer.source_path@,
            layer_hook_source(layer.name),
            hooks,
        ),
    }
}

/// The layers are looked at, one after the other.
pub open spec fn with_layers(found: Discovery, layers: Seq<HookLayer>) -> Discovery
    decreases layers.len(),
{
    if layers.len() == 0 {
        found
    } else {
        with_layer(with_layers(found, layers.drop_last()), layers.last())
    }
}

/// Nothing found yet.
pub open spec fn nothing_found() -> Discovery {
    Discovery { handlers: Seq::empty(), warnings: Seq::empty(), order: 0 }
}

/// How many hooks the groups hold.
pub open spec fn hook_count(groups: Seq<MatcherGroup>) -> nat
    decreases groups.len(),
{
    if groups.len() == 0 {
        0
    } else {
        hook_count(groups.drop_last()) + groups.last().hooks@.len()
    }
}

/// How many hooks the events hold.
pub open spec fn event_hook_count(events: HookEvents) -> nat {
    hook_count(events.pre_tool_use@) + hook_count(events.permission_request@) + hook_count(
        events.post_tool_use@,
    ) + hook_count(events.session_start@) + hook_count(events.user_prompt_submit@) + hook_count(
        events.stop@,
    ) + hook_count(events.after_compaction@)
}

/// How many hooks the layers hold.
pub open spec fn layer_hook_count(layers: Seq<HookLayer>) -> nat
    decreases layers.len(),
{
    if layers.len() == 0 {
        0
    } else {
        layer_hook_count(layers.drop_last()) + match layers.last().file {
            HooksFileRead::Parsed { hooks } => event_hook_count(hooks),
            _ => 0,
        }
    }
}

proof fn lemma_with_hooks_order(
    found: Discovery,
    spec_view: GroupSpecView,
    hooks: Seq<HookHandlerConfig>,
)
    ensures
        found.order <= with_hooks(found, spec_view, hooks).order <= found.order + hooks.len(),
    decreases hooks.len(),
{
    if hooks.len() > 0 {
        lemma_with_hooks_order(found, spec_view, hooks.drop_last());
    }
}

proof fn lemma_with_groups_order(
    found: Discovery,
    source_path: Seq<char>,
    source: HookSource,
    event_name: HookEventName,
    groups: Seq<MatcherGroup>,
)
    ensures
        found.order <= with_groups(found, source_path, source, event_name, groups).order
            <= found.order + hook_count(groups),
    decreases groups.len(),
{
    if groups.len() > 0 {
        lemma_with_groups_order(found, source_path, source, event_name, groups.drop_last());
        lemma_with_hooks_order(
            with_groups(found, source_path, source, event_name, groups.drop_last()),
            group_spec(source_path, source, event_name, groups.last()),
            groups.last().hooks@,
        );
    }
}

/// What has been found so far, as a value.
pub open spec fn discovery_view(
    handlers: Seq<ConfiguredHandler>,
    warnings: Seq<String>,
    display_order: i64,
) -> Discovery {
    Discovery {
        handlers: handler_views(handlers),
        warnings: texts(warnings),
        order: display_order as int,
    }
}

fn push_warning(warnings: &mut Vec<String>, warning: String)
    ensures
        texts(final(warnings)@) == texts(old(warnings)@).push(warning@),
{
    warnings.push(warning);
    assert(texts(warnings@) =~= texts(old(warnings)@).push(warning@));
}

fn append_hook(
    handlers: &mut Vec<ConfiguredHandler>,
    warnings: &mut Vec<String>,
    display_order: &mut i64,
    spec: &AppendGroupSpec<'_>,
    hook: &HookHandlerConfig,
)
    requires
        *old(display_order) < i64::MAX,
    ensures
        discovery_view(final(handlers)@, final(warnings)@, *final(display_order)) == with_hook(
            discovery_view(old(handlers)@, old(warnings)@, *old(display_order)),
            spec@,
            *hook,
        ),
{
    match hook {
        HookHandlerConfig::Command { command, timeout_sec, is_async, status_message } => {
            if *is_async {
                push_warning(
                    warnings,
                    "skipping async hook in ".to_owned().concat(spec.source_path).concat(
                        ": async hooks are not supported yet",
                    ),
                );
                return ;
            }
            if blank(command.as_str()) {
                push_warning(
                    warnings,
                    "skipping empty hook command in ".to_owned().concat(spec.source_path),
                );
                return ;
            }
            let configured: u64 = match timeout_sec {
                Some(seconds) => *seconds,
                None => DEFAULT_TIMEOUT_SEC,
            };
            let timeout_sec: u64 = if configured == 0 {
                1
            } else {
                configured
            };
            let matcher = match spec.matcher {
                Some(matcher) => Some(matcher.to_owned()),
                None => None,
            };
            let handler = ConfiguredHandler {
                event_name: spec.event_name,
                matcher,
                conditions: spec.conditions.clone(),
                command: command.clone(),
                timeout_sec,
                status_message: status_message.clone(),
                source_path: spec.source_path.to_owned(),
                source: spec.source,
                display_order: *display_order,
            };
            handlers.push(handler);
            assert(handler_views(handlers@) =~= handler_views(old(handlers)@).push(handler@));
            *display_order = *display_order + 1;
        },
        HookHandlerConfig::Prompt => {
            push_warning(
                warnings,
                "skipping prompt hook in ".to_owned().concat(spec.source_path).concat(
                    ": prompt hooks are not supported yet",
                ),
            );
        },
        HookHandlerConfig::Agent => {
            push_warning(
                warnings,
                "skipping agent hook in ".to_owned().concat(spec.source_path).concat(
                    ": agent hooks are not supported yet",
                ),
            );
        },
    }
}

/// What is reported of a group whose matcher is broken.
pub fn invalid_matcher_warning(matcher: &str, source_path: &str, error: &str) -> (result: String)
    ensures
        result@ == "invalid matcher "@ + debug_text(matcher@) + " in "@ + source_path@ + ": "@
            + error@,
{
    "invalid matcher ".to_owned().concat(debug_string(matcher).as_str()).concat(" in ").concat(
        source_path,
    ).concat(": ").concat(error)
}

/// Adds the hooks of one group, or the warnings that stand in their place.
/// The places that the hooks may take have to fit.
pub fn append_group_handlers(
    handlers: &mut Vec<ConfiguredHandler>,
    warnings: &mut Vec<String>,
    display_order: &mut i64,
    spec: AppendGroupSpec<'_>,
    group_handlers: &Vec<HookHandlerConfig>,
)
    requires
        *old(display_order) + group_handlers@.len() <= i64::MAX,
    ensures
        discovery_view(final(handlers)@, final(warnings)@, *final(display_order)) == with_group(
            discovery_view(old(handlers)@, old(warnings)@, *old(display_order)),
            spec@,
            group_handlers@,
        ),
{
    if let Some(matcher) = spec.matcher {
        if let Err(error) = validate_matcher_pattern(matcher) {
            push_warning(
                warnings,
                invalid_matcher_warning(matcher, spec.source_path, error.as_str()),
            );
            return ;
        }
    }
    let ghost start = discovery_view(handlers@, warnings@, *display_order);
    let mut i: usize = 0;
    while i < group_handlers.len()
        invariant
            i <= group_handlers.len(),
            start.order + group_handlers@.len() <= i64::MAX,
            discovery_view(handlers@, warnings@, *display_order) == with_hooks(
                start,
                spec@,
                group_handlers@.take(i as int),
            ),
        decreases group_handlers.len() - i,
    {
        proof {
            assert(group_handlers@.take(i + 1).drop_last() =~= group_handlers@.take(i as int));
            lemma_with_hooks_order(start, spec@, group_handlers@.take(i as int));
        }
        append_hook(handlers, warnings, display_order, &spec, &group_handlers[i]);
        i += 1;
    }
    assert(group_handlers@.take(i as int) =~= group_handlers@);
}

/// Adds the hooks of an event's groups.
pub fn append_matcher_groups(
    handlers: &mut Vec<ConfiguredHandler>,
    warnings: &mut Vec<String>,
    display_order: &mut i64,
    source_path: &str,
    source: HookSource,
    event_name: HookEventName,
    groups: &Vec<MatcherGroup>,
)
    requires
        *old(display_order) + hook_count(groups@) <= i64::MAX,
    ensures
        discovery_view(final(handlers)@, final(warnings)@, *final(display_order)) == with_groups(
            discovery_view(old(handlers)@, old(warnings)@, *old(display_order)),
            source_path@,
            source,
            event_name,
            groups@,
        ),
        *old(display_order) <= *final(display_order) <= *old(display_order) + hook_count(groups@),
{
    let ghost start = discovery_view(handlers@, warnings@, *display_order);
    let mut i: usize = 0;
    while i < groups.len()
        invariant
            i <= groups.len(),
            start.order + hook_count(groups@) <= i64::MAX,
            discovery_view(handlers@, warnings@, *display_order) == with_groups(
                start,
                source_path@,
                source,
                event_name,
                groups@.take(i as int),
            ),
        decreases groups.len() - i,
    {
        let group = &groups[i];
        proof {
            let done = groups@.take(i as int);
            let next = groups@.take(i + 1);
            assert(next.drop_last() =~= done);
            lemma_with_groups_order(start, source_path@, source, event_name, done);
            lemma_hook_count_take(groups@, i + 1);
            assert(hook_count(next) == hook_count(done) + group.hooks@.len());
        }
        let matcher = match &group.matcher {
            Some(matcher) => Some(matcher.as_str()),
            None => None,
        };
        let spec = AppendGroupSpec {
            source_path,
            source,
            event_name,
            matcher: matcher_pattern_for_event(event_name, matcher),
            conditions: group.conditions.clone(),
        };
        assert(spec@ =~= group_spec(source_path@, source, event_name, *group));
        append_group_handlers(handlers, warnings, display_order, spec, &group.hooks);
        i += 1;
    }
    assert(groups@.take(i as int) =~= groups@);
    proof {
        lemma_with_groups_order(start, source_path@, source, event_name, groups@);
    }
}

proof fn lemma_hook_count_take(groups: Seq<MatcherGroup>, n: int)
    requires
        0 <= n <= groups.len(),
    ensures
        hook_count(groups.take(n)) <= hook_count(groups),
    decreases groups.len() - n,
{
    if n == groups.len() {
        assert(groups.take(n) =~= groups);
    } else {
        lemma_hook_count_take(groups, n + 1);
        assert(groups.take(n + 1).drop_last() =~= groups.take(n));
    }
}

proof fn lemma_layer_hook_count_take(layers: Seq<HookLayer>, n: int)
    requires
        0 <= n <= layers.len(),
    ensures
        layer_hook_count(layers.take(n)) <= layer_hook_count(layers),
    decreases layers.len() - n,
{
    if n == layers.len() {
        assert(layers.take(n) =~= layers);
    } else {
        lemma_layer_hook_count_take(layers, n + 1);
        assert(layers.take(n + 1).drop_last() =~= layers.take(n));
    }
}

fn append_events(
    handlers: &mut Vec<ConfiguredHandler>,
    warnings: &mut Vec<String>,
    display_order: &mut i64,
    source_path: &str,
    source: HookSource,
    events: &HookEvents,
)
    requires
        *old(display_order) + event_hook_count(*events) <= i64::MAX,
    ensures
        discovery_view(final(handlers)@, final(warnings)@, *final(display_order)) == with_events(
            discovery_view(old(handlers)@, old(warnings)@, *old(display_order)),
            source_path@,
            source,
            *events,
        ),
        *old(display_order) <= *final(display_order) <= *old(display_order) + event_hook_count(
            *events,
        ),
{
    append_matcher_groups(
        handlers,
        warnings,
        display_order,
        source_path,
        source,
        HookEventName::PreToolUse,
        &events.pre_tool_use,
    );
    append_matcher_groups(
        handlers,
        warnings,
        display_order,
        source_path,
        source,
        HookEventName::PermissionRequest,
        &events.permission_request,
    );
    append_matcher_groups(
        handlers,
        warnings,
        display_order,
        source_path,
        source,
        HookEventName::PostToolUse,
        &events.post_tool_use,
    );
    append_matcher_groups(
        handlers,
        warnings,
        display_order,
        source_path,
        source,
        HookEventName::SessionStart,
        &events.session_start,
    );
    append_matcher_groups(
        handlers,
        warnings,
        display_order,
        source_path,
        source,
        HookEventName::UserPromptSubmit,
        &events.user_prompt_submit,
    );
    append_matcher_groups(
        handlers,
        warnings,
        display_order,
        source_path,
        source,
        HookEventName::Stop,
        &events.stop,
    );
    append_matcher_groups(
        handlers,
        warnings,
        display_order,
        source_path,
        source,
        HookEventName::AfterCompaction,
        &events.after_compaction,
    );
}

/// The hooks that were found, and what was wrong on the way.
#[derive(Debug)]
pub struct DiscoveryResult {
    pub handlers: Vec<ConfiguredHandler>,
    pub warnings: Vec<String>,
}

/// Finds the hooks of all layers, given from the lowest precedence to the
/// highest; without layers there are none.
pub fn discover_handlers(layers: Option<&Vec<HookLayer>>) -> (result: DiscoveryResult)
    requires
        layers matches Some(layers) ==> layer_hook_count(layers@) <= i64::MAX,
    ensures
        ({
            let found = with_layers(
                nothing_found(),
                match layers {
                    Some(layers) => layers@,
                    None => Seq::empty(),
                },
            );
            &&& handler_views(result.handlers@) == found.handlers
            &&& texts(result.warnings@) == found.warnings
        }),
{
    let mut handlers: Vec<ConfiguredHandler> = Vec::new();
    let mut warnings: Vec<String> = Vec::new();
    let mut display_order: i64 = 0;
    assert(discovery_view(handlers@, warnings@, display_order) =~= nothing_found());
    let layers = match layers {
        Some(layers) => layers,
        None => {
            return DiscoveryResult { handlers, warnings };
        },
    };
    let mut i: usize = 0;
    while i < layers.len()
        invariant
            i <= layers.len(),
            layer_hook_count(layers@) <= i64::MAX,
            0 <= display_order <= layer_hook_count(layers@.take(i as int)),
            discovery_view(handlers@, warnings@, display_order) == with_layers(
                nothing_found(),
                layers@.take(i as int),
            ),
        decreases layers.len() - i,
    {
        let layer = &layers[i];
        proof {
            assert(layers@.take(i + 1).drop_last() =~= layers@.take(i as int));
            lemma_layer_hook_count_take(layers@, i + 1);
        }
        match &layer.file {
            HooksFileRead::Absent => {},
            HooksFileRead::Unreadable { error } => {
                push_warning(
                    &mut warnings,
                    "failed to read hooks config ".to_owned().concat(
                        layer.source_path.as_str(),
                    ).concat(": ").concat(error.as_str()),
                );
            },
            HooksFileRead::Unparsable { error } => {
                push_warning(
                    &mut warnings,
                    "failed to parse hooks config ".to_owned().concat(
                        layer.source_path.as_str(),
                    ).concat(": ").concat(error.as_str()),
                );
            },
            HooksFileRead::Parsed { hooks } => {
                append_events(
                    &mut handlers,
                    &mut warnings,
                    &mut display_order,
                    layer.source_path.as_str(),
                    hook_source_for_config_layer_source(&layer.name),
                    hooks,
                );
            },
        }
        i += 1;
    }
    assert(layers@.take(i as int) =~= layers@);
    DiscoveryResult { handlers, warnings }
}

/// Handlers are numbered one after the other from nought, and each can run:
/// its command is not blank, it gets at least a second, and its matcher is
/// not broken.
pub open spec fn is_sound(found: Discovery) -> bool {
    &&& found.order == found.handlers.len()
    &&& forall|i: int| 0 <= i < found.handlers.len() ==> can_run(#[trigger] found.handlers[i], i)
}

/// A handler has the given number and can run.
pub open spec fn can_run(handler: ConfiguredHandlerView, order: int) -> bool {
    &&& handler.display_order == order
    &&& !is_blank(handler.command)
    &&& handler.timeout_sec >= 1
    &&& handler.matcher matches Some(matcher) ==> matcher_error(matcher) is None
}

proof fn lemma_with_hooks_sound(
    found: Discovery,
    spec_view: GroupSpecView,
    hooks: Seq<HookHandlerConfig>,
)
    requires
        is_sound(found),
        spec_view.matcher matches Some(matcher) ==> matcher_error(matcher) is None,
    ensures
        is_sound(with_hooks(found, spec_view, hooks)),
    decreases hooks.len(),
{
    if hooks.len() > 0 {
        lemma_with_hooks_sound(found, spec_view, hooks.drop_last());
        let before = with_hooks(found, spec_view, hooks.drop_last());
        let after = with_hooks(found, spec_view, hooks);
        assert forall|i: int| 0 <= i < after.handlers.len() implies can_run(
            #[trigger] after.handlers[i],
            i,
        ) by {
            if i < before.handlers.len() {
                assert(after.handlers[i] == before.handlers[i]);
            }
        }
    }
}

proof fn lemma_with_groups_sound(
    found: Discovery,
    source_path: Seq<char>,
    source: HookSource,
    event_name: HookEventName,
    groups: Seq<MatcherGroup>,
)
    requires
        is_sound(found),
    ensures
        is_sound(with_groups(found, source_path, source, event_name, groups)),
    decreases groups.len(),
{
    if groups.len() > 0 {
        lemma_with_groups_sound(found, source_path, source, event_name, groups.drop_last());
        let before = with_groups(found, source_path, source, event_name, groups.drop_last());
        let spec_view = group_spec(source_path, source, event_name, groups.last());
        if !(spec_view.matcher is Some && matcher_error(spec_view.matcher->0) is Some) {
            lemma_with_hooks_sound(before, spec_view, groups.last().hooks@);
        }
    }
}

/// Whatever the layers hold, the handlers that are found are numbered one
/// after the other from nought, and each of them can run.
pub proof fn lemma_discovery_sound(layers: Seq<HookLayer>)
    ensures
        is_sound(with_layers(nothing_found(), layers)),
    decreases layers.len(),
{
    if layers.len() > 0 {
        lemma_discovery_sound(layers.drop_last());
        let found = with_layers(nothing_found(), layers.drop_last());
        let layer = layers.last();
        if let HooksFileRead::Parsed { hooks } = layer.file {
            let path = layer.source_path@;
            let source = layer_hook_source(layer.name);
            let f1 = with_groups(
                found,
                path,
                source,
                HookEventName::PreToolUse,
                hooks.pre_tool_use@,
            );
            let f2 = with_groups(
                f1,
                path,
                source,
                HookEventName::PermissionRequest,
                hooks.permission_request@,
            );
            let f3 = with_groups(
                f2,
                path,
                source,
                HookEventName::PostToolUse,
                hooks.post_tool_use@,
            );
            let f4 = with_groups(
                f3,
                path,
                source,
                HookEventName::SessionStart,
                hooks.session_start@,
            );
            let f5 = with_groups(
                f4,
                path,
                source,
                HookEventName::UserPromptSubmit,
                hooks.user_prompt_submit@,
            );
            let f6 = with_groups(f5, path, source, HookEventName::Stop, hooks.stop@);
            lemma_with_groups_sound(
                found,
                path,
                source,
                HookEventName::PreToolUse,
                hooks.pre_tool_use@,
            );
            lemma_with_groups_sound(
                f1,
                path,
                source,
                HookEventName::PermissionRequest,
                hooks.permission_request@,
            );
            lemma_with_groups_sound(
                f2,
                path,
                source,
                HookEventName::PostToolUse,
                hooks.post_tool_use@,
            );
            lemma_with_groups_sound(
                f3,
                path,
                source,
                HookEventName::SessionStart,
                hooks.session_start@,
            );
            lemma_with_groups_sound(
                f4,
                path,
                source,
                HookEventName::UserPromptSubmit,
                hooks.user_prompt_submit@,
            );
            lemma_with_groups_sound(f5, path, source, HookEventName::Stop, hooks.stop@);
            lemma_with_groups_sound(
                f6,
                path,
                source,
                HookEventName::AfterCompaction,
                hooks.after_compaction@,
            );
        }
    }
}

/// The place of a hook in the configuration: its layer, the event that it is
/// declared under, its group and its place there.
#[verifier::ext_equal]
pub ghost struct HookPlace {
    pub layer: int,
    pub event: int,
    pub group: int,
    pub hook: int,
}

/// One place comes before another: in a lower layer, or under an earlier
/// event, or in an earlier group, or earlier in the same group.
pub open spec fn place_before(a: HookPlace, b: HookPlace) -> bool {
    ||| a.layer < b.layer
    ||| a.layer == b.layer && a.event < b.event
    ||| a.layer == b.layer && a.event == b.event && a.group < b.group
    ||| a.layer == b.layer && a.event == b.event && a.group == b.group && a.hook < b.hook
}

/// The events in the order in which hooks are looked for.
pub open spec fn event_at(place: int) -> HookEventName {
    if place == 0 {
        HookEventName::PreToolUse
    } else if place == 1 {
        HookEventName::PermissionRequest
    } else if place == 2 {
        HookEventName::PostToolUse
    } else if place == 3 {
        HookEventName::SessionStart
    } else if place == 4 {
        HookEventName::UserPromptSubmit
    } else if place == 5 {
        HookEventName::Stop
    } else {
        HookEventName::AfterCompaction
    }
}

/// The groups that a file declares under an event.
pub open spec fn groups_under(events: HookEvents, event: HookEventName) -> Seq<MatcherGroup> {
    match event {
        HookEventName::PreToolUse => events.pre_tool_use@,
        HookEventName::PermissionRequest => events.permission_request@,
        HookEventName::PostToolUse => events.post_tool_use@,
        HookEventName::SessionStart => events.session_start@,
        HookEventName::UserPromptSubmit => events.user_prompt_submit@,
        HookEventName::Stop => events.stop@,
        HookEventName::AfterCompaction => events.after_compaction@,
        _ => Seq::empty(),
    }
}

/// A hook stands at a place.
pub open spec fn is_place(layers: Seq<HookLayer>, place: HookPlace) -> bool {
    &&& 0 <= place.layer < layers.len()
    &&& 0 <= place.event < 7
    &&& layers[place.layer].file is Parsed
    &&& 0 <= place.group < groups_under(
        layers[place.layer].file->hooks,
        event_at(place.event),
    ).len()
    &&& 0 <= place.hook < group_of(layers, place).hooks@.len()
}

/// The group that the place is in.
pub open spec fn group_of(layers: Seq<HookLayer>, place: HookPlace) -> MatcherGroup {
    groups_under(layers[place.layer].file->hooks, event_at(place.event))[place.group]
}

/// The hook that stands at a place.
pub open spec fn hook_of(layers: Seq<HookLayer>, place: HookPlace) -> HookHandlerConfig {
    group_of(layers, place).hooks@[place.hook]
}

/// The matcher that counts for the place, if there is one: prompts of users
/// and ends of turns have none.
pub open spec fn matcher_of(layers: Seq<HookLayer>, place: HookPlace) -> Option<Seq<char>> {
    if event_at(place.event) is UserPromptSubmit || event_at(place.event) is Stop {
        None
    } else {
        opt_text(group_of(layers, place).matcher)
    }
}

/// The hook at a place can run: it is a command, neither asynchronous nor
/// blank, and its group's matcher is not broken.
pub open spec fn can_run_at(layers: Seq<HookLayer>, place: HookPlace) -> bool {
    &&& is_place(layers, place)
    &&& matcher_of(layers, place) matches Some(matcher) ==> matcher_error(matcher) is None
    &&& hook_of(layers, place) matches HookHandlerConfig::Command { command, is_async, .. }
        && !is_async && !is_blank(command@)
}

/// A handler is the hook at a place: it has that very event, the group's
/// matcher and conditions, the hook's command and message, the layer's path
/// and source, and a time of at least a second.
pub open spec fn is_hook_at(
    handler: ConfiguredHandlerView,
    layers: Seq<HookLayer>,
    place: HookPlace,
) -> bool {
    &&& handler.event_name == event_at(place.event)
    &&& handler.matcher == matcher_of(layers, place)
    &&& handler.conditions == group_of(layers, place).conditions@
    &&& handler.source_path == layers[place.layer].source_path@
    &&& handler.source == layer_hook_source(layers[place.layer].name)
    &&& hook_of(layers, place) matches HookHandlerConfig::Command {
        command,
        timeout_sec,
        status_message,
        ..
    } && handler.command == command@ && handler.status_message == opt_text(status_message) && (
    match timeout_sec {
        Some(seconds) => seconds >= 1 ==> handler.timeout_sec == seconds,
        None => handler.timeout_sec == 600,
    }) && (timeout_sec == Some(0u64) ==> handler.timeout_sec == 1)
}

/// The handlers found so far are the hooks at the given places, which are all
/// the places before the frontier at which a hook can run, in order.
pub open spec fn are_hooks_at(
    handlers: Seq<ConfiguredHandlerView>,
    places: Seq<HookPlace>,
    layers: Seq<HookLayer>,
    frontier: HookPlace,
) -> bool {
    &&& handlers.len() == places.len()
    &&& forall|k: int|
        #![trigger places[k]]
        0 <= k < places.len() ==> place_before(places[k], frontier) && can_run_at(
            layers,
            places[k],
        ) && is_hook_at(handlers[k], layers, places[k])
    &&& forall|j: int, k: int|
        0 <= j < k < places.len() ==> place_before(#[trigger] places[j], #[trigger] places[k])
    &&& forall|place: HookPlace| #[trigger]
        can_run_at(layers, place) && place_before(place, frontier) ==> places.contains(place)
}

proof fn lemma_frontier_moves(
    handlers: Seq<ConfiguredHandlerView>,
    places: Seq<HookPlace>,
    layers: Seq<HookLayer>,
    frontier: HookPlace,
    next: HookPlace,
)
    requires
        are_hooks_at(handlers, places, layers, frontier),
        frontier == next || place_before(frontier, next),
        forall|place: HookPlace| #[trigger]
            can_run_at(layers, place) && place_before(place, next) ==> place_before(
                place,
                frontier,
            ),
    ensures
        are_hooks_at(handlers, places, layers, next),
{
    assert forall|k: int|
        #![trigger places[k]]
        0 <= k < places.len() implies place_before(places[k], next) && can_run_at(layers, places[k])
        && is_hook_at(handlers[k], layers, places[k]) by {
        assert(place_before(places[k], frontier));
    }
}

proof fn lemma_hooks_at(
    found: Discovery,
    places: Seq<HookPlace>,
    layers: Seq<HookLayer>,
    at: HookPlace,
    count: int,
) -> (all: Seq<HookPlace>)
    requires
        0 <= at.layer < layers.len(),
        0 <= at.event < 7,
        layers[at.layer].file is Parsed,
        0 <= at.group < groups_under(layers[at.layer].file->hooks, event_at(at.event)).len(),
        at.hook == 0,
        matcher_of(layers, at) matches Some(matcher) ==> matcher_error(matcher) is None,
        0 <= count <= group_of(layers, at).hooks@.len(),
        are_hooks_at(found.handlers, places, layers, at),
    ensures
        are_hooks_at(
            with_hooks(
                found,
                group_spec(
                    layers[at.layer].source_path@,
                    layer_hook_source(layers[at.layer].name),
                    event_at(at.event),
                    group_of(layers, at),
                ),
                group_of(layers, at).hooks@.take(count),
            ).handlers,
            all,
            layers,
            HookPlace { hook: count, ..at },
        ),
    decreases count,
{
    let hooks = group_of(layers, at).hooks@;
    let group = group_spec(
        layers[at.layer].source_path@,
        layer_hook_source(layers[at.layer].name),
        event_at(at.event),
        group_of(layers, at),
    );
    if count == 0 {
        assert(hooks.take(0) =~= Seq::<HookHandlerConfig>::empty());
        assert((HookPlace { hook: 0, ..at }) =~= at);
        places
    } else {
        let before = lemma_hooks_at(found, places, layers, at, count - 1);
        let last = HookPlace { hook: count - 1, ..at };
        let next = HookPlace { hook: count, ..at };
        let so_far = with_hooks(found, group, hooks.take(count - 1));
        let after = with_hooks(found, group, hooks.take(count));
        assert(hooks.take(count).drop_last() =~= hooks.take(count - 1));
        assert(hooks.take(count).last() == hooks[count - 1]);
        assert(hook_of(layers, last) == hooks[count - 1]);
        assert(group_of(layers, last) == group_of(layers, at));
        assert(matcher_of(layers, last) == matcher_of(layers, at));
        if can_run_at(layers, last) {
            let all = before.push(last);
            assert(after.handlers.len() == all.len());
            assert(is_hook_at(after.handlers[all.len() - 1], layers, last));
            assert forall|k: int|
                #![trigger all[k]]
                0 <= k < all.len() implies place_before(all[k], next) && can_run_at(layers, all[k])
                && is_hook_at(after.handlers[k], layers, all[k]) by {
                if k < before.len() {
                    assert(all[k] == before[k]);
                    assert(after.handlers[k] == so_far.handlers[k]);
                    assert(place_before(before[k], last));
                }
            }
            assert forall|j: int, k: int| 0 <= j < k < all.len() implies place_before(
                #[trigger] all[j],
                #[trigger] all[k],
            ) by {
                assert(all[j] == before[j]);
                if k < before.len() {
                    assert(all[k] == before[k]);
                } else {
                    assert(place_before(before[j], last));
                }
            }
            assert forall|place: HookPlace| #[trigger]
                can_run_at(layers, place) && place_before(place, next) implies all.contains(
                place,
            ) by {
                if place_before(place, last) {
                    assert(before.contains(place));
                    let k = choose|k: int| 0 <= k < before.len() && before[k] == place;
                    assert(all[k] == place);
                } else {
                    assert(place =~= last);
                    assert(all[all.len() - 1] == place);
                }
            }
            all
        } else {
            assert(after.handlers == so_far.handlers);
            assert forall|place: HookPlace| #[trigger]
                can_run_at(layers, place) && place_before(place, next) implies place_before(
                place,
                last,
            ) by {
                if !place_before(place, last) {
                    assert(place =~= last);
                }
            }
            lemma_frontier_moves(after.handlers, before, layers, last, next);
            before
        }
    }
}

proof fn lemma_groups_at(
    found: Discovery,
    places: Seq<HookPlace>,
    layers: Seq<HookLayer>,
    at: HookPlace,
    count: int,
) -> (all: Seq<HookPlace>)
    requires
        0 <= at.layer < layers.len(),
        0 <= at.event < 7,
        layers[at.layer].file is Parsed,
        at.group == 0,
        at.hook == 0,
        0 <= count <= groups_under(layers[at.layer].file->hooks, event_at(at.event)).len(),
        are_hooks_at(found.handlers, places, layers, at),
    ensures
        are_hooks_at(
            with_groups(
                found,
                layers[at.layer].source_path@,
                layer_hook_source(layers[at.layer].name),
                event_at(at.event),
                groups_under(layers[at.layer].file->hooks, event_at(at.event)).take(count),
            ).handlers,
            all,
            layers,
            HookPlace { group: count, ..at },
        ),
    decreases count,
{
    let path = layers[at.layer].source_path@;
    let source = layer_hook_source(layers[at.layer].name);
    let event = event_at(at.event);
    let groups = groups_under(layers[at.layer].file->hooks, event);
    if count == 0 {
        assert(groups.take(0) =~= Seq::<MatcherGroup>::empty());
        assert((HookPlace { group: 0, ..at }) =~= at);
        places
    } else {
        let before = lemma_groups_at(found, places, layers, at, count - 1);
        let last = HookPlace { group: count - 1, ..at };
        let next = HookPlace { group: count, ..at };
        let so_far = with_groups(found, path, source, event, groups.take(count - 1));
        assert(groups.take(count).drop_last() =~= groups.take(count - 1));
        assert(groups.take(count).last() == groups[count - 1]);
        assert(group_of(layers, last) == groups[count - 1]);
        let group = group_spec(path, source, event, groups[count - 1]);
        assert(group.matcher == matcher_of(layers, last));
        if group.matcher is Some && matcher_error(group.matcher->0) is Some {
            assert forall|place: HookPlace| #[trigger]
                can_run_at(layers, place) && place_before(place, next) implies place_before(
                place,
                last,
            ) by {
                if !place_before(place, last) {
                    assert(group_of(layers, place) == groups[count - 1]);
                }
            }
            lemma_frontier_moves(so_far.handlers, before, layers, last, next);
            before
        } else {
            let hooks = groups[count - 1].hooks@;
            let end = HookPlace { hook: hooks.len() as int, ..last };
            let all = lemma_hooks_at(so_far, before, layers, last, hooks.len() as int);
            assert(hooks.take(hooks.len() as int) =~= hooks);
            let after = with_hooks(so_far, group, hooks);
            assert forall|place: HookPlace| #[trigger]
                can_run_at(layers, place) && place_before(place, next) implies place_before(
                place,
                end,
            ) by {
                if place.layer == at.layer && place.event == at.event && place.group == count - 1 {
                    assert(group_of(layers, place) == groups[count - 1]);
                }
            }
            lemma_frontier_moves(after.handlers, all, layers, end, next);
            all
        }
    }
}

proof fn lemma_event_looked_at(
    found: Discovery,
    places: Seq<HookPlace>,
    layers: Seq<HookLayer>,
    layer: int,
    event: int,
) -> (all: Seq<HookPlace>)
    requires
        0 <= layer < layers.len(),
        0 <= event < 7,
        layers[layer].file is Parsed,
        are_hooks_at(
            found.handlers,
            places,
            layers,
            HookPlace { layer, event, group: 0, hook: 0 },
        ),
    ensures
        are_hooks_at(
            with_groups(
                found,
                layers[layer].source_path@,
                layer_hook_source(layers[layer].name),
                event_at(event),
                groups_under(layers[layer].file->hooks, event_at(event)),
            ).handlers,
            all,
            layers,
            HookPlace { layer, event: event + 1, group: 0, hook: 0 },
        ),
{
    let at = HookPlace { layer, event, group: 0, hook: 0 };
    let next = HookPlace { layer, event: event + 1, group: 0, hook: 0 };
    let groups = groups_under(layers[layer].file->hooks, event_at(event));
    let end = HookPlace { group: groups.len() as int, ..at };
    let all = lemma_groups_at(found, places, layers, at, groups.len() as int);
    assert(groups.take(groups.len() as int) =~= groups);
    assert forall|place: HookPlace| #[trigger]
        can_run_at(layers, place) && place_before(place, next) implies place_before(place, end) by {
    }
    lemma_frontier_moves(
        with_groups(
            found,
            layers[layer].source_path@,
            layer_hook_source(layers[layer].name),
            event_at(event),
            groups,
        ).handlers,
        all,
        layers,
        end,
        next,
    );
    all
}

proof fn lemma_layers_at(layers: Seq<HookLayer>, count: int) -> (all: Seq<HookPlace>)
    requires
        0 <= count <= layers.len(),
    ensures
        are_hooks_at(
            with_layers(nothing_found(), layers.take(count)).handlers,
            all,
            layers,
            HookPlace { layer: count, event: 0, group: 0, hook: 0 },
        ),
    decreases count,
{
    let next = HookPlace { layer: count, event: 0, group: 0, hook: 0 };
    if count == 0 {
        assert(layers.take(0) =~= Seq::<HookLayer>::empty());
        let none = Seq::<HookPlace>::empty();
        assert(are_hooks_at(nothing_found().handlers, none, layers, next));
        none
    } else {
        let before = lemma_layers_at(layers, count - 1);
        let last = HookPlace { layer: count - 1, event: 0, group: 0, hook: 0 };
        let layer = layers[count - 1];
        let found = with_layers(nothing_found(), layers.take(count - 1));
        assert(layers.take(count).drop_last() =~= layers.take(count - 1));
        assert(layers.take(count).last() == layer);
        if let HooksFileRead::Parsed { hooks } = layer.file {
            let path = layer.source_path@;
            let source = layer_hook_source(layer.name);
            let at = count - 1;
            let p1 = lemma_event_looked_at(found, before, layers, at, 0);
            let f1 = with_groups(found, path, source, event_at(0), hooks.pre_tool_use@);
            let p2 = lemma_event_looked_at(f1, p1, layers, at, 1);
            let f2 = with_groups(f1, path, source, event_at(1), hooks.permission_request@);
            let p3 = lemma_event_looked_at(f2, p2, layers, at, 2);
            let f3 = with_groups(f2, path, source, event_at(2), hooks.post_tool_use@);
            let p4 = lemma_event_looked_at(f3, p3, layers, at, 3);
            let f4 = with_groups(f3, path, source, event_at(3), hooks.session_start@);
            let p5 = lemma_event_looked_at(f4, p4, layers, at, 4);
            let f5 = with_groups(f4, path, source, event_at(4), hooks.user_prompt_submit@);
            let p6 = lemma_event_looked_at(f5, p5, layers, at, 5);
            let f6 = with_groups(f5, path, source, event_at(5), hooks.stop@);
            let p7 = lemma_event_looked_at(f6, p6, layers, at, 6);
            let f7 = with_groups(f6, path, source, event_at(6), hooks.after_compaction@);
            let end = HookPlace { layer: at, event: 7, group: 0, hook: 0 };
            assert(with_layer(found, layer) == f7);
            assert forall|place: HookPlace| #[trigger]
                can_run_at(layers, place) && place_before(place, next) implies place_before(
                place,
                end,
            ) by {}
            lemma_frontier_moves(f7.handlers, p7, layers, end, next);
            p7
        } else {
            assert forall|place: HookPlace| #[trigger]
                can_run_at(layers, place) && place_before(place, next) implies place_before(
                place,
                last,
            ) by {}
            lemma_frontier_moves(found.handlers, before, layers, last, next);
            before
        }
    }
}

/// The handlers that are found are exactly the hooks of the layers that can
/// run: each of them under the very event that its layer declares it under,
/// with the matcher and the conditions of its group, the command and the time
/// that it is configured with, and the path and the source of its layer. None
/// is left out, none comes twice, and they come by layer, from the lowest to
/// the highest, by event, by group and by place in the group.
pub proof fn lemma_found_are_the_declared_hooks(layers: Seq<HookLayer>) -> (places: Seq<HookPlace>)
    ensures
        ({
            let handlers = with_layers(nothing_found(), layers).handlers;
            &&& handlers.len() == places.len()
            &&& forall|k: int|
                #![trigger places[k]]
                0 <= k < places.len() ==> can_run_at(layers, places[k]) && is_hook_at(
                    handlers[k],
                    layers,
                    places[k],
                )
            &&& forall|j: int, k: int|
                0 <= j < k < places.len() ==> place_before(
                    #[trigger] places[j],
                    #[trigger] places[k],
                )
            &&& forall|place: HookPlace| #[trigger]
                can_run_at(layers, place) ==> places.contains(place)
        }),
{
    let count = layers.len() as int;
    let places = lemma_layers_at(layers, count);
    assert(layers.take(count) =~= layers);
    let end = HookPlace { layer: count, event: 0, group: 0, hook: 0 };
    assert forall|place: HookPlace| #[trigger] can_run_at(layers, place) implies places.contains(
        place,
    ) by {
        assert(place_before(place, end));
    }
    places
}

/// Hooks that are found for an event come from the groups that a layer
/// declares under that event, and every command there that can run is found.
pub proof fn lemma_found_under_their_event(layers: Seq<HookLayer>, k: int)
    requires
        0 <= k < with_layers(nothing_found(), layers).handlers.len(),
    ensures
        ({
            let handler = with_layers(nothing_found(), layers).handlers[k];
            exists|l: int, g: int, h: int|
                #![trigger groups_under(layers[l].file->hooks, handler.event_name)[g].hooks@[h]]
                {
                    &&& 0 <= l < layers.len()
                    &&& layers[l].file is Parsed
                    &&& 0 <= g < groups_under(layers[l].file->hooks, handler.event_name).len()
                    &&& 0 <= h < groups_under(
                        layers[l].file->hooks,
                        handler.event_name,
                    )[g].hooks@.len()
                    &&& groups_under(layers[l].file->hooks, handler.event_name)[g].hooks@[h]
                        matches HookHandlerConfig::Command { command, .. } && command@
                        == handler.command
                }
        }),
{
    let places = lemma_found_are_the_declared_hooks(layers);
    let handler = with_layers(nothing_found(), layers).handlers[k];
    let place = places[k];
    assert(can_run_at(layers, place) && is_hook_at(handler, layers, place));
    assert(hook_of(layers, place) == groups_under(
        layers[place.layer].file->hooks,
        handler.event_name,
    )[place.group].hooks@[place.hook]);
}

/// Everything that is configured is found or warned of: a hook becomes one
/// handler or one warning, and a warning names the file that the hook stands
/// in and says what is wrong with it.
pub proof fn lemma_hook_is_found_or_warned_of(
    found: Discovery,
    group: GroupSpecView,
    hook: HookHandlerConfig,
)
    ensures
        ({
            let after = with_hook(found, group, hook);
            let runs = hook matches HookHandlerConfig::Command { command, is_async, .. }
                && !is_async && !is_blank(command@);
            &&& runs ==> after.warnings == found.warnings && after.handlers.len()
                == found.handlers.len() + 1 && after.handlers.drop_last() == found.handlers
            &&& !runs ==> after.handlers == found.handlers && after.warnings.len()
                == found.warnings.len() + 1 && after.warnings.drop_last() == found.warnings
            &&& hook is Prompt ==> after.warnings.last() == "skipping prompt hook in "@
                + group.source_path + ": prompt hooks are not supported yet"@
            &&& hook is Agent ==> after.warnings.last() == "skipping agent hook in "@
                + group.source_path + ": agent hooks are not supported yet"@
            &&& hook matches HookHandlerConfig::Command { command, is_async, .. } ==> {
                &&& is_async ==> after.warnings.last() == "skipping async hook in "@
                    + group.source_path + ": async hooks are not supported yet"@
                &&& !is_async && is_blank(command@) ==> after.warnings.last()
                    == "skipping empty hook command in "@ + group.source_path
            }
        }),
{
    let after = with_hook(found, group, hook);
    assert(after.handlers.len() > found.handlers.len() ==> after.handlers.drop_last()
        =~= found.handlers);
    assert(after.warnings.len() > found.warnings.len() ==> after.warnings.drop_last()
        =~= found.warnings);
}

/// A group with a broken matcher gives one warning, which names the matcher,
/// the file and the error, and none of its hooks.
pub proof fn lemma_broken_group_is_warned_of(
    found: Discovery,
    group: GroupSpecView,
    hooks: Seq<HookHandlerConfig>,
    matcher: Seq<char>,
)
    requires
        group.matcher == Some(matcher),
        matcher.len() > 0,
        matcher != "*"@,
        regex_error(matcher) is Some,
    ensures
        with_group(found, group, hooks).handlers == found.handlers,
        with_group(found, group, hooks).warnings == found.warnings.push(
            "invalid matcher "@ + debug_text(matcher) + " in "@ + group.source_path + ": "@
                + regex_error(matcher)->0,
        ),
{
}

/// A layer whose file cannot be read or understood gives one warning, which
/// names the file and the error; one without a file gives nothing. Neither
/// keeps other layers from being looked at.
pub proof fn lemma_broken_layer_is_warned_of(layers: Seq<HookLayer>, layer: HookLayer)
    ensures
        ({
            let before = with_layers(nothing_found(), layers);
            let after = with_layers(nothing_found(), layers.push(layer));
            &&& layer.file is Absent ==> after == before
            &&& layer.file matches HooksFileRead::Unreadable { error } ==> after.handlers
                == before.handlers && after.warnings == before.warnings.push(
                "failed to read hooks config "@ + layer.source_path@ + ": "@ + error@,
            )
            &&& layer.file matches HooksFileRead::Unparsable { error } ==> after.handlers
                == before.handlers && after.warnings == before.warnings.push(
                "failed to parse hooks config "@ + layer.source_path@ + ": "@ + error@,
            )
        }),
{
    assert(layers.push(layer).drop_last() =~= layers);
}

} // verus!
