//! The events, the configuration and the configured handlers of hooks.

use vstd::prelude::*;
use crate::text::{opt_text, texts};

verus! {

/// The events at which hooks run.
#[derive(Clone, Copy, Debug, PartialEq, Eq, Structural)]
pub enum HookEventName {
    PreToolUse,
    PermissionRequest,
    PostToolUse,
    SessionStart,
    PreCompact,
    PostCompact,
    AfterCompaction,
    UserPromptSubmit,
    Stop,
}

/// Where the configuration of a hook comes from.
#[derive(Clone, Copy, Debug, PartialEq, Eq, Structural)]
pub enum HookSource {
    System,
    User,
    Project,
    Mdm,
    SessionFlags,
    LegacyManagedConfigFile,
    LegacyManagedConfigMdm,
}

/// A layer of the configuration.
#[derive(Debug)]
pub enum ConfigLayerSource {
    System { file: String },
    User { file: String },
    Project { dot_codex_folder: String },
    Mdm { domain: String, key: String },
    SessionFlags,
    LegacyManagedConfigTomlFromFile { file: String },
    LegacyManagedConfigTomlFromMdm,
}

/// The source of the hooks of a configuration layer.
pub open spec fn layer_hook_source(source: ConfigLayerSource) -> HookSource {
    match source {
        ConfigLayerSource::System { .. } => HookSource::System,
        ConfigLayerSource::User { .. } => HookSource::User,
        ConfigLayerSource::Project { .. } => HookSource::Project,
        ConfigLayerSource::Mdm { .. } => HookSource::Mdm,
        ConfigLayerSource::SessionFlags => HookSource::SessionFlags,
        ConfigLayerSource::LegacyManagedConfigTomlFromFile { .. } => HookSource::LegacyManagedConfigFile,
        ConfigLayerSource::LegacyManagedConfigTomlFromMdm => HookSource::LegacyManagedConfigMdm,
    }
}

/// The source of the hooks of a configuration layer, whatever its details.
pub fn hook_source_for_config_layer_source(source: &ConfigLayerSource) -> (result: HookSource)
    ensures
        result == layer_hook_source(*source),
{
    match source {
        ConfigLayerSource::System { .. } => HookSource::System,
        ConfigLayerSource::User { .. } => HookSource::User,
        ConfigLayerSource::Project { .. } => HookSource::Project,
        ConfigLayerSource::Mdm { .. } => HookSource::Mdm,
        ConfigLayerSource::SessionFlags => HookSource::SessionFlags,
        ConfigLayerSource::LegacyManagedConfigTomlFromFile { .. } => HookSource::LegacyManagedConfigFile,
        ConfigLayerSource::LegacyManagedConfigTomlFromMdm => HookSource::LegacyManagedConfigMdm,
    }
}

/// Copies a list of strings.
pub fn clone_texts(list: &Vec<String>) -> (result: Vec<String>)
    ensures
        result@ == list@,
{
    let mut result: Vec<String> = Vec::new();
    let mut i: usize = 0;
    while i < list.len()
        invariant
            i <= list.len(),
            result@ == list@.take(i as int),
        decreases list.len() - i,
    {
        result.push(list[i].clone());
        i += 1;
        assert(list@.take(i as int) =~= list@.take(i - 1).push(list@[i - 1]));
    }
    assert(list@.take(i as int) =~= list@);
    result
}

/// What has to hold for a hook to run. Nothing declared is nothing asked.
#[derive(Debug)]
pub struct HookConditions {
    pub profile: Option<String>,
    pub profiles: Vec<String>,
    pub model: Option<String>,
    pub models: Vec<String>,
    pub permission_mode: Option<String>,
    pub permission_modes: Vec<String>,
}

/// The conditions as values.
#[verifier::ext_equal]
pub struct HookConditionsView {
    pub profile: Option<Seq<char>>,
    pub profiles: Seq<Seq<char>>,
    pub model: Option<Seq<char>>,
    pub models: Seq<Seq<char>>,
    pub permission_mode: Option<Seq<char>>,
    pub permission_modes: Seq<Seq<char>>,
}

impl View for HookConditions {
    type V = HookConditionsView;

    open spec fn view(&self) -> HookConditionsView {
        HookConditionsView {
            profile: opt_text(self.profile),
            profiles: texts(self.profiles@),
            model: opt_text(self.model),
            models: texts(self.models@),
            permission_mode: opt_text(self.permission_mode),
            permission_modes: texts(self.permission_modes@),
        }
    }
}

/// The conditions that ask for nothing.
pub open spec fn no_conditions() -> HookConditionsView {
    HookConditionsView {
        profile: None,
        profiles: Seq::empty(),
        model: None,
        models: Seq::empty(),
        permission_mode: None,
        permission_modes: Seq::empty(),
    }
}

impl Default for HookConditions {
    fn default() -> (result: Self)
        ensures
            result@ == no_conditions(),
    {
        let result = HookConditions {
            profile: None,
            profiles: Vec::new(),
            model: None,
            models: Vec::new(),
            permission_mode: None,
            permission_modes: Vec::new(),
        };
        assert(result@ =~= no_conditions());
        result
    }
}

impl Clone for HookConditions {
    fn clone(&self) -> (result: Self)
        ensures
            result@ == self@,
    {
        HookConditions {
            profile: self.profile.clone(),
            profiles: clone_texts(&self.profiles),
            model: self.model.clone(),
            models: clone_texts(&self.models),
            permission_mode: self.permission_mode.clone(),
            permission_modes: clone_texts(&self.permission_modes),
        }
    }
}

/// A hook as it is configured.
#[derive(Debug)]
pub enum HookHandlerConfig {
    Command {
        command: String,
        timeout_sec: Option<u64>,
        is_async: bool,
        status_message: Option<String>,
    },
    Prompt,
    Agent,
}

/// Hooks that run for the same matcher and conditions.
#[derive(Debug)]
pub struct MatcherGroup {
    pub matcher: Option<String>,
    pub conditions: HookConditions,
    pub hooks: Vec<HookHandlerConfig>,
}

/// The hooks of a configuration file, by event.
#[derive(Debug)]
pub struct HookEvents {
    pub pre_tool_use: Vec<MatcherGroup>,
    pub permission_request: Vec<MatcherGroup>,
    pub post_tool_use: Vec<MatcherGroup>,
    pub session_start: Vec<MatcherGroup>,
    pub after_compaction: Vec<MatcherGroup>,
    pub user_prompt_submit: Vec<MatcherGroup>,
    pub stop: Vec<MatcherGroup>,
}

/// A hook that can run.
#[derive(Debug)]
pub struct ConfiguredHandler {
    pub event_name: HookEventName,
    pub matcher: Option<String>,
    pub conditions: HookConditions,
    pub command: String,
    pub timeout_sec: u64,
    pub status_message: Option<String>,
    pub source_path: String,
    pub source: HookSource,
    /// The place of the hook among all that were found.
    pub display_order: i64,
}

/// A hook that can run, as a value.
#[verifier::ext_equal]
pub struct ConfiguredHandlerView {
    pub event_name: HookEventName,
    pub matcher: Option<Seq<char>>,
    pub conditions: HookConditionsView,
    pub command: Seq<char>,
    pub timeout_sec: u64,
    pub status_message: Option<Seq<char>>,
    pub source_path: Seq<char>,
    pub source: HookSource,
    pub display_order: int,
}

impl View for ConfiguredHandler {
    type V = ConfiguredHandlerView;

    open spec fn view(&self) -> ConfiguredHandlerView {
        ConfiguredHandlerView {
            event_name: self.event_name,
            matcher: opt_text(self.matcher),
            conditions: self.conditions@,
            command: self.command@,
            timeout_sec: self.timeout_sec,
            status_message: opt_text(self.status_message),
            source_path: self.source_path@,
            source: self.source,
            display_order: self.display_order as int,
        }
    }
}

impl Clone for ConfiguredHandler {
    fn clone(&self) -> (result: Self)
        ensures
            result@ == self@,
    {
        ConfiguredHandler {
            event_name: self.event_name,
            matcher: self.matcher.clone(),
            conditions: self.conditions.clone(),
            command: self.command.clone(),
            timeout_sec: self.timeout_sec,
            status_message: self.status_message.clone(),
            source_path: self.source_path.clone(),
            source: self.source,
            display_order: self.display_order,
        }
    }
}

/// Handlers as values.
pub open spec fn handler_views(handlers: Seq<ConfiguredHandler>) -> Seq<ConfiguredHandlerView> {
    handlers.map_values(|handler: ConfiguredHandler| handler@)
}

/// Hooks keep the kind of layer that they come from: hooks of layers of
/// different kinds never have the same source, and hooks of layers of one kind
/// always do.
pub proof fn lemma_hook_source_tells_the_layer(a: ConfigLayerSource, b: ConfigLayerSource)
    ensures
        a is System <==> layer_hook_source(a) is System,
        a is User <==> layer_hook_source(a) is User,
        a is Project <==> layer_hook_source(a) is Project,
        a is Mdm <==> layer_hook_source(a) is Mdm,
        a is SessionFlags <==> layer_hook_source(a) is SessionFlags,
        a is LegacyManagedConfigTomlFromFile <==> layer_hook_source(a) is LegacyManagedConfigFile,
        a is LegacyManagedConfigTomlFromMdm <==> layer_hook_source(a) is LegacyManagedConfigMdm,
{
}

/// Conditions that ask for nothing declare nothing.
pub proof fn lemma_no_conditions_declare_nothing()
    ensures
        no_conditions().profile is None && no_conditions().profiles.len() == 0,
        no_conditions().model is None && no_conditions().models.len() == 0,
        no_conditions().permission_mode is None && no_conditions().permission_modes.len() == 0,
{
}

} // verus!
