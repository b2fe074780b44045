//! The mode in which a desktop program shares one app server.

use vstd::prelude::*;
use crate::text::{
    ascii_lowered, first_pos, join, join_texts, opt_text, same_text, split_once, texts,
    to_ascii_lowered, trim, trimmed,
};

verus! {

/// A value that switches the mode on, with its case folded and trimmed.
pub open spec fn means_on(value: Seq<char>) -> bool {
    value == "1"@ || value == "true"@ || value == "yes"@ || value == "on"@
}

/// A value that switches the mode off, with its case folded and trimmed.
pub open spec fn means_off(value: Seq<char>) -> bool {
    value.len() == 0 || value == "0"@ || value == "false"@ || value == "no"@ || value == "off"@
}

/// A value as it is compared: trimmed, with its ASCII letters in lower case.
pub open spec fn folded(value: Seq<char>) -> Seq<char> {
    ascii_lowered(trim(value))
}

/// A value that switches the mode neither on nor off.
#[derive(Debug)]
pub struct InvalidEnabledValue {
    pub value: String,
}

impl InvalidEnabledValue {
    /// What is wrong, for the variable that has the value.
    pub fn message(&self, env_var: &str) -> (result: String)
        ensures
            result@ == "invalid "@ + env_var@ + " value `"@ + self.value@
                + "`; expected true or false"@,
    {
        "invalid ".to_owned().concat(env_var).concat(" value `").concat(
            self.value.as_str(),
        ).concat("`; expected true or false")
    }
}

/// Whether a value switches the mode on or off; any other value is an error.
pub fn parse_enabled_value(value: &str) -> (result: Result<bool, InvalidEnabledValue>)
    ensures
        match result {
            Ok(true) => means_on(folded(value@)),
            Ok(false) => !means_on(folded(value@)) && means_off(folded(value@)),
            Err(error) => {
                &&& !means_on(folded(value@))
                &&& !means_off(folded(value@))
                &&& error.value@ == value@
            },
        },
{
    let folded_value = to_ascii_lowered(trimmed(value));
    let text = folded_value.as_str();
    if same_text(text, "1") || same_text(text, "true") || same_text(text, "yes") || same_text(
        text,
        "on",
    ) {
        return Ok(true);
    }
    if text.unicode_len() == 0 || same_text(text, "0") || same_text(text, "false") || same_text(
        text,
        "no",
    ) || same_text(text, "off") {
        return Ok(false);
    }
    Err(InvalidEnabledValue { value: value.to_owned() })
}

/// No value means both on and off.
pub proof fn lemma_on_and_off_exclude(value: Seq<char>)
    ensures
        !(means_on(value) && means_off(value)),
{
    reveal_strlit("1");
    reveal_strlit("true");
    reveal_strlit("yes");
    reveal_strlit("on");
    reveal_strlit("0");
    reveal_strlit("false");
    reveal_strlit("no");
    reveal_strlit("off");
    if means_on(value) && means_off(value) {
        assert(value.len() > 0);
        assert(value[0] == '1' || value[0] == 't' || value[0] == 'y' || (value[0] == 'o' && value[1]
            == 'n' && value.len() == 2));
    }
}

/// Whether the mode is on: off where the variable is not set.
pub fn shared_mode_enabled(value: Option<&str>) -> (result: Result<bool, InvalidEnabledValue>)
    ensures
        match value {
            None => result matches Ok(on) && !on,
            Some(value) => {
                &&& result is Err <==> !means_on(folded(value@)) && !means_off(folded(value@))
                &&& result matches Ok(on) ==> on == means_on(folded(value@))
                &&& result matches Err(error) ==> error.value@ == value@
            },
        },
{
    match value {
        None => Ok(false),
        Some(value) => {
            proof {
                lemma_on_and_off_exclude(folded(value@));
            }
            parse_enabled_value(value)
        },
    }
}

/// The name under which the mode connects.
pub open spec fn chosen_client_name(
    originator_override: Option<Seq<char>>,
    configured_client_name: Option<Seq<char>>,
) -> Option<Seq<char>> {
    let chosen = if originator_override is Some {
        originator_override
    } else {
        configured_client_name
    };
    match chosen {
        Some(name) if trim(name).len() > 0 => Some(trim(name)),
        _ => None,
    }
}

/// The name under which the mode connects: the originator that the desktop
/// program set, else the configured name; a blank one counts as none, without
/// falling back.
pub fn select_shared_mode_client_name(
    originator_override: Option<String>,
    configured_client_name: Option<String>,
) -> (result: Option<String>)
    ensures
        ({
            let chosen = chosen_client_name(
                opt_text(originator_override),
                opt_text(configured_client_name),
            );
            opt_text(result) == chosen
        }),
{
    let chosen = match originator_override {
        Some(name) => Some(name),
        None => configured_client_name,
    };
    match chosen {
        Some(name) => {
            let rest = trimmed(name.as_str());
            if rest.unicode_len() == 0 {
                None
            } else {
                Some(rest.to_owned())
            }
        },
        None => None,
    }
}

/// An override that the mode can keep: the one that the desktop program
/// passes by itself.
pub open spec fn is_compatible(value: Seq<char>) -> bool {
    &&& value.contains('=')
    &&& trim(value.take(first_pos(value, '=') as int)) == "features.code_mode_host"@
    &&& trim(value.skip((first_pos(value, '=') + 1) as int)) == "true"@
}

/// Whether the mode can keep an override.
pub fn is_desktop_compatible_override(value: &str) -> (result: bool)
    ensures
        result == is_compatible(value@),
{
    match split_once(value, '=') {
        Some((key, value)) => same_text(trimmed(key), "features.code_mode_host") && same_text(
            trimmed(value),
            "true",
        ),
        None => false,
    }
}

/// The overrides that the mode cannot keep, in the order given.
pub open spec fn unsupported(overrides: Seq<Seq<char>>) -> Seq<Seq<char>> {
    overrides.filter(|value: Seq<char>| !is_compatible(value))
}

/// Checks that the mode can keep all overrides.
pub fn validate_config_overrides(raw_overrides: &Vec<String>) -> (result: Result<(), String>)
    ensures
        result is Ok <==> unsupported(texts(raw_overrides@)).len() == 0,
        result matches Err(error) ==> error@
            == "desktop shared app-server mode cannot preserve these command-line config overrides: "@
            + join(unsupported(texts(raw_overrides@)), ", "@) + "; move them to config.toml"@,
{
    let ghost all = texts(raw_overrides@);
    let ghost keep = |value: Seq<char>| !is_compatible(value);
    let mut bad: Vec<String> = Vec::new();
    let mut i: usize = 0;
    proof {
        reveal(Seq::filter);
        assert(texts(bad@) =~= all.take(0).filter(keep));
    }
    while i < raw_overrides.len()
        invariant
            i <= raw_overrides.len(),
            all == texts(raw_overrides@),
            keep == (|value: Seq<char>| !is_compatible(value)),
            texts(bad@) == all.take(i as int).filter(keep),
        decreases raw_overrides.len() - i,
    {
        let ghost before = bad@;
        proof {
            assert(all[i as int] == raw_overrides@[i as int]@);
            assert(all.take(i + 1) =~= all.take(i as int).push(all[i as int]));
            all.take(i as int).lemma_filter_push(all[i as int], keep);
        }
        if !is_desktop_compatible_override(raw_overrides[i].as_str()) {
            bad.push(raw_overrides[i].clone());
            assert(texts(bad@) =~= texts(before).push(all[i as int]));
        }
        i += 1;
    }
    assert(all.take(i as int) =~= all);
    assert(texts(bad@).len() == bad@.len());
    if bad.len() == 0 {
        return Ok(());
    }
    Err(
        "desktop shared app-server mode cannot preserve these command-line config overrides: ".to_owned().concat(
        join_texts(&bad, ", ").as_str()).concat("; move them to config.toml"),
    )
}

/// Whether the shared server lets itself be controlled from elsewhere.
#[derive(Clone, Copy, Debug, PartialEq, Eq, Structural)]
pub enum DesktopRemoteControlMode {
    Enabled,
    Disabled,
    /// As was decided before.
    ResolvePersisted,
}

/// Whether the shared server lets itself be controlled from elsewhere.
pub open spec fn remote_mode(
    remote_control: bool,
    remote_control_disabled: bool,
) -> DesktopRemoteControlMode {
    if remote_control {
        DesktopRemoteControlMode::Enabled
    } else if remote_control_disabled {
        DesktopRemoteControlMode::Disabled
    } else {
        DesktopRemoteControlMode::ResolvePersisted
    }
}

/// Whether the shared server lets itself be controlled from elsewhere, by
/// what was asked for; to enable it takes precedence.
pub fn desktop_remote_control_mode(remote_control: bool, remote_control_disabled: bool) -> (result:
    DesktopRemoteControlMode)
    ensures
        result == remote_mode(remote_control, remote_control_disabled),
{
    if remote_control {
        DesktopRemoteControlMode::Enabled
    } else if remote_control_disabled {
        DesktopRemoteControlMode::Disabled
    } else {
        DesktopRemoteControlMode::ResolvePersisted
    }
}

/// How the program is talked to.
#[derive(Clone, Copy, Debug, PartialEq, Eq, Structural)]
pub enum AppServerTransport {
    Stdio,
    Other,
}

/// What the mode is asked for with.
#[derive(Debug)]
pub struct DesktopSharedAppServerOptions {
    pub transport: AppServerTransport,
    pub raw_overrides: Vec<String>,
    pub strict_config: bool,
    pub analytics_default_enabled: bool,
    pub remote_control: bool,
    pub remote_control_disabled: bool,
    pub remote_control_client_name: Option<String>,
}

/// What the shared server is started with.
#[derive(Debug)]
pub struct DesktopServerPlan {
    pub analytics_default_enabled: bool,
    pub remote_control_mode: DesktopRemoteControlMode,
    pub remote_control_client_name: Option<String>,
}

/// What is to be done: nothing where the mode is off, else what the shared
/// server is started with. The mode needs standard streams, does not go with
/// a strict configuration, and cannot keep most overrides; the first of these
/// that is not met is the error.
pub fn plan_shared_server(
    enabled: bool,
    options: DesktopSharedAppServerOptions,
    shared_client_name: Option<String>,
) -> (result: Result<Option<DesktopServerPlan>, String>)
    ensures
        match result {
            Ok(None) => !enabled,
            Ok(Some(plan)) => {
                &&& enabled
                &&& options.transport is Stdio
                &&& !options.strict_config
                &&& unsupported(texts(options.raw_overrides@)).len() == 0
                &&& plan.analytics_default_enabled == options.analytics_default_enabled
                &&& plan.remote_control_mode == remote_mode(
                    options.remote_control,
                    options.remote_control_disabled,
                )
                &&& plan.remote_control_client_name == (if options.remote_control_client_name
                    is Some {
                    options.remote_control_client_name
                } else {
                    shared_client_name
                })
            },
            Err(error) => enabled && error@ == (if options.transport !is Stdio {
                "desktop shared app-server mode requires the stdio transport"@
            } else if options.strict_config {
                "desktop shared app-server mode does not support `--strict-config`"@
            } else {
                "desktop shared app-server mode cannot preserve these command-line config overrides: "@
                    + join(unsupported(texts(options.raw_overrides@)), ", "@)
                    + "; move them to config.toml"@
            }) && (options.transport !is Stdio || options.strict_config || unsupported(
                texts(options.raw_overrides@),
            ).len() > 0),
        },
{
    if !enabled {
        return Ok(None);
    }
    if options.transport != AppServerTransport::Stdio {
        return Err("desktop shared app-server mode requires the stdio transport".to_owned());
    }
    if options.strict_config {
        return Err(
            "desktop shared app-server mode does not support `--strict-config`".to_owned(),
        );
    }
    if let Err(error) = validate_config_overrides(&options.raw_overrides) {
        return Err(error);
    }
    let remote_control_client_name = match options.remote_control_client_name {
        Some(name) => Some(name),
        None => shared_client_name,
    };
    Ok(
        Some(
            DesktopServerPlan {
                analytics_default_enabled: options.analytics_default_enabled,
                remote_control_mode: desktop_remote_control_mode(
                    options.remote_control,
                    options.remote_control_disabled,
                ),
                remote_control_client_name,
            },
        ),
    )
}

/// The mode is switched on by `1`, `true`, `yes` and `on`, and off by nothing
/// at all, `0`, `false`, `no` and `off`.
pub proof fn lemma_words_for_on_and_off()
    ensures
        means_on("1"@) && means_on("true"@) && means_on("yes"@) && means_on("on"@),
        means_off(Seq::empty()) && means_off("0"@) && means_off("false"@) && means_off("no"@)
            && means_off("off"@),
        !means_off("1"@) && !means_off("true"@) && !means_off("yes"@) && !means_off("on"@),
        !means_on(Seq::empty()) && !means_on("0"@) && !means_on("false"@) && !means_on("no"@)
            && !means_on("off"@),
{
    lemma_on_and_off_exclude("1"@);
    lemma_on_and_off_exclude("true"@);
    lemma_on_and_off_exclude("yes"@);
    lemma_on_and_off_exclude("on"@);
    lemma_on_and_off_exclude(Seq::empty());
    lemma_on_and_off_exclude("0"@);
    lemma_on_and_off_exclude("false"@);
    lemma_on_and_off_exclude("no"@);
    lemma_on_and_off_exclude("off"@);
}

/// What a value is compared as holds no white space at either end, and no
/// capital letter.
pub proof fn lemma_how_values_are_compared(value: Seq<char>, i: int)
    requires
        0 <= i < folded(value).len(),
    ensures
        folded(value).len() == trim(value).len(),
        folded(value)[i] < 'A' || folded(value)[i] > 'Z',
        trim(value)[i] < 'A' || trim(value)[i] > 'Z' ==> folded(value)[i] == trim(value)[i],
        'A' <= trim(value)[i] <= 'Z' ==> folded(value)[i] as int == trim(value)[i] as int + 32,
{
    crate::text::lemma_lowered(trim(value), i);
}

/// Of the overrides only `features.code_mode_host` set to `true` can be kept,
/// whatever white space stands around the two. An override without an equals
/// sign cannot.
pub proof fn lemma_override_that_can_be_kept(key: Seq<char>, value: Seq<char>)
    requires
        !key.contains('='),
    ensures
        !is_compatible(key),
        is_compatible(key + seq!['='] + value) <==> trim(key) == "features.code_mode_host"@
            && trim(value) == "true"@,
{
    let all = key + seq!['='] + value;
    let n = key.len() as int;
    crate::text::lemma_first_pos(all, '=');
    assert(all[n] == '=');
    assert(all.contains('='));
    assert forall|i: int| 0 <= i < n implies all[i] != '=' by {
        assert(all[i] == key[i]);
        assert(key.contains(key[i]));
    }
    assert(first_pos(all, '=') == n);
    assert(all.take(n) =~= key);
    assert(all.skip(n + 1) =~= value);
}

/// One more override is named behind the others where it cannot be kept, and
/// not at all where it can.
pub proof fn lemma_one_more_override(overrides: Seq<Seq<char>>, value: Seq<char>)
    ensures
        unsupported(Seq::empty()).len() == 0,
        is_compatible(value) ==> unsupported(overrides.push(value)) == unsupported(overrides),
        !is_compatible(value) ==> unsupported(overrides.push(value)) == unsupported(
            overrides,
        ).push(value),
{
    let keep = |value: Seq<char>| !is_compatible(value);
    reveal(Seq::filter);
    overrides.lemma_filter_push(value, keep);
    assert(Seq::<Seq<char>>::empty().filter(keep) =~= Seq::<Seq<char>>::empty());
}

/// An originator that was set decides the name, even a blank one, which counts
/// as none; only where none was set does the configured name count. A name is
/// used without white space at its ends.
pub proof fn lemma_name_that_is_used(name: Seq<char>, configured: Option<Seq<char>>)
    ensures
        chosen_client_name(Some(name), configured) == chosen_client_name(Some(name), None),
        chosen_client_name(None, Some(name)) == chosen_client_name(Some(name), None),
        chosen_client_name(None, None) is None,
        trim(name).len() > 0 ==> chosen_client_name(Some(name), None) == Some(trim(name)),
        trim(name).len() == 0 ==> chosen_client_name(Some(name), None) is None,
{
}

/// Control from elsewhere is enabled where that is asked for, disabled where
/// only the opposite is, and stays as it was decided where neither is.
pub proof fn lemma_control_from_elsewhere(disabled: bool)
    ensures
        remote_mode(true, disabled) is Enabled,
        remote_mode(false, true) is Disabled,
        remote_mode(false, false) is ResolvePersisted,
{
}

} // verus!
