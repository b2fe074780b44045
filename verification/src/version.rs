//! The version of the program as it is shown.

use vstd::prelude::*;

verus! {

/// The version of the program.
pub const CODEX_CLI_VERSION: &'static str = "0.144.0";

/// The label of a build that is given none.
pub const CODEX_BUILD_LABEL: &'static str = "custom";

/// The version of the program with the label of the build behind it: the one
/// that the build was given, if it was given one.
pub fn codex_cli_display_version(build_label: Option<&str>) -> (result: String)
    ensures
        result@ == CODEX_CLI_VERSION@ + " ["@ + (match build_label {
            Some(label) => label@,
            None => CODEX_BUILD_LABEL@,
        }) + "]"@,
{
    let label = match build_label {
        Some(label) => label,
        None => CODEX_BUILD_LABEL,
    };
    CODEX_CLI_VERSION.to_owned().concat(" [").concat(label).concat("]")
}

} // verus!
