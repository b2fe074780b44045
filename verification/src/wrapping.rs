//! Breaking text into lines of limited width.

use vstd::prelude::*;
use crate::text::texts;

verus! {

/// The lines that `textwrap::wrap` breaks a text into.
pub uninterp spec fn wrapped_lines(text: Seq<char>, width: usize) -> Seq<Seq<char>>;

/// Calls `textwrap::wrap` with its default options for the given width. That
/// the same text and width always give the same lines is all that is claimed.
#[verifier::external_body]
pub(crate) fn wrap_text(text: &str, width: usize) -> (result: Vec<String>)
    ensures
        texts(result@) == wrapped_lines(text@, width),
{
    textwrap::wrap(text, width).into_iter().map(std::borrow::Cow::into_owned).collect()
}

} // verus!
