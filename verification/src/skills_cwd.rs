//! Finding the skills that belong to a working directory.

use vstd::prelude::*;
use crate::path_style::PathStyle;
use crate::paths::{components, same_path};

verus! {

/// What is known of a skill.
#[derive(Debug)]
pub struct SkillMetadata {
    pub name: String,
    pub description: String,
    pub short_description: Option<String>,
    pub path: String,
    pub enabled: bool,
}

/// The skills of one working directory.
#[derive(Debug)]
pub struct SkillsListEntry {
    pub cwd: String,
    /// The directory with all links resolved, where it is there.
    pub normalized_cwd: Option<String>,
    pub skills: Vec<SkillMetadata>,
}

/// An entry is for a directory: the paths are the same, or both directories
/// are there and are the same once all links are resolved.
pub open spec fn entry_matches(
    style: PathStyle,
    entry: SkillsListEntry,
    cwd: Seq<char>,
    normalized_cwd: Option<Seq<char>>,
) -> bool {
    ||| components(style, entry.cwd@) == components(style, cwd)
    ||| normalized_cwd is Some && entry.normalized_cwd is Some && components(
        style,
        entry.normalized_cwd->0@,
    ) == components(style, normalized_cwd->0)
}

fn paths_match(
    style: PathStyle,
    normalized_expected: Option<&str>,
    normalized_candidate: Option<&str>,
) -> (result: bool)
    ensures
        result == (normalized_expected is Some && normalized_candidate is Some && components(
            style,
            normalized_candidate->0@,
        ) == components(style, normalized_expected->0@)),
{
    match (normalized_expected, normalized_candidate) {
        (Some(expected), Some(candidate)) => same_path(style, candidate, expected),
        _ => false,
    }
}

/// The entry for a directory: the first one that is for it, or the only one
/// where there is just one.
pub fn skills_entry_for_cwd<'a>(
    style: PathStyle,
    cwd: &str,
    normalized_cwd: Option<&str>,
    skills_entries: &'a [SkillsListEntry],
) -> (result: Option<&'a SkillsListEntry>)
    ensures
        ({
            let wanted = crate::text::opt_str(normalized_cwd);
            match result {
                Some(entry) => {
                    ||| exists|i: int|
                        0 <= i < skills_entries@.len() && *entry == #[trigger] skills_entries@[i]
                            && entry_matches(style, skills_entries@[i], cwd@, wanted) && forall|j: int|
                            0 <= j < i ==> !entry_matches(
                                style,
                                #[trigger] skills_entries@[j],
                                cwd@,
                                wanted,
                            )
                    ||| skills_entries@.len() == 1 && *entry == skills_entries@[0]
                        && !entry_matches(style, skills_entries@[0], cwd@, wanted)
                },
                None => skills_entries@.len() != 1 && forall|j: int|
                    0 <= j < skills_entries@.len() ==> !entry_matches(
                        style,
                        #[trigger] skills_entries@[j],
                        cwd@,
                        wanted,
                    ),
            }
        }),
{
    let ghost wanted = crate::text::opt_str(normalized_cwd);
    let mut i: usize = 0;
    while i < skills_entries.len()
        invariant
            i <= skills_entries.len(),
            wanted == crate::text::opt_str(normalized_cwd),
            forall|j: int|
                0 <= j < i ==> !entry_matches(style, #[trigger] skills_entries@[j], cwd@, wanted),
        decreases skills_entries.len() - i,
    {
        let entry = &skills_entries[i];
        let candidate = match &entry.normalized_cwd {
            Some(path) => Some(path.as_str()),
            None => None,
        };
        if same_path(style, entry.cwd.as_str(), cwd) || paths_match(style, normalized_cwd, candidate) {
            assert(entry_matches(style, skills_entries@[i as int], cwd@, wanted));
            return Some(entry);
        }
        i += 1;
    }
    if skills_entries.len() == 1 {
        return Some(&skills_entries[0]);
    }
    None
}

/// An entry is for a directory where the two paths have the same parts, and
/// where both are there and the resolved paths have; a directory that is not
/// there is found by its path alone.
pub proof fn lemma_which_entry_is_for_a_directory(
    style: PathStyle,
    entry: SkillsListEntry,
    cwd: Seq<char>,
    normalized_cwd: Option<Seq<char>>,
)
    ensures
        components(style, entry.cwd@) == components(style, cwd) ==> entry_matches(
            style,
            entry,
            cwd,
            normalized_cwd,
        ),
        components(style, entry.cwd@) != components(style, cwd) ==> {
            &&& normalized_cwd is None || entry.normalized_cwd is None ==> !entry_matches(
                style,
                entry,
                cwd,
                normalized_cwd,
            )
            &&& normalized_cwd is Some && entry.normalized_cwd is Some ==> (entry_matches(
                style,
                entry,
                cwd,
                normalized_cwd,
            ) <==> components(style, entry.normalized_cwd->0@) == components(
                style,
                normalized_cwd->0,
            ))
        },
{
}

} // verus!
