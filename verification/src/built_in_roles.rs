//! The roles that come with the program.

use vstd::prelude::*;
use crate::text::{opt_text, same_text, text_lt};

verus! {

/// What the role is for.
pub const DEFAULT_DESCRIPTION: &'static str = "Default agent.";

/// What the role is for.
pub const EXPLORER_DESCRIPTION: &'static str = "Use `explorer` for specific codebase questions.\nExplorers are fast and authoritative.\nThey must be used to ask specific, well-scoped questions on the codebase.\nRules:\n- In order to avoid redundant work, you should avoid exploring the same problem that explorers have already covered. Typically, you should trust the explorer results without additional verification. You are still allowed to inspect the code yourself to gain the needed context!\n- You are encouraged to spawn up multiple explorers in parallel when you have multiple distinct questions to ask about the codebase that can be answered independently. This allows you to get more information faster without waiting for one question to finish before asking the next. While waiting for the explorer results, you can continue working on other local tasks that do not depend on those results. This parallelism is a key advantage of delegation, so use it whenever you have multiple questions to ask.\n- Reuse existing explorers for related questions.";

/// What the role is for.
pub const FAST_WORKER_DESCRIPTION: &'static str = "Use `fast-worker` for tightly constrained problems.\nTypical tasks:\n- Make a small, localized code change\n- Execute a narrowly scoped command sequence\n- Handle an isolated fix from a self-contained prompt\nRules:\n- Keep scope tight and avoid broad repo exploration.\n- Treat the prompt as self-contained and do not assume shared context.\n- Prefer direct execution over extended analysis.";

/// What the role is for.
pub const WORKER_DESCRIPTION: &'static str = "Use for execution and production work.\nTypical tasks:\n- Implement part of a feature\n- Fix tests or bugs\n- Split large refactors into independent chunks\nRules:\n- Explicitly assign **ownership** of the task (files / responsibility). When the subtask involves code changes, you should clearly specify which files or modules the worker is responsible for. This helps avoid merge conflicts and ensures accountability. For example, you can say \"Worker 1 is responsible for updating the authentication module, while Worker 2 will handle the database layer.\" By defining clear ownership, you can delegate more effectively and reduce coordination overhead.\n- Always tell workers they are **not alone in the codebase**, and they should not revert the edits made by others, and they should adjust their implementation to accommodate the changes made by others. This is important because there may be multiple workers making changes in parallel, and they need to be aware of each other's work to avoid conflicts and ensure a cohesive final product.";

/// What the role is for.
pub const AWAITER_DESCRIPTION: &'static str = "Use an `awaiter` agent EVERY TIME you must run a command that might take some time.\nThis includes, but is not limited to:\n* testing\n* monitoring of a long-running process\n* explicit ask to wait for something\n\nRules:\n- When you wait for the `awaiter` to be done, use the largest possible timeout.\n- Only use `awaiter` for commands that may take time.";

/// How an agent of a role is set up.
#[derive(Debug)]
pub struct AgentRoleConfig {
    pub description: Option<String>,
    pub config_file: Option<String>,
    pub model: Option<String>,
    pub spawn_mode: Option<String>,
    pub nickname_candidates: Option<Vec<String>>,
}

/// The roles that come with the program, in the order of their names.
#[derive(Clone, Copy, Debug, PartialEq, Eq, Structural)]
pub enum BuiltInRole {
    Awaiter,
    Default,
    Explorer,
    FastWorker,
    Worker,
}

impl BuiltInRole {
    /// The name of the role.
    pub open spec fn spec_name(self) -> Seq<char> {
        match self {
            BuiltInRole::Awaiter => "awaiter"@,
            BuiltInRole::Default => "default"@,
            BuiltInRole::Explorer => "explorer"@,
            BuiltInRole::FastWorker => "fast-worker"@,
            BuiltInRole::Worker => "worker"@,
        }
    }

    /// What the role is for.
    pub open spec fn spec_description(self) -> Seq<char> {
        match self {
            BuiltInRole::Awaiter => AWAITER_DESCRIPTION@,
            BuiltInRole::Default => DEFAULT_DESCRIPTION@,
            BuiltInRole::Explorer => EXPLORER_DESCRIPTION@,
            BuiltInRole::FastWorker => FAST_WORKER_DESCRIPTION@,
            BuiltInRole::Worker => WORKER_DESCRIPTION@,
        }
    }

    /// The file with the role's settings.
    pub open spec fn spec_config_file(self) -> Option<Seq<char>> {
        match self {
            BuiltInRole::Awaiter => Some("awaiter.toml"@),
            BuiltInRole::Explorer => Some("explorer.toml"@),
            _ => None,
        }
    }

    /// The name of the role.
    pub fn name(self) -> (result: &'static str)
        ensures
            result@ == self.spec_name(),
    {
        match self {
            BuiltInRole::Awaiter => "awaiter",
            BuiltInRole::Default => "default",
            BuiltInRole::Explorer => "explorer",
            BuiltInRole::FastWorker => "fast-worker",
            BuiltInRole::Worker => "worker",
        }
    }

    /// How an agent of the role is set up.
    pub fn config(self) -> (result: AgentRoleConfig)
        ensures
            opt_text(result.description) == Some(self.spec_description()),
            opt_text(result.config_file) == self.spec_config_file(),
            result.model is None,
            result.spawn_mode is None,
            result.nickname_candidates is None,
    {
        let description = match self {
            BuiltInRole::Awaiter => AWAITER_DESCRIPTION.to_owned(),
            BuiltInRole::Default => DEFAULT_DESCRIPTION.to_owned(),
            BuiltInRole::Explorer => EXPLORER_DESCRIPTION.to_owned(),
            BuiltInRole::FastWorker => FAST_WORKER_DESCRIPTION.to_owned(),
            BuiltInRole::Worker => WORKER_DESCRIPTION.to_owned(),
        };
        let config_file = match self {
            BuiltInRole::Awaiter => Some("awaiter.toml".to_owned()),
            BuiltInRole::Explorer => Some("explorer.toml".to_owned()),
            _ => None,
        };
        AgentRoleConfig {
            description: Some(description),
            config_file,
            model: None,
            spawn_mode: None,
            nickname_candidates: None,
        }
    }
}

/// The roles that come with the program, in the order of their names.
pub open spec fn all_roles() -> Seq<BuiltInRole> {
    seq![
        BuiltInRole::Awaiter,
        BuiltInRole::Default,
        BuiltInRole::Explorer,
        BuiltInRole::FastWorker,
        BuiltInRole::Worker,
    ]
}

/// An entry shows a role under its name.
pub open spec fn shows_role(entry: (String, AgentRoleConfig), role: BuiltInRole) -> bool {
    &&& entry.0@ == role.spec_name()
    &&& opt_text(entry.1.description) == Some(role.spec_description())
    &&& opt_text(entry.1.config_file) == role.spec_config_file()
    &&& entry.1.model is None
    &&& entry.1.spawn_mode is None
    &&& entry.1.nickname_candidates is None
}

/// The roles that come with the program, by name, in the order of the names.
pub fn configs() -> (result: Vec<(String, AgentRoleConfig)>)
    ensures
        result@.len() == all_roles().len(),
        forall|i: int|
            0 <= i < all_roles().len() ==> shows_role(#[trigger] result@[i], all_roles()[i]),
{
    let roles: [BuiltInRole; 5] = [
        BuiltInRole::Awaiter,
        BuiltInRole::Default,
        BuiltInRole::Explorer,
        BuiltInRole::FastWorker,
        BuiltInRole::Worker,
    ];
    assert(roles@ =~= all_roles());
    let mut result: Vec<(String, AgentRoleConfig)> = Vec::new();
    let mut i: usize = 0;
    while i < 5
        invariant
            i <= 5,
            roles@ == all_roles(),
            result@.len() == i,
            forall|j: int| 0 <= j < i ==> shows_role(#[trigger] result@[j], all_roles()[j]),
        decreases 5 - i,
    {
        let role = roles[i];
        assert(role == all_roles()[i as int]);
        result.push((role.name().to_owned(), role.config()));
        i += 1;
    }
    result
}

/// The roles stand in the order of their names, and no name occurs twice.
pub proof fn lemma_roles_in_order(i: int, j: int)
    requires
        0 <= i < j < all_roles().len(),
    ensures
        text_lt(all_roles()[i].spec_name(), all_roles()[j].spec_name()),
{
    reveal_strlit("awaiter");
    reveal_strlit("default");
    reveal_strlit("explorer");
    reveal_strlit("fast-worker");
    reveal_strlit("worker");
    assert("awaiter"@[0] == 'a');
    assert("default"@[0] == 'd');
    assert("explorer"@[0] == 'e');
    assert("fast-worker"@[0] == 'f');
    assert("worker"@[0] == 'w');
}

/// The settings files that come with the program.
#[derive(Clone, Copy, Debug, PartialEq, Eq, Structural)]
pub enum BuiltInRoleFile {
    Explorer,
    Awaiter,
}

/// The settings file that comes with the program under the given path.
pub fn config_file_contents(path: &str) -> (result: Option<BuiltInRoleFile>)
    ensures
        result == (if path@ == "explorer.toml"@ {
            Some(BuiltInRoleFile::Explorer)
        } else if path@ == "awaiter.toml"@ {
            Some(BuiltInRoleFile::Awaiter)
        } else {
            None
        }),
{
    if same_text(path, "explorer.toml") {
        Some(BuiltInRoleFile::Explorer)
    } else if same_text(path, "awaiter.toml") {
        Some(BuiltInRoleFile::Awaiter)
    } else {
        None
    }
}

/// Every settings file that a role names comes with the program.
pub proof fn lemma_role_files_exist(role: BuiltInRole)
    ensures
        role.spec_config_file() matches Some(path) ==> path == "explorer.toml"@ || path
            == "awaiter.toml"@,
{
}

/// Each role has its own name, and only the awaiter and the explorer have a
/// file with settings, which is called like the role.
pub proof fn lemma_names_and_files_of_roles(role: BuiltInRole)
    ensures
        BuiltInRole::Awaiter.spec_name() == "awaiter"@,
        BuiltInRole::Default.spec_name() == "default"@,
        BuiltInRole::Explorer.spec_name() == "explorer"@,
        BuiltInRole::FastWorker.spec_name() == "fast-worker"@,
        BuiltInRole::Worker.spec_name() == "worker"@,
        role.spec_config_file() is Some <==> role is Awaiter || role is Explorer,
        role.spec_config_file() matches Some(file) ==> file == role.spec_name() + ".toml"@,
        all_roles().contains(role),
{
    reveal_strlit("awaiter");
    reveal_strlit("awaiter.toml");
    reveal_strlit("explorer");
    reveal_strlit("explorer.toml");
    reveal_strlit(".toml");
    assert("awaiter.toml"@ =~= "awaiter"@ + ".toml"@);
    assert("explorer.toml"@ =~= "explorer"@ + ".toml"@);
    assert(all_roles()[0] is Awaiter);
    assert(all_roles()[1] is Default);
    assert(all_roles()[2] is Explorer);
    assert(all_roles()[3] is FastWorker);
    assert(all_roles()[4] is Worker);
}

} // verus!
