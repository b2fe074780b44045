use codex_agents::marketplaces::{
    bundled_marketplace_roots, bundled_plugins_root, bundled_resource_dirs,
    candidate_marketplace_roots, configured_candidates, marketplace_install_root,
    marketplace_roots, resolve_configured_marketplace_root, ExaminedRoot, MarketplaceConfig,
    MarketplacesConfig,
};
use codex_agents::path_style::PathStyle;
use codex_agents::paths::{
    path_file_name, path_join, path_parent, same_path, split_components, PathText,
};
use codex_agents::process_group::{
    begin_process_tree_kill, detach_from_tty, kill_child_process_group, kill_process_group,
    kill_process_group_by_pid,
    kill_process_tree_by_pid, kill_process_tree_without_listing,
    parent_pid_from_status, parse_pid, process_entry,
    set_parent_death_signal, set_process_group, terminate_process_group, tree_kill_way, CallOutcome,
    DeathSignalAction, DeathSignalProgress, DetachAction, GroupKillAction, GroupKillProgress,
    ProcessEntry, SystemKind, TerminateAction, TreeKillAction, TreeKillAnswer, TreeKillPlan, TreeKillState,
    TreeKillWay,
};
use codex_agents::sort::Ordered;
use codex_agents::skills_cwd::{skills_entry_for_cwd, SkillMetadata, SkillsListEntry};
use std::path::{Path, PathBuf};

const SLASH: PathStyle = PathStyle::Slash;
const WINDOWS: PathStyle = PathStyle::Windows;

const PATHS: [&str; 32] = [
    "", "/", "//", ".", "..", "a", "/a", "a/", "a/b", "/a/b/", "/a//b", "/a/./b", "./a", "a/.",
    "/a/..", "/..", "../a", "//a", "a/./", "/.", "./.", "a/../b", "a/./.", ".//a", "././a", "/./a",
    "a//", "./..", "...", "/a/./", "a/.//./b//", "C:/a",
];

#[test]
fn paths_behave_like_those_of_the_system() {
    for a in PATHS {
        let path = Path::new(a);
        assert_eq!(
            path_file_name(SLASH, a).as_deref(),
            path.file_name().and_then(|name| name.to_str()),
            "name of {a:?}"
        );
        let parent = path_parent(SLASH, a);
        assert_eq!(parent.is_some(), path.parent().is_some(), "parent of {a:?}");
        if let (Some(ours), Some(theirs)) = (&parent, path.parent()) {
            assert_eq!(ours.as_str(), theirs.to_str().expect("text"), "parent of {a:?}");
        }
        for b in PATHS {
            assert_eq!(same_path(SLASH, a, b), path == Path::new(b), "{a:?} and {b:?}");
            assert_eq!(
                PathBuf::from(path_join(SLASH, a, b)),
                path.join(b),
                "{a:?} joined with {b:?}"
            );
        }
    }
    assert_eq!(split_components(SLASH, "/a/./b").len(), split_components(SLASH, "/a/b").len());
}

#[test]
fn joined_paths_are_spelled_like_those_of_the_system() {
    for a in PATHS {
        for b in PATHS {
            assert_eq!(
                path_join(SLASH, a, b),
                Path::new(a).join(b).to_str().expect("text"),
                "{a:?} joined with {b:?}"
            );
        }
    }
}

#[test]
fn marketplaces_are_installed_below_the_home() {
    assert_eq!(marketplace_install_root(SLASH, "/home/codex"), "/home/codex/.tmp/marketplaces");
    assert_eq!(marketplace_install_root(SLASH, "/home/codex/"), "/home/codex/.tmp/marketplaces");
    assert_eq!(
        resolve_configured_marketplace_root(SLASH, "m", Some("git"), Some("/x"), "/root"),
        Some("/root/m".to_string())
    );
    assert_eq!(
        resolve_configured_marketplace_root(SLASH, "m", None, None, "/root"),
        Some("/root/m".to_string())
    );
    assert_eq!(
        resolve_configured_marketplace_root(SLASH, "m", Some("local"), Some("/x"), "/root"),
        Some("/x".to_string())
    );
    assert_eq!(resolve_configured_marketplace_root(SLASH, "m", Some("local"), Some(""), "/root"), None);
    assert_eq!(resolve_configured_marketplace_root(SLASH, "m", Some("local"), None, "/root"), None);
}

fn market(name: &str, is_table: bool, name_valid: bool, local: Option<&str>) -> MarketplaceConfig {
    MarketplaceConfig {
        name: name.to_string(),
        is_table,
        name_valid,
        source_type: local.map(|_| "local".to_string()),
        source: local.map(str::to_string),
    }
}

#[test]
fn only_usable_marketplaces_are_candidates() {
    let configs = vec![
        market("a", true, true, None),
        market("b", false, true, None),
        market("c", true, false, None),
        market("d", true, true, Some("/local")),
        market("e", true, true, Some("")),
    ];
    let expected = vec!["/h/.tmp/marketplaces/a".to_string(), "/local".to_string()];
    assert_eq!(candidate_marketplace_roots(SLASH, &configs, "/h"), expected);
    assert_eq!(configured_candidates(SLASH, &MarketplacesConfig::Table(configs), "/h"), expected);
    assert_eq!(configured_candidates(SLASH, &MarketplacesConfig::Absent, "/h").len(), 0);
    assert_eq!(configured_candidates(SLASH, &MarketplacesConfig::Invalid, "/h").len(), 0);
}

fn examined(has_manifest: bool, absolute: Option<&str>) -> ExaminedRoot {
    ExaminedRoot { has_manifest, absolute: absolute.map(str::to_string) }
}

#[test]
fn roots_with_a_manifest_are_sorted() {
    let roots = marketplace_roots(SLASH, &vec![
        examined(true, Some("/b")),
        examined(false, Some("/c")),
        examined(true, None),
        examined(true, Some("/a/z")),
        examined(true, Some("/a")),
    ]);
    let texts: Vec<&str> = roots.iter().map(|root| root.text.as_str()).collect();
    assert_eq!(texts, vec!["/a", "/a/z", "/b"]);
}

#[test]
fn bundled_plugins_are_looked_for_beside_the_program() {
    assert_eq!(
        bundled_resource_dirs(SLASH, Some("/x/CodexCustom.app/Contents/Resources/codex")),
        vec![
            "/x/CodexCustom.app/Contents/Resources",
            "/x/CodexCustom.app/Contents/Resources/codex-resources",
        ]
    );
    let launcher = bundled_resource_dirs(SLASH, Some("/x/CodexCustom.app/Contents/MacOS/Codex"));
    assert_eq!(
        launcher,
        vec![
            "/x/CodexCustom.app/Contents/Resources",
            "/x/CodexCustom.app/Contents/MacOS/codex-resources",
        ]
    );
    assert_eq!(bundled_resource_dirs(SLASH, None).len(), 0);
    assert_eq!(bundled_resource_dirs(SLASH, Some("/usr/bin/codex")), vec!["/usr/bin/codex-resources"]);
    assert_eq!(
        bundled_plugins_root(SLASH, &launcher, &vec![true, true]),
        Some("/x/CodexCustom.app/Contents/Resources/plugins".to_string())
    );
    assert_eq!(
        bundled_plugins_root(SLASH, &launcher, &vec![false, true]),
        Some("/x/CodexCustom.app/Contents/MacOS/codex-resources/plugins".to_string())
    );
    assert_eq!(bundled_plugins_root(SLASH, &launcher, &vec![false, false]), None);
    let roots = bundled_marketplace_roots(SLASH, &vec![
        (true, examined(true, Some("/p/openai-bundled"))),
        (false, examined(true, Some("/p/file"))),
        (true, examined(false, Some("/p/empty"))),
    ]);
    assert_eq!(roots.len(), 1);
    assert_eq!(roots[0].text, "/p/openai-bundled");
}

fn entry(cwd: &str, skill_name: &str) -> SkillsListEntry {
    SkillsListEntry {
        cwd: cwd.to_string(),
        normalized_cwd: None,
        skills: vec![SkillMetadata {
            name: skill_name.to_string(),
            description: format!("{skill_name} description"),
            short_description: None,
            path: format!("/skills/{skill_name}/SKILL.md"),
            enabled: true,
        }],
    }
}

#[test]
fn skills_entry_for_cwd_prefers_exact_match() {
    let entries = vec![entry("/tmp/other", "other"), entry("/tmp/project", "project")];

    let selected =
        skills_entry_for_cwd(SLASH, "/tmp/project", None, &entries).expect("expected exact cwd match");

    assert_eq!(selected.cwd, "/tmp/project");
    assert_eq!(selected.skills[0].name, "project");
}

#[test]
fn skills_entry_for_cwd_falls_back_to_single_entry_when_no_match_exists() {
    let entries = vec![entry("/srv/remote-project", "remote-only")];

    let selected = skills_entry_for_cwd(SLASH, "/work/local-project", None, &entries)
        .expect("expected sole entry fallback");

    assert_eq!(selected.cwd, "/srv/remote-project");
    assert_eq!(selected.skills[0].name, "remote-only");
}

#[test]
fn skills_entry_for_cwd_avoids_ambiguous_multi_entry_fallback() {
    let entries = vec![entry("/srv/project-a", "alpha"), entry("/srv/project-b", "beta")];

    let selected = skills_entry_for_cwd(SLASH, "/work/local-project", None, &entries);

    assert!(selected.is_none());
}

#[test]
fn skills_entry_matches_the_same_place_by_another_name() {
    let mut linked = entry("/link/project", "linked");
    linked.normalized_cwd = Some("/real/project".to_string());
    let entries = vec![entry("/srv/other", "other"), linked];
    let selected = skills_entry_for_cwd(SLASH, "/alias/project", Some("/real/project"), &entries)
        .expect("same place");
    assert_eq!(selected.skills[0].name, "linked");
    assert!(skills_entry_for_cwd(SLASH, "/alias/project", Some("/real/x"), &entries).is_none());
}

#[test]
fn orphans_end_themselves() {
    let step = |progress: DeathSignalProgress| set_parent_death_signal(SystemKind::Linux, 7, progress);
    assert_eq!(step(DeathSignalProgress::Start), DeathSignalAction::Request);
    assert_eq!(
        step(DeathSignalProgress::Requested(CallOutcome::Done)),
        DeathSignalAction::GetParent
    );
    assert_eq!(
        step(DeathSignalProgress::Requested(CallOutcome::Failed)),
        DeathSignalAction::Fail
    );
    assert_eq!(step(DeathSignalProgress::Parent(7)), DeathSignalAction::Succeed);
    assert_eq!(step(DeathSignalProgress::Parent(1)), DeathSignalAction::Raise);
}

#[test]
fn detaching_falls_back_to_a_group() {
    assert_eq!(detach_from_tty(SystemKind::OtherUnix, None, None), DetachAction::NewSession);
    assert_eq!(detach_from_tty(SystemKind::OtherUnix, Some(CallOutcome::Done), None), DetachAction::Succeed);
    assert_eq!(detach_from_tty(SystemKind::OtherUnix, Some(CallOutcome::NotPermitted), None), DetachAction::NewGroup);
    assert_eq!(
        detach_from_tty(SystemKind::OtherUnix, Some(CallOutcome::NotPermitted), Some(CallOutcome::Done)),
        DetachAction::Succeed
    );
    assert_eq!(detach_from_tty(SystemKind::OtherUnix, Some(CallOutcome::Failed), None), DetachAction::Fail);
    assert_eq!(set_process_group(SystemKind::OtherUnix, Some(CallOutcome::Failed)), DetachAction::Fail);
}

#[test]
fn signals_to_what_is_gone_succeed() {
    let end = |killed: Option<CallOutcome>| kill_process_group(SystemKind::OtherUnix, 9, killed);
    assert_eq!(end(None), GroupKillAction::KillGroup(9));
    assert_eq!(end(Some(CallOutcome::Done)), GroupKillAction::Succeed);
    assert_eq!(end(Some(CallOutcome::NotFound)), GroupKillAction::Succeed);
    assert_eq!(end(Some(CallOutcome::Failed)), GroupKillAction::Fail(CallOutcome::Failed));
    let ask = |asked: Option<CallOutcome>| terminate_process_group(SystemKind::Linux, 9, asked);
    assert_eq!(ask(None), TerminateAction::Signal(9));
    assert_eq!(ask(Some(CallOutcome::Done)), TerminateAction::Return(true));
    assert_eq!(ask(Some(CallOutcome::NotFound)), TerminateAction::Return(false));
    assert_eq!(
        ask(Some(CallOutcome::NotPermitted)),
        TerminateAction::Fail(CallOutcome::NotPermitted)
    );
    assert_eq!(
        kill_process_group_by_pid(SystemKind::OtherUnix, 5, GroupKillProgress::Start),
        GroupKillAction::GetGroup(5)
    );
    assert_eq!(
        kill_process_group_by_pid(SystemKind::OtherUnix, 5, GroupKillProgress::Group(Ok(3))),
        GroupKillAction::KillGroup(3)
    );
    assert_eq!(
        kill_process_group_by_pid(SystemKind::OtherUnix, 5, GroupKillProgress::Group(Err(CallOutcome::NotFound))),
        GroupKillAction::Succeed
    );
    assert_eq!(
        kill_process_group_by_pid(SystemKind::OtherUnix, 5, GroupKillProgress::Killed(CallOutcome::Failed)),
        GroupKillAction::Fail(CallOutcome::Failed)
    );
    assert_eq!(
        kill_child_process_group(SystemKind::OtherUnix, None, GroupKillProgress::Start),
        GroupKillAction::Succeed
    );
}

#[test]
fn process_listings_are_read() {
    for text in ["0", "17", "2147483647", "+5", "-3", "-0", "-2147483648"] {
        assert_eq!(parse_pid(text), text.parse::<i32>().ok(), "{text}");
    }
    for text in ["", "+", "-", "x", "1x", " 1", "2147483648", "-2147483649", "99999999999"] {
        assert_eq!(parse_pid(text), None, "{text}");
    }
    let status = "Name:\tsh\nPid:\t10\nPPid:\t7\nTracerPid:\t0\n";
    assert_eq!(parent_pid_from_status(status), Some(7));
    assert_eq!(parent_pid_from_status("Name:\tsh\n"), None);
    assert_eq!(
        process_entry("10", Some(status)).map(|entry| (entry.pid, entry.parent_pid)),
        Some((10, 7))
    );
    assert!(process_entry("self", Some(status)).is_none());
    assert!(process_entry("10", None).is_none());
}

#[test]
fn whole_process_trees_are_ended() {
    let entry = |pid: i32, parent_pid: i32| ProcessEntry { pid, parent_pid };
    let plan = kill_process_tree_by_pid(
        10,
        &vec![entry(11, 10), entry(12, 11), entry(13, 10), entry(20, 1)],
    );
    assert_eq!(plan.root, 10);
    assert_eq!(plan.descendants, vec![12, 13, 11]);
    assert_eq!(plan.tree.len(), 4);
    assert_eq!(plan.group_to_kill(Some(10)), Some(10));
    assert_eq!(plan.group_to_kill(Some(99)), None);
    assert_eq!(plan.group_to_kill(None), None);
}

fn end_tree(
    plan: &TreeKillPlan,
    group_of: impl Fn(i32) -> Option<i32>,
    signalled: CallOutcome,
) -> Vec<TreeKillAction> {
    let mut actions = Vec::new();
    let mut state = TreeKillState::Start;
    let mut answer = TreeKillAnswer::Nothing;
    loop {
        let (next, action) = plan.kill_step(state, answer);
        actions.push(action);
        answer = match action {
            TreeKillAction::GetGroup(pid) => TreeKillAnswer::Group(group_of(pid)),
            _ => TreeKillAnswer::Signalled(signalled),
        };
        match next {
            Some(next) => state = next,
            None => return actions,
        }
    }
}

#[test]
fn process_trees_are_ended_from_the_leaves() {
    let entry = |pid: i32, parent_pid: i32| ProcessEntry { pid, parent_pid };
    let plan = begin_process_tree_kill(
        10,
        Ok(vec![entry(11, 10), entry(12, 11), entry(20, 1)]),
    )
    .expect("the processes are listed");
    assert_eq!(plan.descendants, vec![12, 11]);
    // One descendant has a group of its own, the other that of an outsider.
    let group_of = |pid: i32| if pid == 12 { Some(12) } else { Some(7) };
    let expected = vec![
        TreeKillAction::GetGroup(12),
        TreeKillAction::EndGroup(12),
        TreeKillAction::End(12),
        TreeKillAction::GetGroup(11),
        TreeKillAction::End(11),
        TreeKillAction::GetGroup(10),
        TreeKillAction::EndGroup(7),
        TreeKillAction::End(10),
        TreeKillAction::Succeed,
    ];
    assert_eq!(end_tree(&plan, group_of, CallOutcome::Done), expected);
    assert_eq!(end_tree(&plan, group_of, CallOutcome::NotPermitted), expected);
    assert_eq!(
        end_tree(&plan, |_| None, CallOutcome::Done),
        vec![
            TreeKillAction::GetGroup(12),
            TreeKillAction::End(12),
            TreeKillAction::GetGroup(11),
            TreeKillAction::End(11),
            TreeKillAction::GetGroup(10),
            TreeKillAction::End(10),
            TreeKillAction::Succeed,
        ]
    );
}

#[test]
fn process_trees_that_cannot_be_listed_are_left_alone() {
    assert!(matches!(
        begin_process_tree_kill(10, Err(CallOutcome::NotFound)),
        Err(CallOutcome::NotFound)
    ));
    let alone = begin_process_tree_kill(10, Ok(vec![])).expect("the processes are listed");
    assert_eq!(
        end_tree(&alone, |_| Some(10), CallOutcome::Done),
        vec![
            TreeKillAction::GetGroup(10),
            TreeKillAction::EndGroup(10),
            TreeKillAction::End(10),
            TreeKillAction::Succeed,
        ]
    );
}

#[test]
fn windows_paths_have_names_and_parents() {
    let name = |path: &str| path_file_name(WINDOWS, path);
    let up = |path: &str| path_parent(WINDOWS, path);
    let text = |text: &str| Some(text.to_string());
    assert_eq!(name(r"C:\Users\me\project"), text("project"));
    assert_eq!(name(r"C:/Users/me/project/"), text("project"));
    assert_eq!(name(r"C:project"), text("project"));
    assert_eq!(name(r"\\server\share\project"), text("project"));
    assert_eq!(name(r"\\?\C:\a\b/c"), text("b/c"));
    for path in [r"C:\", "C:", r"\\server\share", r"\\.\COM42", r"\", r"..\..", r"C:\a\.."] {
        assert_eq!(name(path), None, "{path}");
    }
    assert_eq!(up(r"C:\a\b"), text(r"C:\a"));
    assert_eq!(up(r"C:\a"), text(r"C:\"));
    assert_eq!(up(r"C:a"), text("C:"));
    assert_eq!(up(r"a\b"), text("a"));
    assert_eq!(up(r"\\server\share\a"), text(r"\\server\share\"));
    for path in [r"C:\", "C:", r"\\server\share", r"\", ""] {
        assert_eq!(up(path), None, "{path}");
    }
    assert_eq!(path_file_name(SLASH, r"C:\a"), text(r"C:\a"));
}

#[test]
fn windows_paths_are_joined_with_backslashes() {
    for (base, rest, expected) in [
        (r"C:\a", "b", r"C:\a\b"),
        (r"C:\a\", "b", r"C:\a\b"),
        (r"C:/a", "b", r"C:/a\b"),
        ("C:", "b", "C:b"),
        (r"C:\a", r"\b", r"C:\b"),
        (r"C:\a", r"D:\b", r"D:\b"),
        (r"C:\a", "D:b", "D:b"),
        (r"C:\a", r"\\server\share\b", r"\\server\share\b"),
        (r"\\server\share", "b", r"\\server\share\b"),
        (r"\\server\share\a", r"\b", r"\\server\share\b"),
        ("a", "b", r"a\b"),
        ("", "b", "b"),
        (r"\\?\C:\a", "b", r"\\?\C:\a\b"),
        (r"\\?\C:\a", r"..\b\.\c", r"\\?\C:\b\c"),
        (r"\\?\C:\a", "../b", r"\\?\C:\b"),
        (r"\\?\C:\a", "..", r"\\?\C:\"),
        (r"\\?\C:\a", r"\b", r"\\?\C:\b"),
        (r"\\?\C:", "b", r"\\?\C:\b"),
        (r"\\?\UNC\server\share\a", "b", r"\\?\UNC\server\share\a\b"),
    ] {
        assert_eq!(path_join(WINDOWS, base, rest), expected, "{base} and {rest}");
    }
    assert_eq!(
        marketplace_install_root(WINDOWS, r"C:\codex"),
        r"C:\codex\.tmp/marketplaces"
    );
    assert_eq!(
        bundled_resource_dirs(WINDOWS, Some(r"C:\app\codex.exe")),
        vec![r"C:\app\codex-resources".to_string()]
    );
}

#[test]
fn windows_paths_are_the_same_by_their_components() {
    let same = |a: &str, b: &str| same_path(WINDOWS, a, b);
    assert!(same(r"C:\a\b", "c:/a/./b/"));
    assert!(same(r"\\server\share", r"\\server\share\"));
    assert!(!same(r"C:a", r"C:\a"));
    assert!(!same(r"C:\a", r"\\?\C:\a"));
    assert!(!same(r"C:\a", r"C:\A"));
    assert!(!same_path(SLASH, r"C:\a", "C:/a"));
    let entries = vec![entry(r"C:\work", "one"), entry(r"D:\work", "two")];
    let found = skills_entry_for_cwd(WINDOWS, "d:/work", None, &entries).expect("the same path");
    assert_eq!(found.cwd, r"D:\work");
    let kinds = [r"\\?\a", r"\\?\UNC\a\b", r"\\?\C:", r"\\.\a", r"\\a\b", "C:", r"\a", "a"];
    let rank = |text: &str| PathText { style: WINDOWS, text: text.to_string() };
    for (i, a) in kinds.iter().enumerate() {
        for (j, b) in kinds.iter().enumerate() {
            assert_eq!(rank(a).comes_before(&rank(b)), i < j, "{a} and {b}");
        }
    }
}

fn end_group(
    step: impl Fn(GroupKillProgress) -> GroupKillAction,
    group: Result<i32, CallOutcome>,
    killed: CallOutcome,
) -> Vec<GroupKillAction> {
    let mut actions = Vec::new();
    let mut progress = GroupKillProgress::Start;
    loop {
        let action = step(progress);
        actions.push(action);
        progress = match action {
            GroupKillAction::GetGroup(_) => GroupKillProgress::Group(group),
            GroupKillAction::KillGroup(_) => GroupKillProgress::Killed(killed),
            GroupKillAction::Succeed | GroupKillAction::Fail(_) => return actions,
        };
    }
}

#[test]
fn process_trees_fall_back_to_groups_where_they_are_not_listed() {
    assert_eq!(tree_kill_way(SystemKind::Linux), TreeKillWay::Tree);
    assert_eq!(tree_kill_way(SystemKind::OtherUnix), TreeKillWay::Group);
    assert_eq!(tree_kill_way(SystemKind::NotUnix), TreeKillWay::Nothing);
    assert!(kill_process_tree_without_listing(SystemKind::Linux, 7, GroupKillProgress::Start)
        .is_none());
    for system in [SystemKind::OtherUnix, SystemKind::NotUnix] {
        for group in [Ok(9), Err(CallOutcome::NotFound), Err(CallOutcome::NotPermitted)] {
            for killed in [CallOutcome::Done, CallOutcome::NotFound, CallOutcome::Failed] {
                let tree = end_group(
                    |progress| {
                        kill_process_tree_without_listing(system, 7, progress)
                            .expect("the tree is not listed")
                    },
                    group,
                    killed,
                );
                let alone = end_group(
                    |progress| kill_process_group_by_pid(system, 7, progress),
                    group,
                    killed,
                );
                assert_eq!(tree, alone);
            }
        }
    }
    assert_eq!(
        end_group(
            |progress| kill_process_group_by_pid(SystemKind::OtherUnix, 7, progress),
            Ok(9),
            CallOutcome::Done
        ),
        vec![
            GroupKillAction::GetGroup(7),
            GroupKillAction::KillGroup(9),
            GroupKillAction::Succeed
        ]
    );
    assert_eq!(
        end_group(
            |progress| kill_process_group_by_pid(SystemKind::NotUnix, 7, progress),
            Ok(9),
            CallOutcome::Failed
        ),
        vec![GroupKillAction::Succeed]
    );
}

#[test]
fn systems_without_groups_leave_processes_alone() {
    let other = SystemKind::NotUnix;
    for system in [SystemKind::OtherUnix, other] {
        assert_eq!(
            set_parent_death_signal(system, 7, DeathSignalProgress::Start),
            DeathSignalAction::Succeed
        );
    }
    assert_eq!(detach_from_tty(other, None, None), DetachAction::Succeed);
    assert_eq!(set_process_group(other, None), DetachAction::Succeed);
    assert_eq!(kill_process_group(other, 9, None), GroupKillAction::Succeed);
    assert_eq!(terminate_process_group(other, 9, None), TerminateAction::Return(false));
    assert_eq!(
        kill_child_process_group(other, Some(9), GroupKillProgress::Start),
        GroupKillAction::Succeed
    );
}
