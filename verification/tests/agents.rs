use codex_agents::agent::{
    agent_matches_prefix, agent_metadata_from_thread_spawn_source, is_final, thread_spawn_depth,
    AgentMetadata, AgentPath, AgentStatus, SessionSource, ThreadId,
};
use codex_agents::built_in_roles::{config_file_contents, configs, BuiltInRoleFile};
use codex_agents::control::{
    ensure_agent_known, ensure_agent_target_in_current_tree,
    environment_context_subagents, get_status, inherited_environments_for_source,
    inherited_exec_policy_for_source, list_live_agent_subtree_thread_ids,
    live_thread_spawn_agents_for_current_tree, live_thread_spawn_descendants,
    open_thread_spawn_children, persist_thread_spawn_edge_for_source, prepare_thread_spawn,
    register_session_root, resolve_agent_reference, ControlError, PersistPlan,
};
use codex_agents::live_agents::{
    list_agents, live_thread_spawn_children, LiveSpawnEdge, LoadedAgent,
};
use codex_agents::spawn_record::{RecordPhase, SpawnRecord, StoreAnswer, StoreRequest};
use codex_agents::tree::{
    current_root_thread_id, remove_thread_spawn_descendants, Child, ChildrenByParent,
};
use std::collections::HashMap;

fn id(bits: u128) -> ThreadId {
    ThreadId { bits }
}

fn path(text: &str) -> AgentPath {
    AgentPath::from_text(text).expect("valid path")
}

fn meta(agent_path: Option<&str>) -> AgentMetadata {
    AgentMetadata { agent_path: agent_path.map(path), ..AgentMetadata::default() }
}

fn spawned(parent: u128) -> SessionSource {
    SessionSource::ThreadSpawn {
        parent_thread_id: id(parent),
        depth: 2,
        agent_path: Some(path("/root/a")),
        agent_nickname: Some("Nick".to_string()),
        agent_role: Some("worker".to_string()),
    }
}

fn family() -> ChildrenByParent {
    let mut children = HashMap::new();
    children.insert(1, vec![(id(2), meta(Some("/root/a"))), (id(3), meta(Some("/root/b")))]);
    children.insert(2, vec![(id(4), meta(Some("/root/a/c")))]);
    children.insert(9, vec![(id(10), meta(Some("/root/z")))]);
    children
}

fn ids(children: &[Child]) -> Vec<u128> {
    children.iter().map(|child| child.0.bits).collect()
}

#[test]
fn thread_ids_are_written_as_uuids() {
    for bits in [0, 1, u128::MAX, 0xb5f6c1c2_1111_2222_3333_444455556666] {
        assert_eq!(id(bits).to_text(), uuid::Uuid::from_u128(bits).to_string());
    }
}

#[test]
fn agent_paths_have_names_and_parents() {
    assert!(AgentPath::root().is_root());
    assert_eq!(AgentPath::root().as_str(), "/root");
    let review = path("/root/dispatcher/review");
    assert_eq!(review.name(), "review");
    let parent = review.parent().expect("parent");
    assert_eq!(parent.as_str(), "/root/dispatcher");
    assert!(parent.parent().expect("root").is_root());
    assert!(AgentPath::root().parent().is_none());
    assert!(review.within(&parent) && !parent.within(&review));
    assert!(!path("/root/dispatcher_b").within(&parent));
    assert!(review.same(&path("/root/dispatcher/review")));
    assert!(AgentPath::from_text("root").is_none());
    assert!(AgentPath::from_text("/rooted").is_none());
    assert!(AgentPath::from_text("/root/").is_none());
}

#[test]
fn final_statuses_are_over() {
    let over = [
        AgentStatus::Completed(None),
        AgentStatus::Errored("x".to_string()),
        AgentStatus::Shutdown,
        AgentStatus::NotFound,
    ];
    for status in &over {
        assert!(is_final(status), "{status:?}");
    }
    for status in [AgentStatus::PendingInit, AgentStatus::Running, AgentStatus::Interrupted] {
        assert!(!is_final(&status), "{status:?}");
    }
}

#[test]
fn spawn_sources_say_what_is_known() {
    assert_eq!(thread_spawn_depth(&spawned(1)), Some(2));
    assert_eq!(thread_spawn_depth(&SessionSource::Other), None);
    assert_eq!(spawned(1).parent_thread_id(), Some(id(1)));
    assert_eq!(SessionSource::Other.agent_path_or_root().as_str(), "/root");
    let metadata = agent_metadata_from_thread_spawn_source(id(5), id(1), &spawned(1));
    assert_eq!(metadata.agent_id, Some(id(5)));
    assert_eq!(metadata.parent_thread_id, Some(id(1)));
    assert_eq!(metadata.agent_path.expect("path").as_str(), "/root/a");
    assert_eq!(metadata.agent_nickname.as_deref(), Some("Nick"));
    assert_eq!(inherited_environments_for_source(Some(&spawned(7))), Some(id(7)));
    assert_eq!(inherited_environments_for_source(None), None);
    assert_eq!(inherited_exec_policy_for_source(Some(&spawned(7)), Some(true)), Some(id(7)));
    assert_eq!(inherited_exec_policy_for_source(Some(&spawned(7)), Some(false)), None);
    assert_eq!(inherited_exec_policy_for_source(Some(&SessionSource::Other), Some(true)), None);
}

#[test]
fn prefixes_match_whole_segments() {
    let a = path("/root/a");
    assert!(agent_matches_prefix(Some(&path("/root/a/b")), &a));
    assert!(agent_matches_prefix(Some(&a), &a));
    assert!(!agent_matches_prefix(Some(&path("/root/ab")), &a));
    assert!(!agent_matches_prefix(None, &a));
    assert!(agent_matches_prefix(None, &AgentPath::root()));
}

#[test]
fn root_is_found_by_climbing() {
    assert_eq!(current_root_thread_id(id(4), &spawned(2), &family()), id(1));
    assert_eq!(current_root_thread_id(id(1), &SessionSource::Other, &family()), id(1));
    let mut cycle: ChildrenByParent = HashMap::new();
    cycle.insert(1, vec![(id(2), meta(None))]);
    cycle.insert(2, vec![(id(1), meta(None))]);
    let root = current_root_thread_id(id(1), &spawned(2), &cycle);
    assert!(root == id(1) || root == id(2));
}

#[test]
fn descendants_leave_the_tree_once() {
    let mut children = family();
    let removed = remove_thread_spawn_descendants(&mut children, id(1));
    let mut seen = ids(&removed);
    seen.sort();
    assert_eq!(seen, vec![2, 3, 4]);
    assert_eq!(children.len(), 1);
    let (root, live) = live_thread_spawn_agents_for_current_tree(id(4), &spawned(2), family());
    assert_eq!(root, id(1));
    assert_eq!(live.len(), 3);
    let mut below: Vec<u128> =
        live_thread_spawn_descendants(id(2), family()).iter().map(|id| id.bits).collect();
    below.sort();
    assert_eq!(below, vec![4]);
    let mut subtree: Vec<u128> =
        list_live_agent_subtree_thread_ids(id(2), family()).iter().map(|id| id.bits).collect();
    subtree.sort();
    assert_eq!(subtree, vec![2, 4]);
    assert_eq!(ids(&open_thread_spawn_children(id(1), family())), vec![2, 3]);
    assert_eq!(open_thread_spawn_children(id(8), family()).len(), 0);
}

#[test]
fn references_resolve_within_the_tree() {
    let live = vec![(id(2), meta(Some("/root/a"))), (id(3), meta(None))];
    assert!(matches!(
        resolve_agent_reference(id(1), &live, &path("/root/a")),
        Ok(found) if found == id(2)
    ));
    assert!(matches!(
        resolve_agent_reference(id(1), &live, &AgentPath::root()),
        Ok(found) if found == id(1)
    ));
    assert!(matches!(
        resolve_agent_reference(id(1), &live, &path("/root/x")),
        Err(ControlError::UnsupportedOperation(message)) if message.contains("/root/x")
    ));
    assert!(ensure_agent_target_in_current_tree(id(1), &live, id(3)).is_ok());
    assert!(ensure_agent_target_in_current_tree(id(1), &live, id(1)).is_ok());
    assert!(ensure_agent_target_in_current_tree(id(1), &live, id(9)).is_err());
    assert!(matches!(
        ensure_agent_known(id(9), None),
        Err(ControlError::ThreadNotFound(missing)) if missing == id(9)
    ));
    assert!(ensure_agent_known(id(2), Some(meta(None))).is_ok());
    assert!(matches!(get_status(None), AgentStatus::NotFound));
    assert!(matches!(get_status(Some(AgentStatus::Running)), AgentStatus::Running));
}

#[test]
fn subagents_are_named_for_the_context() {
    let mut nicknamed = meta(Some("/root/a"));
    nicknamed.agent_nickname = Some("Nick".to_string());
    let named = environment_context_subagents(&vec![(id(2), nicknamed), (id(3), meta(None))]);
    assert_eq!(named[0], ("a".to_string(), Some("Nick".to_string())));
    assert_eq!(named[1], (id(3).to_text(), None));
}

#[test]
fn spawns_carry_the_reserved_name() {
    let prepared = prepare_thread_spawn(
        id(1),
        1,
        Some(path("/root/a")),
        Some("worker".to_string()),
        "Nick".to_string(),
    );
    assert_eq!(prepared.metadata.agent_nickname.as_deref(), Some("Nick"));
    assert_eq!(prepared.session_source.parent_thread_id(), Some(id(1)));
    assert!(prepared.register_root);
    assert!(!prepare_thread_spawn(id(1), 2, None, None, "N".to_string()).register_root);
    assert!(register_session_root(None));
    assert!(!register_session_root(Some(id(1))));
}

#[test]
fn spawn_edges_are_persisted_where_there_is_a_store() {
    assert!(matches!(
        persist_thread_spawn_edge_for_source(id(2), Some(&spawned(1)), false, true),
        PersistPlan::Upsert(record)
            if record.parent_thread_id == id(1) && record.child_thread_id == id(2)
    ));
    assert!(matches!(
        persist_thread_spawn_edge_for_source(id(2), Some(&spawned(1)), true, true),
        PersistPlan::Nothing
    ));
    assert!(matches!(
        persist_thread_spawn_edge_for_source(id(2), Some(&spawned(1)), false, false),
        PersistPlan::Nothing
    ));
    assert!(matches!(
        persist_thread_spawn_edge_for_source(id(2), Some(&SessionSource::Other), false, true),
        PersistPlan::Nothing
    ));
}

fn requests(record: &SpawnRecord, answer: impl Fn(StoreRequest) -> StoreAnswer) -> Vec<StoreRequest> {
    let mut asked = Vec::new();
    let (mut phase, mut request) = record.begin();
    loop {
        asked.push(request);
        if matches!(phase, RecordPhase::Finished) {
            return asked;
        }
        let (next, next_request) = record.step(phase, answer(request));
        phase = next;
        request = next_request;
    }
}

fn recorded(agent_path: Option<&str>) -> SpawnRecord {
    SpawnRecord {
        parent_thread_id: id(1),
        child_thread_id: id(2),
        agent_path: agent_path.map(path),
    }
}

const RECORD: StoreRequest = StoreRequest::RecordOpen {
    parent_thread_id: ThreadId { bits: 1 },
    child_thread_id: ThreadId { bits: 2 },
};
const LIST: StoreRequest = StoreRequest::ListOpen { parent_thread_id: ThreadId { bits: 1 } };

#[test]
fn spawns_replace_the_ones_under_the_same_path() {
    let found = |text: &str| StoreAnswer::Found(Some(text.to_string()));
    let answer = |can_close: bool| {
        move |request: StoreRequest| match request {
            StoreRequest::RecordOpen { .. } => StoreAnswer::Recorded(true),
            StoreRequest::ListOpen { .. } => {
                StoreAnswer::Listed(Some(vec![id(2), id(3), id(4), id(5), id(2), id(6), id(7)]))
            }
            StoreRequest::ReadStored(thread) if thread == id(4) => StoreAnswer::Unreadable,
            StoreRequest::ReadStored(thread) if thread == id(5) => found("/root/b"),
            StoreRequest::ReadStored(thread) if thread == id(6) => StoreAnswer::Found(None),
            StoreRequest::ReadStored(_) => found("/root/a"),
            StoreRequest::CloseSpawn(_) | StoreRequest::Nothing => StoreAnswer::Closed(can_close),
        }
    };
    let expected = vec![
        RECORD,
        LIST,
        StoreRequest::ReadStored(id(3)),
        StoreRequest::CloseSpawn(id(3)),
        StoreRequest::ReadStored(id(4)),
        StoreRequest::ReadStored(id(5)),
        StoreRequest::ReadStored(id(6)),
        StoreRequest::ReadStored(id(7)),
        StoreRequest::CloseSpawn(id(7)),
        StoreRequest::Nothing,
    ];
    assert_eq!(requests(&recorded(Some("/root/a")), answer(true)), expected);
    assert_eq!(requests(&recorded(Some("/root/a")), answer(false)), expected);
    assert_eq!(requests(&recorded(None), answer(true)), vec![RECORD, StoreRequest::Nothing]);
}

#[test]
fn spawns_that_cannot_be_recorded_replace_none() {
    let record = recorded(Some("/root/a"));
    assert_eq!(
        requests(&record, |_| StoreAnswer::Recorded(false)),
        vec![RECORD, StoreRequest::Nothing]
    );
    let unlisted = |request: StoreRequest| match request {
        StoreRequest::RecordOpen { .. } => StoreAnswer::Recorded(true),
        _ => StoreAnswer::Listed(None),
    };
    assert_eq!(requests(&record, unlisted), vec![RECORD, LIST, StoreRequest::Nothing]);
}

#[test]
fn live_edges_fill_what_the_registry_lacks() {
    let mut registered: ChildrenByParent = HashMap::new();
    registered.insert(1, vec![(id(3), meta(Some("/root/b")))]);
    let edges = vec![
        LiveSpawnEdge {
            parent_thread_id: id(1),
            child_thread_id: id(2),
            registered: None,
            loaded_source: Some(spawned(1)),
        },
        LiveSpawnEdge {
            parent_thread_id: id(1),
            child_thread_id: id(3),
            registered: Some(meta(Some("/root/b"))),
            loaded_source: None,
        },
    ];
    let children = live_thread_spawn_children(registered, &edges);
    assert_eq!(ids(&children[&1]), vec![2, 3]);
}

#[test]
fn agents_are_listed_by_path() {
    let live = vec![
        (id(3), meta(Some("/root/b"))),
        (id(2), meta(Some("/root/a"))),
        (id(4), meta(Some("/root/a/c"))),
    ];
    let mut loaded = HashMap::new();
    for bits in [1, 2, 3, 4] {
        loaded.insert(
            bits,
            LoadedAgent { status: AgentStatus::Running, history_task_message: None },
        );
    }
    let names = |prefix: Option<&AgentPath>| -> Vec<String> {
        list_agents(id(1), live.clone(), prefix, &loaded)
            .into_iter()
            .map(|agent| agent.agent_name)
            .collect()
    };
    assert_eq!(names(None), vec!["/root", "/root/a", "/root/a/c", "/root/b"]);
    assert_eq!(names(Some(&path("/root/a"))), vec!["/root/a", "/root/a/c"]);
    let all = list_agents(id(1), live.clone(), None, &loaded);
    assert_eq!(all[0].last_task_message.as_deref(), Some("Main thread"));
    assert_eq!(all[0].agent_id, id(1).to_text());
}

#[test]
fn built_in_roles_are_sorted_and_backed() {
    let roles = configs();
    let names: Vec<&str> = roles.iter().map(|role| role.0.as_str()).collect();
    let mut sorted = names.clone();
    sorted.sort();
    assert_eq!(names, sorted);
    for (name, config) in &roles {
        if let Some(file) = &config.config_file {
            assert!(config_file_contents(file).is_some(), "{name}");
        }
    }
    assert_eq!(config_file_contents("awaiter.toml"), Some(BuiltInRoleFile::Awaiter));
    assert_eq!(config_file_contents("nothing.toml"), None);
}
