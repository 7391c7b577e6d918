use fujin::host::{current_session, HostCall, SessionInfo};
use fujin::persistence::{
    descend, fnv1a, guest_path, next_ancestor, path_components, reconcile, same_path, store_dir,
    tmp_rel, valid_internal_id, validate_index, SessionEntry, SessionIndex, Store,
};
use fujin::state::State;
use fujin::store::{FolderStep, IndexAction};

fn path(text: &str) -> Vec<String> {
    text.split('/').filter(|p| !p.is_empty()).map(|p| p.to_string()).collect()
}

fn index(revision: u64, sessions: &[(&str, &str)]) -> SessionIndex {
    SessionIndex {
        version: 1,
        revision,
        sessions: sessions
            .iter()
            .map(|(id, name)| SessionEntry {
                id: id.to_string(),
                name: name.to_string(),
                last_seen: 5,
            })
            .collect(),
    }
}

fn names(index: &SessionIndex) -> Vec<(String, String)> {
    index.sessions.iter().map(|s| (s.id.clone(), s.name.clone())).collect()
}

fn folders(state: &State) -> Vec<Vec<String>> {
    state
        .calls
        .iter()
        .filter_map(|call| match call {
            HostCall::ChangeHostFolder(path) => Some(path.clone()),
            _ => None,
        })
        .collect()
}

// --- paths ---

#[test]
fn the_store_lies_under_the_configuration() {
    assert_eq!(store_dir(Some("/x/cfg"), Some("/home/me")), Some(path("/x/cfg/fujin")));
    assert_eq!(store_dir(None, Some("/home/me")), Some(path("/home/me/.config/fujin")));
    // A relative path counts as not set.
    assert_eq!(store_dir(Some("cfg"), Some("/home/me")), Some(path("/home/me/.config/fujin")));
    assert_eq!(store_dir(Some(""), None), None);
    assert_eq!(store_dir(None, None), None);
}

#[test]
fn a_missing_store_is_looked_for_further_up() {
    let target = path("/home/me/.config/fujin");
    assert_eq!(next_ancestor(&target, &target), Some(path("/home/me/.config")));
    assert_eq!(next_ancestor(&target, &path("/home/me/.config")), Some(path("/home/me")));
    assert_eq!(next_ancestor(&target, &path("/home/me")), Some(path("/home")));
    assert_eq!(next_ancestor(&target, &path("/home")), None);
    assert_eq!(next_ancestor(&target, &path("/other")), None);
    assert_eq!(descend(&target, &path("/home/me")), Some(path("host/.config/fujin")));
    assert_eq!(descend(&target, &target), None);
    assert_eq!(descend(&target, &path("/other")), None);
    assert!(same_path(&target, &path("/home/me/.config/fujin")));
    assert!(!same_path(&target, &path("/home/me")));
}

#[test]
fn files_stay_inside_the_store() {
    assert_eq!(guest_path("session_index.toml"), Some(path("host/session_index.toml")));
    assert_eq!(guest_path("sessions/1/state.toml"), Some(path("host/sessions/1/state.toml")));
    assert_eq!(guest_path("../outside"), None);
    assert_eq!(guest_path("a/../../b"), None);
    assert_eq!(guest_path("/etc/passwd"), None);
    assert_eq!(guest_path(""), None);
}

#[test]
fn a_file_is_written_under_a_name_of_its_own_first() {
    // The hash of no bytes and of a known text.
    assert_eq!(fnv1a(b""), 0xcbf29ce484222325);
    assert_eq!(fnv1a(b"a"), 0xaf63dc4c8601ec8c);
    assert_eq!(
        tmp_rel("sessions/1/state.toml", 7, "a"),
        "sessions/.tmp/af63dc4c8601ec8c-7-sessions_1_state.toml"
    );
    assert_ne!(tmp_rel("x", 7, "one"), tmp_rel("x", 7, "two"));
    assert_ne!(tmp_rel("x", 7, "one"), tmp_rel("x", 8, "one"));
}

// --- opening ---

#[test]
fn the_store_opens_where_it_is() {
    let mut state = State::default();
    state.open_store(None, Some("/home/me"));
    let target = path("/home/me/.config/fujin");
    assert_eq!(folders(&state), vec![target.clone()]);
    assert!(matches!(state.on_host_folder_changed(&target), FolderStep::Opened));
    assert!(matches!(state.disk.store, Store::Ready));
    // It is opened once.
    state.open_store(None, Some("/home/me"));
    assert_eq!(folders(&state).len(), 1);
}

#[test]
fn a_missing_store_is_made() {
    let mut state = State::default();
    state.open_store(None, Some("/home/me"));
    state.on_host_folder_failed();
    assert_eq!(folders(&state).last(), Some(&path("/home/me/.config")));
    match state.on_host_folder_changed(&path("/home/me/.config")) {
        FolderStep::Make(folder) => assert_eq!(folder, path("host/fujin")),
        other => panic!("{:?}", other),
    }
    state.store_made(true);
    assert_eq!(folders(&state).last(), Some(&path("/home/me/.config/fujin")));
    assert!(matches!(
        state.on_host_folder_changed(&path("/home/me/.config/fujin")),
        FolderStep::Opened
    ));
}

#[test]
fn without_a_place_there_is_no_store() {
    let mut state = State::default();
    state.open_store(None, None);
    assert!(matches!(state.disk.store, Store::Unavailable));
    assert!(state.calls.is_empty());
    let mut state = State::default();
    state.open_store(None, Some("/home/me"));
    for _ in 0..4 {
        state.on_host_folder_failed();
    }
    assert!(matches!(state.disk.store, Store::Unavailable));
    assert_eq!(folders(&state).len(), 4);
    let mut state = State::default();
    state.open_store(None, Some("/home/me"));
    state.on_host_folder_failed();
    state.store_made(false);
    assert!(matches!(state.disk.store, Store::Unavailable));
    assert!(matches!(state.on_host_folder_changed(&path("/home")), FolderStep::Nothing));
}

// --- the index ---

#[test]
fn an_index_that_cannot_be_used_is_replaced() {
    assert!(valid_internal_id("12"));
    assert!(!valid_internal_id(""));
    assert!(!valid_internal_id("1a"));
    assert!(!valid_internal_id("1234567890123"));
    assert!(validate_index(index(3, &[("1", "work")])).is_some());
    assert!(validate_index(index(3, &[("../x", "work")])).is_none());
    assert!(validate_index(index(3, &[("1", "")])).is_none());
    let newer = SessionIndex { version: 2, ..index(3, &[]) };
    assert!(validate_index(newer).is_none());
    assert_eq!(SessionIndex::usable(None).revision, 0);
    assert_eq!(SessionIndex::usable(Some(index(3, &[("1", "work")]))).revision, 3);
    assert_eq!(SessionIndex::usable(Some(index(3, &[("x", "work")]))).revision, 0);
    assert_eq!(SessionIndex::empty().sessions.len(), 0);
}

#[test]
fn new_ids_are_fresh() {
    assert_eq!(SessionIndex::empty().next_internal_id(), "1");
    assert_eq!(index(0, &[("3", "a"), ("7", "b")]).next_internal_id(), "8");
}

#[test]
fn a_session_keeps_its_id() {
    // A new session.
    let (changed, id) = reconcile(&index(0, &[("3", "a")]), "b", None, 9);
    assert_eq!(id, "4");
    let changed = changed.expect("a change");
    assert_eq!(names(&changed), vec![("3".into(), "a".into()), ("4".into(), "b".into())]);
    assert_eq!(changed.sessions[1].last_seen, 9);
    // It comes back under the same name.
    let (changed, id) = reconcile(&index(0, &[("3", "a")]), "a", None, 9);
    assert_eq!(id, "3");
    assert_eq!(changed.expect("a change").sessions[0].last_seen, 9);
    // It is renamed.
    let (changed, id) = reconcile(&index(0, &[("3", "a")]), "b", Some("3"), 9);
    assert_eq!(id, "3");
    assert_eq!(names(&changed.expect("a change")), vec![("3".into(), "b".into())]);
    // Nothing changed.
    let (changed, id) = reconcile(&index(0, &[("3", "a")]), "a", Some("3"), 9);
    assert_eq!(id, "3");
    assert!(changed.is_none());
    // Its entry was lost.
    let (changed, id) = reconcile(&index(0, &[]), "a", Some("3"), 9);
    assert_eq!(id, "3");
    assert_eq!(names(&changed.expect("a change")), vec![("3".into(), "a".into())]);
}

fn sessions(list: &[(&str, bool)]) -> Vec<SessionInfo> {
    list.iter()
        .map(|(name, current)| SessionInfo {
            name: name.to_string(),
            is_current_session: *current,
        })
        .collect()
}

#[test]
fn the_current_session_is_the_first_marked_one() {
    assert_eq!(current_session(&sessions(&[])), None);
    assert_eq!(current_session(&sessions(&[("a", false)])), None);
    assert_eq!(current_session(&sessions(&[("a", false), ("b", true), ("c", true)])), Some(1));
}

#[test]
fn a_step_up_in_the_path_of_the_store_is_kept() {
    assert_eq!(path_components("/home/./me//../you/"), vec!["home", "me", "..", "you"]);
    let mut state = State::default();
    state.open_store(Some("/home/me/../you"), None);
    let reached = path_components("/home/me/../you/fujin");
    assert!(matches!(state.on_host_folder_changed(&reached), FolderStep::Opened));
}

fn ready() -> State {
    let mut state = State::default();
    state.open_store(None, Some("/home/me"));
    state.on_host_folder_changed(&path("/home/me/.config/fujin"));
    state
}

#[test]
fn the_index_is_read_again_before_it_is_written() {
    let mut state = ready();
    assert!(state.begin_index_update(9).is_none());
    assert!(state.handle_session_update(&sessions(&[("play", false), ("work", true)])));
    assert!(!state.handle_session_update(&sessions(&[("work", true), ("play", true)])));
    assert!(!state.handle_session_update(&sessions(&[("play", false)])));
    assert_eq!(state.disk.session_name.as_deref(), Some("work"));
    assert!(state.can_sync_index());
    let mut update = state.begin_index_update(9).expect("an update");
    assert!(matches!(update.on_read(&index(4, &[])), IndexAction::Reread));
    match update.on_reread(&index(4, &[])) {
        IndexAction::Write(plan) => {
            assert_eq!(plan.revision, 5);
            assert_eq!(names(&plan), vec![("1".into(), "work".into())]);
        }
        other => panic!("{:?}", other),
    }
    assert!(matches!(update.on_written(true), IndexAction::Done));
    state.end_index_update(update);
    assert_eq!(state.disk.session_id.as_deref(), Some("1"));
}

#[test]
fn an_update_that_comes_too_late_starts_over() {
    let mut state = ready();
    state.handle_session_update(&sessions(&[("work", true)]));
    let mut update = state.begin_index_update(9).expect("an update");
    assert!(matches!(update.on_read(&index(4, &[])), IndexAction::Reread));
    // Somebody else wrote meanwhile.
    let other = index(5, &[("1", "play")]);
    assert!(matches!(update.on_reread(&other), IndexAction::Read));
    assert!(matches!(update.on_read(&other), IndexAction::Reread));
    match update.on_reread(&other) {
        IndexAction::Write(plan) => {
            assert_eq!(
                names(&plan),
                vec![("1".into(), "play".into()), ("2".into(), "work".into())]
            )
        }
        other => panic!("{:?}", other),
    }
    assert!(matches!(update.on_written(false), IndexAction::Read));
    update.on_read(&other);
    update.on_reread(&other);
    // The third failure is the last one.
    assert!(matches!(update.on_written(false), IndexAction::Done));
}

#[test]
fn files_are_written_beside_and_moved() {
    let mut state = ready();
    state.me.own_plugin_id = Some(7);
    state.disk.session_name = Some("a".to_string());
    let (dest, tmp) = state.write_plan("session_index.toml").expect("a plan");
    assert_eq!(dest, path("host/session_index.toml"));
    assert_eq!(tmp, path("host/sessions/.tmp/af63dc4c8601ec8c-7-session_index.toml"));
    assert!(state.write_plan("../x").is_none());
    assert!(State::default().write_plan("session_index.toml").is_none());
}
