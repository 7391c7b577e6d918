use fujin::host::{
    Coordinates, Extent, HostCall, Opening, PaneId, PaneInfo, PaneManifest, Sender, TabInfo,
    TabPanes,
};
use fujin::plugin::{Answers, Event};
use fujin::state::State;
use fujin::wire::{
    DISMISS_PIPE, MARK_PIPE, NAV_MODE_PIPE, STATUS_PIPE, SYNC_STATE_PIPE, TOGGLE_CWD_PIPE,
    WIDTH_PIPE,
};

const URL: &str = "file:/plugins/fujin.wasm";

fn quiet() -> Answers {
    Answers { focus: None, floating: false, plugin_url: None }
}

fn terminal(id: u32) -> PaneInfo {
    PaneInfo {
        id,
        is_plugin: false,
        is_focused: false,
        is_floating: false,
        is_suppressed: false,
        title: format!("pane {}", id),
        exited: false,
        exit_status: None,
        terminal_command: None,
        plugin_url: None,
    }
}

fn instance(id: u32) -> PaneInfo {
    PaneInfo { is_plugin: true, plugin_url: Some(URL.to_string()), ..terminal(id) }
}

fn manifest(tabs: Vec<Vec<PaneInfo>>) -> PaneManifest {
    PaneManifest {
        tabs: tabs
            .into_iter()
            .enumerate()
            .map(|(position, panes)| TabPanes { position, panes })
            .collect(),
    }
}

fn tabs(count: usize) -> Vec<TabInfo> {
    (0..count)
        .map(|position| TabInfo {
            position,
            name: format!("tab {}", position),
            active: position == 0,
            are_floating_panes_visible: false,
        })
        .collect()
}

fn started(own: u32, panes: Vec<Vec<PaneInfo>>) -> State {
    let mut state = State::default();
    state.load(&vec![], own);
    state.update(Event::Permission(true), quiet());
    state.update(Event::TabUpdate(tabs(panes.len())), quiet());
    state.update(Event::PaneUpdate(manifest(panes)), quiet());
    state
}

fn sent_to(state: &State, receiver: u32) -> Vec<(&'static str, String)> {
    let mut out = Vec::new();
    for call in &state.calls {
        if let HostCall::PipeMessageToPlugin(name, id, payload) = call {
            if *id == receiver {
                out.push((*name, payload.clone()));
            }
        }
    }
    out
}

fn asked(state: &State, wanted: &str) -> bool {
    state.calls.iter().any(|call| format!("{:?}", call) == wanted)
}

// --- the start ---

#[test]
fn an_instance_starts_by_asking_for_permissions() {
    let mut state = State::default();
    state.load(&vec![], 100);
    let calls: Vec<String> = state.calls.iter().map(|c| format!("{:?}", c)).collect();
    assert_eq!(calls, vec!["SetSelectable(true)", "RequestPermission", "Subscribe"]);
    state.calls.clear();
    assert!(state.update(Event::Permission(true), quiet()));
    assert!(asked(&state, "SetSelectable(false)"));
    assert!(asked(&state, "RenamePluginPane(100, \"fujin\")"));
}

#[test]
fn a_floating_instance_acts_as_summoned() {
    let mut state = State::default();
    state.load(&vec![], 100);
    state.calls.clear();
    let answers = Answers { focus: None, floating: true, plugin_url: Some(URL.to_string()) };
    state.update(Event::Permission(true), answers);
    assert!(state.me.summoned);
    assert!(!asked(&state, "SetSelectable(false)"));
    assert_eq!(state.me.own_plugin_url.as_deref(), Some(URL));
    // As soon as there are panes it enters nav mode.
    state.update(Event::TabUpdate(tabs(1)), quiet());
    assert!(!state.nav.nav_mode);
    let panes = manifest(vec![vec![instance(100), terminal(1)]]);
    state.update(Event::PaneUpdate(panes), quiet());
    assert!(state.nav.nav_mode);
    // Leaving nav mode closes it.
    state.calls.clear();
    state.exit_nav_mode();
    assert!(asked(&state, "ClosePluginPane(100)"));
}

// --- siblings ---

#[test]
fn a_new_sibling_learns_everything() {
    let mut state = started(100, vec![vec![instance(100), terminal(1)]]);
    state.config.show_cwd = true;
    state.list.marked.insert(1);
    state.width.width_target = Some(40);
    let report = "{\"pane_id\":1,\"event\":\"Stop\"}";
    state.pipe(STATUS_PIPE, Some(report), Sender::Keybind, None);
    state.calls.clear();
    let panes = manifest(vec![vec![instance(100), terminal(1)], vec![instance(101), terminal(3)]]);
    state.update(Event::PaneUpdate(panes), quiet());
    let learned = sent_to(&state, 101);
    assert!(learned.contains(&(TOGGLE_CWD_PIPE, "true".to_string())));
    assert!(learned.contains(&(WIDTH_PIPE, "40".to_string())));
    assert!(learned.contains(&(MARK_PIPE, "1".to_string())));
    assert!(learned.contains(&(SYNC_STATE_PIPE, state.state_dump())));
    // It is told once.
    state.calls.clear();
    let panes = manifest(vec![vec![instance(100), terminal(1)], vec![instance(101), terminal(3)]]);
    state.update(Event::PaneUpdate(panes), quiet());
    assert!(sent_to(&state, 101).is_empty());
}

#[test]
fn a_newcomer_asks_for_what_it_does_not_know() {
    let state =
        started(100, vec![vec![instance(100), terminal(1)], vec![instance(101), terminal(3)]]);
    let questions = sent_to(&state, 101);
    assert!(questions.contains(&(WIDTH_PIPE, "?".to_string())));
    assert!(questions.contains(&(SYNC_STATE_PIPE, "?".to_string())));
}

#[test]
fn the_width_question_is_answered() {
    let mut state = started(100, vec![vec![instance(100), terminal(1)]]);
    state.calls.clear();
    state.pipe(WIDTH_PIPE, Some("?"), Sender::Plugin(7), None);
    assert!(sent_to(&state, 7).is_empty());
    state.width.width_target = Some(33);
    state.pipe(WIDTH_PIPE, Some("?"), Sender::Plugin(7), None);
    assert_eq!(sent_to(&state, 7), vec![(WIDTH_PIPE, "33".to_string())]);
}

#[test]
fn only_the_same_plugin_is_a_sibling() {
    let other = PaneInfo { plugin_url: Some("file:/other.wasm".to_string()), ..instance(50) };
    let state = started(100, vec![vec![instance(100), terminal(1), other]]);
    assert!(state.me.known_siblings.is_empty());
    assert!(sent_to(&state, 50).is_empty());
}

// --- summoning ---

#[test]
fn the_smallest_living_instance_acts() {
    let panes = manifest(vec![
        vec![instance(100), terminal(1)],
        vec![instance(101), terminal(3)],
        vec![terminal(5)],
    ]);
    assert_eq!(State::sibling_plugin_ids(&panes, URL), vec![100, 101]);
    assert!(State::is_summon_delegate(&panes, 100, URL, &vec![100, 101]));
    assert!(!State::is_summon_delegate(&panes, 101, URL, &vec![100, 101]));
    // Where the first one is gone the next one acts.
    assert!(State::is_summon_delegate(&panes, 101, URL, &vec![101]));
    assert!(State::tab_has_fujin(&panes, 1, URL));
    assert!(!State::tab_has_fujin(&panes, 2, URL));
}

#[test]
fn a_tab_without_a_sidebar_gets_one() {
    let layout = || {
        vec![
            vec![instance(100), terminal(1)],
            vec![instance(101), terminal(3)],
            vec![terminal(5)],
        ]
    };
    let mut state = started(100, layout());
    state.calls.clear();
    assert!(!state.pipe(NAV_MODE_PIPE, None, Sender::Keybind, Some((2, PaneId::Terminal(5)))));
    assert!(asked(&state, "QuerySummon"));
    assert_eq!(state.liveness_queries(2, &Some(manifest(layout()))), vec![100, 101]);
    state.calls.clear();
    state.summon_floating_if_absent(Some(2), Some(manifest(layout())), &vec![100, 101]);
    let place = Coordinates {
        x: 0,
        y: 0,
        width: Extent::Fixed(32),
        height: Extent::Percent(100),
        pinned: true,
    };
    match &state.calls[0] {
        HostCall::OpenFloating(url, config, at, Opening::Summon(2)) => {
            assert_eq!(url, URL);
            assert_eq!(config, &vec![("summoned", "true")]);
            assert_eq!(*at, place);
        }
        other => panic!("{:?}", other),
    }
    state.calls.clear();
    state.summon_opened(2, Some(PaneId::Plugin(110)));
    assert_eq!(state.me.summoned_panes.get(&2), Some(&110));
    // Asked for twice, it goes again.
    state.calls.clear();
    state.summon_floating_if_absent(Some(2), Some(manifest(layout())), &vec![100, 101, 110]);
    assert!(asked(&state, "ClosePluginPane(110)"));
    assert!(state.me.summoned_panes.is_empty());
}

#[test]
fn a_tab_with_a_sidebar_gets_no_second_one() {
    let layout =
        || vec![vec![instance(100), terminal(1)], vec![instance(101), terminal(3)]];
    let mut state = started(100, layout());
    state.calls.clear();
    state.summon_floating_if_absent(Some(1), Some(manifest(layout())), &vec![100, 101]);
    assert!(state.calls.is_empty());
    // Nor does an instance act that is not the one to act.
    let mut other = started(101, vec![
        vec![instance(100), terminal(1)],
        vec![instance(101), terminal(3)],
        vec![terminal(5)],
    ]);
    other.calls.clear();
    other.summon_floating_if_absent(Some(2), None, &vec![100, 101]);
    assert!(other.calls.is_empty());
    other.summon_floating_if_absent(None, None, &vec![]);
    assert!(other.calls.is_empty());
}

#[test]
fn a_summoned_instance_inherits_the_settings() {
    let layout = || vec![vec![instance(100), terminal(1)], vec![terminal(5)]];
    let mut state = started(100, layout());
    state.config.show_cwd = true;
    state.config.show_deploy_animation = false;
    state.calls.clear();
    state.summon_floating_if_absent(Some(1), Some(manifest(layout())), &vec![100]);
    match &state.calls[0] {
        HostCall::OpenFloating(_, config, _, _) => assert_eq!(
            config,
            &vec![
                ("summoned", "true"),
                ("show_cwd", "true"),
                ("show_deploy_animation", "false"),
            ]
        ),
        other => panic!("{:?}", other),
    }
}

#[test]
fn stranded_sidebars_are_swept_up() {
    let stranded = PaneInfo { is_floating: true, ..instance(120) };
    let mut state = started(100, vec![vec![instance(100), terminal(1), stranded]]);
    state.calls.clear();
    assert!(!state.pipe(DISMISS_PIPE, None, Sender::Cli, None));
    assert!(asked(&state, "ClosePluginPane(120)"));
    assert!(!asked(&state, "ClosePluginPane(100)"));
}

// --- visibility ---

#[test]
fn coming_on_the_screen_looks_at_the_focus() {
    let mut state =
        started(100, vec![vec![instance(100), terminal(1), terminal(2)]]);
    let answers =
        Answers { focus: Some((0, PaneId::Terminal(2))), floating: false, plugin_url: None };
    assert!(state.update(Event::Visible(true), answers));
    assert_eq!(state.selected_pane_id(), Some(2));
    assert!(state.me.visible);
    assert!(!state.update(Event::Visible(false), quiet()));
    assert!(!state.me.visible);
}

#[test]
fn only_what_counts_is_asked_of_the_host() {
    let mut state = State::default();
    state.load(&vec![], 100);
    assert!(state.wants_own_pane(&Event::Permission(true)));
    assert!(!state.wants_own_pane(&Event::Permission(false)));
    assert!(!state.wants_focus(&Event::Permission(true)));
    assert!(state.wants_focus(&Event::Visible(true)));
    assert!(!state.wants_focus(&Event::Visible(false)));
    assert!(!state.wants_focus(&Event::Timer(1)));
    assert!(state.message_wants_focus("fujin_mode", None));
    assert!(!state.message_wants_focus("fujin_mark", Some("1")));
    let started = "{\"pane_id\":1,\"event\":\"SessionStart\"}";
    let stopped = "{\"pane_id\":1,\"event\":\"Stop\"}";
    assert!(state.message_wants_focus(STATUS_PIPE, Some(started)));
    assert!(!state.message_wants_focus(STATUS_PIPE, Some(stopped)));
    state.me.is_preview = true;
    assert!(!state.wants_focus(&Event::Visible(true)));
    assert!(!state.message_wants_focus("fujin_mode", None));
}
