use fujin::host::{
    BareKey, HostCall, Key, Opening, PaneId, PaneInfo, PaneManifest, Sender, TabInfo, TabPanes,
};
use fujin::plugin::{Answers, Event};
use fujin::preview::snapshot_payload;
use fujin::search::SearchPhase;
use fujin::state::State;
use fujin::termination::Termination;
use fujin::wire::{
    DISMISS_PIPE, MARK_PIPE, NAV_DOWN_PIPE, NAV_GO_PIPE, NAV_MODE_PIPE, NAV_UP_PIPE, PREVIEW_PIPE,
    SELECTION_PIPE, STATUS_PIPE,
};

const URL: &str = "file:/plugins/fujin.wasm";

fn quiet() -> Answers {
    Answers { focus: None, floating: false, plugin_url: None }
}

fn focus(tab: usize, pane: PaneId) -> Answers {
    Answers { focus: Some((tab, pane)), floating: false, plugin_url: None }
}

fn terminal(id: u32, title: &str) -> PaneInfo {
    PaneInfo {
        id,
        is_plugin: false,
        is_focused: false,
        is_floating: false,
        is_suppressed: false,
        title: title.to_string(),
        exited: false,
        exit_status: None,
        terminal_command: None,
        plugin_url: None,
    }
}

fn instance(id: u32) -> PaneInfo {
    PaneInfo { is_plugin: true, plugin_url: Some(URL.to_string()), ..terminal(id, "fujin") }
}

fn tab(position: usize, name: &str, active: bool) -> TabInfo {
    TabInfo { position, name: name.to_string(), active, are_floating_panes_visible: false }
}

fn panes() -> PaneManifest {
    PaneManifest {
        tabs: vec![
            TabPanes {
                position: 0,
                panes: vec![instance(100), terminal(1, "editor"), terminal(2, "server")],
            },
            TabPanes {
                position: 1,
                panes: vec![
                    instance(101),
                    PaneInfo { is_floating: true, ..terminal(3, "notes") },
                ],
            },
        ],
    }
}

// Three panes in two tabs, with the focus on the first pane.
fn started() -> State {
    let mut state = State::default();
    state.load(&vec![], 100);
    state.update(Event::Permission(true), quiet());
    let tabs = vec![tab(0, "code", true), tab(1, "misc", false)];
    state.update(Event::TabUpdate(tabs), quiet());
    state.update(Event::PaneUpdate(panes()), focus(0, PaneId::Terminal(1)));
    state.calls.clear();
    state
}

fn browsing() -> State {
    let mut state = started();
    assert!(state.pipe(NAV_MODE_PIPE, None, Sender::Keybind, Some((0, PaneId::Terminal(1)))));
    assert!(state.nav.nav_mode);
    state.calls.clear();
    state
}

fn press(state: &mut State, bare: BareKey) -> bool {
    state.update(Event::InterceptedKeyPress(Key::plain(bare)), quiet())
}

fn char_key(state: &mut State, c: char) -> bool {
    press(state, BareKey::Char(c))
}

fn selected(state: &State) -> Option<u32> {
    state.selected_pane_id()
}

fn focused_panes(state: &State) -> Vec<(u32, bool)> {
    let mut out = Vec::new();
    for call in &state.calls {
        if let HostCall::FocusPane(id, floating) = call {
            out.push((*id, *floating));
        }
    }
    out
}

fn asked(state: &State, wanted: &str) -> bool {
    state.calls.iter().any(|call| format!("{:?}", call) == wanted)
}

fn report(state: &mut State, pane_id: u32, event: &str) {
    let payload = format!("{{\"pane_id\":{},\"event\":\"{}\"}}", pane_id, event);
    state.pipe(STATUS_PIPE, Some(&payload), Sender::Keybind, None);
}

// --- the tree ---

#[test]
fn the_list_holds_the_terminals_of_all_tabs() {
    let state = started();
    let ids: Vec<u32> = state.list.selectable.iter().map(|e| e.pane_id).collect();
    assert_eq!(ids, vec![1, 2, 3]);
    assert_eq!(selected(&state), Some(1));
    assert_eq!(state.tab_name(1), "misc");
    assert_eq!(state.tab_name(7), "");
}

#[test]
fn the_selection_moves_and_stops_at_the_ends() {
    let mut state = browsing();
    press(&mut state, BareKey::Up);
    assert_eq!(selected(&state), Some(1));
    char_key(&mut state, 'j');
    assert_eq!(selected(&state), Some(2));
    press(&mut state, BareKey::Tab);
    press(&mut state, BareKey::Down);
    assert_eq!(selected(&state), Some(3));
    char_key(&mut state, 'k');
    assert_eq!(selected(&state), Some(2));
    char_key(&mut state, 'g');
    assert_eq!(selected(&state), Some(1));
    char_key(&mut state, 'G');
    assert_eq!(selected(&state), Some(3));
}

#[test]
fn entering_nav_mode_takes_the_keys_and_the_focus() {
    let mut state = started();
    state.pipe(NAV_MODE_PIPE, None, Sender::Keybind, Some((0, PaneId::Terminal(1))));
    assert!(asked(&state, "InterceptKeyPresses"));
    assert!(asked(&state, "SetSelectable(true)"));
    assert!(asked(&state, "FocusPluginPane(100)"));
    assert_eq!(state.focus.focus_parked.map(|p| p.pane_id), Some(1));
}

#[test]
fn leaving_gives_the_keys_and_the_focus_back() {
    let mut state = browsing();
    char_key(&mut state, 'j');
    state.calls.clear();
    press(&mut state, BareKey::Esc);
    assert!(!state.nav.nav_mode);
    assert_eq!(focused_panes(&state), vec![(1, false)]);
    assert!(asked(&state, "ClearKeyPressesIntercepts"));
    assert!(asked(&state, "SetSelectable(false)"));
    // The selection goes back to the focus.
    assert_eq!(selected(&state), Some(1));
}

#[test]
fn browsing_resumes_where_it_was_left() {
    let mut state = browsing();
    char_key(&mut state, 'G');
    press(&mut state, BareKey::Esc);
    assert_eq!(selected(&state), Some(1));
    state.pipe(NAV_MODE_PIPE, None, Sender::Keybind, Some((0, PaneId::Terminal(1))));
    assert_eq!(selected(&state), Some(3));
}

#[test]
fn a_key_without_a_meaning_leaves_nav_mode() {
    for bare in [BareKey::Char('z'), BareKey::F(3), BareKey::Left, BareKey::Char('q')] {
        let mut state = browsing();
        press(&mut state, bare);
        assert!(!state.nav.nav_mode);
    }
    let mut state = browsing();
    let key = Key { ctrl: true, ..Key::plain(BareKey::Char('j')) };
    state.update(Event::InterceptedKeyPress(key), quiet());
    assert!(!state.nav.nav_mode);
}

#[test]
fn a_jump_focuses_the_selected_pane() {
    for bare in [BareKey::Enter, BareKey::Char('l'), BareKey::Char(' ')] {
        let mut state = browsing();
        char_key(&mut state, 'G');
        state.calls.clear();
        press(&mut state, bare);
        assert!(!state.nav.nav_mode);
        assert_eq!(focused_panes(&state).last(), Some(&(3, true)));
    }
}

#[test]
fn the_selection_is_told_to_the_siblings() {
    let mut state = browsing();
    char_key(&mut state, 'j');
    let told: Vec<_> = state
        .calls
        .iter()
        .filter_map(|call| match call {
            HostCall::PipeMessageToPlugin(name, id, payload) if *name == SELECTION_PIPE => {
                Some((*id, payload.clone()))
            }
            _ => None,
        })
        .collect();
    assert_eq!(told, vec![(101, "2".to_string())]);
    let mut sibling = started();
    assert!(sibling.pipe(SELECTION_PIPE, Some("2"), Sender::Plugin(100), None));
    assert_eq!(selected(&sibling), Some(2));
    assert!(!sibling.pipe(SELECTION_PIPE, Some("77"), Sender::Plugin(100), None));
}

#[test]
fn direct_keys_work_on_the_instance_in_the_focused_tab() {
    let mut state = started();
    let here = Some((0, PaneId::Terminal(1)));
    assert!(state.pipe(NAV_DOWN_PIPE, None, Sender::Keybind, here));
    assert_eq!(selected(&state), Some(2));
    assert!(state.pipe(NAV_UP_PIPE, None, Sender::Keybind, here));
    assert_eq!(selected(&state), Some(1));
    state.pipe(NAV_DOWN_PIPE, None, Sender::Keybind, here);
    state.calls.clear();
    assert!(!state.pipe(NAV_GO_PIPE, None, Sender::Keybind, here));
    assert_eq!(focused_panes(&state), vec![(2, false)]);
    let elsewhere = Some((1, PaneId::Terminal(3)));
    state.calls.clear();
    assert!(!state.pipe(NAV_DOWN_PIPE, None, Sender::Keybind, elsewhere));
    assert_eq!(selected(&state), Some(2));
    assert!(state.calls.is_empty());
}

// --- the focus ---

#[test]
fn the_selection_follows_the_focus() {
    let mut state = started();
    state.update(Event::PaneUpdate(panes()), focus(0, PaneId::Terminal(2)));
    assert_eq!(selected(&state), Some(2));
    // The focus in another tab is none of this instance's business.
    state.update(Event::PaneUpdate(panes()), focus(1, PaneId::Terminal(3)));
    assert_eq!(selected(&state), Some(2));
}

#[test]
fn in_nav_mode_the_selection_belongs_to_the_user() {
    let mut state = browsing();
    state.update(Event::PaneUpdate(panes()), focus(0, PaneId::Plugin(100)));
    char_key(&mut state, 'G');
    state.update(Event::PaneUpdate(panes()), focus(0, PaneId::Plugin(100)));
    assert_eq!(selected(&state), Some(3));
    assert!(state.nav.nav_mode);
    // The user takes the focus back: nav mode ends and nothing is handed back.
    state.calls.clear();
    state.update(Event::PaneUpdate(panes()), focus(0, PaneId::Terminal(2)));
    assert!(!state.nav.nav_mode);
    assert!(focused_panes(&state).is_empty());
    assert_eq!(selected(&state), Some(2));
}

#[test]
fn closing_hands_everything_back() {
    let mut state = browsing();
    assert!(!state.update(Event::BeforeClose, quiet()));
    assert!(!state.nav.nav_mode);
    assert!(asked(&state, "ClearKeyPressesIntercepts"));
    assert_eq!(focused_panes(&state), vec![(1, false)]);
}

#[test]
fn cleaning_up_closes_floating_sidebars() {
    let mut state = started();
    let mut manifest = panes();
    manifest.tabs[1].panes.push(PaneInfo { is_floating: true, ..instance(102) });
    let answers = Answers {
        focus: Some((0, PaneId::Terminal(1))),
        floating: false,
        plugin_url: Some(URL.to_string()),
    };
    state.update(Event::PaneUpdate(manifest), answers);
    state.calls.clear();
    state.pipe(DISMISS_PIPE, None, Sender::Cli, None);
    assert!(asked(&state, "UnblockCliPipeInput(\"fujin_dismiss\")"));
    assert!(asked(&state, "ClosePluginPane(102)"));
    assert!(!asked(&state, "ClosePluginPane(101)"));
    assert!(!asked(&state, "ClosePluginPane(100)"));
    // A summoned one closes itself.
    let mut summoned = started();
    summoned.me.summoned = true;
    summoned.pipe(DISMISS_PIPE, None, Sender::Cli, None);
    assert!(asked(&summoned, "ClosePluginPane(100)"));
}

// --- help ---

#[test]
fn the_help_takes_any_key_to_close() {
    let mut state = browsing();
    char_key(&mut state, '?');
    assert!(state.nav.help_overlay);
    char_key(&mut state, 'j');
    assert!(!state.nav.help_overlay);
    assert!(state.nav.nav_mode);
    assert_eq!(selected(&state), Some(1));
}

// --- search ---

#[test]
fn a_search_filters_and_jumps() {
    let mut state = browsing();
    char_key(&mut state, '/');
    for c in "serv".chars() {
        char_key(&mut state, c);
    }
    let search = state.nav.search.as_ref().expect("a search");
    assert_eq!(search.query, "serv");
    assert_eq!(search.hits.keys().copied().collect::<Vec<_>>(), vec![2]);
    assert_eq!(search.cursor, Some(2));
    state.calls.clear();
    press(&mut state, BareKey::Enter);
    assert!(!state.nav.nav_mode);
    assert!(state.nav.search.is_none());
    assert_eq!(focused_panes(&state).last(), Some(&(2, false)));
}

#[test]
fn the_query_is_kept_between_editing_and_navigating() {
    let mut state = browsing();
    char_key(&mut state, '/');
    char_key(&mut state, 'j');
    char_key(&mut state, '?');
    press(&mut state, BareKey::Backspace);
    press(&mut state, BareKey::Esc);
    {
        let search = state.nav.search.as_ref().expect("a search");
        assert_eq!(search.phase, SearchPhase::Navigating);
        assert_eq!(search.query, "j");
    }
    assert!(!char_key(&mut state, 'x'));
    char_key(&mut state, 'i');
    assert!(state.search_is_editing());
    assert_eq!(state.nav.search.as_ref().map(|s| s.query.as_str()), Some("j"));
    press(&mut state, BareKey::Esc);
    press(&mut state, BareKey::Esc);
    assert!(state.nav.search.is_none());
    assert!(state.nav.nav_mode);
    assert_eq!(selected(&state), Some(1));
    char_key(&mut state, '/');
    assert_eq!(state.nav.search.as_ref().map(|s| s.query.as_str()), Some(""));
}

#[test]
fn a_modifier_leaves_a_search_but_for_mark_and_preview() {
    let mut state = browsing();
    char_key(&mut state, '/');
    let mark = Key { alt: true, ..Key::plain(BareKey::Char('m')) };
    state.update(Event::InterceptedKeyPress(mark), quiet());
    assert!(state.search_is_editing());
    assert!(state.list.marked.contains(&1));
    let other = Key { ctrl: true, ..Key::plain(BareKey::Char('a')) };
    state.update(Event::InterceptedKeyPress(other), quiet());
    assert!(!state.nav.nav_mode);
    assert!(state.nav.search.is_none());
    // The mark survives leaving and coming back.
    assert!(state.list.marked.contains(&1));
    state.pipe(NAV_MODE_PIPE, None, Sender::Keybind, Some((0, PaneId::Terminal(1))));
    assert!(state.nav.nav_mode);
    assert!(state.list.marked.contains(&1));
}

#[test]
fn a_key_of_a_search_without_a_search_changes_no_query() {
    let mut state = browsing();
    assert!(state.handle_search_key(Key::plain(BareKey::Char('a'))));
    assert!(state.nav.search.is_none());
    assert!(state.nav.nav_mode);
    assert!(state.handle_search_key(Key::plain(BareKey::Left)));
    assert!(!state.nav.nav_mode);
}

#[test]
fn without_a_match_enter_does_nothing() {
    let mut state = browsing();
    char_key(&mut state, '/');
    for c in "xyz".chars() {
        char_key(&mut state, c);
    }
    assert!(state.nav.search.as_ref().expect("a search").hits.is_empty());
    state.calls.clear();
    press(&mut state, BareKey::Enter);
    assert!(state.nav.nav_mode);
    assert!(focused_panes(&state).is_empty());
}

#[test]
fn the_cursor_moves_among_the_hits() {
    let mut state = browsing();
    char_key(&mut state, '/');
    char_key(&mut state, 'e');
    let hits: Vec<u32> =
        state.nav.search.as_ref().expect("a search").hits.keys().copied().collect();
    assert_eq!(hits, vec![1, 2, 3]);
    press(&mut state, BareKey::Down);
    press(&mut state, BareKey::Down);
    press(&mut state, BareKey::Down);
    assert_eq!(state.highlighted_pane(), Some(3));
    press(&mut state, BareKey::Up);
    assert_eq!(state.highlighted_pane(), Some(2));
}

#[test]
fn pasted_text_extends_the_query() {
    let mut state = browsing();
    assert!(!state.update(Event::PastedText("notes".to_string()), quiet()));
    char_key(&mut state, '/');
    assert!(state.update(Event::PastedText("no\n検".to_string()), quiet()));
    assert_eq!(state.nav.search.as_ref().map(|s| s.query.as_str()), Some("no検"));
    assert!(!state.update(Event::PastedText("\n\t".to_string()), quiet()));
}

#[test]
fn while_somebody_types_nothing_else_draws() {
    let mut state = browsing();
    char_key(&mut state, '/');
    assert!(!state.update(Event::PaneUpdate(panes()), quiet()));
    assert!(!state.pipe(SELECTION_PIPE, Some("2"), Sender::Plugin(101), None));
    assert!(char_key(&mut state, 'a'));
    press(&mut state, BareKey::Esc);
    assert!(state.update(Event::PaneUpdate(panes()), quiet()));
}

// --- number jump ---

#[test]
fn numbers_are_padded_to_the_same_length() {
    let mut state = started();
    for id in 4..=12 {
        state.list.selectable.push(fujin::state::Selectable {
            tab_position: 1,
            pane_id: id,
            title: "more".to_string(),
            is_floating: false,
        });
    }
    assert_eq!(state.pane_number(0), "01");
    assert_eq!(state.pane_number(11), "12");
    assert_eq!(state.pane_number_width(), 2);
}

#[test]
fn typing_a_number_jumps() {
    let mut state = browsing();
    char_key(&mut state, 'n');
    assert_eq!(state.jump_number(2), Some(("3".to_string(), true)));
    state.calls.clear();
    char_key(&mut state, '3');
    assert!(!state.nav.nav_mode);
    assert_eq!(selected(&state), Some(3));
    assert_eq!(focused_panes(&state).last(), Some(&(3, true)));
}

#[test]
fn a_wrong_number_clears_what_was_typed() {
    let mut state = browsing();
    for id in 4..=12 {
        state.list.selectable.push(fujin::state::Selectable {
            tab_position: 1,
            pane_id: id,
            title: "more".to_string(),
            is_floating: false,
        });
    }
    char_key(&mut state, 'n');
    char_key(&mut state, '1');
    assert_eq!(state.nav.jump.as_ref().map(|j| j.buffer.as_str()), Some("1"));
    assert_eq!(state.jump_number(0), Some(("01".to_string(), false)));
    assert_eq!(state.jump_number(9), Some(("10".to_string(), true)));
    char_key(&mut state, '9');
    assert_eq!(state.nav.jump.as_ref().map(|j| j.buffer.as_str()), Some(""));
    char_key(&mut state, '0');
    press(&mut state, BareKey::Backspace);
    assert_eq!(state.nav.jump.as_ref().map(|j| j.buffer.as_str()), Some(""));
    press(&mut state, BareKey::Esc);
    assert!(state.nav.jump.is_none());
    assert!(state.nav.nav_mode);
}

// --- triage ---

#[test]
fn triage_lists_the_most_urgent_first() {
    let mut state = started();
    report(&mut state, 1, "Stop");
    report(&mut state, 2, "StopFailure");
    report(&mut state, 3, "Notification");
    let ids: Vec<u32> = state.triage_entries().iter().map(|e| e.pane_id).collect();
    assert_eq!(ids, vec![2, 3, 1]);
    // Of two that are as urgent, the one that changed last comes first.
    report(&mut state, 1, "Notification");
    let ids: Vec<u32> = state.triage_entries().iter().map(|e| e.pane_id).collect();
    assert_eq!(ids, vec![2, 1, 3]);
    // What is idle needs no triage.
    report(&mut state, 2, "SessionStart");
    let ids: Vec<u32> = state.triage_entries().iter().map(|e| e.pane_id).collect();
    assert_eq!(ids, vec![1, 3]);
}

#[test]
fn ties_in_triage_keep_the_order_of_the_list() {
    let mut state = started();
    for id in [3, 1, 2] {
        report(&mut state, id, "Stop");
    }
    for info in state.status.agents.values_mut() {
        info.state_change_seq = 7;
    }
    let ids: Vec<u32> = state.triage_entries().iter().map(|e| e.pane_id).collect();
    assert_eq!(ids, vec![1, 2, 3]);
}

#[test]
fn with_nothing_to_triage_enter_does_nothing() {
    let mut state = browsing();
    char_key(&mut state, 't');
    state.calls.clear();
    press(&mut state, BareKey::Enter);
    assert!(state.nav.triage.is_some());
    assert!(state.nav.nav_mode);
    assert!(focused_panes(&state).is_empty());
}

#[test]
fn leaving_triage_returns_to_the_row_before() {
    let mut state = started();
    report(&mut state, 2, "StopFailure");
    report(&mut state, 3, "Notification");
    state.pipe(NAV_MODE_PIPE, None, Sender::Keybind, Some((0, PaneId::Terminal(1))));
    char_key(&mut state, 't');
    assert_eq!(state.highlighted_pane(), Some(2));
    char_key(&mut state, 'j');
    assert_eq!(state.highlighted_pane(), Some(3));
    char_key(&mut state, 'G');
    char_key(&mut state, 'g');
    assert_eq!(state.highlighted_pane(), Some(2));
    press(&mut state, BareKey::Esc);
    assert!(state.nav.triage.is_none());
    assert!(state.nav.nav_mode);
    assert_eq!(selected(&state), Some(1));
}

#[test]
fn triage_jumps_to_the_pane_under_the_cursor() {
    let mut state = started();
    report(&mut state, 3, "Notification");
    state.pipe(NAV_MODE_PIPE, None, Sender::Keybind, Some((0, PaneId::Terminal(1))));
    char_key(&mut state, 't');
    state.calls.clear();
    press(&mut state, BareKey::Enter);
    assert_eq!(focused_panes(&state).last(), Some(&(3, true)));
    assert!(!state.nav.nav_mode);
}

// --- marks ---

#[test]
fn marks_come_and_go() {
    let mut state = browsing();
    char_key(&mut state, 'm');
    assert!(state.is_marked(1));
    char_key(&mut state, 'm');
    assert!(!state.is_marked(1));
    char_key(&mut state, 'm');
    char_key(&mut state, 'G');
    char_key(&mut state, 'm');
    assert_eq!(state.marked_in_tree_order(), vec![1, 3]);
    assert_eq!(state.mark_dump(), "1,3");
    // Marks survive leaving nav mode.
    press(&mut state, BareKey::Esc);
    assert_eq!(state.marked_in_tree_order(), vec![1, 3]);
    let mut sibling = started();
    assert!(sibling.pipe(MARK_PIPE, Some("1,3"), Sender::Plugin(100), None));
    assert_eq!(sibling.mark_dump(), "1,3");
    assert!(!sibling.pipe(MARK_PIPE, Some("3,1"), Sender::Plugin(100), None));
    assert!(sibling.pipe(MARK_PIPE, Some(""), Sender::Plugin(100), None));
    assert_eq!(sibling.mark_dump(), "");
}

#[test]
fn closing_a_pane_drops_its_mark_alone() {
    let mut state = started();
    state.list.marked = [1, 3].into_iter().collect();
    let mut rest = panes();
    rest.tabs[1].panes.pop();
    state.update(Event::PaneUpdate(rest), quiet());
    assert_eq!(state.marked_in_tree_order(), vec![1]);
    assert!(!state.is_marked(3));
}

#[test]
fn clearing_marks_clears_them_all() {
    let mut state = browsing();
    state.list.marked = [1, 2].into_iter().collect();
    char_key(&mut state, 'M');
    assert!(state.list.marked.is_empty());
}

// --- termination ---

#[test]
fn termination_ends_the_selected_pane() {
    let mut state = browsing();
    char_key(&mut state, 'd');
    assert_eq!(state.termination_plan(), vec![1]);
    assert_eq!(state.termination_marked_count(), 0);
    state.calls.clear();
    char_key(&mut state, 'x');
    assert!(asked(&state, "SendSigkill(Terminal(1))"));
    assert!(asked(&state, "ClosePane(Terminal(1))"));
    assert!(state.nav.termination.is_none());
}

#[test]
fn termination_ends_the_marked_panes_and_clears_the_marks() {
    let mut state = browsing();
    state.list.marked = [2, 3].into_iter().collect();
    char_key(&mut state, 'd');
    assert_eq!(state.termination_marked_count(), 2);
    state.calls.clear();
    char_key(&mut state, 'c');
    assert!(asked(&state, "ClosePane(Terminal(2))"));
    assert!(asked(&state, "ClosePane(Terminal(3))"));
    assert!(!asked(&state, "ClosePane(Terminal(1))"));
    assert!(!asked(&state, "SendSigkill(Terminal(2))"));
    assert!(state.list.marked.is_empty());
}

#[test]
fn cancelling_ends_nothing_and_keeps_the_marks() {
    let mut state = browsing();
    state.list.marked = [2].into_iter().collect();
    char_key(&mut state, 'd');
    state.calls.clear();
    press(&mut state, BareKey::Esc);
    assert!(state.nav.termination.is_none());
    assert!(state.nav.nav_mode);
    assert!(state.is_marked(2));
    assert!(state.calls.is_empty());
}

#[test]
fn keys_of_the_prompt() {
    assert_eq!(Termination::from_key(BareKey::Char('c')), Some(Termination::Close));
    assert_eq!(Termination::from_key(BareKey::Char('k')), Some(Termination::Kill));
    assert_eq!(Termination::from_key(BareKey::Char('x')), Some(Termination::KillThenClose));
    assert_eq!(Termination::from_key(BareKey::Char('y')), None);
    assert_eq!(Termination::Close.effects(), (false, true));
    assert_eq!(Termination::Kill.effects(), (true, false));
    assert_eq!(Termination::KillThenClose.effects(), (true, true));
}

#[test]
fn without_panes_the_prompt_does_not_open() {
    let mut state = State::default();
    state.enter_termination();
    assert!(state.nav.termination.is_none());
}

// --- preview ---

#[test]
fn the_preview_follows_the_selection() {
    let mut state = browsing();
    char_key(&mut state, 'p');
    let opening = state.calls.iter().any(|call| {
        matches!(call, HostCall::OpenFloating(url, _, _, Opening::Preview) if url == URL)
    });
    assert!(opening);
    state.calls.clear();
    state.preview_opened(Some(PaneId::Plugin(200)));
    assert!(asked(&state, "SendSnapshot(1, 200, \"editor\")"));
    assert!(asked(&state, "FocusPluginPane(100)"));
    assert!(state.is_preview_pane(200));
    state.calls.clear();
    char_key(&mut state, 'j');
    assert!(asked(&state, "SendSnapshot(2, 200, \"server\")"));
    assert!(focused_panes(&state).is_empty());
    char_key(&mut state, 'p');
    assert!(asked(&state, "ClosePluginPane(200)"));
    assert!(state.nav.preview.is_none());
}

#[test]
fn leaving_nav_mode_closes_the_preview() {
    let mut state = browsing();
    char_key(&mut state, 'p');
    state.preview_opened(Some(PaneId::Plugin(200)));
    state.calls.clear();
    press(&mut state, BareKey::Esc);
    assert!(asked(&state, "ClosePluginPane(200)"));
    assert!(state.nav.preview.is_none());
}

#[test]
fn only_the_read_key_marks_a_previewed_pane_as_read() {
    let mut state = started();
    report(&mut state, 2, "Stop");
    state.pipe(NAV_MODE_PIPE, None, Sender::Keybind, Some((0, PaneId::Terminal(1))));
    char_key(&mut state, 'p');
    state.preview_opened(Some(PaneId::Plugin(200)));
    char_key(&mut state, 'j');
    assert!(state.has_unread(2));
    char_key(&mut state, 'r');
    assert!(!state.has_unread(2));
    assert!(state.nav.nav_mode);
    // Without a preview the key has no meaning.
    char_key(&mut state, 'p');
    char_key(&mut state, 'r');
    assert!(!state.nav.nav_mode);
}

#[test]
fn a_snapshot_arrives_as_it_was_sent() {
    let mut preview = State::default();
    preview.load(&vec![("preview".to_string(), "true".to_string())], 200);
    preview.update(Event::Permission(true), quiet());
    assert!(asked(&preview, "RenamePluginPane(200, \"▣ preview\")"));
    let rows = vec!["first".to_string(), "second".to_string(), "".to_string()];
    let payload = snapshot_payload("server", &Some(rows));
    assert!(preview.pipe(PREVIEW_PIPE, Some(&payload), Sender::Plugin(100), None));
    assert_eq!(preview.screen.preview_content.title, "server");
    assert_eq!(preview.preview_body(10), (0, 2));
    assert_eq!(preview.preview_body(1), (1, 2));
    // A carriage return inside a row, or at the end of the last one, stays.
    let rows = vec!["a\rb".to_string(), "c\r".to_string()];
    let odd = snapshot_payload("server", &Some(rows));
    preview.pipe(PREVIEW_PIPE, Some(&odd), Sender::Plugin(100), None);
    assert_eq!(preview.screen.preview_content.lines, vec!["a\rb", "c\r"]);
    let gone = snapshot_payload("server", &None);
    preview.pipe(PREVIEW_PIPE, Some(&gone), Sender::Plugin(100), None);
    assert_eq!(preview.screen.preview_content.lines, vec!["(scrollback unavailable)"]);
    // A preview takes part in nothing else.
    assert!(!preview.pipe(SELECTION_PIPE, Some("2"), Sender::Plugin(100), None));
    assert!(!preview.update(Event::Visible(true), quiet()));
    assert!(!preview.me.visible);
    // A sidebar takes no snapshots.
    let mut state = started();
    assert!(!state.pipe(PREVIEW_PIPE, Some(&payload), Sender::Plugin(100), None));
}

// --- clicks ---

#[test]
fn a_click_on_a_pane_jumps_to_it() {
    let mut state = started();
    state.render(20, 32);
    // Rows: line, header, line, tab, pane 1, pane 2, tab, pane 3.
    assert_eq!(state.pane_at_row(4), Some(1));
    assert_eq!(state.pane_at_row(7), Some(3));
    state.calls.clear();
    assert!(state.update(Event::LeftClick(7), quiet()));
    assert_eq!(selected(&state), Some(3));
    assert_eq!(focused_panes(&state), vec![(3, true)]);
}

#[test]
fn a_click_elsewhere_does_nothing() {
    let mut state = started();
    state.render(20, 32);
    state.calls.clear();
    for line in [-1, 0, 1, 2, 3, 6, 8, 15, 17, 18, 19, 20, 100] {
        assert!(!state.update(Event::LeftClick(line), quiet()), "{}", line);
    }
    assert!(state.calls.is_empty());
    assert_eq!(selected(&state), Some(1));
}

#[test]
fn a_click_in_nav_mode_leaves_it() {
    let mut state = browsing();
    state.render(20, 32);
    state.calls.clear();
    assert!(state.update(Event::LeftClick(5), quiet()));
    assert!(!state.nav.nav_mode);
    assert_eq!(focused_panes(&state).last(), Some(&(2, false)));
}
