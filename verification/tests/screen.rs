use fujin::deploy::{
    detect_new_agent, flight_frames, landing_column, Deployment,
};
use fujin::footer::{fit_hint, join_direct_keys, shared_modifiers, split_modifiers, termination_prompt};
use fujin::help::{help_key_pad, HelpRow};
use fujin::host::{
    BareKey, HostCall, Key, PaneId, PaneInfo, PaneManifest, Resize, Sender, TabInfo, TabPanes,
};
use fujin::line::{compose, divider_line, Decoration, Ink, Line};
use fujin::plugin::{Answers, Event};
use fujin::scroll::{reconcile_scroll, rows_shown};
use fujin::state::State;
use fujin::wire::{NAV_MODE_PIPE, STATUS_PIPE, TOGGLE_CWD_PIPE, WIDTH_PIPE};

const URL: &str = "file:/plugins/fujin.wasm";

fn quiet() -> Answers {
    Answers { focus: None, floating: false, plugin_url: None }
}

fn terminal(id: u32, title: &str) -> PaneInfo {
    PaneInfo {
        id,
        is_plugin: false,
        is_focused: false,
        is_floating: false,
        is_suppressed: false,
        title: title.to_string(),
        exited: false,
        exit_status: None,
        terminal_command: None,
        plugin_url: None,
    }
}

fn instance(id: u32) -> PaneInfo {
    PaneInfo { is_plugin: true, plugin_url: Some(URL.to_string()), ..terminal(id, "fujin") }
}

fn tab(position: usize, name: &str, active: bool) -> TabInfo {
    TabInfo { position, name: name.to_string(), active, are_floating_panes_visible: false }
}

fn started_with(configuration: &[(&str, &str)], panes: Vec<PaneInfo>) -> State {
    let mut state = State::default();
    let entries = configuration.iter().map(|(k, v)| (k.to_string(), v.to_string())).collect();
    state.load(&entries, 100);
    state.update(Event::Permission(true), quiet());
    state.update(Event::TabUpdate(vec![tab(0, "code", true)]), quiet());
    let manifest = PaneManifest { tabs: vec![TabPanes { position: 0, panes }] };
    let answers =
        Answers { focus: Some((0, PaneId::Terminal(1))), floating: false, plugin_url: None };
    state.update(Event::PaneUpdate(manifest), answers);
    state.calls.clear();
    state
}

fn started() -> State {
    started_with(&[], vec![instance(100), terminal(1, "editor"), terminal(2, "server")])
}

fn browse(state: &mut State) {
    state.pipe(NAV_MODE_PIPE, None, Sender::Keybind, Some((0, PaneId::Terminal(1))));
}

fn press(state: &mut State, bare: BareKey) {
    state.update(Event::InterceptedKeyPress(Key::plain(bare)), quiet());
}

fn report(state: &mut State, pane_id: u32, event: &str, more: &str) {
    let payload = format!("{{\"pane_id\":{},\"event\":\"{}\"{}}}", pane_id, event, more);
    state.pipe(STATUS_PIPE, Some(&payload), Sender::Keybind, None);
}

fn texts(lines: &[Option<Line>]) -> Vec<String> {
    lines
        .iter()
        .map(|line| match line {
            Some(line) => line.content().trim_end().to_string(),
            None => String::new(),
        })
        .collect()
}

fn decorations(line: &Line) -> Vec<String> {
    line.decorations.iter().map(|d| format!("{:?}", d)).collect()
}

// --- the frame ---

#[test]
fn the_sidebar_is_a_fixed_frame_around_the_tree() {
    let mut state = started();
    let lines = state.render(10, 12);
    assert_eq!(
        texts(&lines),
        vec![
            "──────────",
            "▲ fujin",
            "──────────",
            "▾ 1 code",
            "▌ › editor",
            "  › server",
            "",
            "──────────",
            "",
            "",
        ]
    );
}

#[test]
fn the_frame_stays_in_every_mode() {
    for keys in ["", "/", "n", "t", "d", "?"] {
        let mut state = started();
        browse(&mut state);
        for c in keys.chars() {
            press(&mut state, BareKey::Char(c));
        }
        let lines = texts(&state.render(12, 32));
        assert_eq!(lines.len(), 12, "{}", keys);
        assert!(lines[1].starts_with("▲ fujin"), "{}", keys);
        assert!(lines[0].starts_with("──") && lines[2].starts_with("──"), "{}", keys);
        assert!(lines[9].starts_with("──"), "{}", keys);
        assert_ne!(lines[10], "", "{}", keys);
        assert_eq!(lines[11], "", "{}", keys);
    }
}

#[test]
fn without_permissions_there_is_only_a_notice() {
    let mut state = State::default();
    state.load(&vec![], 100);
    assert_eq!(texts(&state.render(10, 32)), vec!["permissions required (press y)"]);
    state.update(Event::Permission(false), quiet());
    assert_eq!(texts(&state.render(10, 32)), vec!["permissions required (press y)"]);
}

#[test]
fn a_low_screen_shows_what_fits() {
    let mut state = started();
    assert_eq!(state.render(0, 32).len(), 0);
    assert_eq!(state.render(4, 32).len(), 4);
    assert_eq!(state.render(6, 32).len(), 6);
    assert_eq!(state.render(7, 32).len(), 7);
}

#[test]
fn the_header_tells_the_mode() {
    let mut state = started();
    assert_eq!(state.header_line(32).content(), "▲ fujin");
    browse(&mut state);
    assert_eq!(state.header_line(32).content(), "▲ fujin  [nav]");
    assert_eq!(
        decorations(&state.header_line(32)),
        vec!["Color(2, 0, 1)", "Dim(1, 7)", "Color(2, 9, 14)"]
    );
    press(&mut state, BareKey::Char('t'));
    assert_eq!(state.header_line(32).content(), "▲ fujin  [tri]");
    assert_eq!(decorations(&state.header_line(32))[0], "Color(0, 0, 1)");
    press(&mut state, BareKey::Esc);
    press(&mut state, BareKey::Char('d'));
    assert_eq!(decorations(&state.header_line(32))[0], "Color(6, 0, 1)");
}

#[test]
fn the_footer_tells_what_can_be_done() {
    let mut state = started();
    browse(&mut state);
    assert_eq!(state.footer_line(32).content(), "  ?:help  esc:exit");
    press(&mut state, BareKey::Char('?'));
    assert_eq!(state.footer_line(32).content(), "  press any key to close");
    press(&mut state, BareKey::Esc);
    press(&mut state, BareKey::Char('t'));
    assert_eq!(state.footer_line(32).content(), "  ?:help  esc:back");
    press(&mut state, BareKey::Esc);
    press(&mut state, BareKey::Char('d'));
    assert_eq!(state.footer_line(32).content(), "  c:close k:kill x:kill+close");
    press(&mut state, BareKey::Esc);
    press(&mut state, BareKey::Char('/'));
    press(&mut state, BareKey::Char('a'));
    assert_eq!(state.footer_line(32).content(), "  /a    esc:browse  enter:jump");
    press(&mut state, BareKey::Esc);
    assert_eq!(state.footer_line(32).content(), "  /a  j/k:move  ?:help  i:edit");
    press(&mut state, BareKey::Esc);
    press(&mut state, BareKey::Char('n'));
    assert_eq!(state.footer_line(32).content(), format!("  n {}?:help", " ".repeat(20)));
}

// --- rows ---

#[test]
fn a_row_shows_state_and_counters() {
    let mut state = started();
    report(&mut state, 1, "UserPromptSubmit", "");
    report(&mut state, 1, "SubagentStart", "");
    report(&mut state, 2, "TaskCreated", "");
    report(&mut state, 2, "Stop", "");
    let lines = texts(&state.render(12, 32));
    assert_eq!(lines[4], format!("▌ » editor{}+1", " ".repeat(14)));
    assert_eq!(lines[5], format!("  ● server{}[1]", " ".repeat(17)));
}

#[test]
fn a_long_name_leaves_room_for_the_counters() {
    let long = "a very long name for a single pane";
    let mut state = started_with(&[], vec![instance(100), terminal(1, long), terminal(2, "b")]);
    report(&mut state, 1, "SubagentStart", "");
    let lines = texts(&state.render(12, 32));
    assert!(lines[4].ends_with("… +1"), "{}", lines[4]);
    assert_eq!(lines[4].chars().count(), 30);
}

#[test]
fn a_floating_pane_stands_in_brackets() {
    let floating = PaneInfo { is_floating: true, ..terminal(2, "notes") };
    let mut state = started_with(&[], vec![instance(100), terminal(1, "editor"), floating]);
    assert_eq!(texts(&state.render(12, 32))[5], "  › (notes)");
}

#[test]
fn marks_have_a_column_only_where_there_are_some() {
    let mut state = started();
    assert_eq!(texts(&state.render(12, 32))[5], "  › server");
    state.list.marked.insert(2);
    let lines = texts(&state.render(12, 32));
    assert_eq!(lines[4], "▌   › editor");
    assert_eq!(lines[5], "  ✓ › server");
}

#[test]
fn numbers_stand_in_front_while_a_number_is_typed() {
    let mut state = started();
    browse(&mut state);
    press(&mut state, BareKey::Char('n'));
    let lines = texts(&state.render(12, 32));
    assert_eq!(lines[4], "▌ 1 › editor");
    assert_eq!(lines[5], "  2 › server");
}

#[test]
fn the_selected_row_fills_the_width() {
    let mut state = started();
    let lines = state.render(12, 32);
    let row = lines[4].as_ref().expect("a row");
    assert_eq!(row.content().chars().count(), 32);
    assert_eq!(decorations(row), vec!["Opaque", "Color(2, 0, 1)"]);
    let other = lines[5].as_ref().expect("a row");
    assert_eq!(decorations(other), vec!["Unbold(4, 10)"]);
}

#[test]
fn directories_are_shown_under_agents() {
    let mut state = started_with(
        &[("show_cwd", "true")],
        vec![instance(100), terminal(1, "editor"), terminal(2, "server")],
    );
    report(&mut state, 2, "UserPromptSubmit", ",\"cwd\":\"/home/me/work\"");
    let lines = texts(&state.render(14, 32));
    assert_eq!(lines[5], "  » server");
    assert_eq!(lines[6], "      /home/me/work");
    // Once the agent has left, the directory goes.
    report(&mut state, 2, "SessionEnd", "");
    assert_eq!(texts(&state.render(14, 32))[6], "");
}

#[test]
fn the_home_directory_can_be_shortened() {
    let mut state = started_with(
        &[("show_cwd", "true"), ("show_cwd_tilde", "true")],
        vec![instance(100), terminal(1, "editor"), terminal(2, "server")],
    );
    state.config.home = Some("/home/me".to_string());
    report(&mut state, 2, "UserPromptSubmit", ",\"cwd\":\"/home/me/work\"");
    assert_eq!(texts(&state.render(14, 32))[6], "      ~/work");
    report(&mut state, 2, "UserPromptSubmit", ",\"cwd\":\"/home/meow\"");
    assert_eq!(texts(&state.render(14, 32))[6], "      /home/meow");
    report(&mut state, 2, "UserPromptSubmit", ",\"cwd\":\"/home/me\"");
    assert_eq!(texts(&state.render(14, 32))[6], "      ~");
}

#[test]
fn a_hit_in_a_shortened_directory_is_coloured_where_it_is_now() {
    let mut state = started_with(
        &[("show_cwd_tilde", "true")],
        vec![instance(100), terminal(1, "editor"), terminal(2, "server")],
    );
    state.config.home = Some("/home/me".to_string());
    report(&mut state, 2, "UserPromptSubmit", ",\"cwd\":\"/home/me/work\"");
    browse(&mut state);
    press(&mut state, BareKey::Char('/'));
    for c in "work".chars() {
        press(&mut state, BareKey::Char(c));
    }
    let lines = state.render(14, 32);
    assert_eq!(texts(&lines)[5], "▌     ~/work");
    let row = lines[5].as_ref().expect("a row");
    assert!(decorations(row).contains(&"ColorIndices(1, [8, 9, 10, 11])".to_string()));
    // What lies in the home directory is not seen.
    for _ in 0..4 {
        press(&mut state, BareKey::Backspace);
    }
    for c in "home".chars() {
        press(&mut state, BareKey::Char(c));
    }
    let lines = state.render(14, 32);
    assert_eq!(texts(&lines)[5], "▌     ~/work");
    let row = lines[5].as_ref().expect("a row");
    assert!(!decorations(row).iter().any(|d| d.starts_with("ColorIndices")));
}

#[test]
fn the_directory_rows_are_switched_by_a_message() {
    let mut state = started();
    report(&mut state, 2, "UserPromptSubmit", ",\"cwd\":\"/w\"");
    assert!(state.pipe(TOGGLE_CWD_PIPE, None, Sender::Keybind, None));
    assert_eq!(texts(&state.render(14, 32))[6], "      /w");
    assert!(!state.pipe(TOGGLE_CWD_PIPE, Some("true"), Sender::Keybind, None));
    assert!(state.pipe(TOGGLE_CWD_PIPE, Some("false"), Sender::Keybind, None));
    assert!(!state.pipe(TOGGLE_CWD_PIPE, Some("maybe"), Sender::Keybind, None));
    assert_eq!(texts(&state.render(14, 32))[6], "");
}

#[test]
fn a_pane_without_a_name_shows_its_directory() {
    let mut state = started_with(&[], vec![instance(100), terminal(1, "editor"), terminal(2, " ")]);
    assert_eq!(texts(&state.render(12, 32))[5], "  ›");
    report(&mut state, 2, "UserPromptSubmit", ",\"cwd\":\"/home/me/work\"");
    assert_eq!(texts(&state.render(12, 32))[5], "  » /home/me/work");
}

#[test]
fn a_hit_is_coloured_where_it_is() {
    let mut state = started();
    browse(&mut state);
    press(&mut state, BareKey::Char('/'));
    for c in "ser".chars() {
        press(&mut state, BareKey::Char(c));
    }
    let lines = state.render(12, 32);
    assert_eq!(texts(&lines)[4], "▌ › server");
    let row = lines[4].as_ref().expect("a row");
    assert!(decorations(row).contains(&"ColorIndices(1, [4, 5, 6])".to_string()));
    // A search without a hit says so.
    press(&mut state, BareKey::Char('z'));
    assert_eq!(texts(&state.render(12, 32))[3], "  no matches");
}

#[test]
fn a_hit_in_a_tab_name_is_coloured_in_its_heading() {
    let mut state = started();
    browse(&mut state);
    press(&mut state, BareKey::Char('/'));
    for c in "cod".chars() {
        press(&mut state, BareKey::Char(c));
    }
    let lines = state.render(12, 32);
    let heading = lines[3].as_ref().expect("a heading");
    assert_eq!(heading.content(), "▾ 1 code");
    assert_eq!(decorations(heading), vec!["Color(0, 0, 8)", "ColorIndices(1, [4, 5, 6])"]);
}

#[test]
fn triage_rows_name_their_tab() {
    let mut state = started();
    report(&mut state, 2, "Notification", "");
    browse(&mut state);
    press(&mut state, BareKey::Char('t'));
    let lines = texts(&state.render(12, 32));
    assert!(lines[3].starts_with("▌ ") && lines[3].contains("server"), "{}", lines[3]);
    assert!(lines[3].ends_with("code"), "{}", lines[3]);
    report(&mut state, 2, "SessionStart", "");
    assert_eq!(texts(&state.render(12, 32))[3], "  nothing to triage");
}

#[test]
fn the_help_lines_up() {
    let mut state = started();
    browse(&mut state);
    press(&mut state, BareKey::Char('d'));
    press(&mut state, BareKey::Char('?'));
    let column = state
        .help_lines()
        .iter()
        .filter_map(|row| match row {
            HelpRow::Entry(keys, _) => Some(keys.chars().count()),
            _ => None,
        })
        .max()
        .expect("keys")
        + 2;
    for row in state.help_lines() {
        if let HelpRow::Entry(keys, text) = row {
            let line = state.help_line(&row, 80);
            let start = 2 + column;
            let shown: String = line.content().chars().skip(start).collect();
            assert_eq!(shown, text);
            assert_eq!(help_key_pad(keys, column), column - keys.chars().count());
        }
    }
    assert_eq!(help_key_pad("longer than the column", 4), 1);
}

// --- scrolling ---

#[test]
fn a_list_that_fits_is_not_scrolled() {
    assert_eq!(reconcile_scroll(5, 5, 3, Some((4, 4))), 0);
    assert_eq!(reconcile_scroll(5, 0, 3, None), 0);
    assert_eq!(rows_shown(5, 5, 0), 5);
}

#[test]
fn the_anchor_is_pulled_onto_the_screen() {
    // Ten rows on a screen of five.
    let scroll = reconcile_scroll(10, 5, 0, Some((7, 7)));
    assert!(scroll <= 7 && 7 < scroll + rows_shown(10, 5, scroll));
    assert_eq!(reconcile_scroll(10, 5, scroll, Some((0, 0))), 0);
    // Markers take a row each.
    assert_eq!(rows_shown(10, 5, 0), 4);
    assert_eq!(rows_shown(10, 5, 3), 3);
    assert_eq!(rows_shown(10, 5, 6), 4);
}

#[test]
fn a_marker_never_hides_a_single_row() {
    for len in 0..20 {
        for area in 0..10 {
            for scroll in 0..20 {
                for at in 0..len {
                    assert_ne!(reconcile_scroll(len, area, scroll, Some((at, at))), 1);
                }
            }
        }
    }
}

#[test]
fn hidden_rows_are_announced() {
    let mut panes = vec![instance(100)];
    for id in 1..=12 {
        panes.push(terminal(id, &format!("pane {}", id)));
    }
    let mut state = started_with(&[], panes);
    let lines = texts(&state.render(12, 32));
    assert_eq!(lines[3], "▾ 1 code");
    assert_eq!(lines[8], "▾ … 8 more");
    browse(&mut state);
    press(&mut state, BareKey::Char('G'));
    let lines = texts(&state.render(12, 32));
    assert_eq!(lines[3], "▴ … 8 more");
    assert_eq!(lines[8], "▌ › pane 12");
}

// --- pieces of lines ---

#[test]
fn a_line_is_put_together_from_pieces() {
    let line = compose(&vec![("ab", Ink::Key), (" ", Ink::Plain), ("cdef", Ink::Muted)], 20);
    assert_eq!(line.content(), "ab cdef");
    assert_eq!(decorations(&line), vec!["Color(2, 0, 2)", "Dim(3, 7)"]);
    // The mark of a cut is nobody's.
    let line = compose(&vec![("ab", Ink::Tag), ("cdef", Ink::Accent(6))], 4);
    assert_eq!(line.content(), "abc…");
    assert_eq!(decorations(&line), vec!["Color(3, 0, 2)", "Color(6, 2, 3)"]);
    assert_eq!(divider_line(6).content(), "────");
    assert!(matches!(divider_line(6).decorations[0], Decoration::Dim(0, 4)));
}

#[test]
fn keys_are_parted_into_modifiers_and_the_bare_key() {
    let parts = |key: &str| split_modifiers(key);
    assert_eq!(parts("alt+u"), Some(("alt".to_string(), "u".to_string())));
    assert_eq!(parts("ctrl+shift+p"), Some(("ctrl+shift".to_string(), "p".to_string())));
    assert_eq!(parts("alt++"), Some(("alt".to_string(), "+".to_string())));
    assert_eq!(parts("pgup"), None);
    assert_eq!(parts(""), None);
    assert_eq!(shared_modifiers(&vec![("alt+u", "up")]), None);
    assert_eq!(
        shared_modifiers(&vec![("alt+u", "up"), ("alt+d", "down")]),
        Some("alt".to_string())
    );
    assert_eq!(shared_modifiers(&vec![("ctrl+g", "up"), ("ctrl+shift+p", "down")]), None);
    assert_eq!(join_direct_keys(&vec![("alt+u", "up"), ("f1", "jump")]), "alt+u:up  f1:jump");
    assert_eq!(join_direct_keys(&vec![]), "");
}

#[test]
fn hints_are_dropped_from_the_end() {
    let hints = vec!["esc:browse", "enter:jump"];
    assert_eq!(fit_hint(&hints, 23), "esc:browse  enter:jump");
    assert_eq!(fit_hint(&hints, 22), "esc:browse");
    assert_eq!(fit_hint(&hints, 10), "");
}

#[test]
fn the_prompt_counts_the_panes() {
    assert_eq!(termination_prompt(0, 28), "c:close k:kill x:kill+close");
    assert_eq!(termination_prompt(0, 26), "c k x");
    assert_eq!(termination_prompt(1, 40), "1 pane  c:close k:kill x:kill+close");
    assert_eq!(termination_prompt(3, 40), "3 panes  c:close k:kill x:kill+close");
    assert_eq!(termination_prompt(3, 28), "3 panes  c k x");
}

// --- the text cursor ---

#[test]
fn the_cursor_stands_behind_the_input() {
    let mut state = started();
    browse(&mut state);
    state.render(12, 32);
    assert_eq!(state.input_cursor_position(), None);
    press(&mut state, BareKey::Char('/'));
    assert_eq!(state.input_cursor_position(), Some((3, 10)));
    state.calls.clear();
    press(&mut state, BareKey::Char('検'));
    assert_eq!(state.input_cursor_position(), Some((5, 10)));
    assert!(state
        .calls
        .iter()
        .any(|call| matches!(call, HostCall::ShowCursor(Some((5, 10))))));
    // It never leaves the columns that take text.
    for _ in 0..40 {
        press(&mut state, BareKey::Char('x'));
    }
    assert_eq!(state.input_cursor_position(), Some((29, 10)));
    press(&mut state, BareKey::Esc);
    press(&mut state, BareKey::Esc);
    assert_eq!(state.input_cursor_position(), None);
    assert!(matches!(state.calls.last(), Some(HostCall::ShowCursor(None))));
}

// --- previews ---

#[test]
fn a_preview_shows_heading_line_and_text() {
    let mut preview = State::default();
    preview.load(&vec![("preview".to_string(), "true".to_string())], 200);
    assert_eq!(preview.render(5, 20).len(), 0);
    preview.update(Event::Permission(true), quiet());
    assert_eq!(texts(&preview.render(5, 20)), vec!["  preview", "──────────────────"]);
    preview.apply_preview_snapshot("server\none\ntwo\nthree\nfour\n\n");
    assert_eq!(
        texts(&preview.render(5, 20)),
        vec!["  server", "──────────────────", "two", "three", "four"]
    );
    assert_eq!(texts(&preview.render(1, 20)), vec!["  server"]);
}

// --- the deployment ---

#[test]
fn troops_march_and_line_up() {
    assert_eq!(landing_column(0, 8, 30), Some(29));
    assert_eq!(landing_column(1, 8, 30), Some(27));
    assert_eq!(landing_column(11, 8, 30), None);
    assert_eq!(flight_frames(0, 8, 30), Some(11));
    let mut march = Deployment::new(2);
    assert_eq!(march.columns(8, 30), vec![8]);
    march.advance();
    march.advance();
    assert_eq!(march.columns(8, 30), vec![8, 12]);
    march.reinforce(1);
    assert_eq!(march.troops, 3);
    while march.frame < march.last_frame(8, 30) {
        assert!(!march.is_over(8, 30));
        march.advance();
    }
    assert_eq!(march.columns(8, 30), vec![25, 27, 29]);
    march.advance();
    assert!(march.is_over(8, 30));
}

#[test]
fn only_new_agents_report_for_duty() {
    assert!(detect_new_agent(None));
    assert!(detect_new_agent(Some("startup")));
    assert!(!detect_new_agent(Some("clear")));
    assert!(!detect_new_agent(Some("compact")));
}

#[test]
fn a_new_agent_is_greeted_on_the_screen() {
    let mut state = started();
    state.render(12, 32);
    let here = Some((0, PaneId::Terminal(1)));
    let payload = "{\"pane_id\":1,\"event\":\"SessionStart\",\"source\":\"startup\"}";
    state.pipe(STATUS_PIPE, Some(payload), Sender::Cli, here);
    assert_eq!(state.clock.deployment, Some(Deployment::new(1)));
    assert!(state.clock.timer_armed);
    assert_eq!(state.header_line(32).content(), "▲ fujin ▵");
    assert!(state.update(Event::Timer(150_000), quiet()));
    assert_eq!(state.header_line(32).content(), "▲ fujin   ▵");
    let mut frames = 0;
    while state.clock.deployment.is_some() {
        state.update(Event::Timer(150_000), quiet());
        frames += 1;
        assert!(frames < 100);
    }
    assert_eq!(state.header_line(32).content(), "▲ fujin");
    assert!(!state.clock.timer_armed);
    // In another tab nothing is played.
    state.pipe(STATUS_PIPE, Some(payload), Sender::Cli, Some((5, PaneId::Terminal(1))));
    assert_eq!(state.clock.deployment, None);
}

#[test]
fn the_animation_can_be_switched_off() {
    let mut state = started_with(
        &[("show_deploy_animation", "false")],
        vec![instance(100), terminal(1, "editor")],
    );
    state.begin_deployment(1);
    assert_eq!(state.clock.deployment, None);
}

// --- the width ---

#[test]
fn a_resize_is_told_to_the_siblings() {
    let mut state = started();
    state.me.known_siblings.insert(101);
    state.render(12, 32);
    state.calls.clear();
    state.render(12, 40);
    assert_eq!(state.width.width_target, Some(40));
    assert!(state.calls.iter().any(|call| matches!(
        call,
        HostCall::PipeMessageToPlugin(name, 101, payload)
            if *name == WIDTH_PIPE && payload == "40"
    )));
}

#[test]
fn an_instance_follows_the_width_step_by_step() {
    let mut state = started();
    state.render(12, 32);
    assert!(state.pipe(WIDTH_PIPE, Some("40"), Sender::Plugin(101), None));
    state.calls.clear();
    state.render(12, 32);
    assert!(matches!(
        state.calls.last(),
        Some(HostCall::ResizePane(Resize::Increase, PaneId::Plugin(100)))
    ));
    // Nothing more is asked until the step shows.
    state.calls.clear();
    state.render(12, 32);
    assert!(state.calls.is_empty());
    state.render(12, 36);
    assert_eq!(state.calls.len(), 1);
    state.calls.clear();
    state.render(12, 40);
    assert!(state.calls.is_empty());
    assert_eq!(state.width.width_target, Some(40));
    assert!(!state.pipe(WIDTH_PIPE, Some("40"), Sender::Plugin(101), None));
    assert!(!state.pipe(WIDTH_PIPE, Some("0"), Sender::Plugin(101), None));
}
