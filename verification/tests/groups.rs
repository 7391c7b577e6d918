use fujin::formation::FormationPrompt;
use fujin::help::HelpRow;
use fujin::host::{BareKey, Key};
use fujin::state::{Selectable, State};

fn listed() -> State {
    let mut state = State::default();
    for id in 1..=4 {
        state.list.selectable.push(Selectable {
            tab_position: 0,
            pane_id: id,
            title: format!("pane {}", id),
            is_floating: false,
        });
    }
    state.nav.nav_mode = true;
    state
}

fn press(state: &mut State, bare: BareKey) -> bool {
    state.handle_formation_prompt_key(Key::plain(bare))
}

fn enter_name(state: &mut State, name: &str) {
    for c in name.chars() {
        press(state, BareKey::Char(c));
    }
    press(state, BareKey::Enter);
}

fn grouped(name: &str, panes: &[u32]) -> State {
    let mut state = listed();
    state.list.marked = panes.iter().copied().collect();
    state.begin_formation_add();
    enter_name(&mut state, name);
    state.list.marked.clear();
    state
}

fn members(state: &State, id: u32) -> Vec<u32> {
    state.formation_members(id).iter().map(|e| e.pane_id).collect()
}

#[test]
fn the_first_formation_is_named_at_once() {
    let state = grouped("alpha", &[1, 3]);
    assert!(state.nav.formation_prompt.is_none());
    assert_eq!(state.groups.formations.len(), 1);
    let formation = &state.groups.formations[0];
    assert_eq!(formation.name, "alpha");
    assert_eq!(members(&state, formation.id), vec![1, 3]);
    assert_eq!(state.formation_of(3), Some(formation.id));
    assert_eq!(state.formation_of(2), None);
}

#[test]
fn later_panes_pick_a_formation_or_name_a_new_one() {
    let mut state = grouped("alpha", &[1]);
    let alpha = state.groups.formations[0].id;
    state.list.selected = 1;
    state.begin_formation_add();
    assert!(matches!(state.nav.formation_prompt, Some(FormationPrompt::Pick(_))));
    press(&mut state, BareKey::Char('1'));
    assert_eq!(members(&state, alpha), vec![1, 2]);
    state.list.selected = 2;
    state.begin_formation_add();
    press(&mut state, BareKey::Char('n'));
    enter_name(&mut state, " beta ");
    assert_eq!(state.groups.formations[1].name, "beta");
    let beta = state.groups.formations[1].id;
    assert_ne!(alpha, beta);
    // A digit without a formation is ignored.
    state.begin_formation_add();
    press(&mut state, BareKey::Char('9'));
    assert!(matches!(state.nav.formation_prompt, Some(FormationPrompt::Pick(_))));
    // A pane is in one formation at a time.
    press(&mut state, BareKey::Char('1'));
    assert_eq!(members(&state, alpha), vec![1, 2, 3]);
    assert!(members(&state, beta).is_empty());
}

#[test]
fn a_name_is_used_once_and_is_not_empty() {
    let mut state = grouped("alpha", &[1]);
    state.list.selected = 1;
    state.begin_formation_add();
    press(&mut state, BareKey::Char('n'));
    enter_name(&mut state, "alpha");
    assert!(matches!(state.nav.formation_prompt, Some(FormationPrompt::Name(_, _, true))));
    press(&mut state, BareKey::Backspace);
    assert!(matches!(state.nav.formation_prompt, Some(FormationPrompt::Name(_, _, false))));
    press(&mut state, BareKey::Enter);
    assert_eq!(state.groups.formations[1].name, "alph");
    assert!(state.name_taken("alph", None));
    assert!(!state.name_taken("alph", Some(state.groups.formations[1].id)));
    state.begin_formation_add();
    press(&mut state, BareKey::Char('n'));
    enter_name(&mut state, "  ");
    assert!(state.nav.formation_prompt.is_some());
    press(&mut state, BareKey::Esc);
    assert!(state.nav.formation_prompt.is_none());
    assert_eq!(state.groups.formations.len(), 2);
}

#[test]
fn a_formation_is_renamed() {
    let mut state = grouped("alpha", &[1]);
    state.begin_formation_rename();
    press(&mut state, BareKey::Backspace);
    enter_name(&mut state, "O");
    assert_eq!(state.groups.formations[0].name, "alphO");
}

#[test]
fn control_characters_do_not_get_into_a_name() {
    let state = grouped("a\tb", &[1]);
    assert_eq!(state.groups.formations[0].name, "ab");
}

#[test]
fn a_commander_is_one_of_the_members() {
    let mut state = grouped("alpha", &[1, 2]);
    state.toggle_commander();
    assert_eq!(state.groups.formations[0].commander, Some(1));
    state.toggle_commander();
    assert_eq!(state.groups.formations[0].commander, None);
    state.toggle_commander();
    // Who leaves does not command any more.
    assert!(state.leave_formation(1));
    assert_eq!(state.groups.formations[0].commander, None);
    assert!(!state.leave_formation(1));
    // A pane without a formation commands nothing.
    state.toggle_commander();
    assert_eq!(state.groups.formations[0].commander, None);
    // An empty formation stays.
    state.list.selected = 1;
    state.exclude_from_formation();
    assert_eq!(state.groups.formations.len(), 1);
    assert!(state.groups.assignments.is_empty());
}

#[test]
fn panes_that_are_gone_leave_their_formation() {
    let mut state = grouped("alpha", &[1, 2]);
    state.toggle_commander();
    state.list.selectable.remove(0);
    state.prune_assignments();
    assert_eq!(state.groups.assignments.keys().copied().collect::<Vec<_>>(), vec![2]);
    assert_eq!(state.groups.formations[0].commander, None);
}

#[test]
fn a_carriage_return_in_a_name_travels() {
    let mut state = grouped("alpha", &[1]);
    state.groups.formations[0].name = "a\r".to_string();
    let dump = state.formation_dump();
    let mut other = listed();
    assert!(other.handle_formation_pipe(Some(&dump)));
    assert_eq!(other.groups.formations[0].name, "a\r");
    assert!(other.groups.next_formation_id > other.groups.formations[0].id);
    assert!(!other.handle_formation_pipe(Some(&dump)));
}

#[test]
fn formations_travel_between_instances() {
    let mut state = grouped("alpha", &[1, 2]);
    state.toggle_commander();
    let dump = state.formation_dump();
    let id = state.groups.formations[0].id;
    assert_eq!(dump, format!("F\t{}\talpha\t1\nA\t1\t{}\nA\t2\t{}\n", id, id, id));
    let mut other = listed();
    assert!(other.handle_formation_pipe(Some(&dump)));
    assert_eq!(other.formation_dump(), dump);
    assert_eq!(other.formation(id).map(|f| f.name.as_str()), Some("alpha"));
    assert!(!other.handle_formation_pipe(Some(&dump)));
    assert!(!other.handle_formation_pipe(None));
    // New formations get ids of their own.
    other.list.selected = 2;
    other.begin_formation_add();
    press(&mut other, BareKey::Char('n'));
    enter_name(&mut other, "beta");
    assert_ne!(other.groups.formations[1].id, id);
    // Members of formations that the message does not name are dropped.
    other.apply_formations("A\t4\t77\nrubbish\n");
    assert!(other.groups.assignments.is_empty());
    assert!(other.groups.formations.is_empty());
}

#[test]
fn an_unknown_key_leaves_nav_mode() {
    let mut state = grouped("alpha", &[1]);
    state.list.selected = 1;
    state.begin_formation_add();
    press(&mut state, BareKey::F(1));
    assert!(!state.nav.nav_mode);
    assert!(state.nav.formation_prompt.is_none());
    assert!(!press(&mut state, BareKey::Enter));
}

#[test]
fn the_prompt_has_a_help_of_its_own() {
    let mut state = grouped("alpha", &[1]);
    state.list.selected = 1;
    state.begin_formation_add();
    let rows = state.formation_prompt_help_lines();
    assert!(rows.iter().any(|r| matches!(r, HelpRow::Entry("1-9", "pick formation"))));
    press(&mut state, BareKey::Char('n'));
    let rows = state.formation_prompt_help_lines();
    assert!(rows.iter().any(|r| matches!(r, HelpRow::Entry("type", "formation name"))));
}
