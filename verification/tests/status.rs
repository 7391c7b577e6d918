use fujin::agent::AgentState;
use fujin::command::{CommandState, PaneStatus};
use fujin::host::{HostCall, PaneId, PaneInfo, PaneManifest, Sender, TabInfo, TabPanes};
use fujin::payload::StatusPayload;
use fujin::plugin::{Answers, Event};
use fujin::state::State;
use fujin::wire::{COMMAND_STATE_PIPE, READ_CLEAR_PIPE, STATUS_PIPE, SYNC_STATE_PIPE};

const URL: &str = "file:/plugins/fujin.wasm";

fn answers() -> Answers {
    Answers { focus: None, floating: false, plugin_url: None }
}

fn terminal(id: u32, title: &str, focused: bool) -> PaneInfo {
    PaneInfo {
        id,
        is_plugin: false,
        is_focused: focused,
        is_floating: false,
        is_suppressed: false,
        title: title.to_string(),
        exited: false,
        exit_status: None,
        terminal_command: None,
        plugin_url: None,
    }
}

fn command(id: u32, focused: bool, exit: Option<i32>, exited: bool) -> PaneInfo {
    PaneInfo {
        exited,
        exit_status: exit,
        terminal_command: Some("make".to_string()),
        ..terminal(id, "make", focused)
    }
}

fn instance(id: u32) -> PaneInfo {
    PaneInfo {
        is_plugin: true,
        plugin_url: Some(URL.to_string()),
        ..terminal(id, "fujin", false)
    }
}

fn tab(position: usize, name: &str, active: bool) -> TabInfo {
    TabInfo { position, name: name.to_string(), active, are_floating_panes_visible: false }
}

fn manifest(tabs: Vec<Vec<PaneInfo>>) -> PaneManifest {
    PaneManifest {
        tabs: tabs
            .into_iter()
            .enumerate()
            .map(|(position, panes)| TabPanes { position, panes })
            .collect(),
    }
}

fn started(tabs: Vec<Vec<PaneInfo>>) -> State {
    let mut state = State::default();
    state.load(&vec![], 100);
    state.update(Event::Permission(true), answers());
    let infos = (0..tabs.len()).map(|n| tab(n, "tab", n == 0)).collect();
    state.update(Event::TabUpdate(infos), answers());
    state.update(Event::PaneUpdate(manifest(tabs)), answers());
    state.calls.clear();
    state
}

fn report(state: &mut State, pane_id: u32, event: &str) -> bool {
    let payload = format!("{{\"pane_id\":{},\"event\":\"{}\",\"agent\":\"codex\"}}", pane_id, event);
    state.pipe(STATUS_PIPE, Some(&payload), Sender::Cli, None)
}

fn agent_state(state: &State, pane_id: u32) -> Option<AgentState> {
    state.status.agents.get(&pane_id).map(|a| a.state)
}

fn sent(state: &State, pipe: &str) -> Vec<(u32, String)> {
    let mut out = Vec::new();
    for call in &state.calls {
        if let HostCall::PipeMessageToPlugin(name, id, payload) = call {
            if *name == pipe {
                out.push((*id, payload.clone()));
            }
        }
    }
    out
}

// --- reports ---

#[test]
fn a_report_is_read_from_its_text() {
    let raw = "{ \"pane_id\": 7, \"agent\": \"codex\", \"event\": \"Stop\", \"cwd\": \"/w\", \
               \"source\": \"startup\", \"detail\": \"hello\" }";
    let payload = StatusPayload::parse(raw).expect("a report");
    assert_eq!(payload.pane_id, 7);
    assert_eq!(payload.agent, "codex");
    assert_eq!(payload.event, "Stop");
    assert_eq!(payload.cwd.as_deref(), Some("/w"));
    assert_eq!(payload.source.as_deref(), Some("startup"));
    assert_eq!(payload.detail.as_deref(), Some("hello"));
}

#[test]
fn a_report_needs_a_pane_and_an_event() {
    assert!(StatusPayload::parse("{\"event\":\"Stop\"}").is_none());
    assert!(StatusPayload::parse("{\"pane_id\":7}").is_none());
    assert!(StatusPayload::parse("{\"pane_id\":\"x\",\"event\":\"Stop\"}").is_none());
    let payload = StatusPayload::parse("{\"pane_id\":\"7\",\"event\":\"Stop\"}").expect("a report");
    assert_eq!(payload.pane_id, 7);
    assert_eq!(payload.agent, "unknown");
    let mut state = started(vec![vec![instance(100), terminal(1, "a", true)]]);
    assert!(!state.pipe(STATUS_PIPE, Some("nonsense"), Sender::Cli, None));
    assert!(!state.pipe(STATUS_PIPE, None, Sender::Cli, None));
    assert!(state.status.agents.is_empty());
}

#[test]
fn events_lead_to_states() {
    let mut state = started(vec![vec![instance(100), terminal(1, "a", true)]]);
    assert!(report(&mut state, 1, "SessionStart"));
    assert_eq!(agent_state(&state, 1), Some(AgentState::Idle));
    report(&mut state, 1, "UserPromptSubmit");
    assert_eq!(agent_state(&state, 1), Some(AgentState::Working));
    report(&mut state, 1, "Notification");
    assert_eq!(agent_state(&state, 1), Some(AgentState::Blocked));
    report(&mut state, 1, "UserPromptSubmit");
    report(&mut state, 1, "Stop");
    assert_eq!(agent_state(&state, 1), Some(AgentState::Done));
    report(&mut state, 1, "StopFailure");
    assert_eq!(agent_state(&state, 1), Some(AgentState::Error));
    // A failed turn stays failed.
    report(&mut state, 1, "Stop");
    assert_eq!(agent_state(&state, 1), Some(AgentState::Error));
    report(&mut state, 1, "SomethingElse");
    assert_eq!(agent_state(&state, 1), Some(AgentState::Error));
    report(&mut state, 1, "SessionEnd");
    assert_eq!(agent_state(&state, 1), None);
}

#[test]
fn the_last_subagent_ends_the_turn() {
    let mut state = started(vec![vec![instance(100), terminal(1, "a", true)]]);
    report(&mut state, 1, "UserPromptSubmit");
    report(&mut state, 1, "SubagentStart");
    report(&mut state, 1, "SubagentStart");
    report(&mut state, 1, "Stop");
    assert_eq!(agent_state(&state, 1), Some(AgentState::Working));
    report(&mut state, 1, "SubagentStop");
    assert_eq!(agent_state(&state, 1), Some(AgentState::Working));
    report(&mut state, 1, "SubagentStop");
    assert_eq!(agent_state(&state, 1), Some(AgentState::Done));
    // No count goes below zero.
    report(&mut state, 1, "SubagentStop");
    report(&mut state, 1, "TaskCompleted");
    let agent = &state.status.agents[&1];
    assert_eq!((agent.subagents, agent.open_tasks), (0, 0));
}

#[test]
fn tasks_are_counted() {
    let mut state = started(vec![vec![instance(100), terminal(1, "a", true)]]);
    report(&mut state, 1, "TaskCreated");
    report(&mut state, 1, "TaskCreated");
    report(&mut state, 1, "TaskCompleted");
    assert_eq!(state.status.agents[&1].open_tasks, 1);
    report(&mut state, 1, "SessionStart");
    assert_eq!(state.status.agents[&1].open_tasks, 0);
}

#[test]
fn the_latest_change_has_the_largest_number() {
    let mut state = started(vec![vec![
        instance(100),
        terminal(1, "a", true),
        terminal(2, "b", false),
    ]]);
    report(&mut state, 1, "UserPromptSubmit");
    report(&mut state, 2, "UserPromptSubmit");
    assert!(state.status_seq(2) > state.status_seq(1));
    report(&mut state, 1, "Stop");
    assert!(state.status_seq(1) > state.status_seq(2));
    // A report that changes nothing keeps the order.
    report(&mut state, 2, "UserPromptSubmit");
    assert!(state.status_seq(1) > state.status_seq(2));
}

#[test]
fn states_have_names_icons_and_colours_of_their_own() {
    let all = [
        AgentState::Idle,
        AgentState::Working,
        AgentState::Blocked,
        AgentState::Done,
        AgentState::Error,
    ];
    for (i, a) in all.iter().enumerate() {
        assert_eq!(AgentState::from_str(a.as_str()), *a);
        for b in &all[i + 1..] {
            assert_ne!(a.icon(), b.icon());
            assert_ne!(a.color(), b.color());
        }
    }
    assert_eq!(AgentState::Error.triage_rank(), Some(0));
    assert_eq!(AgentState::Blocked.triage_rank(), Some(1));
    assert_eq!(AgentState::Working.triage_rank(), Some(2));
    assert_eq!(AgentState::Done.triage_rank(), Some(3));
    assert_eq!(AgentState::Idle.triage_rank(), None);
}

// --- commands ---

#[test]
fn commands_show_how_they_ended() {
    assert_eq!(CommandState::from_exit(false, None), CommandState::Working);
    assert_eq!(CommandState::from_exit(true, Some(0)), CommandState::Done);
    assert_eq!(CommandState::from_exit(true, Some(2)), CommandState::Error);
    assert_eq!(CommandState::from_exit(true, None), CommandState::Error);
    for s in [CommandState::Working, CommandState::Done, CommandState::Error] {
        assert_eq!(CommandState::from_str(s.as_str()), s);
    }
}

#[test]
fn an_agent_wins_over_a_command() {
    let mut state = started(vec![vec![instance(100), command(1, false, Some(2), true)]]);
    assert_eq!(state.pane_status(1), Some(PaneStatus::Command(CommandState::Error)));
    report(&mut state, 1, "UserPromptSubmit");
    assert_eq!(state.pane_status(1), Some(PaneStatus::Agent(AgentState::Working)));
    assert_eq!(state.pane_status(2), None);
}

#[test]
fn a_change_of_a_command_is_told_once() {
    let mut state = started(vec![
        vec![instance(100), command(1, false, None, false)],
        vec![instance(101), terminal(3, "c", false)],
    ]);
    let next = vec![
        vec![instance(100), command(1, false, Some(0), true)],
        vec![instance(101), terminal(3, "c", false)],
    ];
    state.update(Event::PaneUpdate(manifest(next)), answers());
    let told = sent(&state, COMMAND_STATE_PIPE);
    assert_eq!(told.len(), 1);
    assert_eq!(told[0].0, 101);
    assert_eq!(told[0].1, format!("1\tdone\t0\t{}\n", state.status_seq(1)));
    state.calls.clear();
    let again = vec![
        vec![instance(100), command(1, false, Some(0), true)],
        vec![instance(101), terminal(3, "c", false)],
    ];
    state.update(Event::PaneUpdate(manifest(again)), answers());
    assert!(sent(&state, COMMAND_STATE_PIPE).is_empty());
}

#[test]
fn commands_travel_between_instances() {
    let state = started(vec![vec![
        instance(100),
        command(1, false, Some(2), true),
        command(2, false, None, false),
    ]]);
    let dump = state.command_dump();
    let mut other = started(vec![vec![instance(100), terminal(9, "z", false)]]);
    assert!(other.pipe(COMMAND_STATE_PIPE, Some(&dump), Sender::Plugin(5), None));
    assert_eq!(other.pane_status(1), Some(PaneStatus::Command(CommandState::Error)));
    assert_eq!(other.pane_status(2), Some(PaneStatus::Command(CommandState::Working)));
    assert_eq!(other.command_dump(), dump);
    assert!(!other.pipe(COMMAND_STATE_PIPE, Some("rubbish"), Sender::Plugin(5), None));
}

// --- reads ---

#[test]
fn a_focus_that_stays_reads_the_pane() {
    let tabs = || vec![vec![instance(100), terminal(1, "a", true), terminal(2, "b", false)]];
    let mut state = started(tabs());
    report(&mut state, 1, "Stop");
    state.update(Event::PaneUpdate(manifest(tabs())), answers());
    assert!(state.has_unread(1));
    assert!(!state.update(Event::Timer(300_000), answers()));
    assert_eq!(agent_state(&state, 1), Some(AgentState::Done));
    assert!(state.update(Event::Timer(400_000), answers()));
    assert_eq!(agent_state(&state, 1), Some(AgentState::Idle));
    assert!(!state.has_unread(1));
    // Nothing is left to wait for.
    assert!(!state.clock.timer_armed);
}

#[test]
fn passing_through_a_pane_does_not_read_it() {
    let mut state = started(vec![vec![
        instance(100),
        terminal(1, "a", true),
        terminal(2, "b", false),
    ]]);
    report(&mut state, 1, "Stop");
    let on_one = vec![vec![instance(100), terminal(1, "a", true), terminal(2, "b", false)]];
    state.update(Event::PaneUpdate(manifest(on_one)), answers());
    state.update(Event::Timer(300_000), answers());
    let on_two = vec![vec![instance(100), terminal(1, "a", false), terminal(2, "b", true)]];
    state.update(Event::PaneUpdate(manifest(on_two)), answers());
    state.update(Event::Timer(900_000), answers());
    assert_eq!(agent_state(&state, 1), Some(AgentState::Done));
}

#[test]
fn working_agents_are_not_read() {
    let tabs = || vec![vec![instance(100), terminal(1, "a", true)]];
    let mut state = started(tabs());
    report(&mut state, 1, "UserPromptSubmit");
    state.update(Event::PaneUpdate(manifest(tabs())), answers());
    state.update(Event::Timer(900_000), answers());
    assert_eq!(agent_state(&state, 1), Some(AgentState::Working));
}

#[test]
fn a_command_that_ends_in_focus_stays_unread() {
    let running = vec![vec![instance(100), command(1, true, None, false)]];
    let mut state = started(running);
    let ended = || vec![vec![instance(100), command(1, true, Some(0), true)]];
    state.update(Event::PaneUpdate(manifest(ended())), answers());
    state.update(Event::Timer(900_000), answers());
    assert_eq!(state.pane_status(1), Some(PaneStatus::Command(CommandState::Done)));
    // The focus leaves and comes back.
    let away = vec![vec![instance(100), command(1, false, Some(0), true)]];
    state.update(Event::PaneUpdate(manifest(away)), answers());
    state.update(Event::PaneUpdate(manifest(ended())), answers());
    state.update(Event::Timer(900_000), answers());
    assert_eq!(state.pane_status(1), None);
}

#[test]
fn a_read_is_told_to_the_siblings() {
    let tabs = || {
        vec![
            vec![instance(100), terminal(1, "a", true)],
            vec![instance(101), terminal(3, "c", false)],
        ]
    };
    let mut state = started(tabs());
    report(&mut state, 1, "Stop");
    state.update(Event::PaneUpdate(manifest(tabs())), answers());
    state.calls.clear();
    state.update(Event::Timer(700_000), answers());
    assert_eq!(sent(&state, READ_CLEAR_PIPE), vec![(101, "1".to_string())]);
    let mut sibling = started(tabs());
    report(&mut sibling, 1, "Stop");
    assert!(sibling.pipe(READ_CLEAR_PIPE, Some("1"), Sender::Plugin(100), None));
    assert_eq!(agent_state(&sibling, 1), Some(AgentState::Idle));
    assert!(!sibling.pipe(READ_CLEAR_PIPE, Some("1"), Sender::Plugin(100), None));
}

#[test]
fn what_waits_is_counted() {
    let mut state = started(vec![vec![
        instance(100),
        terminal(1, "a", false),
        terminal(2, "b", false),
        command(3, false, Some(1), true),
    ]]);
    report(&mut state, 1, "Notification");
    report(&mut state, 2, "UserPromptSubmit");
    assert_eq!(state.waiting_count(), 2);
}

#[test]
fn panes_that_are_gone_are_forgotten() {
    let mut state = started(vec![vec![
        instance(100),
        terminal(1, "a", true),
        terminal(2, "b", false),
    ]]);
    report(&mut state, 1, "Stop");
    report(&mut state, 2, "Stop");
    let rest = vec![vec![instance(100), terminal(2, "b", true)]];
    state.update(Event::PaneUpdate(manifest(rest)), answers());
    assert_eq!(agent_state(&state, 1), None);
    assert_eq!(agent_state(&state, 2), Some(AgentState::Done));
}

// --- agents between instances ---

#[test]
fn agents_travel_between_instances() {
    let tabs = || vec![vec![instance(100), terminal(1, "a", true), terminal(2, "b", false)]];
    let mut state = started(tabs());
    report(&mut state, 1, "UserPromptSubmit");
    report(&mut state, 1, "SubagentStart");
    report(&mut state, 2, "StopFailure");
    let dump = state.state_dump();
    let mut other = started(tabs());
    assert!(other.pipe(SYNC_STATE_PIPE, Some(&dump), Sender::Plugin(5), None));
    assert_eq!(agent_state(&other, 1), Some(AgentState::Working));
    assert_eq!(other.status.agents[&1].subagents, 1);
    assert_eq!(other.status.agents[&1].agent, "codex");
    assert_eq!(agent_state(&other, 2), Some(AgentState::Error));
    assert_eq!(other.state_dump(), dump);
    // What is known already is not touched.
    report(&mut other, 1, "Stop");
    assert!(!other.pipe(SYNC_STATE_PIPE, Some(&dump), Sender::Plugin(5), None));
}

#[test]
fn directories_travel_with_the_agents() {
    let tabs = || vec![vec![instance(100), terminal(1, "a", true), terminal(2, "b", false)]];
    let mut state = started(tabs());
    report(&mut state, 1, "Stop");
    report(&mut state, 2, "Stop");
    state.list.pane_cwds.insert(1, "/tmp/odd\r".to_string());
    let dump = state.state_dump();
    let mut other = started(tabs());
    other.list.pane_cwds.insert(2, "/own".to_string());
    assert!(other.apply_state_dump(&dump));
    assert_eq!(other.list.pane_cwds[&1], "/tmp/odd\r");
    assert_eq!(other.list.pane_cwds[&2], "/own");
    // The same message again changes nothing.
    let before = format!("{:?}", other.status) + &format!("{:?}", other.list);
    assert!(!other.apply_state_dump(&dump));
    assert_eq!(format!("{:?}", other.status) + &format!("{:?}", other.list), before);
}

#[test]
fn a_pane_that_is_gone_is_dropped_each_time() {
    let mut state = started(vec![vec![instance(100), terminal(1, "a", true), terminal(2, "b", false)]]);
    report(&mut state, 1, "Stop");
    report(&mut state, 2, "Stop");
    let dump = state.state_dump();
    let mut other = started(vec![vec![instance(100), terminal(1, "a", true)]]);
    other.update(Event::Visible(true), answers());
    assert!(other.apply_state_dump(&dump));
    assert_eq!(agent_state(&other, 1), Some(AgentState::Done));
    assert_eq!(agent_state(&other, 2), None);
    let before = format!("{:?}", other.status);
    assert!(other.apply_state_dump(&dump));
    assert_eq!(format!("{:?}", other.status), before);
}

#[test]
fn the_question_for_agents_is_answered() {
    let mut state = started(vec![vec![instance(100), terminal(1, "a", true)]]);
    report(&mut state, 1, "Stop");
    state.calls.clear();
    assert!(!state.pipe(SYNC_STATE_PIPE, Some("?"), Sender::Plugin(7), None));
    let answer = sent(&state, SYNC_STATE_PIPE);
    assert_eq!(answer.len(), 1);
    assert_eq!(answer[0].0, 7);
    assert_eq!(answer[0].1, state.state_dump());
    // Nobody else is answered.
    state.calls.clear();
    state.pipe(SYNC_STATE_PIPE, Some("?"), Sender::Keybind, None);
    assert!(sent(&state, SYNC_STATE_PIPE).is_empty());
}

#[test]
fn the_command_line_is_let_go_first() {
    let mut state = started(vec![vec![instance(100), terminal(1, "a", true)]]);
    report(&mut state, 1, "Stop");
    match &state.calls[0] {
        HostCall::UnblockCliPipeInput(name) => assert_eq!(name, STATUS_PIPE),
        other => panic!("{:?}", other),
    }
    state.calls.clear();
    state.pipe("other_pipe", None, Sender::Cli, None);
    assert!(state.calls.is_empty());
    // From a key binding nothing waits.
    state.pipe("fujin_up", None, Sender::Keybind, Some((9, PaneId::Terminal(1))));
    assert!(state.calls.is_empty());
}
