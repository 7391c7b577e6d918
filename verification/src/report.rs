//! Taking in the state reports of agents.

use vstd::prelude::*;

use crate::agent::{AgentInfo, AgentInfoV, AgentState};
use crate::deploy::{detect_new_agent, grown, reports_for_duty};
use crate::ids::{group_views, opt_view};
use crate::payload::{StatusPayload, StatusPayloadV};
use crate::state::{ListingV, State, StateV, StatusesV};
use crate::text::same;

verus! {

broadcast use group_views;

/// What a report is about.
#[derive(Debug, Clone, Copy, PartialEq, Eq, Structural)]
pub enum HookEvent {
    SessionStart,
    UserPromptSubmit,
    Notification,
    Stop,
    StopFailure,
    SessionEnd,
    SubagentStart,
    SubagentStop,
    TaskCreated,
    TaskCompleted,
    /// Anything else, a failed tool call among them: the state stays.
    Other,
}

impl HookEvent {
    pub open spec fn named(name: Seq<char>) -> HookEvent {
        if name == "SessionStart"@ {
            HookEvent::SessionStart
        } else if name == "UserPromptSubmit"@ {
            HookEvent::UserPromptSubmit
        } else if name == "Notification"@ {
            HookEvent::Notification
        } else if name == "Stop"@ {
            HookEvent::Stop
        } else if name == "StopFailure"@ {
            HookEvent::StopFailure
        } else if name == "SessionEnd"@ {
            HookEvent::SessionEnd
        } else if name == "SubagentStart"@ {
            HookEvent::SubagentStart
        } else if name == "SubagentStop"@ {
            HookEvent::SubagentStop
        } else if name == "TaskCreated"@ {
            HookEvent::TaskCreated
        } else if name == "TaskCompleted"@ {
            HookEvent::TaskCompleted
        } else {
            HookEvent::Other
        }
    }

    pub fn from_name(name: &str) -> (r: HookEvent)
        ensures
            r == HookEvent::named(name@),
    {
        if same(name, "SessionStart") {
            HookEvent::SessionStart
        } else if same(name, "UserPromptSubmit") {
            HookEvent::UserPromptSubmit
        } else if same(name, "Notification") {
            HookEvent::Notification
        } else if same(name, "Stop") {
            HookEvent::Stop
        } else if same(name, "StopFailure") {
            HookEvent::StopFailure
        } else if same(name, "SessionEnd") {
            HookEvent::SessionEnd
        } else if same(name, "SubagentStart") {
            HookEvent::SubagentStart
        } else if same(name, "SubagentStop") {
            HookEvent::SubagentStop
        } else if same(name, "TaskCreated") {
            HookEvent::TaskCreated
        } else if same(name, "TaskCompleted") {
            HookEvent::TaskCompleted
        } else {
            HookEvent::Other
        }
    }
}

/// One less, but not below zero.
pub open spec fn shrunk(n: usize) -> usize {
    if n > 0 {
        (n - 1) as usize
    } else {
        0
    }
}

impl AgentInfoV {
    /// The agent after an event. A turn that ends is done, unless it failed or background
    /// subagents still run; then the last of these ends it.
    pub open spec fn after(self, event: HookEvent, detail: Option<Seq<char>>) -> AgentInfoV {
        match event {
            HookEvent::SessionStart => AgentInfoV {
                state: AgentState::Idle,
                subagents: 0,
                open_tasks: 0,
                turn_ended: false,
                ..self
            },
            HookEvent::UserPromptSubmit => AgentInfoV {
                state: AgentState::Working,
                turn_ended: false,
                ..self
            },
            HookEvent::Notification => AgentInfoV { state: AgentState::Blocked, detail, ..self },
            HookEvent::Stop => AgentInfoV {
                turn_ended: true,
                state: if self.subagents == 0 && self.state != AgentState::Error {
                    AgentState::Done
                } else {
                    self.state
                },
                ..self
            },
            HookEvent::StopFailure => AgentInfoV { state: AgentState::Error, ..self },
            HookEvent::SubagentStart => AgentInfoV { subagents: grown(self.subagents, 1), ..self },
            HookEvent::SubagentStop => AgentInfoV {
                subagents: shrunk(self.subagents),
                state: if shrunk(self.subagents) == 0 && self.turn_ended && self.state
                    == AgentState::Working {
                    AgentState::Done
                } else {
                    self.state
                },
                ..self
            },
            HookEvent::TaskCreated => AgentInfoV { open_tasks: grown(self.open_tasks, 1), ..self },
            HookEvent::TaskCompleted => AgentInfoV { open_tasks: shrunk(self.open_tasks), ..self },
            HookEvent::SessionEnd | HookEvent::Other => self,
        }
    }
}

/// The next number of a count; it does not pass the largest value.
pub open spec fn next_seq(n: u64) -> u64 {
    if n < u64::MAX {
        (n + 1) as u64
    } else {
        n
    }
}

impl StatusesV {
    /// The state of the pane's agent.
    pub open spec fn agent_state(self, pane_id: u32) -> Option<AgentState> {
        if self.agents.contains_key(pane_id) {
            Some(self.agents[pane_id].state)
        } else {
            None
        }
    }

    /// The agent of the pane, or a new one.
    pub open spec fn agent_or_new(self, pane_id: u32) -> AgentInfoV {
        if self.agents.contains_key(pane_id) {
            self.agents[pane_id]
        } else {
            AgentInfoV::unknown()
        }
    }

    /// The agents after a report, before its place in the order of changes is noted.
    pub open spec fn reported(self, p: StatusPayloadV) -> StatusesV {
        let event = HookEvent::named(p.event);
        if event == HookEvent::SessionEnd {
            StatusesV { agents: self.agents.remove(p.pane_id), ..self }
        } else {
            let agent = AgentInfoV { agent: p.agent, ..self.agent_or_new(p.pane_id) };
            StatusesV {
                agents: self.agents.insert(p.pane_id, agent.after(event, p.detail)),
                ..self
            }
        }
    }

    /// The state of the pane changed: it gets the next number.
    pub open spec fn bumped(self, pane_id: u32) -> StatusesV {
        let seq = next_seq(self.state_seq);
        StatusesV {
            state_seq: seq,
            agents: if self.agents.contains_key(pane_id) {
                self.agents.insert(
                    pane_id,
                    AgentInfoV { state_change_seq: seq, ..self.agents[pane_id] },
                )
            } else {
                self.agents
            },
            ..self
        }
    }

    /// What the agents are after a report.
    pub open spec fn apply_status(self, p: StatusPayloadV) -> StatusesV {
        let s = self.reported(p);
        if s.agent_state(p.pane_id) != self.agent_state(p.pane_id) {
            s.bumped(p.pane_id)
        } else {
            s
        }
    }
}

/// The report is about a new agent.
pub open spec fn new_agent(p: StatusPayloadV) -> bool {
    HookEvent::named(p.event) == HookEvent::SessionStart && reports_for_duty(p.source)
}

/// Whether the report is about a new agent.
pub fn is_new_agent(report: &StatusPayload) -> (r: bool)
    ensures
        r == new_agent(report@),
{
    let event = HookEvent::from_name(report.event.as_str());
    matches!(event, HookEvent::SessionStart) && match &report.source {
        Some(source) => detect_new_agent(Some(source.as_str())),
        None => detect_new_agent(None),
    }
}

impl StateV {
    pub open spec fn with_cwds(self, pane_cwds: Map<u32, Seq<char>>) -> StateV {
        StateV { list: ListingV { pane_cwds, ..self.list }, ..self }
    }

    /// The state after a report; a working directory in it is kept.
    pub open spec fn apply_status(self, p: StatusPayloadV) -> StateV {
        let s = match p.cwd {
            Some(cwd) => self.with_cwds(self.list.pane_cwds.insert(p.pane_id, cwd)),
            None => self,
        };
        s.with_status(self.status.apply_status(p))
    }
}

impl AgentInfo {
    fn apply_event(&mut self, event: HookEvent, detail: Option<String>)
        ensures
            final(self)@ == old(self)@.after(event, opt_view(detail)),
    {
        match event {
            HookEvent::SessionStart => {
                self.state = AgentState::Idle;
                self.subagents = 0;
                self.open_tasks = 0;
                self.turn_ended = false;
            },
            HookEvent::UserPromptSubmit => {
                self.state = AgentState::Working;
                self.turn_ended = false;
            },
            HookEvent::Notification => {
                self.state = AgentState::Blocked;
                self.detail = detail;
            },
            HookEvent::Stop => {
                self.turn_ended = true;
                if self.subagents == 0 && self.state != AgentState::Error {
                    self.state = AgentState::Done;
                }
            },
            HookEvent::StopFailure => {
                self.state = AgentState::Error;
            },
            HookEvent::SubagentStart => {
                self.subagents = self.subagents.saturating_add(1);
            },
            HookEvent::SubagentStop => {
                self.subagents = self.subagents.saturating_sub(1);
                if self.subagents == 0 && self.turn_ended && self.state == AgentState::Working {
                    self.state = AgentState::Done;
                }
            },
            HookEvent::TaskCreated => {
                self.open_tasks = self.open_tasks.saturating_add(1);
            },
            HookEvent::TaskCompleted => {
                self.open_tasks = self.open_tasks.saturating_sub(1);
            },
            HookEvent::SessionEnd | HookEvent::Other => {},
        }
    }
}

impl State {
    fn agent_state(&self, pane_id: u32) -> (r: Option<AgentState>)
        ensures
            r == self@.status.agent_state(pane_id),
    {
        match self.status.agents.get(&pane_id) {
            Some(agent) => Some(agent.state),
            None => None,
        }
    }

    fn report(&mut self, pane_id: u32, agent: String, event: HookEvent, detail: Option<String>)
        ensures
            event == HookEvent::SessionEnd ==> final(self)@ == old(self)@.with_status(
                StatusesV {
                    agents: old(self)@.status.agents.remove(pane_id),
                    ..old(self)@.status
                },
            ),
            event != HookEvent::SessionEnd ==> final(self)@ == old(self)@.with_status(
                StatusesV {
                    agents: old(self)@.status.agents.insert(
                        pane_id,
                        AgentInfoV {
                            agent: agent@,
                            ..old(self)@.status.agent_or_new(pane_id)
                        }.after(event, opt_view(detail)),
                    ),
                    ..old(self)@.status
                },
            ),
    {
        let ghost before = self.status.agents@;
        let mut info = match self.status.agents.remove(&pane_id) {
            Some(info) => info,
            None => AgentInfo::default(),
        };
        if !matches!(event, HookEvent::SessionEnd) {
            info.agent = agent;
            info.apply_event(event, detail);
            self.status.agents.insert(pane_id, info);
            assert(self.status.agents@ =~= before.insert(pane_id, info));
        }
    }

    fn bump_state_seq(&mut self, pane_id: u32)
        ensures
            final(self)@ == old(self)@.with_status(old(self)@.status.bumped(pane_id)),
    {
        let ghost before = self.status.agents@;
        self.status.state_seq = self.status.state_seq.saturating_add(1);
        let seq = self.status.state_seq;
        match self.status.agents.remove(&pane_id) {
            Some(info) => {
                let mut info = info;
                info.state_change_seq = seq;
                self.status.agents.insert(pane_id, info);
                assert(self.status.agents@ =~= before.insert(pane_id, info));
            },
            None => {
                assert(self.status.agents@ =~= before);
            },
        }
    }

    /// Takes in a report. Returns whether it is about a new agent.
    pub fn apply_status(&mut self, payload: StatusPayload) -> (r: bool)
        ensures
            final(self)@ == old(self)@.apply_status(payload@),
            r == new_agent(payload@),
    {
        let pane_id = payload.pane_id;
        let detected = is_new_agent(&payload);
        if let Some(cwd) = payload.cwd {
            self.list.pane_cwds.insert(pane_id, cwd);
        }
        let event = HookEvent::from_name(payload.event.as_str());
        let before = self.agent_state(pane_id);
        self.report(pane_id, payload.agent, event, payload.detail);
        let after = self.agent_state(pane_id);
        let changed = match (before, after) {
            (Some(a), Some(b)) => a != b,
            (None, None) => false,
            _ => true,
        };
        if changed {
            self.bump_state_seq(pane_id);
        }
        detected
    }
}

// --- laws ---

/// The events and the states they lead to, whatever the agent did before. A pane that
/// nothing was heard of is registered by any event but the end of a session.
pub proof fn law_events_lead_to_states(s: StatusesV, p: StatusPayloadV)
    ensures
        ({
            let event = HookEvent::named(p.event);
            let before = s.agent_or_new(p.pane_id);
            let after = s.apply_status(p).agents;
            &&& (event == HookEvent::SessionEnd) == !after.contains_key(p.pane_id)
            &&& event == HookEvent::SessionStart ==> after[p.pane_id].state == AgentState::Idle
                && after[p.pane_id].subagents == 0 && after[p.pane_id].open_tasks == 0
            &&& event == HookEvent::UserPromptSubmit ==> after[p.pane_id].state
                == AgentState::Working
            &&& event == HookEvent::Notification ==> after[p.pane_id].state
                == AgentState::Blocked && after[p.pane_id].detail == p.detail
            &&& event == HookEvent::StopFailure ==> after[p.pane_id].state == AgentState::Error
            &&& event == HookEvent::Stop && before.state == AgentState::Error
                ==> after[p.pane_id].state == AgentState::Error
            &&& event == HookEvent::Stop && before.state == AgentState::Working
                && before.subagents > 0 ==> after[p.pane_id].state == AgentState::Working
            &&& event == HookEvent::Stop && before.state != AgentState::Error && before.subagents
                == 0 ==> after[p.pane_id].state == AgentState::Done
        }),
{
}

/// Background subagents that outlive a turn: the last one to stop makes it done.
pub proof fn law_last_subagent_ends_turn(a: AgentInfoV, detail: Option<Seq<char>>)
    requires
        a.state == AgentState::Working,
        a.subagents == 1,
    ensures
        a.after(HookEvent::Stop, detail).state == AgentState::Working,
        a.after(HookEvent::Stop, detail).after(HookEvent::SubagentStop, detail).state
            == AgentState::Done,
{
}

/// A report changes no other pane.
pub proof fn law_report_is_local(s: StateV, p: StatusPayloadV, other: u32)
    requires
        other != p.pane_id,
    ensures
        s.apply_status(p).status.agents.contains_key(other) == s.status.agents.contains_key(other),
        s.status.agents.contains_key(other) ==> s.apply_status(p).status.agents[other]
            == s.status.agents[other],
        s.apply_status(p).status.commands == s.status.commands,
        s.apply_status(p).list.selectable == s.list.selectable,
{
}

/// A report that changes the state of an agent raises the number of changes by one, and the
/// latest change has the largest number, as long as numbers are left.
pub proof fn law_latest_change_is_last(s: StatusesV, p: StatusPayloadV, other: u32)
    requires
        s.state_seq < u64::MAX,
        s.apply_status(p).agent_state(p.pane_id) is Some,
        s.apply_status(p).agent_state(p.pane_id) != s.agent_state(p.pane_id),
        s.changed_at(other) <= s.state_seq,
        other != p.pane_id,
    ensures
        s.apply_status(p).state_seq == s.state_seq + 1,
        s.apply_status(p).changed_at(p.pane_id) == s.state_seq + 1,
        s.apply_status(p).changed_at(p.pane_id) > s.apply_status(p).changed_at(other),
{
}

} // verus!
