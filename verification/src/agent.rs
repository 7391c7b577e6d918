//! Agent states: what the hooks of the agents report, and how it is marked as read.

use vstd::prelude::*;

use crate::command::CommandInfo;
use crate::ids::{group_views, opt_view};
use crate::state::{State, StateV, StatusesV};
use crate::text::same;

verus! {

broadcast use group_views;

#[derive(Debug, Clone, Copy, PartialEq, Eq, Structural)]
pub enum AgentState {
    Idle,
    Working,
    Blocked,
    Done,
    Error,
}

#[derive(Debug)]
pub struct AgentInfo {
    pub state: AgentState,
    pub agent: String,
    /// The subagents that are running.
    pub subagents: usize,
    /// The tasks that are not completed.
    pub open_tasks: usize,
    /// The turn is over, although background subagents may still run.
    pub turn_ended: bool,
    /// The message that came with a block.
    pub detail: Option<String>,
    /// When the state last changed, counted in changes of state.
    pub state_change_seq: u64,
}

#[verifier::ext_equal]
pub struct AgentInfoV {
    pub state: AgentState,
    pub agent: Seq<char>,
    pub subagents: usize,
    pub open_tasks: usize,
    pub turn_ended: bool,
    pub detail: Option<Seq<char>>,
    pub state_change_seq: u64,
}

impl View for AgentInfo {
    type V = AgentInfoV;

    open spec fn view(&self) -> AgentInfoV {
        AgentInfoV {
            state: self.state,
            agent: self.agent@,
            subagents: self.subagents,
            open_tasks: self.open_tasks,
            turn_ended: self.turn_ended,
            detail: opt_view(self.detail),
            state_change_seq: self.state_change_seq,
        }
    }
}

impl AgentState {
    pub open spec fn icon_text(self) -> Seq<char> {
        match self {
            AgentState::Idle => "○"@,
            AgentState::Working => "»"@,
            AgentState::Blocked => "◆"@,
            AgentState::Done => "●"@,
            AgentState::Error => "×"@,
        }
    }

    /// The name of the state: in the legend and between instances.
    pub open spec fn name(self) -> Seq<char> {
        match self {
            AgentState::Idle => "idle"@,
            AgentState::Working => "working"@,
            AgentState::Blocked => "blocked"@,
            AgentState::Done => "done"@,
            AgentState::Error => "error"@,
        }
    }

    /// The state of this name; anything else counts as idle.
    pub open spec fn named(s: Seq<char>) -> AgentState {
        if s == "working"@ {
            AgentState::Working
        } else if s == "blocked"@ {
            AgentState::Blocked
        } else if s == "done"@ {
            AgentState::Done
        } else if s == "error"@ {
            AgentState::Error
        } else {
            AgentState::Idle
        }
    }

    /// The urgency, 0 for the most urgent. What is idle needs no triage.
    pub open spec fn rank(self) -> Option<u8> {
        match self {
            AgentState::Error => Some(0),
            AgentState::Blocked => Some(1),
            AgentState::Working => Some(2),
            AgentState::Done => Some(3),
            AgentState::Idle => None,
        }
    }

    /// The state waits for the user to look at it.
    pub open spec fn waiting(self) -> bool {
        self == AgentState::Done || self == AgentState::Blocked || self == AgentState::Error
    }

    /// The theme's colour level, a different one for each state.
    pub open spec fn level(self) -> usize {
        match self {
            AgentState::Idle => 0,
            AgentState::Working => 2,
            AgentState::Blocked => 3,
            AgentState::Done => 1,
            AgentState::Error => 6,
        }
    }

    pub fn icon(&self) -> (r: &'static str)
        ensures
            r@ == self.icon_text(),
    {
        match self {
            AgentState::Idle => "○",
            AgentState::Working => "»",
            AgentState::Blocked => "◆",
            AgentState::Done => "●",
            AgentState::Error => "×",
        }
    }

    pub fn label(&self) -> (r: &'static str)
        ensures
            r@ == self.name(),
    {
        self.as_str()
    }

    pub fn as_str(&self) -> (r: &'static str)
        ensures
            r@ == self.name(),
    {
        match self {
            AgentState::Idle => "idle",
            AgentState::Working => "working",
            AgentState::Blocked => "blocked",
            AgentState::Done => "done",
            AgentState::Error => "error",
        }
    }

    pub fn from_str(s: &str) -> (r: AgentState)
        ensures
            r == AgentState::named(s@),
    {
        if same(s, "working") {
            AgentState::Working
        } else if same(s, "blocked") {
            AgentState::Blocked
        } else if same(s, "done") {
            AgentState::Done
        } else if same(s, "error") {
            AgentState::Error
        } else {
            AgentState::Idle
        }
    }

    pub fn triage_rank(&self) -> (r: Option<u8>)
        ensures
            r == self.rank(),
    {
        match self {
            AgentState::Error => Some(0),
            AgentState::Blocked => Some(1),
            AgentState::Working => Some(2),
            AgentState::Done => Some(3),
            AgentState::Idle => None,
        }
    }

    pub fn is_waiting(&self) -> (r: bool)
        ensures
            r == self.waiting(),
    {
        matches!(self, AgentState::Done | AgentState::Blocked | AgentState::Error)
    }

    pub fn color(&self) -> (r: usize)
        ensures
            r == self.level(),
    {
        match self {
            AgentState::Idle => 0,
            AgentState::Working => 2,
            AgentState::Blocked => 3,
            AgentState::Done => 1,
            AgentState::Error => 6,
        }
    }
}

impl AgentInfoV {
    /// The agent once it was looked at.
    pub open spec fn seen(self) -> AgentInfoV {
        if self.state.waiting() {
            AgentInfoV { state: AgentState::Idle, detail: None, ..self }
        } else {
            self
        }
    }

    /// An agent that nothing was heard of.
    pub open spec fn unknown() -> AgentInfoV {
        AgentInfoV {
            state: AgentState::Idle,
            agent: Seq::empty(),
            subagents: 0,
            open_tasks: 0,
            turn_ended: false,
            detail: None,
            state_change_seq: 0,
        }
    }
}

impl AgentInfo {
    /// Clears a state that waits for the user. Returns whether there was one.
    pub fn mark_read(&mut self) -> (r: bool)
        ensures
            final(self)@ == old(self)@.seen(),
            r == old(self)@.state.waiting(),
    {
        if !self.state.is_waiting() {
            return false;
        }
        self.state = AgentState::Idle;
        self.detail = None;
        true
    }
}

impl Default for AgentInfo {
    fn default() -> (r: AgentInfo)
        ensures
            r@ == AgentInfoV::unknown(),
    {
        AgentInfo {
            state: AgentState::Idle,
            agent: String::new(),
            subagents: 0,
            open_tasks: 0,
            turn_ended: false,
            detail: None,
            state_change_seq: 0,
        }
    }
}

impl StatusesV {
    /// The agent of the pane was looked at.
    pub open spec fn agent_seen(self, pane_id: u32) -> StatusesV {
        if self.agents.contains_key(pane_id) {
            StatusesV {
                agents: self.agents.insert(pane_id, self.agents[pane_id].seen()),
                ..self
            }
        } else {
            self
        }
    }

    /// The pane's agent waits to be looked at.
    pub open spec fn agent_waits(self, pane_id: u32) -> bool {
        self.agents.contains_key(pane_id) && self.agents[pane_id].state.waiting()
    }

    /// The command of the pane was looked at.
    pub open spec fn command_seen(self, pane_id: u32, force: bool) -> StatusesV {
        if self.commands.contains_key(pane_id) {
            let info = self.commands[pane_id];
            StatusesV {
                commands: self.commands.insert(
                    pane_id,
                    if force {
                        info.force_seen()
                    } else {
                        info.seen()
                    },
                ),
                ..self
            }
        } else {
            self
        }
    }

    /// The pane's command ended and waits to be looked at. A forced look does not wait for
    /// the focus to leave it first.
    pub open spec fn command_waits(self, pane_id: u32, force: bool) -> bool {
        self.commands.contains_key(pane_id) && self.commands[pane_id].unread() && (force
            || !self.commands[pane_id].awaiting_refocus)
    }

    /// The pane was looked at.
    pub open spec fn read(self, pane_id: u32, force: bool) -> StatusesV {
        self.agent_seen(pane_id).command_seen(pane_id, force)
    }

    /// Looking at the pane clears something.
    pub open spec fn unread(self, pane_id: u32, force: bool) -> bool {
        self.agent_waits(pane_id) || self.command_waits(pane_id, force)
    }
}

impl StateV {
    pub open spec fn with_status(self, status: StatusesV) -> StateV {
        StateV { status, ..self }
    }
}

impl State {
    fn see_agent(&mut self, pane_id: u32) -> (r: bool)
        ensures
            final(self)@ == old(self)@.with_status(old(self)@.status.agent_seen(pane_id)),
            r == old(self)@.status.agent_waits(pane_id),
    {
        let ghost before = self.status.agents@;
        match self.status.agents.remove(&pane_id) {
            Some(agent) => {
                let mut agent = agent;
                let waited = agent.mark_read();
                self.status.agents.insert(pane_id, agent);
                assert(before.remove(pane_id).insert(pane_id, agent) =~= before.insert(
                    pane_id,
                    agent,
                ));
                waited
            },
            None => {
                assert(self.status.agents@ =~= before);
                false
            },
        }
    }

    fn see_command(&mut self, pane_id: u32, force: bool) -> (r: bool)
        ensures
            final(self)@ == old(self)@.with_status(old(self)@.status.command_seen(pane_id, force)),
            r == old(self)@.status.command_waits(pane_id, force),
    {
        let ghost before = self.status.commands@;
        match self.status.commands.remove(&pane_id) {
            Some(info) => {
                let mut info: CommandInfo = info;
                let waited = if force {
                    info.force_read()
                } else {
                    info.mark_read()
                };
                self.status.commands.insert(pane_id, info);
                assert(before.remove(pane_id).insert(pane_id, info) =~= before.insert(
                    pane_id,
                    info,
                ));
                waited
            },
            None => {
                assert(self.status.commands@ =~= before);
                false
            },
        }
    }

    /// Marks what the pane shows as read. Returns whether there was something to mark.
    pub fn mark_pane_read(&mut self, pane_id: u32, force: bool) -> (r: bool)
        ensures
            final(self)@ == old(self)@.with_status(old(self)@.status.read(pane_id, force)),
            r == old(self)@.status.unread(pane_id, force),
    {
        let agent = self.see_agent(pane_id);
        let command = self.see_command(pane_id, force);
        agent || command
    }
}

/// The wire name of a state names that state.
pub proof fn law_state_names(s: AgentState)
    ensures
        AgentState::named(s.name()) == s,
{
    reveal_strlit("idle");
    reveal_strlit("working");
    reveal_strlit("blocked");
    reveal_strlit("done");
    reveal_strlit("error");
    match s {
        AgentState::Idle => {
            assert("idle"@[0] == 'i');
            assert("working"@[0] == 'w');
            assert("blocked"@[0] == 'b');
            assert("done"@[0] == 'd');
            assert("error"@[0] == 'e');
        },
        AgentState::Working => {},
        AgentState::Blocked => {
            assert("working"@[0] == 'w');
            assert("blocked"@[0] == 'b');
        },
        AgentState::Done => {
            assert("working"@[0] == 'w');
            assert("blocked"@[0] == 'b');
            assert("done"@[0] == 'd');
        },
        AgentState::Error => {
            assert("working"@[0] == 'w');
            assert("blocked"@[0] == 'b');
            assert("done"@[0] == 'd');
            assert("error"@[0] == 'e');
        },
    }
}

/// No two states share a colour, so the colour alone tells them apart.
pub proof fn law_state_colours_differ(a: AgentState, b: AgentState)
    ensures
        a.level() == b.level() ==> a == b,
{
}

} // verus!
