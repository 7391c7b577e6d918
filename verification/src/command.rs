//! Command states: what the panes that run a command show.

use vstd::prelude::*;

use crate::agent::AgentState;
use crate::dump::command_text;
use crate::host::{PaneInfo, PaneInfoV, PaneManifest, PaneManifestV};
use crate::ids::{group_views, views};
use crate::report::next_seq;
use crate::state::{State, StateV, StatusesV};
use crate::text::same;
use crate::wire::COMMAND_STATE_PIPE;

verus! {

broadcast use group_views;

#[derive(Debug, Clone, Copy, PartialEq, Eq, Structural)]
pub enum CommandState {
    Working,
    Done,
    Error,
}

#[derive(Debug, Clone, Copy, PartialEq, Eq, Structural)]
pub struct CommandInfo {
    pub state: CommandState,
    /// When the state last changed, counted in changes of state.
    pub state_change_seq: u64,
    /// The state was seen. It is kept so that the same exit is not reported again.
    pub read: bool,
    /// The pane had the focus when the state came up: it is read only after the focus
    /// has left the pane once.
    pub awaiting_refocus: bool,
}

impl CommandState {
    /// The agent state of the same meaning: it has the same icon, colour and urgency.
    pub open spec fn like_agent(self) -> AgentState {
        match self {
            CommandState::Working => AgentState::Working,
            CommandState::Done => AgentState::Done,
            CommandState::Error => AgentState::Error,
        }
    }

    /// The state of this name. What cannot be read counts as working: showing something
    /// as running does less harm than missing that it ended.
    pub open spec fn named(s: Seq<char>) -> CommandState {
        if s == "done"@ {
            CommandState::Done
        } else if s == "error"@ {
            CommandState::Error
        } else {
            CommandState::Working
        }
    }

    /// Only exit code 0 is done; any other end is an error.
    pub open spec fn of_exit(exited: bool, exit_status: Option<i32>) -> CommandState {
        if !exited {
            CommandState::Working
        } else if exit_status == Some(0i32) {
            CommandState::Done
        } else {
            CommandState::Error
        }
    }

    pub fn as_agent_state(self) -> (r: AgentState)
        ensures
            r == self.like_agent(),
    {
        match self {
            CommandState::Working => AgentState::Working,
            CommandState::Done => AgentState::Done,
            CommandState::Error => AgentState::Error,
        }
    }

    pub fn as_str(self) -> (r: &'static str)
        ensures
            r@ == self.like_agent().name(),
    {
        self.as_agent_state().as_str()
    }

    pub fn from_str(s: &str) -> (r: CommandState)
        ensures
            r == CommandState::named(s@),
    {
        if same(s, "done") {
            CommandState::Done
        } else if same(s, "error") {
            CommandState::Error
        } else {
            CommandState::Working
        }
    }

    pub fn from_exit(exited: bool, exit_status: Option<i32>) -> (r: CommandState)
        ensures
            r == CommandState::of_exit(exited, exit_status),
    {
        if !exited {
            return CommandState::Working;
        }
        match exit_status {
            Some(code) => if code == 0 {
                CommandState::Done
            } else {
                CommandState::Error
            },
            None => CommandState::Error,
        }
    }
}

impl CommandInfo {
    /// An end that was not looked at yet.
    pub open spec fn unread(self) -> bool {
        !self.read && self.state != CommandState::Working
    }

    pub open spec fn force_seen(self) -> CommandInfo {
        if self.unread() {
            CommandInfo { read: true, ..self }
        } else {
            self
        }
    }

    /// The command once it was looked at, unless the focus has to leave it first.
    pub open spec fn seen(self) -> CommandInfo {
        if self.awaiting_refocus {
            self
        } else {
            self.force_seen()
        }
    }

    pub fn is_unread(&self) -> (r: bool)
        ensures
            r == self.unread(),
    {
        !self.read && matches!(self.state, CommandState::Done | CommandState::Error)
    }

    /// Marks an end as read. Returns whether there was one to mark.
    pub fn mark_read(&mut self) -> (r: bool)
        ensures
            *final(self) == old(self).seen(),
            r == (*final(self) != *old(self)),
    {
        if self.awaiting_refocus {
            return false;
        }
        self.force_read()
    }

    /// Marks an end as read although the focus has not left the pane.
    pub fn force_read(&mut self) -> (r: bool)
        ensures
            *final(self) == old(self).force_seen(),
            r == old(self).unread(),
            r == (*final(self) != *old(self)),
    {
        if !self.is_unread() {
            return false;
        }
        self.read = true;
        true
    }
}

/// The state that a pane shows, whichever source it has.
#[derive(Debug, Clone, Copy, PartialEq, Eq, Structural)]
pub enum PaneStatus {
    Agent(AgentState),
    Command(CommandState),
}

impl PaneStatus {
    pub open spec fn like_agent(self) -> AgentState {
        match self {
            PaneStatus::Agent(state) => state,
            PaneStatus::Command(state) => state.like_agent(),
        }
    }

    pub fn as_agent_state(self) -> (r: AgentState)
        ensures
            r == self.like_agent(),
    {
        match self {
            PaneStatus::Agent(state) => state,
            PaneStatus::Command(state) => state.as_agent_state(),
        }
    }

    pub fn icon(self) -> (r: &'static str)
        ensures
            r@ == self.like_agent().icon_text(),
    {
        self.as_agent_state().icon()
    }

    pub fn color(self) -> (r: usize)
        ensures
            r == self.like_agent().level(),
    {
        self.as_agent_state().color()
    }

    pub fn triage_rank(self) -> (r: Option<u8>)
        ensures
            r == self.like_agent().rank(),
    {
        self.as_agent_state().triage_rank()
    }

    pub fn is_waiting(self) -> (r: bool)
        ensures
            r == self.like_agent().waiting(),
    {
        self.as_agent_state().is_waiting()
    }
}

impl StatusesV {
    /// What the pane shows: the agent on it, or else a command that was not read.
    pub open spec fn shown(self, pane_id: u32) -> Option<PaneStatus> {
        if self.agents.contains_key(pane_id) {
            Some(PaneStatus::Agent(self.agents[pane_id].state))
        } else if self.commands.contains_key(pane_id) && !self.commands[pane_id].read {
            Some(PaneStatus::Command(self.commands[pane_id].state))
        } else {
            None
        }
    }

    /// When what the pane shows last changed.
    pub open spec fn changed_at(self, pane_id: u32) -> u64 {
        if self.agents.contains_key(pane_id) {
            self.agents[pane_id].state_change_seq
        } else if self.commands.contains_key(pane_id) {
            self.commands[pane_id].state_change_seq
        } else {
            0
        }
    }
}

impl StateV {
    pub open spec fn status(self, pane_id: u32) -> Option<PaneStatus> {
        self.status.shown(pane_id)
    }
}

impl State {
    pub fn pane_status(&self, pane_id: u32) -> (r: Option<PaneStatus>)
        ensures
            r == self@.status(pane_id),
    {
        if let Some(agent) = self.status.agents.get(&pane_id) {
            return Some(PaneStatus::Agent(agent.state));
        }
        match self.status.commands.get(&pane_id) {
            Some(info) => if info.read {
                None
            } else {
                Some(PaneStatus::Command(info.state))
            },
            None => None,
        }
    }

    pub fn status_seq(&self, pane_id: u32) -> (r: u64)
        ensures
            r == self@.status.changed_at(pane_id),
    {
        if let Some(agent) = self.status.agents.get(&pane_id) {
            return agent.state_change_seq;
        }
        match self.status.commands.get(&pane_id) {
            Some(info) => info.state_change_seq,
            None => 0,
        }
    }
}

impl StatusesV {
    /// The pane shows a state of its command that was not known.
    pub open spec fn news(self, p: PaneInfoV) -> bool {
        !p.is_plugin && !p.is_suppressed && p.terminal_command is Some && !(
        self.commands.contains_key(p.id) && self.commands[p.id].state == CommandState::of_exit(
            p.exited,
            p.exit_status,
        ))
    }

    /// A pane was reported. A state that did not change stays as it is, so that an end that
    /// was read is not reported again.
    pub open spec fn observe_pane(self, p: PaneInfoV) -> StatusesV {
        if self.news(p) {
            let seq = next_seq(self.state_seq);
            StatusesV {
                state_seq: seq,
                commands: self.commands.insert(
                    p.id,
                    CommandInfo {
                        state: CommandState::of_exit(p.exited, p.exit_status),
                        state_change_seq: seq,
                        read: false,
                        awaiting_refocus: p.is_focused,
                    },
                ),
                ..self
            }
        } else {
            self
        }
    }

    /// The panes were reported, one after another.
    pub open spec fn observe(self, panes: Seq<PaneInfoV>) -> StatusesV
        decreases panes.len(),
    {
        if panes.len() == 0 {
            self
        } else {
            self.observe(panes.drop_last()).observe_pane(panes.last())
        }
    }

    /// The panes whose command changed its state.
    pub open spec fn changes(self, panes: Seq<PaneInfoV>) -> Seq<u32>
        decreases panes.len(),
    {
        if panes.len() == 0 {
            Seq::empty()
        } else {
            let front = self.changes(panes.drop_last());
            if self.observe(panes.drop_last()).news(panes.last()) {
                front.push(panes.last().id)
            } else {
                front
            }
        }
    }
}

impl StateV {
    /// The siblings learn the commands of these panes.
    pub open spec fn broadcasts_commands(self, ids: Seq<u32>) -> StateV {
        if ids.len() == 0 {
            self
        } else {
            self.broadcasts(COMMAND_STATE_PIPE@, command_text(self.status.commands, ids))
        }
    }

    /// The panes were reported: the states of their commands follow, and the siblings are told.
    pub open spec fn apply_command_states(self, m: PaneManifestV) -> StateV {
        self.with_status(self.status.observe(m.flat())).broadcasts_commands(
            self.status.changes(m.flat()),
        )
    }
}

impl State {
    fn observe_pane(&mut self, pane: &PaneInfo) -> (r: bool)
        ensures
            final(self)@ == old(self)@.with_status(old(self)@.status.observe_pane(pane@)),
            r == old(self)@.status.news(pane@),
    {
        if pane.is_plugin || pane.is_suppressed || pane.terminal_command.is_none() {
            return false;
        }
        let next = CommandState::from_exit(pane.exited, pane.exit_status);
        if let Some(info) = self.status.commands.get(&pane.id) {
            if info.state == next {
                return false;
            }
        }
        let seq = self.status.state_seq.saturating_add(1);
        self.status.state_seq = seq;
        self.status.commands.insert(
            pane.id,
            CommandInfo {
                state: next,
                state_change_seq: seq,
                read: false,
                awaiting_refocus: pane.is_focused,
            },
        );
        true
    }

    fn broadcast_command_states(&mut self, pane_ids: &Vec<u32>)
        ensures
            final(self)@ == old(self)@.broadcasts_commands(pane_ids@),
    {
        if pane_ids.len() == 0 {
            return ;
        }
        let payload = self.command_lines(pane_ids);
        self.broadcast_to_siblings(COMMAND_STATE_PIPE, payload.as_str());
    }

    /// Takes in a report of the panes.
    pub fn apply_command_states(&mut self, manifest: &PaneManifest)
        ensures
            final(self)@ == old(self)@.apply_command_states(manifest@),
    {
        let panes = manifest.all_panes();
        let ghost v = views(panes@);
        let ghost start = self@;
        let mut changed: Vec<u32> = Vec::new();
        let mut i: usize = 0;
        assert(v.take(0) =~= Seq::empty());
        while i < panes.len()
            invariant
                i <= panes.len(),
                v == views(panes@),
                self@ == start.with_status(start.status.observe(v.take(i as int))),
                changed@ == start.status.changes(v.take(i as int)),
            decreases panes.len() - i,
        {
            let pane = panes[i];
            assert(v.take(i + 1).drop_last() =~= v.take(i as int));
            assert(v.take(i + 1).last() == pane@);
            if self.observe_pane(pane) {
                changed.push(pane.id);
            }
            i += 1;
        }
        assert(v.take(i as int) =~= v);
        self.broadcast_command_states(&changed);
    }
}

/// A report of the same panes again changes nothing: what was read stays read.
pub proof fn law_reports_are_idempotent(s: StatusesV, p: PaneInfoV)
    ensures
        s.observe_pane(p).observe_pane(p) == s.observe_pane(p),
{
}

/// The wire name of a state names that state.
pub proof fn law_command_names(s: CommandState)
    ensures
        CommandState::named(s.like_agent().name()) == s,
{
    reveal_strlit("working");
    reveal_strlit("done");
    reveal_strlit("error");
    assert("working"@[0] == 'w');
    assert("done"@[0] == 'd');
    assert("error"@[0] == 'e');
}

/// An agent registered on a pane always wins over the pane's command.
pub proof fn law_agent_wins(s: StateV, pane_id: u32)
    requires
        s.status.agents.contains_key(pane_id),
    ensures
        s.status(pane_id) == Some(PaneStatus::Agent(s.status.agents[pane_id].state)),
{
}

} // verus!
