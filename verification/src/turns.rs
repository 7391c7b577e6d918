//! What holds of agents over a run of reports: when a turn lasts, when it ends, and what each
//! event leaves alone.

use vstd::prelude::*;

use crate::agent::{AgentInfoV, AgentState};
use crate::ids::group_views;
use crate::payload::StatusPayloadV;
use crate::report::HookEvent;
use crate::state::StateV;

verus! {

broadcast use group_views;

/// All these reports come in, one after another.
pub open spec fn told(s: StateV, reports: Seq<StatusPayloadV>) -> StateV
    decreases reports.len(),
{
    if reports.len() == 0 {
        s
    } else {
        told(s, reports.drop_last()).apply_status(reports.last())
    }
}

/// The pane has an agent that works on a turn which has not ended.
pub open spec fn mid_turn(s: StateV, pane_id: u32) -> bool {
    s.status.agents.contains_key(pane_id) && s.status.agents[pane_id].state == AgentState::Working
        && !s.status.agents[pane_id].turn_ended
}

/// The event is none of those that take an agent out of its work.
pub open spec fn harmless(event: Seq<char>) -> bool {
    event != "SessionStart"@ && event != "Notification"@ && event != "Stop"@ && event
        != "StopFailure"@ && event != "SessionEnd"@
}

proof fn lemma_event_names()
    ensures
        HookEvent::named("SessionStart"@) == HookEvent::SessionStart,
        HookEvent::named("UserPromptSubmit"@) == HookEvent::UserPromptSubmit,
        HookEvent::named("Notification"@) == HookEvent::Notification,
        HookEvent::named("Stop"@) == HookEvent::Stop,
        HookEvent::named("StopFailure"@) == HookEvent::StopFailure,
        HookEvent::named("SessionEnd"@) == HookEvent::SessionEnd,
        HookEvent::named("SubagentStart"@) == HookEvent::SubagentStart,
        HookEvent::named("SubagentStop"@) == HookEvent::SubagentStop,
        HookEvent::named("TaskCreated"@) == HookEvent::TaskCreated,
        HookEvent::named("TaskCompleted"@) == HookEvent::TaskCompleted,
{
    reveal_strlit("SessionStart");
    reveal_strlit("UserPromptSubmit");
    reveal_strlit("Notification");
    reveal_strlit("Stop");
    reveal_strlit("StopFailure");
    reveal_strlit("SessionEnd");
    reveal_strlit("SubagentStart");
    reveal_strlit("SubagentStop");
    reveal_strlit("TaskCreated");
    reveal_strlit("TaskCompleted");
    assert("SessionStart"@[1] == 'e');
    assert("UserPromptSubmit"@[0] == 'U');
    assert("Notification"@[0] == 'N');
    assert("Stop"@[1] == 't');
    assert("StopFailure"@[1] == 't');
    assert("SessionEnd"@[1] == 'e');
    assert("SubagentStart"@[1] == 'u');
    assert("SubagentStop"@[1] == 'u');
    assert("TaskCreated"@[0] == 'T');
    assert("TaskCompleted"@[0] == 'T');
    assert("StopFailure"@[0] == 'S');
    assert("SubagentStart"@[0] == 'S');
    assert("Stop"@.len() == 4);
    assert("StopFailure"@.len() == 11);
    assert("SessionStart"@.len() == 12);
    assert("SessionEnd"@.len() == 10);
    assert("SubagentStart"@.len() == 13);
    assert("SubagentStop"@.len() == 12);
    assert("TaskCreated"@.len() == 11);
    assert("TaskCompleted"@.len() == 13);
}

// --- when a turn lasts and when it ends ---

/// A prompt opens a turn, whatever the agent did before: it works, and the turn has not
/// ended.
pub proof fn law_prompt_opens_turn(s: StateV, p: StatusPayloadV)
    requires
        p.event == "UserPromptSubmit"@,
    ensures
        mid_turn(s.apply_status(p), p.pane_id),
{
    lemma_event_names();
}

/// An agent in the middle of a turn stays there after any report but the few that take an
/// agent out of its work: subagents that start or stop do not end a turn, nor do tasks, nor
/// events without a name here, nor reports on other panes.
pub proof fn law_turn_stays_open(s: StateV, p: StatusPayloadV, pane_id: u32)
    requires
        mid_turn(s, pane_id),
        p.pane_id != pane_id || harmless(p.event),
    ensures
        mid_turn(s.apply_status(p), pane_id),
{
    lemma_event_names();
}

/// From the prompt on an agent works, through any run of harmless reports.
pub proof fn law_turn_lasts(
    s: StateV,
    prompt: StatusPayloadV,
    reports: Seq<StatusPayloadV>,
)
    requires
        prompt.event == "UserPromptSubmit"@,
        forall|i: int|
            0 <= i < reports.len() ==> (#[trigger] reports[i]).pane_id != prompt.pane_id
                || harmless(reports[i].event),
    ensures
        mid_turn(told(s.apply_status(prompt), reports), prompt.pane_id),
    decreases reports.len(),
{
    if reports.len() == 0 {
        law_prompt_opens_turn(s, prompt);
    } else {
        let front = reports.drop_last();
        assert forall|i: int| 0 <= i < front.len() implies (#[trigger] front[i]).pane_id
            != prompt.pane_id || harmless(front[i].event) by {
            assert(front[i] == reports[i]);
        }
        law_turn_lasts(s, prompt, front);
        assert(reports.last() == reports[reports.len() - 1]);
        law_turn_stays_open(
            told(s.apply_status(prompt), front),
            reports.last(),
            prompt.pane_id,
        );
    }
}

/// The agent's turn is over when its main run stops and no subagent runs; with subagents
/// still running it goes on, and a failure is not covered up by the stop that follows it.
pub proof fn law_stop_ends_turn(s: StateV, p: StatusPayloadV)
    requires
        p.event == "Stop"@,
        s.status.agents.contains_key(p.pane_id),
    ensures
        s.apply_status(p).status.agents.contains_key(p.pane_id),
        s.apply_status(p).status.agents[p.pane_id].turn_ended,
        s.apply_status(p).status.agents[p.pane_id].subagents
            == s.status.agents[p.pane_id].subagents,
        s.status.agents[p.pane_id].state == AgentState::Error ==> s.apply_status(
            p,
        ).status.agents[p.pane_id].state == AgentState::Error,
        s.status.agents[p.pane_id].state != AgentState::Error
            && s.status.agents[p.pane_id].subagents == 0 ==> s.apply_status(
            p,
        ).status.agents[p.pane_id].state == AgentState::Done,
        s.status.agents[p.pane_id].subagents > 0 ==> s.apply_status(
            p,
        ).status.agents[p.pane_id].state == s.status.agents[p.pane_id].state,
{
    lemma_event_names();
}

/// A turn that stopped with subagents running is done exactly when the last of them has
/// stopped: it still works while fewer have.
pub proof fn law_last_subagent_makes_done(
    s: StateV,
    stop: StatusPayloadV,
    reports: Seq<StatusPayloadV>,
)
    requires
        mid_turn(s, stop.pane_id),
        stop.event == "Stop"@,
        0 < reports.len() <= s.status.agents[stop.pane_id].subagents,
        forall|i: int|
            0 <= i < reports.len() ==> (#[trigger] reports[i]).pane_id == stop.pane_id
                && reports[i].event == "SubagentStop"@,
    ensures
        told(s.apply_status(stop), reports).status.agents.contains_key(stop.pane_id),
        told(s.apply_status(stop), reports).status.agents[stop.pane_id].state == (if reports.len()
            == s.status.agents[stop.pane_id].subagents {
            AgentState::Done
        } else {
            AgentState::Working
        }),
{
    lemma_subagents_stop(s, stop, reports);
}

proof fn lemma_subagents_stop(
    s: StateV,
    stop: StatusPayloadV,
    reports: Seq<StatusPayloadV>,
)
    requires
        mid_turn(s, stop.pane_id),
        stop.event == "Stop"@,
        reports.len() <= s.status.agents[stop.pane_id].subagents,
        s.status.agents[stop.pane_id].subagents > 0,
        forall|i: int|
            0 <= i < reports.len() ==> (#[trigger] reports[i]).pane_id == stop.pane_id
                && reports[i].event == "SubagentStop"@,
    ensures
        ({
            let t = told(s.apply_status(stop), reports).status.agents;
            let n = s.status.agents[stop.pane_id].subagents;
            &&& t.contains_key(stop.pane_id)
            &&& t[stop.pane_id].turn_ended
            &&& t[stop.pane_id].subagents == n - reports.len()
            &&& t[stop.pane_id].state == (if reports.len() == n {
                AgentState::Done
            } else {
                AgentState::Working
            })
        }),
    decreases reports.len(),
{
    lemma_event_names();
    if reports.len() == 0 {
        law_stop_ends_turn(s, stop);
    } else {
        let front = reports.drop_last();
        assert forall|i: int| 0 <= i < front.len() implies (#[trigger] front[i]).pane_id
            == stop.pane_id && front[i].event == "SubagentStop"@ by {
            assert(front[i] == reports[i]);
        }
        lemma_subagents_stop(s, stop, front);
        assert(reports.last() == reports[reports.len() - 1]);
    }
}

/// A subagent that stops makes an agent done only if its turn has ended and it works: one that
/// is idle, waits for an answer or failed stays as it is.
pub proof fn law_subagents_leave_state(s: StateV, p: StatusPayloadV)
    requires
        p.event == "SubagentStart"@ || p.event == "SubagentStop"@ || p.event == "TaskCreated"@
            || p.event == "TaskCompleted"@,
        s.status.agents.contains_key(p.pane_id),
    ensures
        s.apply_status(p).status.agents.contains_key(p.pane_id),
        s.apply_status(p).status.agents[p.pane_id].turn_ended
            == s.status.agents[p.pane_id].turn_ended,
        s.apply_status(p).status.agents[p.pane_id].state
            != s.status.agents[p.pane_id].state <==> p.event == "SubagentStop"@
            && s.status.agents[p.pane_id].state == AgentState::Working
            && s.status.agents[p.pane_id].turn_ended && s.status.agents[p.pane_id].subagents <= 1,
        s.apply_status(p).status.agents[p.pane_id].state
            != s.status.agents[p.pane_id].state ==> s.apply_status(
            p,
        ).status.agents[p.pane_id].state == AgentState::Done,
{
    lemma_event_names();
}

// --- the events, one by one ---

/// The state that an event leads to from any other: a session starts idle, a prompt is worked
/// on, a notification waits for the user, a failure is an error. All register a pane that
/// nothing was heard of, and the end of a session takes it off.
pub proof fn law_event_states(s: StateV, p: StatusPayloadV)
    ensures
        ({
            let t = s.apply_status(p).status.agents;
            &&& p.event == "SessionStart"@ ==> t[p.pane_id].state == AgentState::Idle
            &&& p.event == "UserPromptSubmit"@ ==> t[p.pane_id].state == AgentState::Working
            &&& p.event == "Notification"@ ==> t[p.pane_id].state == AgentState::Blocked
            &&& p.event == "StopFailure"@ ==> t[p.pane_id].state == AgentState::Error
            &&& t.contains_key(p.pane_id) <==> p.event != "SessionEnd"@
            &&& p.event != "SessionEnd"@ ==> t[p.pane_id].agent == p.agent
        }),
{
    lemma_event_names();
}

/// An event that has no name here, such as a failed tool call, changes nothing of an agent but
/// the name it reports under.
pub proof fn law_other_events_change_nothing(s: StateV, p: StatusPayloadV)
    requires
        s.status.agents.contains_key(p.pane_id),
        harmless(p.event),
        p.event != "UserPromptSubmit"@,
        p.event != "SubagentStart"@,
        p.event != "SubagentStop"@,
        p.event != "TaskCreated"@,
        p.event != "TaskCompleted"@,
    ensures
        s.apply_status(p).status.agents[p.pane_id] == (AgentInfoV {
            agent: p.agent,
            ..s.status.agents[p.pane_id]
        }),
        s.apply_status(p).status.state_seq == s.status.state_seq,
{
}

/// The first report on a pane starts from an idle agent without subagents or tasks.
pub proof fn law_first_report(s: StateV, p: StatusPayloadV)
    requires
        !s.status.agents.contains_key(p.pane_id),
        p.event != "SessionEnd"@,
    ensures
        ({
            let a = s.apply_status(p).status.agents[p.pane_id];
            &&& a.subagents == (if p.event == "SubagentStart"@ {
                1nat
            } else {
                0
            })
            &&& a.open_tasks == (if p.event == "TaskCreated"@ {
                1nat
            } else {
                0
            })
            &&& p.event == "Stop"@ ==> a.state == AgentState::Done
            &&& harmless(p.event) && p.event != "UserPromptSubmit"@ ==> a.state
                == AgentState::Idle
            &&& a.turn_ended == (p.event == "Stop"@)
            &&& p.event != "Notification"@ ==> a.detail is None
        }),
{
    lemma_event_names();
}

/// The subagents are counted: one more that starts, one less that stops, none after the start
/// of a session. No other event changes the count, and it does not go below zero.
pub proof fn law_subagents_are_counted(s: StateV, p: StatusPayloadV)
    requires
        s.status.agents.contains_key(p.pane_id),
        p.event != "SessionEnd"@,
        s.status.agents[p.pane_id].subagents < usize::MAX,
    ensures
        ({
            let n = s.status.agents[p.pane_id].subagents;
            let m = s.apply_status(p).status.agents[p.pane_id].subagents;
            &&& p.event == "SubagentStart"@ ==> m == n + 1
            &&& p.event == "SubagentStop"@ && n > 0 ==> m == n - 1
            &&& p.event == "SubagentStop"@ && n == 0 ==> m == 0
            &&& p.event == "SessionStart"@ ==> m == 0
            &&& p.event != "SubagentStart"@ && p.event != "SubagentStop"@ && p.event
                != "SessionStart"@ ==> m == n
        }),
{
    lemma_event_names();
}

/// The open tasks are counted: one more that is created, one less that is completed, none after
/// the start of a session. No other event changes the count, and it does not go below zero.
pub proof fn law_tasks_are_counted(s: StateV, p: StatusPayloadV)
    requires
        s.status.agents.contains_key(p.pane_id),
        p.event != "SessionEnd"@,
        s.status.agents[p.pane_id].open_tasks < usize::MAX,
    ensures
        ({
            let n = s.status.agents[p.pane_id].open_tasks;
            let m = s.apply_status(p).status.agents[p.pane_id].open_tasks;
            &&& p.event == "TaskCreated"@ ==> m == n + 1
            &&& p.event == "TaskCompleted"@ && n > 0 ==> m == n - 1
            &&& p.event == "TaskCompleted"@ && n == 0 ==> m == 0
            &&& p.event == "SessionStart"@ ==> m == 0
            &&& p.event != "TaskCreated"@ && p.event != "TaskCompleted"@ && p.event
                != "SessionStart"@ ==> m == n
        }),
{
    lemma_event_names();
}

/// Whether the turn has ended: a stop ends it, a prompt and the start of a session open it
/// again, and no other event touches it.
pub proof fn law_turn_flag(s: StateV, p: StatusPayloadV)
    requires
        s.status.agents.contains_key(p.pane_id),
        p.event != "SessionEnd"@,
    ensures
        s.apply_status(p).status.agents[p.pane_id].turn_ended == (if p.event == "Stop"@ {
            true
        } else if p.event == "UserPromptSubmit"@ || p.event == "SessionStart"@ {
            false
        } else {
            s.status.agents[p.pane_id].turn_ended
        }),
{
    lemma_event_names();
}

/// The words of an agent come with the notification that waits for an answer, and stay with it
/// until the next one.
pub proof fn law_detail_is_notified(s: StateV, p: StatusPayloadV)
    requires
        s.status.agents.contains_key(p.pane_id),
        p.event != "SessionEnd"@,
    ensures
        s.apply_status(p).status.agents[p.pane_id].detail == (if p.event == "Notification"@ {
            p.detail
        } else {
            s.status.agents[p.pane_id].detail
        }),
{
    lemma_event_names();
}

/// A change of state, and nothing else, takes the next number in the order of changes.
pub proof fn law_changes_are_numbered(s: StateV, p: StatusPayloadV)
    requires
        s.status.state_seq < u64::MAX,
        s.status.agents.contains_key(p.pane_id),
        p.event != "SessionEnd"@,
    ensures
        ({
            let a = s.status.agents[p.pane_id];
            let b = s.apply_status(p).status.agents[p.pane_id];
            &&& a.state != b.state ==> b.state_change_seq == s.status.state_seq + 1
                && s.apply_status(p).status.state_seq == s.status.state_seq + 1
            &&& a.state == b.state ==> b.state_change_seq == a.state_change_seq && s.apply_status(
                p,
            ).status.state_seq == s.status.state_seq
        }),
{
    lemma_event_names();
}

/// A report touches the agent of its pane and the working directory of its pane, and nothing
/// else of the state.
pub proof fn law_report_frame(s: StateV, p: StatusPayloadV, other: u32)
    requires
        other != p.pane_id,
    ensures
        ({
            let t = s.apply_status(p);
            &&& t.nav == s.nav
            &&& t.focus == s.focus
            &&& t.screen == s.screen
            &&& t.clock == s.clock
            &&& t.me == s.me
            &&& t.config == s.config
            &&& t.calls == s.calls
            &&& t.list.tabs == s.list.tabs
            &&& t.list.panes == s.list.panes
            &&& t.list.selectable == s.list.selectable
            &&& t.list.selected == s.list.selected
            &&& t.list.marked == s.list.marked
            &&& t.status.commands == s.status.commands
            &&& t.status.pending_reads == s.status.pending_reads
            &&& t.status.agents.contains_key(other) == s.status.agents.contains_key(other)
            &&& s.status.agents.contains_key(other) ==> t.status.agents[other]
                == s.status.agents[other]
            &&& t.list.pane_cwds.contains_key(other) == s.list.pane_cwds.contains_key(other)
            &&& s.list.pane_cwds.contains_key(other) ==> t.list.pane_cwds[other]
                == s.list.pane_cwds[other]
            &&& p.cwd is Some ==> t.list.pane_cwds.contains_key(p.pane_id)
                && t.list.pane_cwds[p.pane_id] == p.cwd->0
            &&& p.cwd is None ==> t.list.pane_cwds == s.list.pane_cwds
        }),
{
}

} // verus!
