//! What asks for the user's attention, and what takes it off again: the focus that counts, the
//! reads that it leads to, the ends of commands, and the list of what is urgent.

use vstd::prelude::*;

use crate::agent::AgentState;
use crate::command::{CommandInfo, CommandState};
use crate::dump::command_text;
use crate::focus::{lemma_tab_place, panes_at};
use crate::host::{HostCallV, PaneInfoV, PaneManifestV, TabInfoV};
use crate::ids::{ascending, group_views, lemma_ascending};
use crate::read::{active_tab, command_ids, count_waiting, focused_ids, terminal_ids};
use crate::state::{SelectableV, StateV, StatusesV};
use crate::triage::law_triage_order;

verus! {

broadcast use group_views;

// --- the focus that counts ---

/// The tab is the one that is active; where the host reports more than one, the first counts.
pub open spec fn active_at(tabs: Seq<TabInfoV>, n: int) -> bool {
    0 <= n < tabs.len() && tabs[n].active && forall|j: int|
        0 <= j < n ==> !(#[trigger] tabs[j]).active
}

/// Every tab is reported once.
pub open spec fn reported_once(m: PaneManifestV) -> bool {
    forall|i: int, j: int|
        0 <= i < j < m.tabs.len() ==> (#[trigger] m.tabs[i]).position != (
        #[trigger] m.tabs[j]).position
}

/// Among the panes reported for the tab, some terminal with this id has the focus of the layer
/// in front.
pub open spec fn has_focus(m: PaneManifestV, tab: TabInfoV, pane_id: u32) -> bool {
    exists|k: int, i: int|
        0 <= k < m.tabs.len() && m.tabs[k].position == tab.position && 0 <= i
            < m.tabs[k].panes.len() && focused_terminal(
            #[trigger] m.tabs[k].panes[i],
            tab.are_floating_panes_visible,
            pane_id,
        )
}

/// The pane is the terminal with this id, not hidden, in the layer, and has the focus.
pub open spec fn focused_terminal(p: PaneInfoV, floating: bool, pane_id: u32) -> bool {
    p.id == pane_id && !p.is_plugin && !p.is_suppressed && p.is_focused && p.is_floating
        == floating
}

proof fn lemma_active_tab(tabs: Seq<TabInfoV>, n: int)
    requires
        active_at(tabs, n),
    ensures
        active_tab(tabs) == n,
    decreases n,
{
    if n > 0 {
        assert(!tabs[0].active);
        let rest = tabs.drop_first();
        assert forall|j: int| 0 <= j < n - 1 implies !(#[trigger] rest[j]).active by {
            assert(rest[j] == tabs[j + 1]);
        }
        lemma_active_tab(rest, n - 1);
    }
}

proof fn lemma_no_active_tab(tabs: Seq<TabInfoV>)
    requires
        forall|j: int| 0 <= j < tabs.len() ==> !(#[trigger] tabs[j]).active,
    ensures
        active_tab(tabs) == tabs.len(),
    decreases tabs.len(),
{
    if tabs.len() > 0 {
        let rest = tabs.drop_first();
        assert(!tabs[0].active);
        assert forall|j: int| 0 <= j < rest.len() implies !(#[trigger] rest[j]).active by {
            assert(rest[j] == tabs[j + 1]);
        }
        lemma_no_active_tab(rest);
    }
}

proof fn lemma_focused_ids(panes: Seq<PaneInfoV>, floating: bool, pane_id: u32)
    ensures
        focused_ids(panes, floating).contains(pane_id) <==> exists|i: int|
            0 <= i < panes.len() && focused_terminal(#[trigger] panes[i], floating, pane_id),
    decreases panes.len(),
{
    if panes.len() > 0 {
        let front = panes.drop_last();
        lemma_focused_ids(front, floating, pane_id);
        let last = panes.len() - 1;
        if focused_terminal(panes[last], floating, pane_id) {
            assert(focused_ids(panes, floating).contains(pane_id));
        }
        if focused_ids(front, floating).contains(pane_id) {
            let i = choose|i: int|
                0 <= i < front.len() && focused_terminal(#[trigger] front[i], floating, pane_id);
            assert(focused_terminal(panes[i], floating, pane_id));
        }
        if exists|i: int|
            0 <= i < panes.len() && focused_terminal(#[trigger] panes[i], floating, pane_id) {
            let i = choose|i: int|
                0 <= i < panes.len() && focused_terminal(#[trigger] panes[i], floating, pane_id);
            if i < last {
                assert(focused_terminal(front[i], floating, pane_id));
            }
        }
    }
}

proof fn lemma_panes_at(m: PaneManifestV, position: usize, k: int)
    requires
        reported_once(m),
        0 <= k < m.tabs.len(),
        m.tabs[k].position == position,
    ensures
        panes_at(m, position) == Some(m.tabs[k].panes),
{
    assert forall|j: int| 0 <= j < k implies (#[trigger] m.tabs[j]).position != position by {}
    lemma_tab_place(m, position, k);
}

/// The focus that counts is that of the active tab: a pane has it if and only if it is a
/// terminal, not hidden, with the focus of the layer in front, among the panes reported for
/// that tab.
pub proof fn law_focus_of_active_tab(s: StateV, m: PaneManifestV, n: int, pane_id: u32)
    requires
        active_at(s.list.tabs, n),
        reported_once(m),
    ensures
        s.focus_in(m) is Some <==> exists|k: int|
            0 <= k < m.tabs.len() && (#[trigger] m.tabs[k]).position == s.list.tabs[n].position,
        s.focus_in(m) is Some ==> (s.focus_in(m)->0.contains(pane_id) <==> has_focus(
            m,
            s.list.tabs[n],
            pane_id,
        )),
{
    let tab = s.list.tabs[n];
    lemma_active_tab(s.list.tabs, n);
    if exists|k: int|
        0 <= k < m.tabs.len() && (#[trigger] m.tabs[k]).position == tab.position {
        let k = choose|k: int|
            0 <= k < m.tabs.len() && (#[trigger] m.tabs[k]).position == tab.position;
        let panes = m.tabs[k].panes;
        let floating = tab.are_floating_panes_visible;
        lemma_panes_at(m, tab.position, k);
        lemma_focused_ids(panes, floating, pane_id);
        if focused_ids(panes, floating).contains(pane_id) {
            let i = choose|i: int|
                0 <= i < panes.len() && focused_terminal(#[trigger] panes[i], floating, pane_id);
            assert(focused_terminal(m.tabs[k].panes[i], floating, pane_id));
        }
        if has_focus(m, tab, pane_id) {
            let (h, i) = choose|h: int, i: int|
                0 <= h < m.tabs.len() && m.tabs[h].position == tab.position && 0 <= i
                    < m.tabs[h].panes.len() && focused_terminal(
                    #[trigger] m.tabs[h].panes[i],
                    floating,
                    pane_id,
                );
            assert(h == k) by {
                if h < k {
                    assert(m.tabs[h].position != m.tabs[k].position);
                }
                if k < h {
                    assert(m.tabs[k].position != m.tabs[h].position);
                }
            }
            assert(focused_terminal(panes[i], floating, pane_id));
        }
    } else {
        assert forall|j: int| 0 <= j < m.tabs.len() implies (#[trigger] m.tabs[j]).position
            != tab.position by {}
        lemma_tab_place(m, tab.position, m.tabs.len() as int);
    }
}

// --- reads ---

/// Something on the pane waits to be looked at: its agent is done, asks or failed, or its
/// command ended and was not looked at. A command that ended under the focus waits for the
/// focus to leave first.
pub open spec fn waits_for_look(s: StatusesV, pane_id: u32) -> bool {
    (s.agents.contains_key(pane_id) && (s.agents[pane_id].state == AgentState::Done
        || s.agents[pane_id].state == AgentState::Blocked || s.agents[pane_id].state
        == AgentState::Error)) || (s.commands.contains_key(pane_id) && (s.commands[pane_id].state
        == CommandState::Done || s.commands[pane_id].state == CommandState::Error)
        && !s.commands[pane_id].read && !s.commands[pane_id].awaiting_refocus)
}

/// When panes are reported, the panes due to be read are those in the focus of the active tab
/// that wait for a look or were due before. A pane that is newly due is so after the delay;
/// one that was due keeps its moment.
pub proof fn law_reads_fall_due(s: StateV, m: PaneManifestV, n: int, pane_id: u32)
    requires
        active_at(s.list.tabs, n),
        reported_once(m),
        exists|k: int|
            0 <= k < m.tabs.len() && (#[trigger] m.tabs[k]).position == s.list.tabs[n].position,
        s.clock.elapsed + 600_000 <= u64::MAX,
    ensures
        ({
            let due = s.apply_read_model(m).status.pending_reads;
            &&& due.contains_key(pane_id) <==> has_focus(m, s.list.tabs[n], pane_id) && (
            s.status.pending_reads.contains_key(pane_id) || waits_for_look(s.status, pane_id))
            &&& due.contains_key(pane_id) && s.status.pending_reads.contains_key(pane_id)
                ==> due[pane_id] == s.status.pending_reads[pane_id]
            &&& due.contains_key(pane_id) && !s.status.pending_reads.contains_key(pane_id)
                ==> due[pane_id] == s.clock.elapsed + 600_000
        }),
{
    law_focus_of_active_tab(s, m, n, pane_id);
    let focused = s.focus_in(m)->0;
    let status = s.status.release_read_grace(focused);
    if focused.contains(pane_id) {
        assert(status.commands.contains_key(pane_id) == s.status.commands.contains_key(pane_id));
        if status.commands.contains_key(pane_id) {
            assert(status.commands[pane_id] == s.status.commands[pane_id]);
        }
        assert(status.unread(pane_id, false) == waits_for_look(s.status, pane_id));
    }
}

/// The timer runs whenever a read is due.
pub proof fn law_due_reads_run_the_timer(s: StateV, m: PaneManifestV, pane_id: u32)
    requires
        s.apply_read_model(m).status.pending_reads.contains_key(pane_id),
        s.status.pending_reads.contains_key(pane_id) ==> s.clock.timer_armed,
    ensures
        s.apply_read_model(m).clock.timer_armed,
        s.clock.timer_armed ==> s.apply_read_model(m).calls == s.calls,
        !s.clock.timer_armed ==> s.apply_read_model(m).calls == s.calls.push(
            HostCallV::SetTimeout(150_000),
        ),
{
    let t = s.apply_read_model(m);
    if s.focus_in(m) is Some {
        assert(t.status.pending_reads.dom().contains(pane_id));
        assert(!t.status.pending_reads.dom().is_empty());
    }
}

/// A pane out of focus is not read: nothing of what it shows changes when panes are reported,
/// but its ended command may be read the next time the focus comes to it. On a pane in focus
/// nothing changes before its moment has come.
pub proof fn law_reports_read_nothing(s: StateV, m: PaneManifestV, pane_id: u32)
    ensures
        ({
            let t = s.apply_read_model(m);
            &&& t.status.agents == s.status.agents
            &&& t.status.commands.contains_key(pane_id) == s.status.commands.contains_key(pane_id)
            &&& s.status.commands.contains_key(pane_id) ==> t.status.commands[pane_id] == (
            CommandInfo {
                awaiting_refocus: t.status.commands[pane_id].awaiting_refocus,
                ..s.status.commands[pane_id]
            })
            &&& s.status.commands.contains_key(pane_id) && s.focus_in(m) is Some
                ==> t.status.commands[pane_id].awaiting_refocus == (s.focus_in(m)->0.contains(
                pane_id,
            ) && s.status.commands[pane_id].awaiting_refocus)
            &&& s.focus_in(m) is None ==> t == s
        }),
{
}

/// Where no tab is active no focus counts: nothing falls due and nothing is dropped.
pub proof fn law_no_active_tab_no_reads(s: StateV, m: PaneManifestV)
    requires
        forall|j: int| 0 <= j < s.list.tabs.len() ==> !(#[trigger] s.list.tabs[j]).active,
    ensures
        s.apply_read_model(m) == s,
{
    lemma_no_active_tab(s.list.tabs);
}

proof fn lemma_read_one(s: StatusesV, ids: Seq<u32>, pane_id: u32)
    ensures
        ids.contains(pane_id) ==> s.read_all(ids, false).agents.contains_key(pane_id)
            == s.agents.contains_key(pane_id) && (s.agents.contains_key(pane_id) ==> s.read_all(
            ids,
            false,
        ).agents[pane_id] == s.agents[pane_id].seen()) && s.read_all(
            ids,
            false,
        ).commands.contains_key(pane_id) == s.commands.contains_key(pane_id) && (
        s.commands.contains_key(pane_id) ==> s.read_all(ids, false).commands[pane_id]
            == s.commands[pane_id].seen()),
        !ids.contains(pane_id) ==> s.read_all(ids, false).agents.contains_key(pane_id)
            == s.agents.contains_key(pane_id) && (s.agents.contains_key(pane_id) ==> s.read_all(
            ids,
            false,
        ).agents[pane_id] == s.agents[pane_id]) && s.read_all(ids, false).commands.contains_key(
            pane_id,
        ) == s.commands.contains_key(pane_id) && (s.commands.contains_key(pane_id)
            ==> s.read_all(ids, false).commands[pane_id] == s.commands[pane_id]),
        s.read_all(ids, false).pending_reads == s.pending_reads,
    decreases ids.len(),
{
    if ids.len() > 0 {
        let front = ids.drop_last();
        lemma_read_one(s, front, pane_id);
        if front.contains(pane_id) {
            let i = choose|i: int| 0 <= i < front.len() && front[i] == pane_id;
            assert(ids[i] == pane_id);
        }
        if ids.contains(pane_id) && ids.last() != pane_id {
            let i = choose|i: int| 0 <= i < ids.len() && ids[i] == pane_id;
            assert(front[i] == pane_id);
        }
        assert(ids[ids.len() - 1] == ids.last());
    }
}

/// When its moment has come a pane is read: an agent that waited is idle and its words are
/// gone, an end that was not seen is seen, and nothing is due any more. A pane whose moment has
/// not come, or that is not due, stays as it is.
pub proof fn law_due_reads_clear(s: StateV, pane_id: u32)
    requires
        s.status.pending_reads.dom().finite(),
    ensures
        ({
            let t = s.apply_pending_reads().status;
            let come = s.status.pending_reads.contains_key(pane_id)
                && s.status.pending_reads[pane_id] <= s.clock.elapsed;
            &&& come ==> !waits_for_look(t, pane_id) && !t.pending_reads.contains_key(pane_id)
            &&& come && s.status.agents.contains_key(pane_id) ==> t.agents.contains_key(pane_id)
                && t.agents[pane_id].state == (if s.status.agents[pane_id].state
                == AgentState::Working {
                AgentState::Working
            } else {
                AgentState::Idle
            })
            &&& come && s.status.commands.contains_key(pane_id) ==> t.commands.contains_key(
                pane_id,
            ) && t.commands[pane_id].state == s.status.commands[pane_id].state
                && t.commands[pane_id].read == (s.status.commands[pane_id].read || (
            s.status.commands[pane_id].state != CommandState::Working
                && !s.status.commands[pane_id].awaiting_refocus))
            &&& !come ==> t.agents.contains_key(pane_id) == s.status.agents.contains_key(pane_id)
                && (s.status.agents.contains_key(pane_id) ==> t.agents[pane_id]
                == s.status.agents[pane_id]) && t.commands.contains_key(pane_id)
                == s.status.commands.contains_key(pane_id) && (s.status.commands.contains_key(
                pane_id,
            ) ==> t.commands[pane_id] == s.status.commands[pane_id])
            &&& !come && s.status.pending_reads.contains_key(pane_id)
                ==> t.pending_reads.contains_key(pane_id) && t.pending_reads[pane_id]
                == s.status.pending_reads[pane_id]
        }),
{
    let now = s.clock.elapsed;
    let want = s.status.pending_reads.dom().filter(
        |id: u32| s.status.pending_reads.contains_key(id) && s.status.pending_reads[id] <= now,
    );
    let ids = s.status.due(now);
    lemma_ascending(want);
    assert(ids == ascending(want));
    assert(ids.to_set().contains(pane_id) == want.contains(pane_id));
    assert(ids.to_set().contains(pane_id) == ids.contains(pane_id));
    let rest = StatusesV {
        pending_reads: s.status.pending_reads.remove_keys(ids.to_set()),
        ..s.status
    };
    lemma_read_one(rest, ids, pane_id);
}

/// A pane in focus that waits for a look is read once the focus has stayed on it for the
/// delay, and not before: the timer brings the moment.
#[verifier::rlimit(40)]
pub proof fn law_staying_reads(s: StateV, m: PaneManifestV, n: int, by: u64, pane_id: u32)
    requires
        active_at(s.list.tabs, n),
        reported_once(m),
        has_focus(m, s.list.tabs[n], pane_id),
        waits_for_look(s.status, pane_id),
        !s.status.pending_reads.contains_key(pane_id),
        s.status.pending_reads.dom().finite(),
        s.clock.elapsed + 600_000 <= u64::MAX,
        s.clock.elapsed + by <= u64::MAX,
    ensures
        waits_for_look(s.apply_read_model(m).on_timer(by).0.status, pane_id) <==> by < 600_000,
{
    let tab = s.list.tabs[n];
    let (k, i) = choose|k: int, i: int|
        0 <= k < m.tabs.len() && m.tabs[k].position == tab.position && 0 <= i
            < m.tabs[k].panes.len() && focused_terminal(
            #[trigger] m.tabs[k].panes[i],
            tab.are_floating_panes_visible,
            pane_id,
        );
    assert(m.tabs[k].position == tab.position);
    law_reads_fall_due(s, m, n, pane_id);
    law_focus_of_active_tab(s, m, n, pane_id);
    let r = s.apply_read_model(m);
    let focused = s.focus_in(m)->0;
    assert(r.status.agents == s.status.agents);
    if s.status.commands.contains_key(pane_id) {
        assert(r.status.commands[pane_id] == s.status.commands[pane_id]);
    }
    assert(waits_for_look(r.status, pane_id));
    assert(r.clock.elapsed == s.clock.elapsed);
    let a = r.tick(by).advance_deployment();
    assert(a.status == r.status);
    assert(a.clock.elapsed == s.clock.elapsed + by);
    lemma_finite_focus(m, tab, s, n);
    assert(r.status.pending_reads.dom().subset_of(focused));
    vstd::set_lib::lemma_set_subset_finite(focused, r.status.pending_reads.dom());
    law_due_reads_clear(a, pane_id);
    let b = a.apply_pending_reads();
    assert(b.expire_config_warning().status == b.status);
}

proof fn lemma_focused_finite(panes: Seq<PaneInfoV>, floating: bool)
    ensures
        focused_ids(panes, floating).finite(),
    decreases panes.len(),
{
    if panes.len() > 0 {
        lemma_focused_finite(panes.drop_last(), floating);
    }
}

proof fn lemma_finite_focus(m: PaneManifestV, tab: TabInfoV, s: StateV, n: int)
    requires
        active_at(s.list.tabs, n),
        tab == s.list.tabs[n],
        s.focus_in(m) is Some,
    ensures
        s.focus_in(m)->0.finite(),
{
    lemma_active_tab(s.list.tabs, n);
    lemma_focused_finite(panes_at(m, tab.position)->0, tab.are_floating_panes_visible);
}

// --- commands ---

/// The pane is a terminal that runs a command, in sight.
pub open spec fn runs_command(p: PaneInfoV) -> bool {
    !p.is_plugin && !p.is_suppressed && p.terminal_command is Some
}

/// The state that the command of a pane is in: it works until it exits, is done where it exits
/// with 0, and failed where it exits with anything else or without a code.
pub open spec fn command_is(p: PaneInfoV, state: CommandState) -> bool {
    match state {
        CommandState::Working => !p.exited,
        CommandState::Done => p.exited && p.exit_status == Some(0i32),
        CommandState::Error => p.exited && p.exit_status != Some(0i32),
    }
}

proof fn lemma_observe_other(s: StatusesV, panes: Seq<PaneInfoV>, id: u32)
    requires
        forall|i: int|
            0 <= i < panes.len() ==> (#[trigger] panes[i]).id != id || !runs_command(panes[i]),
    ensures
        s.observe(panes).commands.contains_key(id) == s.commands.contains_key(id),
        s.commands.contains_key(id) ==> s.observe(panes).commands[id] == s.commands[id],
    decreases panes.len(),
{
    if panes.len() > 0 {
        let front = panes.drop_last();
        assert forall|i: int| 0 <= i < front.len() implies (#[trigger] front[i]).id != id
            || !runs_command(front[i]) by {
            assert(front[i] == panes[i]);
        }
        lemma_observe_other(s, front, id);
        assert(panes[panes.len() - 1] == panes.last());
    }
}

proof fn lemma_observe_one(s: StatusesV, panes: Seq<PaneInfoV>, n: int)
    requires
        0 <= n < panes.len(),
        runs_command(panes[n]),
        forall|i: int| 0 <= i < panes.len() && i != n ==> (#[trigger] panes[i]).id != panes[n].id,
    ensures
        s.observe(panes).commands.contains_key(panes[n].id),
        command_is(panes[n], s.observe(panes).commands[panes[n].id].state),
        s.commands.contains_key(panes[n].id) && command_is(
            panes[n],
            s.commands[panes[n].id].state,
        ) ==> s.observe(panes).commands[panes[n].id] == s.commands[panes[n].id],
        !(s.commands.contains_key(panes[n].id) && command_is(
            panes[n],
            s.commands[panes[n].id].state,
        )) ==> !s.observe(panes).commands[panes[n].id].read && s.observe(
            panes,
        ).commands[panes[n].id].awaiting_refocus == panes[n].is_focused,
    decreases panes.len(),
{
    let front = panes.drop_last();
    let id = panes[n].id;
    if n == panes.len() - 1 {
        assert forall|i: int| 0 <= i < front.len() implies (#[trigger] front[i]).id != id
            || !runs_command(front[i]) by {
            assert(front[i] == panes[i]);
        }
        lemma_observe_other(s, front, id);
    } else {
        assert(front[n] == panes[n]);
        assert forall|i: int| 0 <= i < front.len() && i != n implies (#[trigger] front[i]).id
            != front[n].id by {
            assert(front[i] == panes[i]);
        }
        lemma_observe_one(s, front, n);
        assert(panes[panes.len() - 1].id != id);
    }
}

/// A report of the panes brings what the command of each pane does: it works until it exits, an
/// exit with 0 is done, any other is an error. What was known already stays as it was, read
/// or not; what is new is unread, and has to lose the focus first if it came up under it.
pub proof fn law_commands_follow_panes(s: StateV, m: PaneManifestV, n: int)
    requires
        0 <= n < m.flat().len(),
        runs_command(m.flat()[n]),
        forall|i: int|
            0 <= i < m.flat().len() && i != n ==> (#[trigger] m.flat()[i]).id != m.flat()[n].id,
    ensures
        ({
            let p = m.flat()[n];
            let before = s.status.commands;
            let after = s.apply_command_states(m).status.commands;
            &&& after.contains_key(p.id)
            &&& command_is(p, after[p.id].state)
            &&& before.contains_key(p.id) && command_is(p, before[p.id].state) ==> after[p.id]
                == before[p.id]
            &&& !(before.contains_key(p.id) && command_is(p, before[p.id].state))
                ==> !after[p.id].read && after[p.id].awaiting_refocus == p.is_focused
        }),
{
    lemma_observe_one(s.status, m.flat(), n);
}

/// A pane that runs no command, is hidden or belongs to a plugin gets no command state, and
/// keeps the one it had. Agents are not touched by what commands do.
pub proof fn law_other_panes_no_command(s: StateV, m: PaneManifestV, id: u32)
    requires
        forall|i: int|
            0 <= i < m.flat().len() ==> (#[trigger] m.flat()[i]).id != id || !runs_command(
                m.flat()[i],
            ),
    ensures
        s.apply_command_states(m).status.commands.contains_key(id)
            == s.status.commands.contains_key(id),
        s.status.commands.contains_key(id) ==> s.apply_command_states(m).status.commands[id]
            == s.status.commands[id],
        s.apply_command_states(m).status.agents == s.status.agents,
{
    lemma_observe_other(s.status, m.flat(), id);
    lemma_observe_agents(s.status, m.flat());
}

proof fn lemma_observe_agents(s: StatusesV, panes: Seq<PaneInfoV>)
    ensures
        s.observe(panes).agents == s.agents,
    decreases panes.len(),
{
    if panes.len() > 0 {
        lemma_observe_agents(s, panes.drop_last());
    }
}

proof fn lemma_terminal_ids(panes: Seq<PaneInfoV>, id: u32)
    ensures
        terminal_ids(panes).contains(id) <==> exists|i: int|
            0 <= i < panes.len() && (#[trigger] panes[i]).id == id && !panes[i].is_plugin,
        command_ids(panes).contains(id) <==> exists|i: int|
            0 <= i < panes.len() && (#[trigger] panes[i]).id == id && !panes[i].is_plugin
                && panes[i].terminal_command is Some,
    decreases panes.len(),
{
    if panes.len() > 0 {
        let front = panes.drop_last();
        let last = panes.len() - 1;
        lemma_terminal_ids(front, id);
        assert(forall|i: int| 0 <= i < last ==> front[i] == #[trigger] panes[i]);
        assert(panes[last] == panes.last());
        assert(forall|i: int| 0 <= i < last ==> panes[i] == #[trigger] front[i]);
    }
}

/// What is known of a pane lasts as long as the pane: an agent and a working directory as long
/// as there is such a terminal, hidden or not, a command as long as the terminal runs one.
/// Nothing that lasts is changed.
pub proof fn law_only_live_panes_are_kept(s: StateV, id: u32)
    requires
        s.list.panes is Some,
    ensures
        ({
            let panes = s.list.panes->0.flat();
            let t = s.prune_stale_agents();
            let live = exists|i: int|
                0 <= i < panes.len() && (#[trigger] panes[i]).id == id && !panes[i].is_plugin;
            let runs = exists|i: int|
                0 <= i < panes.len() && (#[trigger] panes[i]).id == id && !panes[i].is_plugin
                    && panes[i].terminal_command is Some;
            &&& t.status.agents.contains_key(id) <==> s.status.agents.contains_key(id) && live
            &&& t.list.pane_cwds.contains_key(id) <==> s.list.pane_cwds.contains_key(id) && live
            &&& t.status.commands.contains_key(id) <==> s.status.commands.contains_key(id) && runs
            &&& t.status.agents.contains_key(id) ==> t.status.agents[id] == s.status.agents[id]
            &&& t.list.pane_cwds.contains_key(id) ==> t.list.pane_cwds[id]
                == s.list.pane_cwds[id]
            &&& t.status.commands.contains_key(id) ==> t.status.commands[id]
                == s.status.commands[id]
        }),
{
    lemma_terminal_ids(s.list.panes->0.flat(), id);
}

// --- what is urgent ---

/// What the pane shows to the user: the state of the agent on it, or else that of a command
/// whose state was not looked at.
pub open spec fn shows(s: StatusesV, pane_id: u32, state: AgentState) -> bool {
    if s.agents.contains_key(pane_id) {
        s.agents[pane_id].state == state
    } else {
        s.commands.contains_key(pane_id) && !s.commands[pane_id].read
            && match s.commands[pane_id].state {
            CommandState::Working => state == AgentState::Working,
            CommandState::Done => state == AgentState::Done,
            CommandState::Error => state == AgentState::Error,
        }
    }
}

/// The pane shows one of the states that make the list of what is urgent.
pub open spec fn needs_triage(s: StatusesV, pane_id: u32) -> bool {
    shows(s, pane_id, AgentState::Error) || shows(s, pane_id, AgentState::Blocked) || shows(
        s,
        pane_id,
        AgentState::Working,
    ) || shows(s, pane_id, AgentState::Done)
}

/// The class of the pane by what it shows: errors, then what is blocked, what works, what is
/// done.
pub open spec fn triage_class(s: StatusesV, pane_id: u32) -> int {
    if shows(s, pane_id, AgentState::Error) {
        0
    } else if shows(s, pane_id, AgentState::Blocked) {
        1
    } else if shows(s, pane_id, AgentState::Working) {
        2
    } else {
        3
    }
}

/// The number of the last change of what the pane shows, from the same source as the state.
pub open spec fn change_number(s: StatusesV, pane_id: u32) -> int {
    if s.agents.contains_key(pane_id) {
        s.agents[pane_id].state_change_seq as int
    } else {
        s.commands[pane_id].state_change_seq as int
    }
}

/// A pane of the list is up for triage if and only if it shows an error, something blocked,
/// working or done, be it that of an agent or of a command. Nothing else is.
pub proof fn law_triage_holds_what_shows(s: StateV, e: SelectableV)
    ensures
        s.triage_list().contains(e) <==> s.list.selectable.contains(e) && needs_triage(
            s.status,
            e.pane_id,
        ),
{
    law_triage_order(s.status, s.list.selectable);
}

/// The list for triage goes by class: errors first, then what is blocked, what works and what
/// is done, whichever source a state has. Inside a class the latest change comes first.
pub proof fn law_triage_goes_by_class(s: StateV, i: int, j: int)
    requires
        0 <= i < j < s.triage_list().len(),
    ensures
        ({
            let a = s.triage_list()[i].pane_id;
            let b = s.triage_list()[j].pane_id;
            &&& triage_class(s.status, a) <= triage_class(s.status, b)
            &&& triage_class(s.status, a) == triage_class(s.status, b) ==> change_number(
                s.status,
                a,
            ) >= change_number(s.status, b)
        }),
{
    law_triage_order(s.status, s.list.selectable);
    let list = s.triage_list();
    assert(list.contains(list[i]));
    assert(list.contains(list[j]));
    assert(!s.status.more_urgent(list[j].pane_id, list[i].pane_id));
}

/// The rank of a pane is the number of its class: 0 to 3 for error, blocked, working and done,
/// and none for an idle agent or for a pane that shows nothing.
pub proof fn law_urgency_is_class(s: StatusesV, pane_id: u32)
    ensures
        s.urgency(pane_id) is Some <==> needs_triage(s, pane_id),
        needs_triage(s, pane_id) ==> s.urgency(pane_id)->0 == triage_class(s, pane_id),
{
}

// --- numbers, messages and counts ---

proof fn lemma_observe_numbers(s: StatusesV, panes: Seq<PaneInfoV>)
    requires
        s.state_seq + panes.len() <= u64::MAX,
    ensures
        s.state_seq <= s.observe(panes).state_seq <= s.state_seq + panes.len(),
        forall|id: u32|
            #[trigger] s.observe(panes).commands.contains_key(id) ==> (s.commands.contains_key(id)
                && s.observe(panes).commands[id] == s.commands[id]) || s.state_seq < s.observe(
                panes,
            ).commands[id].state_change_seq <= s.observe(panes).state_seq,
    decreases panes.len(),
{
    if panes.len() > 0 {
        lemma_observe_numbers(s, panes.drop_last());
    }
}

/// What a command newly does takes a number later than all that were given out before; what did
/// not change keeps its number.
pub proof fn law_command_changes_are_numbered(s: StateV, m: PaneManifestV, id: u32)
    requires
        s.status.state_seq + m.flat().len() <= u64::MAX,
        s.apply_command_states(m).status.commands.contains_key(id),
    ensures
        ({
            let t = s.apply_command_states(m).status;
            (s.status.commands.contains_key(id) && t.commands[id] == s.status.commands[id])
                || s.status.state_seq < t.commands[id].state_change_seq <= t.state_seq
        }),
{
    lemma_observe_numbers(s.status, m.flat());
}

proof fn lemma_changes(s: StatusesV, panes: Seq<PaneInfoV>, n: int)
    requires
        0 <= n < panes.len(),
        forall|i: int| 0 <= i < panes.len() && i != n ==> (#[trigger] panes[i]).id != panes[n].id,
    ensures
        s.changes(panes).contains(panes[n].id) <==> runs_command(panes[n]) && !(
        s.commands.contains_key(panes[n].id) && command_is(
            panes[n],
            s.commands[panes[n].id].state,
        )),
    decreases panes.len(),
{
    let front = panes.drop_last();
    let id = panes[n].id;
    let rest = s.changes(front);
    if n == panes.len() - 1 {
        assert forall|i: int| 0 <= i < front.len() implies (#[trigger] front[i]).id != id
            || !runs_command(front[i]) by {
            assert(front[i] == panes[i]);
        }
        lemma_observe_other(s, front, id);
        lemma_changes_source(s, front, id);
        if s.observe(front).news(panes.last()) {
            assert(s.changes(panes)[rest.len() as int] == id);
        }
    } else {
        assert(front[n] == panes[n]);
        assert forall|i: int| 0 <= i < front.len() && i != n implies (#[trigger] front[i]).id
            != front[n].id by {
            assert(front[i] == panes[i]);
        }
        lemma_changes(s, front, n);
        assert(panes[panes.len() - 1].id != id);
        let all = s.changes(panes);
        if rest.contains(id) {
            let k = choose|k: int| 0 <= k < rest.len() && rest[k] == id;
            assert(all[k] == id);
        }
        if all.contains(id) {
            let k = choose|k: int| 0 <= k < all.len() && all[k] == id;
            assert(rest[k] == id);
        }
    }
}

proof fn lemma_changes_source(s: StatusesV, panes: Seq<PaneInfoV>, id: u32)
    ensures
        s.changes(panes).contains(id) ==> exists|i: int|
            0 <= i < panes.len() && (#[trigger] panes[i]).id == id,
    decreases panes.len(),
{
    if panes.len() > 0 {
        let front = panes.drop_last();
        lemma_changes_source(s, front, id);
        if s.changes(panes).contains(id) {
            let all = s.changes(panes);
            let k = choose|k: int| 0 <= k < all.len() && all[k] == id;
            if k < s.changes(front).len() {
                assert(s.changes(front)[k] == id);
                let i = choose|i: int| 0 <= i < front.len() && (#[trigger] front[i]).id == id;
                assert(panes[i].id == id);
            } else {
                assert(panes[panes.len() - 1].id == id);
            }
        }
    }
}

/// The siblings are told of a command when what it does is new, and only then; a report that
/// brings nothing new sends nothing.
pub proof fn law_news_of_commands(s: StateV, m: PaneManifestV, n: int)
    requires
        0 <= n < m.flat().len(),
        forall|i: int|
            0 <= i < m.flat().len() && i != n ==> (#[trigger] m.flat()[i]).id != m.flat()[n].id,
    ensures
        ({
            let p = m.flat()[n];
            let known = s.status.commands.contains_key(p.id) && command_is(
                p,
                s.status.commands[p.id].state,
            );
            let ids = s.status.changes(m.flat());
            let t = s.apply_command_states(m);
            &&& ids.contains(p.id) <==> runs_command(p) && !known
            &&& ids.len() == 0 ==> t.calls == s.calls
            &&& ids.len() > 0 ==> t.calls == s.with_status(t.status).broadcasts(
                "fujin_command"@,
                command_text(t.status.commands, ids),
            ).calls
        }),
{
    lemma_changes(s.status, m.flat(), n);
}

/// A read takes the words of an agent that waited off with its state.
pub proof fn law_read_drops_the_words(s: StatusesV, pane_id: u32, force: bool)
    requires
        s.agents.contains_key(pane_id),
    ensures
        ({
            let a = s.agents[pane_id];
            let b = s.read(pane_id, force).agents[pane_id];
            let waits = a.state == AgentState::Done || a.state == AgentState::Blocked || a.state
                == AgentState::Error;
            &&& waits ==> b.state == AgentState::Idle && b.detail is None
            &&& !waits ==> b == a
            &&& b.subagents == a.subagents && b.open_tasks == a.open_tasks && b.agent == a.agent
                && b.turn_ended == a.turn_ended && b.state_change_seq == a.state_change_seq
        }),
{
}

/// The panes that wait for the user are counted: those of the list that show something done,
/// blocked or failed.
pub proof fn law_waiting_are_counted(s: StatusesV, list: Seq<SelectableV>)
    ensures
        count_waiting(s, list) == list.filter(
            |e: SelectableV|
                shows(s, e.pane_id, AgentState::Done) || shows(s, e.pane_id, AgentState::Blocked)
                    || shows(s, e.pane_id, AgentState::Error),
        ).len(),
    decreases list.len(),
{
    reveal(Seq::filter);
    if list.len() > 0 {
        law_waiting_are_counted(s, list.drop_last());
    }
}

/// When the list is made anew the selection stays on its row, or goes to the last one where the
/// list became too short.
pub proof fn law_selection_stays_on_its_row(s: StateV)
    requires
        s.list.panes is Some,
        s.rebuild_selectable().list.selectable.len() <= usize::MAX,
    ensures
        ({
            let t = s.rebuild_selectable();
            let n = t.list.selectable.len();
            &&& s.list.selected < n ==> t.list.selected == s.list.selected
            &&& s.list.selected >= n && n > 0 ==> t.list.selected == n - 1
            &&& n == 0 ==> t.list.selected == 0
        }),
{
}

} // verus!
