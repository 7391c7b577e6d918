//! The read model: a state that waits for the user is cleared once the focus has stayed on
//! its pane for a moment. Merely passing through does not count.

use std::collections::BTreeSet;

use vstd::prelude::*;

use crate::clock::{add_time, later, READ_DELAY};
use crate::command::CommandInfo;
use crate::focus::panes_at;
use crate::host::{PaneInfo, PaneInfoV, PaneManifest, PaneManifestV, TabInfoV};
use crate::ids::{
    ascending, group_views, increasing, keep_only, lemma_ascending_of, map_keys, set_items, views,
};
use crate::mark::{id_text, lemma_ids_read_back, parse_ids, parsed_ids};
use crate::state::{SelectableV, State, StateV, StatusesV};
use crate::text::pieces;

verus! {

broadcast use group_views;

/// The first active tab; the number of tabs where none is active.
pub open spec fn active_tab(tabs: Seq<TabInfoV>) -> nat
    decreases tabs.len(),
{
    if tabs.len() == 0 || tabs[0].active {
        0
    } else {
        1 + active_tab(tabs.drop_first())
    }
}

/// The pane has the focus that counts: that of the layer in front.
pub open spec fn in_focus(p: PaneInfoV, floating: bool) -> bool {
    !p.is_plugin && !p.is_suppressed && p.is_focused && p.is_floating == floating
}

/// The panes with the focus that counts.
pub open spec fn focused_ids(panes: Seq<PaneInfoV>, floating: bool) -> Set<u32>
    decreases panes.len(),
{
    if panes.len() == 0 {
        Set::empty()
    } else {
        let front = focused_ids(panes.drop_last(), floating);
        if in_focus(panes.last(), floating) {
            front.insert(panes.last().id)
        } else {
            front
        }
    }
}

/// The terminal panes.
pub open spec fn terminal_ids(panes: Seq<PaneInfoV>) -> Set<u32>
    decreases panes.len(),
{
    if panes.len() == 0 {
        Set::empty()
    } else {
        let front = terminal_ids(panes.drop_last());
        if panes.last().is_plugin {
            front
        } else {
            front.insert(panes.last().id)
        }
    }
}

/// The terminal panes that run a command.
pub open spec fn command_ids(panes: Seq<PaneInfoV>) -> Set<u32>
    decreases panes.len(),
{
    if panes.len() == 0 {
        Set::empty()
    } else {
        let front = command_ids(panes.drop_last());
        if panes.last().is_plugin || panes.last().terminal_command is None {
            front
        } else {
            front.insert(panes.last().id)
        }
    }
}

impl StatusesV {
    /// The focus left the panes outside the set: their ends may be read from now on.
    pub open spec fn release_read_grace(self, focused: Set<u32>) -> StatusesV {
        StatusesV {
            commands: self.commands.map_entries(
                |id: u32, info: CommandInfo|
                    if focused.contains(id) {
                        info
                    } else {
                        CommandInfo { awaiting_refocus: false, ..info }
                    },
            ),
            ..self
        }
    }

    /// The reads that are due while the focus is on these panes: one that was due keeps its
    /// moment, one that left the focus is dropped, and what is unread becomes due.
    pub open spec fn due_reads(self, focused: Set<u32>, deadline: u64) -> Map<u32, u64> {
        focused.filter(
            |id: u32| self.pending_reads.contains_key(id) || self.unread(id, false),
        ).mk_map(
            |id: u32|
                if self.pending_reads.contains_key(id) {
                    self.pending_reads[id]
                } else {
                    deadline
                },
        )
    }

    /// All these panes were looked at, one after another.
    pub open spec fn read_all(self, ids: Seq<u32>, force: bool) -> StatusesV
        decreases ids.len(),
    {
        if ids.len() == 0 {
            self
        } else {
            self.read_all(ids.drop_last(), force).read(ids.last(), force)
        }
    }

    /// Those of the panes where the look cleared something.
    pub open spec fn cleared(self, ids: Seq<u32>, force: bool) -> Seq<u32>
        decreases ids.len(),
    {
        if ids.len() == 0 {
            Seq::empty()
        } else {
            let front = self.cleared(ids.drop_last(), force);
            if self.read_all(ids.drop_last(), force).unread(ids.last(), force) {
                front.push(ids.last())
            } else {
                front
            }
        }
    }

    /// The panes whose moment has come.
    pub open spec fn due(self, now: u64) -> Seq<u32> {
        ascending(
            self.pending_reads.dom().filter(
                |id: u32| self.pending_reads.contains_key(id) && self.pending_reads[id] <= now,
            ),
        )
    }
}

/// How many of the panes wait for the user.
pub open spec fn count_waiting(s: StatusesV, list: Seq<SelectableV>) -> nat
    decreases list.len(),
{
    if list.len() == 0 {
        0
    } else {
        let front = count_waiting(s, list.drop_last());
        let shown = s.shown(list.last().pane_id);
        if shown is Some && shown->0.like_agent().waiting() {
            front + 1
        } else {
            front
        }
    }
}

impl StateV {
    /// The panes that have the focus, by a report of all panes.
    pub open spec fn focus_in(self, m: PaneManifestV) -> Option<Set<u32>> {
        let n = active_tab(self.list.tabs);
        if n < self.list.tabs.len() {
            let tab = self.list.tabs[n as int];
            match panes_at(m, tab.position) {
                Some(panes) => Some(focused_ids(panes, tab.are_floating_panes_visible)),
                None => None,
            }
        } else {
            None
        }
    }

    /// The panes were reported: the reads that are due follow the focus.
    pub open spec fn apply_read_model(self, m: PaneManifestV) -> StateV {
        match self.focus_in(m) {
            None => self,
            Some(focused) => {
                let status = self.status.release_read_grace(focused);
                let pending_reads = status.due_reads(
                    focused,
                    later(self.clock.elapsed, READ_DELAY),
                );
                let s = self.with_status(StatusesV { pending_reads, ..status });
                if pending_reads.dom().is_empty() {
                    s
                } else {
                    s.arm_timer()
                }
            },
        }
    }

    /// The panes whose moment has come are read; the siblings learn what that cleared.
    pub open spec fn apply_pending_reads(self) -> StateV {
        let ids = self.status.due(self.clock.elapsed);
        let rest = StatusesV {
            pending_reads: self.status.pending_reads.remove_keys(ids.to_set()),
            ..self.status
        };
        self.with_status(rest.read_all(ids, false)).broadcasts_reads(rest.cleared(ids, false))
    }

    /// What belongs to panes that are gone is dropped.
    pub open spec fn prune_stale_agents(self) -> StateV {
        match self.list.panes {
            None => self,
            Some(m) => {
                let live = terminal_ids(m.flat());
                self.with_cwds(self.list.pane_cwds.restrict(live)).with_status(
                    StatusesV {
                        agents: self.status.agents.restrict(live),
                        commands: self.status.commands.restrict(command_ids(m.flat())),
                        ..self.status
                    },
                )
            },
        }
    }

    /// A sibling saw that these panes were read.
    pub open spec fn apply_read_clears(self, raw: Seq<char>) -> StateV {
        self.with_status(self.status.read_all(parsed_ids(pieces(raw, ',')), true))
    }
}

fn focused_set(panes: &Vec<PaneInfo>, floating: bool) -> (r: BTreeSet<u32>)
    ensures
        r@ == focused_ids(views(panes@), floating),
{
    let ghost v = views(panes@);
    let mut out: BTreeSet<u32> = BTreeSet::new();
    let mut i: usize = 0;
    assert(v.take(0) =~= Seq::empty());
    while i < panes.len()
        invariant
            i <= panes.len(),
            v == views(panes@),
            out@ == focused_ids(v.take(i as int), floating),
        decreases panes.len() - i,
    {
        let pane = &panes[i];
        assert(v.take(i + 1).drop_last() =~= v.take(i as int));
        assert(v.take(i + 1).last() == pane@);
        if !pane.is_plugin && !pane.is_suppressed && pane.is_focused && pane.is_floating
            == floating {
            out.insert(pane.id);
        }
        i += 1;
    }
    assert(v.take(i as int) =~= v);
    out
}

impl PaneManifest {
    pub fn live_terminal_ids(&self) -> (r: BTreeSet<u32>)
        ensures
            r@ == terminal_ids(self@.flat()),
    {
        let panes = self.all_panes();
        let ghost v = views(panes@);
        let mut out: BTreeSet<u32> = BTreeSet::new();
        let mut i: usize = 0;
        assert(v.take(0) =~= Seq::empty());
        while i < panes.len()
            invariant
                i <= panes.len(),
                v == views(panes@),
                out@ == terminal_ids(v.take(i as int)),
            decreases panes.len() - i,
        {
            let pane = panes[i];
            assert(v.take(i + 1).drop_last() =~= v.take(i as int));
            assert(v.take(i + 1).last() == pane@);
            if !pane.is_plugin {
                out.insert(pane.id);
            }
            i += 1;
        }
        assert(v.take(i as int) =~= v);
        out
    }

    pub fn live_command_ids(&self) -> (r: BTreeSet<u32>)
        ensures
            r@ == command_ids(self@.flat()),
    {
        let panes = self.all_panes();
        let ghost v = views(panes@);
        let mut out: BTreeSet<u32> = BTreeSet::new();
        let mut i: usize = 0;
        assert(v.take(0) =~= Seq::empty());
        while i < panes.len()
            invariant
                i <= panes.len(),
                v == views(panes@),
                out@ == command_ids(v.take(i as int)),
            decreases panes.len() - i,
        {
            let pane = panes[i];
            assert(v.take(i + 1).drop_last() =~= v.take(i as int));
            assert(v.take(i + 1).last() == pane@);
            if !pane.is_plugin && pane.terminal_command.is_some() {
                out.insert(pane.id);
            }
            i += 1;
        }
        assert(v.take(i as int) =~= v);
        out
    }
}

impl State {
    /// The index of the active tab.
    pub fn active_tab_index(&self) -> (r: Option<usize>)
        ensures
            r is Some == (active_tab(self@.list.tabs) < self@.list.tabs.len()),
            r is Some ==> r->0 == active_tab(self@.list.tabs) && r->0 < self.list.tabs.len(),
    {
        let ghost v = self@.list.tabs;
        let mut i: usize = 0;
        assert(v.skip(0) =~= v);
        while i < self.list.tabs.len()
            invariant
                i <= self.list.tabs.len(),
                v == self@.list.tabs,
                active_tab(v) == i + active_tab(v.skip(i as int)),
            decreases self.list.tabs.len() - i,
        {
            let ghost rest = v.skip(i as int);
            assert(rest[0] == self.list.tabs[i as int]@);
            assert(rest.drop_first() =~= v.skip(i + 1));
            if self.list.tabs[i].active {
                return Some(i);
            }
            i += 1;
        }
        assert(v.skip(i as int) =~= Seq::empty());
        None
    }

    fn focus_in(&self, manifest: &PaneManifest) -> (r: Option<BTreeSet<u32>>)
        ensures
            r is Some == self@.focus_in(manifest@) is Some,
            r is Some ==> (r->0)@ == self@.focus_in(manifest@)->0,
    {
        match self.active_tab_index() {
            Some(n) => {
                let tab = &self.list.tabs[n];
                assert(self@.list.tabs[n as int] == tab@);
                match manifest.tab_index(tab.position) {
                    Some(at) => {
                        let floating = tab.are_floating_panes_visible;
                        Some(focused_set(&manifest.tabs[at].panes, floating))
                    },
                    None => None,
                }
            },
            None => None,
        }
    }

    fn release_read_grace(&mut self, focused: &BTreeSet<u32>)
        ensures
            final(self)@ == old(self)@.with_status(
                old(self)@.status.release_read_grace(focused@),
            ),
    {
        let keys = map_keys(&self.status.commands);
        let ghost before = self.status.commands@;
        let ghost target = self@.status.release_read_grace(focused@).commands;
        let ghost start = self@;
        let mut i: usize = 0;
        while i < keys.len()
            invariant
                i <= keys.len(),
                keys@.to_set() == before.dom(),
                increasing(keys@),
                start.status.commands == before,
                target == start.status.release_read_grace(focused@).commands,
                self@ == start.with_status(
                    StatusesV { commands: self.status.commands@, ..start.status },
                ),
                self.status.commands@.dom() == before.dom(),
                forall|j: int|
                    0 <= j < i ==> self.status.commands@[#[trigger] keys@[j]] == target[keys@[j]],
                forall|j: int|
                    i <= j < keys.len() ==> self.status.commands@[#[trigger] keys@[j]]
                        == before[keys@[j]],
            decreases keys.len() - i,
        {
            let key = keys[i];
            assert(keys@.to_set().contains(key));
            let ghost now = self.status.commands@;
            if !focused.contains(&key) {
                match self.status.commands.remove(&key) {
                    Some(info) => {
                        let mut info: CommandInfo = info;
                        info.awaiting_refocus = false;
                        self.status.commands.insert(key, info);
                        assert(self.status.commands@ =~= now.insert(key, info));
                        assert(self.status.commands@.dom() =~= before.dom());
                    },
                    None => {},
                }
            }
            i += 1;
        }
        assert(self.status.commands@ =~= target) by {
            assert forall|k: u32| target.contains_key(k) implies self.status.commands@[k]
                == target[k] by {
                assert(keys@.to_set().contains(k));
                assert(keys@.contains(k));
                let j = choose|j: int| 0 <= j < keys@.len() && keys@[j] == k;
                assert(keys@[j] == k);
            }
        }
    }

    /// Whether looking at the pane would clear something.
    pub fn has_unread(&self, pane_id: u32) -> (r: bool)
        ensures
            r == self@.status.unread(pane_id, false),
    {
        let agent = match self.status.agents.get(&pane_id) {
            Some(agent) => agent.state.is_waiting(),
            None => false,
        };
        let command = match self.status.commands.get(&pane_id) {
            Some(info) => info.is_unread() && !info.awaiting_refocus,
            None => false,
        };
        agent || command
    }

    fn update_due_reads(&mut self, focused: &BTreeSet<u32>, deadline: u64)
        ensures
            final(self)@ == old(self)@.with_status(
                StatusesV {
                    pending_reads: old(self)@.status.due_reads(focused@, deadline),
                    ..old(self)@.status
                },
            ),
    {
        let ghost start = self@;
        let ghost target = start.status.due_reads(focused@, deadline);
        keep_only(&mut self.status.pending_reads, focused);
        let ghost kept = self.status.pending_reads@;
        let ids = set_items(focused);
        let mut i: usize = 0;
        while i < ids.len()
            invariant
                i <= ids.len(),
                ids@.to_set() == focused@,
                increasing(ids@),
                kept == start.status.pending_reads.restrict(focused@),
                target == start.status.due_reads(focused@, deadline),
                self@ == start.with_status(
                    StatusesV { pending_reads: self.status.pending_reads@, ..start.status },
                ),
                forall|j: int|
                    0 <= j < i ==> self.status.pending_reads@.contains_key(#[trigger] ids@[j])
                        == target.contains_key(ids@[j]) && (target.contains_key(ids@[j])
                        ==> self.status.pending_reads@[ids@[j]] == target[ids@[j]]),
                forall|j: int|
                    i <= j < ids.len() ==> self.status.pending_reads@.contains_key(
                        #[trigger] ids@[j],
                    ) == kept.contains_key(ids@[j]) && (kept.contains_key(ids@[j])
                        ==> self.status.pending_reads@[ids@[j]] == kept[ids@[j]]),
                forall|k: u32| #[trigger]
                    self.status.pending_reads@.contains_key(k) ==> focused@.contains(k),
            decreases ids.len() - i,
        {
            let id = ids[i];
            assert(ids@.to_set().contains(id));
            if !self.status.pending_reads.contains_key(&id) && self.has_unread(id) {
                self.status.pending_reads.insert(id, deadline);
            }
            i += 1;
        }
        assert(self.status.pending_reads@ =~= target) by {
            assert forall|k: u32|
                self.status.pending_reads@.contains_key(k) == target.contains_key(k) && (
                target.contains_key(k) ==> self.status.pending_reads@[k] == target[k]) by {
                if focused@.contains(k) {
                    assert(ids@.to_set().contains(k));
                    assert(ids@.contains(k));
                    let j = choose|j: int| 0 <= j < ids@.len() && ids@[j] == k;
                    assert(ids@[j] == k);
                }
            }
        }
    }

    /// Takes in a report of the panes: what has the focus will be read if it keeps it.
    pub fn apply_read_model(&mut self, manifest: &PaneManifest)
        ensures
            final(self)@ == old(self)@.apply_read_model(manifest@),
    {
        let focused = match self.focus_in(manifest) {
            Some(focused) => focused,
            None => {
                return ;
            },
        };
        self.release_read_grace(&focused);
        let deadline = add_time(self.clock.elapsed, READ_DELAY);
        self.update_due_reads(&focused, deadline);
        if !self.status.pending_reads.is_empty() {
            self.arm_timer();
        }
    }

    fn due_reads(&self) -> (r: Vec<u32>)
        ensures
            r@ == self@.status.due(self@.clock.elapsed),
            r@.to_set() == self@.status.pending_reads.dom().filter(
                |id: u32|
                    self@.status.pending_reads.contains_key(id)
                        && self@.status.pending_reads[id] <= self@.clock.elapsed,
            ),
    {
        let ghost p = self@.status.pending_reads;
        let ghost now = self@.clock.elapsed;
        let ghost want = p.dom().filter(|id: u32| p.contains_key(id) && p[id] <= now);
        let keys = map_keys(&self.status.pending_reads);
        let mut out: Vec<u32> = Vec::new();
        let mut i: usize = 0;
        while i < keys.len()
            invariant
                i <= keys.len(),
                p == self@.status.pending_reads,
                now == self@.clock.elapsed,
                keys@.to_set() == p.dom(),
                increasing(keys@),
                increasing(out@),
                forall|j: int| 0 <= j < out.len() && i < keys.len() ==> out@[j] < keys@[i as int],
                forall|j: int|
                    0 <= j < out.len() ==> p.contains_key(#[trigger] out@[j]) && p[out@[j]] <= now,
                forall|j: int|
                    0 <= j < i && p[#[trigger] keys@[j]] <= now ==> out@.contains(keys@[j]),
            decreases keys.len() - i,
        {
            let key = keys[i];
            assert(keys@.to_set().contains(key));
            let ghost before = out@;
            if let Some(deadline) = self.status.pending_reads.get(&key) {
                if *deadline <= self.clock.elapsed {
                    out.push(key);
                    assert(out@[out.len() - 1] == key);
                }
            }
            assert forall|j: int| 0 <= j < i + 1 && p[#[trigger] keys@[j]] <= now implies
                out@.contains(keys@[j]) by {
                if j < i {
                    assert(before.contains(keys@[j]));
                    let n = choose|n: int| 0 <= n < before.len() && before[n] == keys@[j];
                    assert(out@[n] == keys@[j]);
                }
            }
            i += 1;
        }
        assert(out@.to_set() =~= want) by {
            assert forall|k: u32| out@.to_set().contains(k) == want.contains(k) by {
                if want.contains(k) {
                    assert(keys@.to_set().contains(k));
                    assert(keys@.contains(k));
                    let j = choose|j: int| 0 <= j < keys@.len() && keys@[j] == k;
                    assert(p[keys@[j]] <= now);
                }
                if out@.to_set().contains(k) {
                    assert(out@.contains(k));
                    let j = choose|j: int| 0 <= j < out@.len() && out@[j] == k;
                    assert(p.contains_key(out@[j]));
                }
            }
        }
        proof {
            lemma_ascending_of(out@);
        }
        out
    }

    fn drop_due_reads(&mut self, ids: &Vec<u32>)
        ensures
            final(self)@ == old(self)@.with_status(
                StatusesV {
                    pending_reads: old(self)@.status.pending_reads.remove_keys(ids@.to_set()),
                    ..old(self)@.status
                },
            ),
    {
        let ghost start = self@;
        let ghost p = start.status.pending_reads;
        let mut i: usize = 0;
        assert(p.remove_keys(ids@.take(0).to_set()) =~= p);
        while i < ids.len()
            invariant
                i <= ids.len(),
                p == start.status.pending_reads,
                self@ == start.with_status(
                    StatusesV {
                        pending_reads: p.remove_keys(ids@.take(i as int).to_set()),
                        ..start.status
                    },
                ),
            decreases ids.len() - i,
        {
            self.status.pending_reads.remove(&ids[i]);
            let ghost front = ids@.take(i as int);
            let ghost upto = ids@.take(i + 1);
            assert(upto =~= front.push(ids@[i as int]));
            assert forall|k: u32| upto.to_set().contains(k) == (front.to_set().contains(k) || k
                == ids@[i as int]) by {
                if front.contains(k) {
                    let j = choose|j: int| 0 <= j < front.len() && front[j] == k;
                    assert(upto[j] == k);
                }
                if upto.contains(k) {
                    let j = choose|j: int| 0 <= j < upto.len() && upto[j] == k;
                    if j < i {
                        assert(front[j] == k);
                    }
                }
                assert(upto[i as int] == ids@[i as int]);
            }
            assert(self.status.pending_reads@ =~= p.remove_keys(upto.to_set()));
            i += 1;
        }
        assert(ids@.take(i as int) =~= ids@);
    }

    /// Marks these panes as read, one after another. Returns those that had something.
    pub fn mark_panes_read(&mut self, ids: &Vec<u32>, force: bool) -> (r: Vec<u32>)
        ensures
            final(self)@ == old(self)@.with_status(old(self)@.status.read_all(ids@, force)),
            r@ == old(self)@.status.cleared(ids@, force),
    {
        let ghost start = self@;
        let mut cleared: Vec<u32> = Vec::new();
        let mut i: usize = 0;
        assert(ids@.take(0) =~= Seq::empty());
        while i < ids.len()
            invariant
                i <= ids.len(),
                self@ == start.with_status(start.status.read_all(ids@.take(i as int), force)),
                cleared@ == start.status.cleared(ids@.take(i as int), force),
            decreases ids.len() - i,
        {
            assert(ids@.take(i + 1).drop_last() =~= ids@.take(i as int));
            if self.mark_pane_read(ids[i], force) {
                cleared.push(ids[i]);
            }
            i += 1;
        }
        assert(ids@.take(i as int) =~= ids@);
        cleared
    }

    /// Reads the panes whose moment has come. Returns whether that changed anything.
    pub fn apply_pending_reads(&mut self) -> (r: bool)
        ensures
            final(self)@ == old(self)@.apply_pending_reads(),
            r == (old(self)@.status.cleared(
                old(self)@.status.due(old(self)@.clock.elapsed),
                false,
            ).len() > 0),
    {
        let ghost start = self@;
        let due = self.due_reads();
        self.drop_due_reads(&due);
        proof {
            lemma_cleared_ignores_pending(
                start.status,
                self@.status.pending_reads,
                due@,
                false,
            );
        }
        let cleared = self.mark_panes_read(&due, false);
        let any = cleared.len() > 0;
        self.broadcast_read_clears(&cleared);
        any
    }

    /// How many panes of the list wait for the user.
    pub fn waiting_count(&self) -> (r: usize)
        ensures
            r == count_waiting(self@.status, self@.list.selectable),
    {
        let ghost all = self@.list.selectable;
        let mut count: usize = 0;
        let mut i: usize = 0;
        assert(all.take(0) =~= Seq::empty());
        while i < self.list.selectable.len()
            invariant
                i <= self.list.selectable.len(),
                count <= i,
                all == self@.list.selectable,
                count == count_waiting(self@.status, all.take(i as int)),
            decreases self.list.selectable.len() - i,
        {
            assert(all.take(i + 1).drop_last() =~= all.take(i as int));
            assert(all.take(i + 1).last() == self.list.selectable[i as int]@);
            if let Some(status) = self.pane_status(self.list.selectable[i].pane_id) {
                if status.is_waiting() {
                    count += 1;
                }
            }
            i += 1;
        }
        assert(all.take(i as int) =~= all);
        count
    }

    /// Drops what belongs to panes that are gone.
    pub fn prune_stale_agents(&mut self)
        ensures
            final(self)@ == old(self)@.prune_stale_agents(),
    {
        let (live, commands) = match &self.list.panes {
            Some(manifest) => (manifest.live_terminal_ids(), manifest.live_command_ids()),
            None => {
                return ;
            },
        };
        keep_only(&mut self.status.agents, &live);
        keep_only(&mut self.list.pane_cwds, &live);
        keep_only(&mut self.status.commands, &commands);
    }

    /// A sibling's report of panes that were read. Returns whether to draw.
    pub fn handle_read_clear_pipe(&mut self, payload: Option<&str>) -> (r: bool)
        ensures
            payload is None ==> final(self)@ == old(self)@ && !r,
            payload is Some ==> final(self)@ == old(self)@.apply_read_clears(payload->0@) && r
                == (old(self)@.status.cleared(parsed_ids(pieces(payload->0@, ',')), true).len()
                > 0),
    {
        match payload {
            Some(raw) => {
                let ids = parse_ids(raw);
                let cleared = self.mark_panes_read(&ids, true);
                cleared.len() > 0
            },
            None => false,
        }
    }
}

proof fn lemma_read_ignores_pending(
    s: StatusesV,
    pending_reads: Map<u32, u64>,
    ids: Seq<u32>,
    force: bool,
)
    ensures
        (StatusesV { pending_reads, ..s }).read_all(ids, force) == (StatusesV {
            pending_reads,
            ..s.read_all(ids, force)
        }),
    decreases ids.len(),
{
    if ids.len() > 0 {
        lemma_read_ignores_pending(s, pending_reads, ids.drop_last(), force);
    }
}

proof fn lemma_cleared_ignores_pending(
    s: StatusesV,
    pending_reads: Map<u32, u64>,
    ids: Seq<u32>,
    force: bool,
)
    ensures
        (StatusesV { pending_reads, ..s }).cleared(ids, force) == s.cleared(ids, force),
    decreases ids.len(),
{
    if ids.len() > 0 {
        lemma_cleared_ignores_pending(s, pending_reads, ids.drop_last(), force);
        lemma_read_ignores_pending(s, pending_reads, ids.drop_last(), force);
    }
}

// --- laws ---

/// A look clears every state that waits, and a second look changes nothing.
pub proof fn law_read_clears(s: StatusesV, pane_id: u32)
    ensures
        !s.read(pane_id, true).unread(pane_id, true),
        s.read(pane_id, true).read(pane_id, true) == s.read(pane_id, true),
        s.read(pane_id, true).shown(pane_id) is Some ==> !s.read(pane_id, true).shown(
            pane_id,
        )->0.like_agent().waiting(),
{
    let once = s.read(pane_id, true);
    let twice = once.read(pane_id, true);
    assert(twice.agents =~= once.agents);
    assert(twice.commands =~= once.commands);
}

/// What runs is not touched by a look.
pub proof fn law_working_stays(s: StatusesV, pane_id: u32, force: bool)
    requires
        s.shown(pane_id) is Some,
        !s.shown(pane_id)->0.like_agent().waiting(),
    ensures
        s.read(pane_id, force).shown(pane_id) == s.shown(pane_id),
{
}

/// A pane without the focus is never due to be read, and the moment of one that stays in
/// focus does not move.
pub proof fn law_due_follows_focus(s: StateV, m: PaneManifestV, pane_id: u32)
    requires
        s.focus_in(m) is Some,
    ensures
        !s.focus_in(m)->0.contains(pane_id) ==> !s.apply_read_model(
            m,
        ).status.pending_reads.contains_key(pane_id),
        s.focus_in(m)->0.contains(pane_id) && s.status.pending_reads.contains_key(pane_id)
            ==> s.apply_read_model(m).status.pending_reads.contains_key(pane_id)
            && s.apply_read_model(m).status.pending_reads[pane_id]
            == s.status.pending_reads[pane_id],
{
}

/// A command that ended while its pane had the focus is not read before the focus has left
/// the pane.
pub proof fn law_end_in_focus_waits(s: StateV, m: PaneManifestV, pane_id: u32)
    requires
        s.focus_in(m) is Some,
        s.focus_in(m)->0.contains(pane_id),
        s.status.commands.contains_key(pane_id),
        s.status.commands[pane_id].awaiting_refocus,
    ensures
        s.apply_read_model(m).status.commands[pane_id] == s.status.commands[pane_id],
        s.apply_read_model(m).status.read(pane_id, false).commands[pane_id]
            == s.status.commands[pane_id],
{
}

/// A sibling that hears which panes were read reads those panes, and no others.
pub proof fn law_reads_are_shared(t: StateV, ids: Seq<u32>)
    ensures
        t.apply_read_clears(id_text(ids)) == t.with_status(t.status.read_all(ids, true)),
{
    lemma_ids_read_back(ids);
}

} // verus!
