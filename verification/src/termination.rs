//! The termination sub-mode: closing and killing panes after a confirmation.

use vstd::prelude::*;

use crate::host::{BareKey, HostCall, HostCallV, Key, PaneId};
use crate::ids::{group_views, has_id};
use crate::mark::panes_in;
use crate::state::{NavV, SelectableV, State, StateV};

verus! {

broadcast use group_views;

#[derive(Debug, Clone, Copy, PartialEq, Eq, Structural)]
pub enum Termination {
    /// Close the pane and leave its process alone.
    Close,
    /// Send SIGKILL to the pane's process.
    Kill,
    /// Kill, then close the pane as well.
    KillThenClose,
}

#[derive(Debug)]
pub struct TerminationState {
    /// The panes that were the target when the prompt opened.
    pub targets: Vec<u32>,
    /// The targets are the marked panes, not the selected row.
    pub from_marks: bool,
}

#[verifier::ext_equal]
pub struct TerminationStateV {
    pub targets: Seq<u32>,
    pub from_marks: bool,
}

impl View for TerminationState {
    type V = TerminationStateV;

    open spec fn view(&self) -> TerminationStateV {
        TerminationStateV { targets: self.targets@, from_marks: self.from_marks }
    }
}

impl Termination {
    pub open spec fn of_key(key: BareKey) -> Option<Termination> {
        match key {
            BareKey::Char(c) => if c == 'c' {
                Some(Termination::Close)
            } else if c == 'k' {
                Some(Termination::Kill)
            } else if c == 'x' {
                Some(Termination::KillThenClose)
            } else {
                None
            },
            _ => None,
        }
    }

    pub open spec fn kills(self) -> bool {
        self != Termination::Close
    }

    pub open spec fn closes(self) -> bool {
        self != Termination::Kill
    }

    pub fn from_key(key: BareKey) -> (r: Option<Termination>)
        ensures
            r == Termination::of_key(key),
    {
        match key {
            BareKey::Char(c) => if c == 'c' {
                Some(Termination::Close)
            } else if c == 'k' {
                Some(Termination::Kill)
            } else if c == 'x' {
                Some(Termination::KillThenClose)
            } else {
                None
            },
            _ => None,
        }
    }

    /// Whether SIGKILL is sent, and whether the pane is closed.
    pub fn effects(self) -> (r: (bool, bool))
        ensures
            r == (self.kills(), self.closes()),
    {
        match self {
            Termination::Close => (false, true),
            Termination::Kill => (true, false),
            Termination::KillThenClose => (true, true),
        }
    }
}

/// What ending one pane asks of the host: the kill goes before the close.
pub open spec fn ending(kind: Termination, pane_id: u32) -> Seq<HostCallV> {
    (if kind.kills() {
        seq![HostCallV::SendSigkill(PaneId::Terminal(pane_id))]
    } else {
        Seq::empty()
    }) + (if kind.closes() {
        seq![HostCallV::ClosePane(PaneId::Terminal(pane_id))]
    } else {
        Seq::empty()
    })
}

/// The panes are ended one after another.
pub open spec fn endings(kind: Termination, ids: Seq<u32>) -> Seq<HostCallV>
    decreases ids.len(),
{
    if ids.len() == 0 {
        Seq::empty()
    } else {
        endings(kind, ids.drop_last()) + ending(kind, ids.last())
    }
}

impl StateV {
    pub open spec fn with_termination(self, termination: Option<TerminationStateV>) -> StateV {
        StateV { nav: NavV { termination, ..self.nav }, ..self }
    }

    /// The marked panes, or the selected one if nothing is marked. Without a target the
    /// prompt does not open.
    pub open spec fn enter_termination(self) -> StateV {
        let marked = self.marked_in_tree_order();
        if marked.len() > 0 {
            self.with_termination(
                Some(TerminationStateV { targets: marked, from_marks: true }),
            )
        } else {
            match self.selected_pane() {
                Some(id) => self.with_termination(
                    Some(TerminationStateV { targets: seq![id], from_marks: false }),
                ),
                None => self,
            }
        }
    }

    /// How many marked panes the prompt is about; 0 if it is about the selected row.
    pub open spec fn termination_marked_count(self) -> nat {
        if self.nav.termination is Some && self.nav.termination->0.from_marks {
            self.nav.termination->0.targets.len()
        } else {
            0
        }
    }

    /// The panes that an operation ends: the targets that are still listed, in list order.
    pub open spec fn termination_panes(self) -> Seq<u32> {
        match self.nav.termination {
            Some(termination) => panes_in(self.list.selectable, termination.targets.to_set()),
            None => Seq::empty(),
        }
    }

    /// The prompt closes, the marks are cleared, and the panes are ended.
    pub open spec fn run_termination(self, kind: Termination) -> StateV {
        let s = self.with_termination(None).clear_marks();
        StateV { calls: s.calls + endings(kind, self.termination_panes()), ..s }
    }

    /// A key at the prompt. Whatever has no meaning leaves nav mode and ends nothing.
    pub open spec fn termination_key(self, key: Key) -> StateV {
        if key.hard() {
            self.leave_nav_mode()
        } else {
            match Termination::of_key(key.bare) {
                Some(kind) => self.run_termination(kind),
                None => if key.bare == BareKey::Esc {
                    self.with_termination(None)
                } else {
                    self.leave_nav_mode()
                },
            }
        }
    }
}

impl State {
    pub fn enter_termination(&mut self)
        ensures
            final(self)@ == old(self)@.enter_termination(),
    {
        let marked = self.marked_in_tree_order();
        if marked.len() > 0 {
            self.nav.termination = Some(TerminationState { targets: marked, from_marks: true });
            return ;
        }
        if let Some(id) = self.selected_pane_id() {
            let mut targets: Vec<u32> = Vec::new();
            targets.push(id);
            assert(targets@ =~= seq![id]);
            self.nav.termination = Some(TerminationState { targets, from_marks: false });
        }
    }

    pub fn termination_marked_count(&self) -> (r: usize)
        ensures
            r == self@.termination_marked_count(),
    {
        match &self.nav.termination {
            Some(termination) => if termination.from_marks {
                termination.targets.len()
            } else {
                0
            },
            None => 0,
        }
    }

    /// The panes that an operation would end, in the order of the list.
    pub fn termination_plan(&self) -> (r: Vec<u32>)
        ensures
            r@ == self@.termination_panes(),
    {
        let mut out: Vec<u32> = Vec::new();
        let termination = match &self.nav.termination {
            Some(termination) => termination,
            None => {
                return out;
            },
        };
        let ghost all = self@.list.selectable;
        let ghost set = termination.targets@.to_set();
        let mut i: usize = 0;
        assert(all.take(0) =~= Seq::empty());
        while i < self.list.selectable.len()
            invariant
                i <= self.list.selectable.len(),
                all == self@.list.selectable,
                set == termination.targets@.to_set(),
                out@ == panes_in(all.take(i as int), set),
            decreases self.list.selectable.len() - i,
        {
            assert(all.take(i + 1).drop_last() =~= all.take(i as int));
            assert(all.take(i + 1).last() == self.list.selectable[i as int]@);
            let id = self.list.selectable[i].pane_id;
            assert(set.contains(id) == termination.targets@.contains(id));
            if has_id(&termination.targets, id) {
                out.push(id);
            }
            i += 1;
        }
        assert(all.take(i as int) =~= all);
        out
    }

    fn end_pane(&mut self, kind: Termination, pane_id: u32)
        ensures
            final(self)@ == (StateV {
                calls: old(self)@.calls + ending(kind, pane_id),
                ..old(self)@
            }),
    {
        let (kill, close) = kind.effects();
        let ghost before = self@.calls;
        if kill {
            self.ask(HostCall::SendSigkill(PaneId::Terminal(pane_id)));
        }
        if close {
            self.ask(HostCall::ClosePane(PaneId::Terminal(pane_id)));
        }
        assert(self@.calls =~= before + ending(kind, pane_id));
    }

    fn run_termination(&mut self, kind: Termination)
        ensures
            final(self)@ == old(self)@.run_termination(kind),
    {
        let plan = self.termination_plan();
        self.nav.termination = None;
        self.clear_marks();
        let ghost s = self@;
        let mut i: usize = 0;
        assert(plan@.take(0) =~= Seq::empty());
        assert(s.calls + endings(kind, plan@.take(0)) =~= s.calls);
        while i < plan.len()
            invariant
                i <= plan.len(),
                self@ == (StateV { calls: s.calls + endings(kind, plan@.take(i as int)), ..s }),
            decreases plan.len() - i,
        {
            let ghost before = self@.calls;
            self.end_pane(kind, plan[i]);
            assert(plan@.take(i + 1).drop_last() =~= plan@.take(i as int));
            assert(before + ending(kind, plan@[i as int]) =~= s.calls + endings(
                kind,
                plan@.take(i + 1),
            ));
            i += 1;
        }
        assert(plan@.take(i as int) =~= plan@);
    }

    /// A key at the prompt. Every key is drawn.
    pub fn handle_termination_key(&mut self, key: Key) -> (r: bool)
        ensures
            final(self)@ == old(self)@.termination_key(key),
            r,
    {
        if key.has_hard_modifier() {
            self.leave_nav_mode();
            return true;
        }
        match Termination::from_key(key.bare) {
            Some(kind) => self.run_termination(kind),
            None => {
                if matches!(key.bare, BareKey::Esc) {
                    self.nav.termination = None;
                } else {
                    self.leave_nav_mode();
                }
            },
        }
        true
    }
}

/// Cancelling with Esc ends nothing and keeps the marks; running clears all of them.
pub proof fn law_termination_marks(s: StateV, key: Key)
    requires
        !key.hard(),
    ensures
        key.bare == BareKey::Esc ==> s.termination_key(key).list.marked == s.list.marked
            && s.termination_key(key).calls == s.calls,
        Termination::of_key(key.bare) is Some ==> s.termination_key(key).list.marked.is_empty(),
{
}

proof fn lemma_panes_in_members(list: Seq<SelectableV>, set: Set<u32>)
    ensures
        forall|i: int| 0 <= i < panes_in(list, set).len() ==> set.contains(
            #[trigger] panes_in(list, set)[i],
        ),
    decreases list.len(),
{
    if list.len() > 0 {
        lemma_panes_in_members(list.drop_last(), set);
        let all = panes_in(list, set);
        let front = panes_in(list.drop_last(), set);
        assert forall|i: int| 0 <= i < all.len() implies set.contains(#[trigger] all[i]) by {
            if i < front.len() {
                assert(all[i] == front[i]);
                assert(set.contains(front[i]));
            }
        }
    }
}

/// Nothing is ended that was not a target when the prompt opened.
pub proof fn law_only_targets_end(s: StateV, i: int)
    requires
        s.nav.termination is Some,
        0 <= i < s.termination_panes().len(),
    ensures
        s.nav.termination->0.targets.contains(s.termination_panes()[i]),
{
    let set = s.nav.termination->0.targets.to_set();
    lemma_panes_in_members(s.list.selectable, set);
    assert(set.contains(s.termination_panes()[i]));
}

} // verus!
