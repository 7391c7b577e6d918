//! Triage: the panes that carry a status, the most urgent first.

use vstd::prelude::*;

use crate::ids::{group_views, views};
use crate::host::{BareKey, Key};
use crate::state::{NavV, Selectable, SelectableV, State, StateV, StatusesV};

verus! {

broadcast use group_views;

#[derive(Debug, Clone, Copy, PartialEq, Eq, Structural)]
pub struct TriageState {
    /// The pane under the cursor. One that left the list counts as the first entry.
    pub cursor: Option<u32>,
    /// The pane that was selected before.
    pub saved: Option<u32>,
}

impl StatusesV {
    /// How urgent the pane is; none if it has no place in the list.
    pub open spec fn urgency(self, pane_id: u32) -> Option<u8> {
        match self.shown(pane_id) {
            Some(status) => status.like_agent().rank(),
            None => None,
        }
    }

    /// `a` is more urgent than `b`, or as urgent and changed later.
    pub open spec fn more_urgent(self, a: u32, b: u32) -> bool {
        let x = self.urgency(a)->0;
        let y = self.urgency(b)->0;
        x < y || (x == y && self.changed_at(a) > self.changed_at(b))
    }

    /// The place of `e` in the list: behind all that are not less urgent.
    pub open spec fn slot(self, list: Seq<SelectableV>, e: SelectableV) -> nat
        decreases list.len(),
    {
        if list.len() == 0 || self.more_urgent(e.pane_id, list[0].pane_id) {
            0
        } else {
            1 + self.slot(list.drop_first(), e)
        }
    }

    /// The panes among `s` that carry a status, the most urgent first.
    pub open spec fn ranked(self, s: Seq<SelectableV>) -> Seq<SelectableV>
        decreases s.len(),
    {
        if s.len() == 0 {
            Seq::empty()
        } else {
            let list = self.ranked(s.drop_last());
            let e = s.last();
            if self.urgency(e.pane_id) is Some {
                list.insert(self.slot(list, e) as int, e)
            } else {
                list
            }
        }
    }
}

impl StateV {
    pub open spec fn triage_list(self) -> Seq<SelectableV> {
        self.status.ranked(self.list.selectable)
    }

    /// The pane under the cursor; the first entry where it left the list.
    pub open spec fn triage_pane(self) -> Option<u32> {
        match self.nav.triage {
            None => None,
            Some(triage) => {
                let list = self.triage_list();
                if triage.cursor is Some && has_pane(list, triage.cursor->0) {
                    triage.cursor
                } else if list.len() > 0 {
                    Some(list[0].pane_id)
                } else {
                    None
                }
            },
        }
    }
}

impl StateV {
    pub open spec fn with_triage(self, triage: Option<TriageState>) -> StateV {
        StateV { nav: NavV { triage, ..self.nav }, ..self }
    }

    pub open spec fn enter_triage(self) -> StateV {
        self.with_triage(Some(TriageState { cursor: None, saved: self.selected_pane() }))
    }

    /// Back to the tree and to the row that was selected before.
    pub open spec fn exit_triage(self) -> StateV {
        match self.nav.triage {
            None => self,
            Some(triage) => match triage.saved {
                Some(saved) => self.with_triage(None).select(saved),
                None => self.with_triage(None),
            },
        }
    }

    /// The cursor goes to an entry of the list; it stays where there is no such entry.
    pub open spec fn triage_cursor_at(self, n: int) -> StateV {
        let list = self.triage_list();
        if self.nav.triage is Some && 0 <= n < list.len() {
            self.with_triage(
                Some(TriageState { cursor: Some(list[n].pane_id), ..self.nav.triage->0 }),
            )
        } else {
            self
        }
    }

    /// The cursor moves by one entry and stops at the ends.
    pub open spec fn move_triage_cursor(self, forward: bool) -> StateV {
        match self.triage_pane() {
            None => self,
            Some(id) => {
                let at = place_of(self.triage_list(), id);
                if forward {
                    self.triage_cursor_at(at as int + 1)
                } else {
                    self.triage_cursor_at(at - 1)
                }
            },
        }
    }

    /// Jumps to the pane under the cursor; with an empty list nothing happens.
    pub open spec fn confirm_triage(self) -> StateV {
        match self.triage_pane() {
            None => self,
            Some(id) => {
                let n = place_of(self.list.selectable, id);
                if n < self.list.selectable.len() {
                    self.jump_to(n as usize)
                } else {
                    self
                }
            },
        }
    }

    pub open spec fn triage_command(self, key: Key) -> StateV {
        match key.bare {
            BareKey::Esc => self.exit_triage(),
            BareKey::Enter => self.confirm_triage(),
            BareKey::Down => self.move_triage_cursor(true),
            BareKey::Up => self.move_triage_cursor(false),
            BareKey::Tab => self.move_triage_cursor(!key.shift),
            BareKey::Char(c) => if c == 'j' {
                self.move_triage_cursor(true)
            } else if c == 'k' {
                self.move_triage_cursor(false)
            } else if c == 'g' {
                self.triage_cursor_at(0)
            } else if c == 'G' {
                self.triage_cursor_at(self.triage_list().len() - 1)
            } else if c == 'm' {
                self.toggle_mark()
            } else if c == 'M' {
                self.clear_marks()
            } else if c == 'p' {
                self.toggle_preview()
            } else if c == 'r' {
                self.mark_preview_read()
            } else {
                self.leave_nav_mode()
            },
            _ => self.leave_nav_mode(),
        }
    }

    /// A key in the triage list. A key without a meaning leaves nav mode.
    pub open spec fn triage_key(self, key: Key) -> StateV {
        if key.hard() {
            self.leave_nav_mode()
        } else {
            self.triage_command(key).refresh_preview()
        }
    }
}

/// One of the entries is this pane.
pub open spec fn has_pane(list: Seq<SelectableV>, pane_id: u32) -> bool {
    exists|i: int| 0 <= i < list.len() && (#[trigger] list[i]).pane_id == pane_id
}

/// The index of the first entry of this pane; the length where there is none.
pub open spec fn place_of(list: Seq<SelectableV>, pane_id: u32) -> nat
    decreases list.len(),
{
    if list.len() == 0 || list[0].pane_id == pane_id {
        0
    } else {
        1 + place_of(list.drop_first(), pane_id)
    }
}

pub proof fn lemma_place_of_is(list: Seq<SelectableV>, pane_id: u32, n: int)
    requires
        0 <= n <= list.len(),
        forall|j: int| 0 <= j < n ==> (#[trigger] list[j]).pane_id != pane_id,
        n < list.len() ==> list[n].pane_id == pane_id,
    ensures
        place_of(list, pane_id) == n,
    decreases n,
{
    if n > 0 {
        assert(list[0].pane_id != pane_id);
        let rest = list.drop_first();
        assert forall|j: int| 0 <= j < n - 1 implies (#[trigger] rest[j]).pane_id != pane_id by {
            assert(rest[j] == list[j + 1]);
        }
        lemma_place_of_is(rest, pane_id, n - 1);
    }
}

pub proof fn lemma_place_of(list: Seq<SelectableV>, pane_id: u32)
    ensures
        place_of(list, pane_id) <= list.len(),
        has_pane(list, pane_id) <==> place_of(list, pane_id) < list.len(),
        place_of(list, pane_id) < list.len() ==> list[place_of(
            list,
            pane_id,
        ) as int].pane_id == pane_id,
    decreases list.len(),
{
    if list.len() > 0 && list[0].pane_id != pane_id {
        let rest = list.drop_first();
        lemma_place_of(rest, pane_id);
        if has_pane(list, pane_id) {
            let i = choose|i: int| 0 <= i < list.len() && (#[trigger] list[i]).pane_id == pane_id;
            assert(rest[i - 1].pane_id == pane_id);
        }
        if has_pane(rest, pane_id) {
            let i = choose|i: int| 0 <= i < rest.len() && (#[trigger] rest[i]).pane_id == pane_id;
            assert(list[i + 1].pane_id == pane_id);
        }
    } else if list.len() > 0 {
        assert(list[0].pane_id == pane_id);
    }
}

proof fn lemma_slot_is(s: StatusesV, list: Seq<SelectableV>, e: SelectableV, n: int)
    requires
        0 <= n <= list.len(),
        forall|j: int| 0 <= j < n ==> !s.more_urgent(e.pane_id, (#[trigger] list[j]).pane_id),
        n < list.len() ==> s.more_urgent(e.pane_id, list[n].pane_id),
    ensures
        s.slot(list, e) == n,
    decreases n,
{
    if n > 0 {
        assert(!s.more_urgent(e.pane_id, list[0].pane_id));
        let rest = list.drop_first();
        assert forall|j: int| 0 <= j < n - 1 implies !s.more_urgent(
            e.pane_id,
            (#[trigger] rest[j]).pane_id,
        ) by {
            assert(rest[j] == list[j + 1]);
        }
        lemma_slot_is(s, rest, e, n - 1);
    }
}

/// The index of a pane among the entries.
pub fn find_entry(list: &Vec<&Selectable>, pane_id: u32) -> (r: Option<usize>)
    ensures
        r == (if place_of(views(list@), pane_id) < list.len() {
            Some(place_of(views(list@), pane_id) as usize)
        } else {
            None
        }),
        r is Some == has_pane(views(list@), pane_id),
{
    let ghost v = views(list@);
    proof {
        lemma_place_of(v, pane_id);
    }
    let mut i: usize = 0;
    while i < list.len()
        invariant
            i <= list.len(),
            v == views(list@),
            forall|j: int| 0 <= j < i ==> (#[trigger] v[j]).pane_id != pane_id,
        decreases list.len() - i,
    {
        assert(v[i as int] == list[i as int]@);
        if list[i].pane_id == pane_id {
            proof {
                lemma_place_of_is(v, pane_id, i as int);
            }
            return Some(i);
        }
        i += 1;
    }
    proof {
        lemma_place_of_is(v, pane_id, v.len() as int);
    }
    None
}

impl State {
    fn triage_rank_of(&self, pane_id: u32) -> (r: Option<u8>)
        ensures
            r == self@.status.urgency(pane_id),
    {
        match self.pane_status(pane_id) {
            Some(status) => status.triage_rank(),
            None => None,
        }
    }

    /// The triage list.
    pub fn triage_entries(&self) -> (r: Vec<&Selectable>)
        ensures
            views(r@) == self@.triage_list(),
    {
        let mut list: Vec<&Selectable> = Vec::new();
        let mut n: usize = 0;
        let ghost all = self@.list.selectable;
        assert(all.take(0) =~= Seq::empty());
        while n < self.list.selectable.len()
            invariant
                n <= self.list.selectable.len(),
                all == self@.list.selectable,
                views(list@) == self@.status.ranked(all.take(n as int)),
                forall|j: int|
                    0 <= j < list.len() ==> self@.status.urgency((#[trigger] views(list@)[j]).pane_id)
                        is Some,
            decreases self.list.selectable.len() - n,
        {
            let entry = &self.list.selectable[n];
            let ghost before = views(list@);
            assert(all.take(n + 1).drop_last() =~= all.take(n as int));
            assert(all.take(n + 1).last() == entry@);
            if let Some(rank) = self.triage_rank_of(entry.pane_id) {
                let seq = self.status_seq(entry.pane_id);
                let mut i: usize = 0;
                let mut placed = false;
                while i < list.len() && !placed
                    invariant
                        i <= list.len(),
                        before == views(list@),
                        Some(rank) == self@.status.urgency(entry.pane_id),
                        seq == self@.status.changed_at(entry.pane_id),
                        forall|j: int|
                            0 <= j < list.len() ==> self@.status.urgency((#[trigger] before[j]).pane_id)
                                is Some,
                        forall|j: int|
                            0 <= j < i ==> !self@.status.more_urgent(
                                entry.pane_id,
                                (#[trigger] before[j]).pane_id,
                            ),
                        placed ==> i < list.len() && self@.status.more_urgent(
                            entry.pane_id,
                            before[i as int].pane_id,
                        ),
                    decreases list.len() - i + (if placed { 0int } else { 1int }),
                {
                    let other = list[i].pane_id;
                    assert(before[i as int].pane_id == other);
                    let other_rank: u8 = match self.triage_rank_of(other) {
                        Some(r) => r,
                        None => 0,
                    };
                    if rank < other_rank || (rank == other_rank && seq > self.status_seq(other)) {
                        placed = true;
                    } else {
                        i += 1;
                    }
                }
                proof {
                    lemma_slot_is(self@.status, before, entry@, i as int);
                }
                list.insert(i, entry);
                assert(views(list@) =~= before.insert(i as int, entry@));
                assert forall|j: int| 0 <= j < list.len() implies self@.status.urgency(
                    (#[trigger] views(list@)[j]).pane_id,
                ) is Some by {
                    if j < i {
                        assert(views(list@)[j] == before[j]);
                    } else if j > i {
                        assert(views(list@)[j] == before[j - 1]);
                    }
                }
            }
            n += 1;
        }
        assert(all.take(n as int) =~= all);
        list
    }

    pub fn triage_cursor(&self) -> (r: Option<u32>)
        ensures
            r == self@.triage_pane(),
    {
        let triage = match &self.nav.triage {
            Some(triage) => triage,
            None => {
                return None;
            },
        };
        let list = self.triage_entries();
        if let Some(cursor) = triage.cursor {
            if find_entry(&list, cursor).is_some() {
                return Some(cursor);
            }
        }
        if list.len() > 0 {
            assert(views(list@)[0] == list[0]@);
            Some(list[0].pane_id)
        } else {
            None
        }
    }
}

impl State {
    pub fn enter_triage(&mut self)
        ensures
            final(self)@ == old(self)@.enter_triage(),
    {
        let saved = self.selected_pane_id();
        self.nav.triage = Some(TriageState { cursor: None, saved });
    }

    fn exit_triage(&mut self)
        ensures
            final(self)@ == old(self)@.exit_triage(),
    {
        if let Some(triage) = self.nav.triage.take() {
            if let Some(saved) = triage.saved {
                self.select_pane_id(saved);
            }
        }
    }

    fn set_triage_cursor(&mut self, pane_id: u32)
        ensures
            final(self)@ == (if old(self)@.nav.triage is Some {
                old(self)@.with_triage(
                    Some(TriageState { cursor: Some(pane_id), ..old(self)@.nav.triage->0 }),
                )
            } else {
                old(self)@
            }),
    {
        if let Some(triage) = self.nav.triage {
            self.nav.triage = Some(TriageState { cursor: Some(pane_id), saved: triage.saved });
        }
    }

    fn move_triage_cursor(&mut self, forward: bool)
        ensures
            final(self)@ == old(self)@.move_triage_cursor(forward),
    {
        let cursor = match self.triage_cursor() {
            Some(cursor) => cursor,
            None => {
                return ;
            },
        };
        let list = self.triage_entries();
        let ghost v = views(list@);
        let at = find_entry(&list, cursor);
        proof {
            lemma_place_of(v, cursor);
        }
        let mut target: Option<u32> = None;
        if let Some(at) = at {
            if forward && at < list.len() - 1 {
                assert(v[at + 1] == list[at + 1]@);
                target = Some(list[at + 1].pane_id);
            }
            if !forward && at > 0 {
                assert(v[at - 1] == list[at - 1]@);
                target = Some(list[at - 1].pane_id);
            }
        }
        if let Some(target) = target {
            self.set_triage_cursor(target);
        }
    }

    fn triage_cursor_to_end(&mut self, last: bool)
        ensures
            final(self)@ == old(self)@.triage_cursor_at(
                if last {
                    old(self)@.triage_list().len() - 1
                } else {
                    0
                },
            ),
    {
        let list = self.triage_entries();
        let ghost v = views(list@);
        if list.len() == 0 {
            return ;
        }
        let n: usize = if last {
            list.len() - 1
        } else {
            0
        };
        assert(v[n as int] == list[n as int]@);
        let target = list[n].pane_id;
        self.set_triage_cursor(target);
    }

    fn confirm_triage(&mut self)
        ensures
            final(self)@ == old(self)@.confirm_triage(),
    {
        if let Some(pane_id) = self.triage_cursor() {
            if let Some(index) = self.index_of_pane(pane_id) {
                self.jump_to(index);
            }
        }
    }

    fn triage_command(&mut self, key: Key)
        ensures
            final(self)@ == old(self)@.triage_command(key),
    {
        match key.bare {
            BareKey::Esc => self.exit_triage(),
            BareKey::Enter => self.confirm_triage(),
            BareKey::Down => self.move_triage_cursor(true),
            BareKey::Up => self.move_triage_cursor(false),
            BareKey::Tab => self.move_triage_cursor(!key.shift),
            BareKey::Char(c) => if c == 'j' {
                self.move_triage_cursor(true)
            } else if c == 'k' {
                self.move_triage_cursor(false)
            } else if c == 'g' {
                self.triage_cursor_to_end(false)
            } else if c == 'G' {
                self.triage_cursor_to_end(true)
            } else if c == 'm' {
                self.toggle_mark()
            } else if c == 'M' {
                self.clear_marks()
            } else if c == 'p' {
                self.toggle_preview()
            } else if c == 'r' {
                self.mark_preview_read()
            } else {
                self.leave_nav_mode()
            },
            _ => self.leave_nav_mode(),
        }
    }

    /// A key in the triage list. Every key is drawn.
    pub fn handle_triage_key(&mut self, key: Key) -> (r: bool)
        ensures
            final(self)@ == old(self)@.triage_key(key),
            r,
    {
        if key.has_hard_modifier() {
            self.leave_nav_mode();
            return true;
        }
        self.triage_command(key);
        self.refresh_preview();
        true
    }
}

// --- laws ---

proof fn lemma_slot(s: StatusesV, list: Seq<SelectableV>, e: SelectableV)
    ensures
        s.slot(list, e) <= list.len(),
        forall|j: int|
            0 <= j < s.slot(list, e) ==> !s.more_urgent(e.pane_id, (#[trigger] list[j]).pane_id),
        s.slot(list, e) < list.len() ==> s.more_urgent(
            e.pane_id,
            list[s.slot(list, e) as int].pane_id,
        ),
    decreases list.len(),
{
    if list.len() > 0 && !s.more_urgent(e.pane_id, list[0].pane_id) {
        let rest = list.drop_first();
        lemma_slot(s, rest, e);
        assert forall|j: int| 0 <= j < s.slot(list, e) implies !s.more_urgent(
            e.pane_id,
            (#[trigger] list[j]).pane_id,
        ) by {
            if j > 0 {
                assert(rest[j - 1] == list[j]);
            }
        }
    }
}

/// The list holds exactly the panes with a status that is not read, and no entry is more
/// urgent than one before it.
pub proof fn law_triage_order(s: StatusesV, panes: Seq<SelectableV>)
    ensures
        forall|i: int, j: int|
            0 <= i < j < s.ranked(panes).len() ==> !s.more_urgent(
                (#[trigger] s.ranked(panes)[j]).pane_id,
                (#[trigger] s.ranked(panes)[i]).pane_id,
            ),
        forall|e: SelectableV|
            #![trigger s.ranked(panes).contains(e)]
            #![trigger panes.contains(e)]
            s.ranked(panes).contains(e) <==> panes.contains(e) && s.urgency(e.pane_id) is Some,
    decreases panes.len(),
{
    let list = s.ranked(panes);
    if panes.len() > 0 {
        let front = panes.drop_last();
        let e = panes.last();
        let rest = s.ranked(front);
        law_triage_order(s, front);
        lemma_slot(s, rest, e);
        assert(panes =~= front.push(e));
        let n = s.slot(rest, e) as int;
        if s.urgency(e.pane_id) is Some {
            assert(list =~= rest.insert(n, e));
            assert forall|i: int, j: int| 0 <= i < j < list.len() implies !s.more_urgent(
                (#[trigger] list[j]).pane_id,
                (#[trigger] list[i]).pane_id,
            ) by {
                let a = if j < n {
                    j
                } else {
                    j - 1
                };
                let b = if i < n {
                    i
                } else {
                    i - 1
                };
                assert(rest.contains(rest[0]) || rest.len() == 0);
                if i != n && j != n {
                    assert(list[j] == rest[a] && list[i] == rest[b]);
                } else if j == n {
                    assert(list[i] == rest[i]);
                } else {
                    assert(list[j] == rest[j - 1]);
                    assert(s.more_urgent(e.pane_id, rest[n].pane_id));
                    if j - 1 > n {
                        assert(!s.more_urgent(rest[j - 1].pane_id, rest[n].pane_id));
                    }
                }
            }
            assert forall|x: SelectableV| list.contains(x) <==> panes.contains(x) && s.urgency(
                x.pane_id,
            ) is Some by {
                if list.contains(x) {
                    let k = choose|k: int| 0 <= k < list.len() && list[k] == x;
                    if k < n {
                        assert(rest[k] == x);
                        assert(rest.contains(x));
                    } else if k > n {
                        assert(rest[k - 1] == x);
                        assert(rest.contains(x));
                    }
                    if k != n {
                        assert(front.contains(x));
                        let m = choose|m: int| 0 <= m < front.len() && front[m] == x;
                        assert(panes[m] == x);
                    } else {
                        assert(panes[panes.len() - 1] == x);
                    }
                }
                if panes.contains(x) && s.urgency(x.pane_id) is Some {
                    let m = choose|m: int| 0 <= m < panes.len() && panes[m] == x;
                    if m < front.len() {
                        assert(front[m] == x);
                        assert(front.contains(x));
                        let k = choose|k: int| 0 <= k < rest.len() && rest[k] == x;
                        if k < n {
                            assert(list[k] == x);
                        } else {
                            assert(list[k + 1] == x);
                        }
                    } else {
                        assert(list[n] == x);
                    }
                }
            }
        } else {
            assert forall|x: SelectableV| list.contains(x) <==> panes.contains(x) && s.urgency(
                x.pane_id,
            ) is Some by {
                if list.contains(x) {
                    assert(front.contains(x));
                    let m = choose|m: int| 0 <= m < front.len() && front[m] == x;
                    assert(panes[m] == x);
                }
                if panes.contains(x) && s.urgency(x.pane_id) is Some {
                    let m = choose|m: int| 0 <= m < panes.len() && panes[m] == x;
                    assert(front[m] == x);
                    assert(front.contains(x));
                }
            }
        }
    }
}

impl StatusesV {
    /// The two panes are equally urgent, and changed at the same time.
    pub open spec fn tied(self, a: u32, b: u32) -> bool {
        self.urgency(a) is Some && self.urgency(a) == self.urgency(b) && self.changed_at(a)
            == self.changed_at(b)
    }
}

proof fn lemma_filter_none(list: Seq<SelectableV>, p: spec_fn(SelectableV) -> bool)
    requires
        forall|i: int| 0 <= i < list.len() ==> !p(#[trigger] list[i]),
    ensures
        list.filter(p) == Seq::<SelectableV>::empty(),
    decreases list.len(),
{
    reveal(Seq::filter);
    if list.len() > 0 {
        let front = list.drop_last();
        assert(!p(list[list.len() - 1]));
        assert forall|i: int| 0 <= i < front.len() implies !p(#[trigger] front[i]) by {
            assert(front[i] == list[i]);
        }
        lemma_filter_none(front, p);
    }
}

/// Panes that are tied with one another stand in the list as they stand among all panes.
proof fn lemma_ranked_filter(
    s: StatusesV,
    panes: Seq<SelectableV>,
    p: spec_fn(SelectableV) -> bool,
    id: u32,
)
    requires
        forall|e: SelectableV| #[trigger] p(e) ==> s.tied(e.pane_id, id),
    ensures
        s.ranked(panes).filter(p) == panes.filter(p),
    decreases panes.len(),
{
    reveal(Seq::filter);
    if panes.len() > 0 {
        let front = panes.drop_last();
        let e = panes.last();
        let rest = s.ranked(front);
        lemma_ranked_filter(s, front, p, id);
        if s.urgency(e.pane_id) is Some {
            let n = s.slot(rest, e) as int;
            lemma_slot(s, rest, e);
            law_triage_order(s, front);
            let before = rest.take(n);
            let after = rest.skip(n);
            assert(s.ranked(panes) =~= before + seq![e] + after);
            assert(rest =~= before + after);
            Seq::filter_distributes_over_add(before + seq![e], after, p);
            Seq::filter_distributes_over_add(before, seq![e], p);
            Seq::filter_distributes_over_add(before, after, p);
            assert(seq![e].drop_last() =~= Seq::<SelectableV>::empty());
            assert(seq![e].last() == e);
            assert(Seq::<SelectableV>::empty().filter(p) =~= Seq::empty());
            if p(e) {
                assert forall|j: int| 0 <= j < after.len() implies !p(#[trigger] after[j]) by {
                    assert(after[j] == rest[n + j]);
                    assert(s.more_urgent(e.pane_id, rest[n].pane_id));
                    if j > 0 {
                        assert(!s.more_urgent(rest[n + j].pane_id, rest[n].pane_id));
                    }
                }
                lemma_filter_none(after, p);
                assert(seq![e].filter(p) =~= seq![e]);
                assert(s.ranked(panes).filter(p) =~= before.filter(p).push(e));
            } else {
                assert(seq![e].filter(p) =~= Seq::empty());
                assert(s.ranked(panes).filter(p) =~= before.filter(p) + after.filter(p));
            }
        } else {
            assert(!p(e));
        }
    }
}

/// Ties keep the order of the panes, and no pane is listed more or less often than it is among
/// them: the entries tied with `x`, and the entries that are `x`, are those of the panes, one
/// after another.
pub proof fn law_triage_ties(s: StatusesV, panes: Seq<SelectableV>, x: SelectableV)
    requires
        s.urgency(x.pane_id) is Some,
    ensures
        s.ranked(panes).filter(|e: SelectableV| s.tied(e.pane_id, x.pane_id)) == panes.filter(
            |e: SelectableV| s.tied(e.pane_id, x.pane_id),
        ),
        s.ranked(panes).filter(|e: SelectableV| e == x) == panes.filter(|e: SelectableV| e == x),
{
    lemma_ranked_filter(
        s,
        panes,
        |e: SelectableV| s.tied(e.pane_id, x.pane_id),
        x.pane_id,
    );
    lemma_ranked_filter(s, panes, |e: SelectableV| e == x, x.pane_id);
}

} // verus!
