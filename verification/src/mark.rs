//! Marks: panes picked one by one as the targets of a batch operation.
//!
//! Marks span tabs, survive leaving nav mode, and are shared with the siblings.

use std::collections::BTreeSet;

use vstd::prelude::*;

use crate::ids::{ascending, group_views, lemma_ascending, same_sets, set_items, views};
use crate::state::{ListingV, SelectableV, State, StateV};
use crate::text::{
    decimal, digits, join, joined, lemma_digits_without, lemma_parsed_digits,
    lemma_pieces_of_joined, lemma_trimmed_digits, parse_u32, parsed, pieces, split, trim, trimmed,
};
use crate::triage::has_pane;
use crate::wire::MARK_PIPE;

verus! {

broadcast use group_views;

/// The sign on a marked row.
pub const MARK_GLYPH: &'static str = "✓";

/// Ids as a text: their decimal spellings with commas between them.
pub open spec fn id_text(ids: Seq<u32>) -> Seq<char> {
    joined(ids.map_values(|id: u32| digits(id as nat)), ","@)
}

/// The ids among the pieces of a text; what is no id is passed over.
pub open spec fn parsed_ids(s: Seq<Seq<char>>) -> Seq<u32>
    decreases s.len(),
{
    if s.len() == 0 {
        Seq::empty()
    } else {
        let front = parsed_ids(s.drop_last());
        match parsed(trimmed(s.last()), u32::MAX as nat) {
            Some(id) => front.push(id as u32),
            None => front,
        }
    }
}

/// The panes of the list that are in the set, in the order of the list.
pub open spec fn panes_in(list: Seq<SelectableV>, set: Set<u32>) -> Seq<u32>
    decreases list.len(),
{
    if list.len() == 0 {
        Seq::empty()
    } else {
        let front = panes_in(list.drop_last(), set);
        let id = list.last().pane_id;
        if set.contains(id) {
            front.push(id)
        } else {
            front
        }
    }
}

impl StateV {
    /// The pane of the row that is lit, whichever list is shown.
    pub open spec fn highlighted(self) -> Option<u32> {
        if self.nav.triage is Some {
            self.triage_pane()
        } else if self.nav.search is Some {
            self.nav.search->0.cursor
        } else {
            self.selected_pane()
        }
    }

    pub open spec fn mark_text(self) -> Seq<char> {
        id_text(ascending(self.list.marked))
    }

    pub open spec fn broadcasts_marks(self) -> StateV {
        self.broadcasts(MARK_PIPE@, self.mark_text())
    }

    pub open spec fn with_marks(self, marked: Set<u32>) -> StateV {
        StateV { list: ListingV { marked, ..self.list }, ..self }
    }

    pub open spec fn flip_mark(self, id: u32) -> StateV {
        self.with_marks(
            if self.list.marked.contains(id) {
                self.list.marked.remove(id)
            } else {
                self.list.marked.insert(id)
            },
        )
    }

    pub open spec fn toggle_mark(self) -> StateV {
        match self.highlighted() {
            None => self,
            Some(id) => self.flip_mark(id).broadcasts_marks(),
        }
    }

    pub open spec fn clear_marks(self) -> StateV {
        if self.list.marked.is_empty() {
            self
        } else {
            self.with_marks(Set::empty()).broadcasts_marks()
        }
    }

    /// Panes that left the list are not marked.
    pub open spec fn prune_marks(self) -> StateV {
        self.with_marks(self.list.marked.filter(|id: u32| has_pane(self.list.selectable, id)))
    }

    /// The marked panes in the order of the list.
    pub open spec fn marked_in_tree_order(self) -> Seq<u32> {
        panes_in(self.list.selectable, self.list.marked)
    }

    /// The marks become the set of the message.
    pub open spec fn apply_marks(self, raw: Seq<char>) -> StateV {
        self.with_marks(parsed_ids(pieces(raw, ',')).to_set())
    }
}

/// The ids of a comma-separated text.
pub fn parse_ids(raw: &str) -> (r: Vec<u32>)
    ensures
        r@ == parsed_ids(pieces(raw@, ',')),
{
    let parts = split(raw, ',');
    let ghost v = views(parts@);
    let mut out: Vec<u32> = Vec::new();
    let mut i: usize = 0;
    assert(v.take(0) =~= Seq::empty());
    while i < parts.len()
        invariant
            i <= parts.len(),
            v == views(parts@),
            out@ == parsed_ids(v.take(i as int)),
        decreases parts.len() - i,
    {
        let part = trim(parts[i].as_str());
        assert(v.take(i + 1).drop_last() =~= v.take(i as int));
        assert(v.take(i + 1).last() == parts[i as int]@);
        if let Some(id) = parse_u32(part.as_str()) {
            out.push(id);
        }
        i += 1;
    }
    assert(v.take(i as int) =~= v);
    out
}

/// The ids as a comma-separated text.
pub fn spell_ids(ids: &Vec<u32>) -> (r: String)
    ensures
        r@ == id_text(ids@),
{
    let mut parts: Vec<String> = Vec::new();
    let mut i: usize = 0;
    while i < ids.len()
        invariant
            i <= ids.len(),
            parts.len() == i,
            forall|j: int| 0 <= j < i ==> (#[trigger] parts[j])@ == digits(ids[j] as nat),
        decreases ids.len() - i,
    {
        parts.push(decimal(ids[i] as u128));
        i += 1;
    }
    assert(views(parts@) =~= ids@.map_values(|id: u32| digits(id as nat)));
    join(&parts, ",")
}

impl State {
    /// Whether the list holds this pane.
    pub fn lists_pane(&self, pane_id: u32) -> (r: bool)
        ensures
            r == has_pane(self@.list.selectable, pane_id),
    {
        let mut i: usize = 0;
        while i < self.list.selectable.len()
            invariant
                i <= self.list.selectable.len(),
                forall|j: int|
                    0 <= j < i ==> (#[trigger] self@.list.selectable[j]).pane_id != pane_id,
            decreases self.list.selectable.len() - i,
        {
            if self.list.selectable[i].pane_id == pane_id {
                assert(self@.list.selectable[i as int].pane_id == pane_id);
                return true;
            }
            assert(self@.list.selectable[i as int] == self.list.selectable[i as int]@);
            i += 1;
        }
        false
    }

    pub fn highlighted_pane(&self) -> (r: Option<u32>)
        ensures
            r == self@.highlighted(),
    {
        if self.nav.triage.is_some() {
            return self.triage_cursor();
        }
        match &self.nav.search {
            Some(search) => search.cursor,
            None => self.selected_pane_id(),
        }
    }

    pub fn toggle_mark(&mut self)
        ensures
            final(self)@ == old(self)@.toggle_mark(),
    {
        if let Some(pane_id) = self.highlighted_pane() {
            self.flip_mark(pane_id);
            self.broadcast_marks();
        }
    }

    fn flip_mark(&mut self, pane_id: u32)
        ensures
            final(self)@ == old(self)@.flip_mark(pane_id),
    {
        if self.list.marked.contains(&pane_id) {
            self.list.marked.remove(&pane_id);
        } else {
            self.list.marked.insert(pane_id);
        }
    }

    pub fn clear_marks(&mut self)
        ensures
            final(self)@ == old(self)@.clear_marks(),
    {
        if self.list.marked.is_empty() {
            return ;
        }
        self.list.marked.clear();
        self.broadcast_marks();
    }

    pub fn is_marked(&self, pane_id: u32) -> (r: bool)
        ensures
            r == self@.list.marked.contains(pane_id),
    {
        self.list.marked.contains(&pane_id)
    }

    pub fn prune_marks(&mut self)
        ensures
            final(self)@ == old(self)@.prune_marks(),
    {
        let marks = set_items(&self.list.marked);
        let mut kept: BTreeSet<u32> = BTreeSet::new();
        let mut i: usize = 0;
        while i < marks.len()
            invariant
                i <= marks.len(),
                forall|id: u32|
                    kept@.contains(id) <==> has_pane(self@.list.selectable, id) && exists|j: int|
                        0 <= j < i && marks@[j] == id,
            decreases marks.len() - i,
        {
            let id = marks[i];
            let ghost had = kept@;
            if self.lists_pane(id) {
                kept.insert(id);
            }
            assert forall|x: u32| kept@.contains(x) <==> has_pane(self@.list.selectable, x) && exists|
                j: int,
            |
                0 <= j < i + 1 && marks@[j] == x by {
                if had.contains(x) {
                    let j = choose|j: int| 0 <= j < i && marks@[j] == x;
                    assert(marks@[j] == x && j < i + 1);
                }
                if x == id {
                    assert(marks@[i as int] == x);
                }
            }
            i += 1;
        }
        let ghost target = self@.prune_marks().list.marked;
        assert forall|x: u32| kept@.contains(x) <==> target.contains(x) by {
            assert(marks@.to_set().contains(x) <==> self@.list.marked.contains(x));
            if target.contains(x) {
                assert(marks@.contains(x));
            }
            if kept@.contains(x) {
                let j = choose|j: int| 0 <= j < marks.len() && marks@[j] == x;
                assert(marks@.contains(x));
            }
        }
        assert(kept@ =~= target);
        self.list.marked = kept;
    }

    pub fn marked_in_tree_order(&self) -> (r: Vec<u32>)
        ensures
            r@ == self@.marked_in_tree_order(),
    {
        let ghost all = self@.list.selectable;
        let mut out: Vec<u32> = Vec::new();
        let mut i: usize = 0;
        assert(all.take(0) =~= Seq::empty());
        while i < self.list.selectable.len()
            invariant
                i <= self.list.selectable.len(),
                all == self@.list.selectable,
                out@ == panes_in(all.take(i as int), self@.list.marked),
            decreases self.list.selectable.len() - i,
        {
            assert(all.take(i + 1).drop_last() =~= all.take(i as int));
            assert(all.take(i + 1).last() == self.list.selectable[i as int]@);
            let id = self.list.selectable[i].pane_id;
            if self.is_marked(id) {
                out.push(id);
            }
            i += 1;
        }
        assert(all.take(i as int) =~= all);
        out
    }

    fn broadcast_marks(&mut self)
        ensures
            final(self)@ == old(self)@.broadcasts_marks(),
    {
        let dump = self.mark_dump();
        self.broadcast_to_siblings(MARK_PIPE, dump.as_str());
    }

    pub fn push_marks_to(&mut self, plugin_id: u32)
        ensures
            final(self)@ == old(self)@.sends(plugin_id, MARK_PIPE@, old(self)@.mark_text()),
    {
        let dump = self.mark_dump();
        self.send_to_plugin(plugin_id, MARK_PIPE, dump);
    }

    pub fn mark_dump(&self) -> (r: String)
        ensures
            r@ == self@.mark_text(),
    {
        let ids = set_items(&self.list.marked);
        spell_ids(&ids)
    }

    /// The receiving end of the mark pipe. Returns whether to draw again.
    pub fn handle_mark_pipe(&mut self, payload: Option<&str>) -> (r: bool)
        ensures
            final(self)@ == (match payload {
                Some(raw) => old(self)@.apply_marks(raw@),
                None => old(self)@,
            }),
            r == (final(self)@.list.marked != old(self)@.list.marked),
    {
        match payload {
            Some(raw) => self.apply_marks(raw),
            None => false,
        }
    }

    /// Takes over the marks of a message, whether or not this instance lists the panes.
    pub fn apply_marks(&mut self, raw: &str) -> (r: bool)
        ensures
            final(self)@ == old(self)@.apply_marks(raw@),
            r == (final(self)@.list.marked != old(self)@.list.marked),
    {
        let ids = parse_ids(raw);
        let marked = set_of(&ids);
        if same_sets(&self.list.marked, &marked) {
            return false;
        }
        self.list.marked = marked;
        true
    }
}

/// The ids as a set.
pub fn set_of(ids: &Vec<u32>) -> (r: BTreeSet<u32>)
    ensures
        r@ == ids@.to_set(),
{
    let mut set: BTreeSet<u32> = BTreeSet::new();
    let mut i: usize = 0;
    assert(ids@.take(0).to_set() =~= Set::empty());
    while i < ids.len()
        invariant
            i <= ids.len(),
            set@ == ids@.take(i as int).to_set(),
        decreases ids.len() - i,
    {
        set.insert(ids[i]);
        proof {
            let before = ids@.take(i as int);
            let after = ids@.take(i + 1);
            assert(after =~= before.push(ids@[i as int]));
            assert forall|x: u32| after.to_set().contains(x) <==> before.to_set().insert(
                ids@[i as int],
            ).contains(x) by {
                if after.contains(x) {
                    let k = choose|k: int| 0 <= k < after.len() && after[k] == x;
                    if k < i {
                        assert(before[k] == x);
                    }
                }
                if before.contains(x) {
                    let k = choose|k: int| 0 <= k < before.len() && before[k] == x;
                    assert(after[k] == x);
                }
                if x == ids@[i as int] {
                    assert(after[i as int] == x);
                }
            }
            assert(after.to_set() =~= before.to_set().insert(ids@[i as int]));
        }
        i += 1;
    }
    assert(ids@.take(i as int) =~= ids@);
    set
}

// --- laws ---

/// Ids that were spelled are read back.
pub proof fn lemma_ids_read_back(ids: Seq<u32>)
    ensures
        parsed_ids(pieces(id_text(ids), ',')) == ids,
{
    let parts = ids.map_values(|id: u32| digits(id as nat));
    reveal_strlit(",");
    assert(","@ =~= seq![',']);
    if ids.len() == 0 {
        let none = Seq::<char>::empty();
        assert(id_text(ids) =~= none);
        assert(pieces(none, ',') =~= seq![none]);
        assert(parsed(trimmed(none), u32::MAX as nat) is None);
        let one = seq![none];
        assert(one.drop_last() =~= Seq::empty());
        assert(one.last() == none);
        assert(parsed_ids(one.drop_last()) =~= Seq::empty());
        assert(parsed_ids(one) =~= ids);
    } else {
        assert forall|i: int| 0 <= i < parts.len() implies !(#[trigger] parts[i]).contains(',') by {
            lemma_digits_without(ids[i] as nat, ',');
        }
        lemma_pieces_of_joined(parts, ',');
        lemma_parsed_parts(ids);
    }
}

proof fn lemma_parsed_parts(ids: Seq<u32>)
    ensures
        parsed_ids(ids.map_values(|id: u32| digits(id as nat))) == ids,
    decreases ids.len(),
{
    let parts = ids.map_values(|id: u32| digits(id as nat));
    if ids.len() == 0 {
        assert(parsed_ids(parts) =~= ids);
    } else {
        let front = ids.drop_last();
        lemma_parsed_parts(front);
        assert(parts.drop_last() =~= front.map_values(|id: u32| digits(id as nat)));
        lemma_trimmed_digits(ids.last() as nat);
        lemma_parsed_digits(ids.last() as nat, u32::MAX as nat);
        assert(parsed_ids(parts) =~= front.push(ids.last()));
        assert(front.push(ids.last()) =~= ids);
    }
}

/// A sibling that hears of the marks has the same marks, whatever it had.
pub proof fn law_marks_are_shared(s: StateV, t: StateV)
    requires
        s.list.marked.finite(),
    ensures
        t.apply_marks(s.mark_text()) == t.with_marks(s.list.marked),
{
    lemma_ids_read_back(ascending(s.list.marked));
    lemma_ascending(s.list.marked);
}

} // verus!
