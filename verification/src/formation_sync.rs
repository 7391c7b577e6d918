//! Formations between instances, and what always holds of them.

use std::collections::{BTreeMap, BTreeSet};

use vstd::prelude::*;

use crate::dump::field_text;
use crate::formation::{
    has_formation, lemma_formation_place, next_id, place_formation, without_commander, Formation,
    FormationV,
};
use crate::ids::{
    ascending, group_views, increasing, keep_only, lemma_ascending, lemma_ascending_of, map_keys,
    same_ids, views,
};
use crate::state::{FormationsV, State, StateV};
use crate::text::{
    block, decimal, digits, join, joined, lemma_digits_without, lemma_joined_end,
    lemma_joined_without, lemma_lines_of_block, lemma_parsed_digits, lemma_pieces_of_joined, lines, lines_of, one_line,
    parse_u32, parsed, pieces, same, split,
};
use crate::triage::has_pane;
use crate::wire::FORMATION_PIPE;

verus! {

broadcast use group_views;

// --- on the wire ---

/// An optional id; empty where there is none.
pub open spec fn optional_id(id: Option<u32>) -> Seq<char> {
    match id {
        Some(id) => digits(id as nat),
        None => Seq::empty(),
    }
}

pub open spec fn formation_fields(f: FormationV) -> Seq<Seq<char>> {
    seq!["F"@, digits(f.id as nat), f.name, optional_id(f.commander)]
}

pub open spec fn formation_line(f: FormationV) -> Seq<char> {
    joined(formation_fields(f), "\t"@)
}

pub open spec fn assignment_fields(pane_id: u32, id: u32) -> Seq<Seq<char>> {
    seq!["A"@, digits(pane_id as nat), digits(id as nat)]
}

pub open spec fn assignment_line(pane_id: u32, id: u32) -> Seq<char> {
    joined(assignment_fields(pane_id, id), "\t"@)
}

pub open spec fn formation_lines(formations: Seq<FormationV>) -> Seq<Seq<char>> {
    formations.map_values(|f: FormationV| formation_line(f))
}

pub open spec fn assignment_lines(assignments: Map<u32, u32>, ids: Seq<u32>) -> Seq<Seq<char>> {
    ids.map_values(|id: u32| assignment_line(id, assignments[id]))
}

/// What a message about formations says.
pub struct Roll {
    pub formations: Seq<FormationV>,
    pub assignments: Map<u32, u32>,
}

impl Roll {
    pub open spec fn blank() -> Roll {
        Roll { formations: Seq::empty(), assignments: Map::empty() }
    }

    /// One more line of the message. Lines that cannot be read are passed over.
    pub open spec fn take_line(self, line: Seq<char>) -> Roll {
        let f = pieces(line, '\t');
        if f.len() < 3 {
            self
        } else if f[0] == "F"@ {
            match parsed(f[1], u32::MAX as nat) {
                Some(id) => Roll {
                    formations: self.formations.push(
                        FormationV {
                            id: id as u32,
                            name: f[2],
                            commander: if f.len() >= 4 {
                                match parsed(f[3], u32::MAX as nat) {
                                    Some(c) => Some(c as u32),
                                    None => None,
                                }
                            } else {
                                None
                            },
                        },
                    ),
                    ..self
                },
                None => self,
            }
        } else if f[0] == "A"@ {
            match (parsed(f[1], u32::MAX as nat), parsed(f[2], u32::MAX as nat)) {
                (Some(p), Some(id)) => Roll {
                    assignments: self.assignments.insert(p as u32, id as u32),
                    ..self
                },
                _ => self,
            }
        } else {
            self
        }
    }

    pub open spec fn take_lines(self, text: Seq<Seq<char>>) -> Roll
        decreases text.len(),
    {
        if text.len() == 0 {
            self
        } else {
            self.take_lines(text.drop_last()).take_line(text.last())
        }
    }

    /// The members of formations that are part of the message, too.
    pub open spec fn members(self) -> Map<u32, u32> {
        self.assignments.restrict(
            self.assignments.dom().filter(
                |p: u32| has_formation(self.formations, self.assignments[p]),
            ),
        )
    }
}

/// The largest id among the formations, or `least`.
pub open spec fn largest_id(formations: Seq<FormationV>, least: u32) -> u32
    decreases formations.len(),
{
    if formations.len() == 0 {
        least
    } else {
        let front = largest_id(formations.drop_last(), least);
        if formations.last().id > front {
            formations.last().id
        } else {
            front
        }
    }
}

impl FormationsV {
    /// All formations and their members as a message.
    pub open spec fn dump(self) -> Seq<char> {
        block(
            formation_lines(self.formations) + assignment_lines(
                self.assignments,
                ascending(self.assignments.dom()),
            ),
        )
    }

    /// A message replaces everything. Ids that it uses are not given out again.
    pub open spec fn take(self, raw: Seq<char>) -> (FormationsV, bool) {
        let roll = Roll::blank().take_lines(lines_of(raw));
        if self.formations == roll.formations && self.assignments == roll.members() {
            (self, false)
        } else {
            let largest = largest_id(roll.formations, 0);
            (
                FormationsV {
                    formations: roll.formations,
                    assignments: roll.members(),
                    next_formation_id: if roll.formations.len() > 0 && next_id(largest)
                        > self.next_formation_id {
                        next_id(largest)
                    } else {
                        self.next_formation_id
                    },
                },
                true,
            )
        }
    }
}

fn spell_line(fields: &Vec<String>) -> (r: String)
    ensures
        r@ == joined(views(fields@), "\t"@).push('\n'),
{
    let mut line = join(fields, "\t");
    line.push('\n');
    line
}

fn spell_formation(f: &Formation) -> (r: String)
    ensures
        r@ == formation_line(f@).push('\n'),
{
    let mut fields: Vec<String> = Vec::new();
    fields.push("F".to_owned());
    fields.push(decimal(f.id as u128));
    fields.push(f.name.clone());
    let commander = match f.commander {
        Some(id) => decimal(id as u128),
        None => String::new(),
    };
    fields.push(commander);
    assert(views(fields@) =~= formation_fields(f@));
    spell_line(&fields)
}

fn spell_assignment(pane_id: u32, id: u32) -> (r: String)
    ensures
        r@ == assignment_line(pane_id, id).push('\n'),
{
    let mut fields: Vec<String> = Vec::new();
    fields.push("A".to_owned());
    fields.push(decimal(pane_id as u128));
    fields.push(decimal(id as u128));
    assert(views(fields@) =~= assignment_fields(pane_id, id));
    spell_line(&fields)
}

proof fn lemma_block_push(text: Seq<Seq<char>>, line: Seq<char>)
    ensures
        block(text.push(line)) == block(text) + line.push('\n'),
{
    assert(text.push(line).drop_last() =~= text);
}

/// A message that is being read.
struct RollBook {
    formations: Vec<Formation>,
    assignments: BTreeMap<u32, u32>,
}

impl RollBook {
    spec fn roll(&self) -> Roll {
        Roll { formations: views(self.formations@), assignments: self.assignments@ }
    }

    fn take_line(&mut self, line: &str)
        ensures
            final(self).roll() == old(self).roll().take_line(line@),
    {
        let fields = split(line, '\t');
        let ghost f = pieces(line@, '\t');
        if fields.len() < 3 {
            return ;
        }
        assert(forall|i: int| 0 <= i < f.len() ==> f[i] == fields[i]@);
        if same(fields[0].as_str(), "F") {
            if let Some(id) = parse_u32(fields[1].as_str()) {
                let commander = if fields.len() >= 4 {
                    parse_u32(fields[3].as_str())
                } else {
                    None
                };
                let name = fields[2].clone();
                self.formations.push(Formation { id, name, commander });
            }
        } else if same(fields[0].as_str(), "A") {
            let pane_id = parse_u32(fields[1].as_str());
            let id = parse_u32(fields[2].as_str());
            if let (Some(pane_id), Some(id)) = (pane_id, id) {
                self.assignments.insert(pane_id, id);
            }
        }
    }

    fn read(raw: &str) -> (r: RollBook)
        ensures
            r.roll() == Roll::blank().take_lines(lines_of(raw@)),
    {
        let text = lines(raw);
        let ghost v = views(text@);
        let mut book = RollBook { formations: Vec::new(), assignments: BTreeMap::new() };
        let mut i: usize = 0;
        assert(v.take(0) =~= Seq::empty());
        assert(book.roll() == Roll::blank());
        while i < text.len()
            invariant
                i <= text.len(),
                v == views(text@),
                book.roll() == Roll::blank().take_lines(v.take(i as int)),
            decreases text.len() - i,
        {
            assert(v.take(i + 1).drop_last() =~= v.take(i as int));
            assert(v.take(i + 1).last() == text[i as int]@);
            book.take_line(text[i].as_str());
            i += 1;
        }
        assert(v.take(i as int) =~= v);
        book
    }

    fn keep_members(&mut self)
        ensures
            final(self).roll().formations == old(self).roll().formations,
            final(self).roll().assignments == old(self).roll().members(),
    {
        let keys = map_keys(&self.assignments);
        let ghost roll = self.roll();
        let ghost want = roll.assignments.dom().filter(
            |p: u32| has_formation(roll.formations, roll.assignments[p]),
        );
        let mut keep: BTreeSet<u32> = BTreeSet::new();
        let mut i: usize = 0;
        while i < keys.len()
            invariant
                i <= keys.len(),
                roll == self.roll(),
                keys@.to_set() == roll.assignments.dom(),
                forall|p: u32| #[trigger]
                    keep@.contains(p) ==> roll.assignments.contains_key(p) && has_formation(
                        roll.formations,
                        roll.assignments[p],
                    ),
                forall|j: int|
                    0 <= j < i && has_formation(
                        roll.formations,
                        roll.assignments[#[trigger] keys@[j]],
                    ) ==> keep@.contains(keys@[j]),
            decreases keys.len() - i,
        {
            let key = keys[i];
            assert(keys@.to_set().contains(key));
            if let Some(id) = self.assignments.get(&key) {
                if place_formation(&self.formations, *id).is_some() {
                    keep.insert(key);
                }
            }
            i += 1;
        }
        assert(keep@ =~= want) by {
            assert forall|p: u32| want.contains(p) implies keep@.contains(p) by {
                assert(keys@.to_set().contains(p));
                assert(keys@.contains(p));
                let j = choose|j: int| 0 <= j < keys@.len() && keys@[j] == p;
                assert(has_formation(roll.formations, roll.assignments[keys@[j]]));
            }
        }
        keep_only(&mut self.assignments, &keep);
    }

    fn largest_id(&self) -> (r: u32)
        ensures
            r == largest_id(self.roll().formations, 0),
    {
        let ghost v = self.roll().formations;
        let mut largest: u32 = 0;
        let mut i: usize = 0;
        assert(v.take(0) =~= Seq::empty());
        while i < self.formations.len()
            invariant
                i <= self.formations.len(),
                v == self.roll().formations,
                largest == largest_id(v.take(i as int), 0),
            decreases self.formations.len() - i,
        {
            assert(v.take(i + 1).drop_last() =~= v.take(i as int));
            assert(v.take(i + 1).last() == self.formations[i as int]@);
            if self.formations[i].id > largest {
                largest = self.formations[i].id;
            }
            i += 1;
        }
        assert(v.take(i as int) =~= v);
        largest
    }
}

fn same_formations(a: &Vec<Formation>, b: &Vec<Formation>) -> (r: bool)
    ensures
        r == (views(a@) == views(b@)),
{
    let ghost x = views(a@);
    let ghost y = views(b@);
    assert(x.len() == a.len() && y.len() == b.len());
    if a.len() != b.len() {
        return false;
    }
    let mut i: usize = 0;
    while i < a.len()
        invariant
            i <= a.len(),
            a.len() == b.len(),
            x == views(a@),
            y == views(b@),
            forall|j: int| 0 <= j < i ==> x[j] == y[j],
        decreases a.len() - i,
    {
        assert(x[i as int] == a[i as int]@ && y[i as int] == b[i as int]@);
        let commanders = match (a[i].commander, b[i].commander) {
            (Some(p), Some(q)) => p == q,
            (None, None) => true,
            _ => false,
        };
        let names = same(a[i].name.as_str(), b[i].name.as_str());
        if a[i].id != b[i].id || !commanders || !names {
            assert(x[i as int] != y[i as int]);
            return false;
        }
        assert(x[i as int] =~= y[i as int]);
        i += 1;
    }
    assert(x =~= y);
    true
}

fn same_maps(a: &BTreeMap<u32, u32>, b: &BTreeMap<u32, u32>) -> (r: bool)
    ensures
        r == (a@ == b@),
{
    let x = map_keys(a);
    let y = map_keys(b);
    if !same_ids(&x, &y) {
        return false;
    }
    let mut i: usize = 0;
    while i < x.len()
        invariant
            i <= x.len(),
            x@ == y@,
            x@.to_set() == a@.dom(),
            y@.to_set() == b@.dom(),
            forall|j: int| 0 <= j < i ==> a@[#[trigger] x@[j]] == b@[x@[j]],
        decreases x.len() - i,
    {
        let key = x[i];
        assert(x@.to_set().contains(key) && y@.to_set().contains(key));
        let equal = match (a.get(&key), b.get(&key)) {
            (Some(p), Some(q)) => *p == *q,
            _ => false,
        };
        if !equal {
            assert(a@[key] != b@[key]);
            return false;
        }
        i += 1;
    }
    assert(a@ =~= b@) by {
        assert(a@.dom() == b@.dom());
        assert forall|k: u32| a@.contains_key(k) implies a@[k] == b@[k] by {
            assert(x@.to_set().contains(k));
            assert(x@.contains(k));
            let j = choose|j: int| 0 <= j < x@.len() && x@[j] == k;
            assert(a@[x@[j]] == b@[x@[j]]);
        }
    }
    true
}

impl State {
    /// All formations and their members as a message.
    pub fn formation_dump(&self) -> (r: String)
        ensures
            r@ == self@.groups.dump(),
    {
        let ghost groups = self@.groups;
        let ghost fl = formation_lines(groups.formations);
        let mut out = String::new();
        let mut i: usize = 0;
        assert(fl.take(0) =~= Seq::empty());
        while i < self.groups.formations.len()
            invariant
                i <= self.groups.formations.len(),
                groups == self@.groups,
                fl == formation_lines(groups.formations),
                out@ == block(fl.take(i as int)),
            decreases self.groups.formations.len() - i,
        {
            assert(groups.formations[i as int] == self.groups.formations[i as int]@);
            let line = spell_formation(&self.groups.formations[i]);
            out.push_str(line.as_str());
            proof {
                lemma_block_push(fl.take(i as int), fl[i as int]);
            }
            assert(fl.take(i + 1) =~= fl.take(i as int).push(fl[i as int]));
            i += 1;
        }
        assert(fl.take(i as int) =~= fl);
        let ids = map_keys(&self.groups.assignments);
        let ghost al = assignment_lines(groups.assignments, ids@);
        let mut k: usize = 0;
        assert(fl + al.take(0) =~= fl);
        while k < ids.len()
            invariant
                k <= ids.len(),
                groups == self@.groups,
                ids@.to_set() == groups.assignments.dom(),
                al == assignment_lines(groups.assignments, ids@),
                out@ == block(fl + al.take(k as int)),
            decreases ids.len() - k,
        {
            let pane_id = ids[k];
            assert(ids@.to_set().contains(pane_id));
            if let Some(id) = self.groups.assignments.get(&pane_id) {
                let line = spell_assignment(pane_id, *id);
                out.push_str(line.as_str());
                assert(al[k as int] == assignment_line(pane_id, *id));
            }
            proof {
                lemma_block_push(fl + al.take(k as int), al[k as int]);
            }
            assert(fl + al.take(k + 1) =~= (fl + al.take(k as int)).push(al[k as int]));
            k += 1;
        }
        assert(al.take(k as int) =~= al);
        out
    }

    pub fn broadcast_formations(&mut self)
        ensures
            final(self)@ == old(self)@.broadcasts_formations(),
    {
        let dump = self.formation_dump();
        self.broadcast_to_siblings(FORMATION_PIPE, dump.as_str());
    }

    /// Tells one instance all formations.
    pub fn push_formations_to(&mut self, plugin_id: u32)
        ensures
            final(self)@ == old(self)@.sends(plugin_id, FORMATION_PIPE@, old(self)@.groups.dump()),
    {
        let dump = self.formation_dump();
        self.send_to_plugin(plugin_id, FORMATION_PIPE, dump);
    }

    pub fn handle_formation_pipe(&mut self, payload: Option<&str>) -> (r: bool)
        ensures
            payload is None ==> final(self)@ == old(self)@ && !r,
            payload is Some ==> final(self)@ == old(self)@.with_groups(
                old(self)@.groups.take(payload->0@).0,
            ) && r == old(self)@.groups.take(payload->0@).1,
    {
        match payload {
            Some(raw) => self.apply_formations(raw),
            None => false,
        }
    }

    /// Takes in a message about formations. Returns whether to draw.
    pub fn apply_formations(&mut self, raw: &str) -> (r: bool)
        ensures
            final(self)@ == old(self)@.with_groups(old(self)@.groups.take(raw@).0),
            r == old(self)@.groups.take(raw@).1,
    {
        let mut book = RollBook::read(raw);
        let ghost roll = book.roll();
        book.keep_members();
        if same_formations(&self.groups.formations, &book.formations) && same_maps(
            &self.groups.assignments,
            &book.assignments,
        ) {
            return false;
        }
        if book.formations.len() > 0 {
            let next = book.largest_id().saturating_add(1);
            if next > self.groups.next_formation_id {
                self.groups.next_formation_id = next;
            }
        }
        self.groups.formations = book.formations;
        self.groups.assignments = book.assignments;
        true
    }

    fn gone_members(&self) -> (r: Vec<u32>)
        ensures
            r@ == ascending(
                self@.groups.assignments.dom().filter(
                    |id: u32| !has_pane(self@.list.selectable, id),
                ),
            ),
    {
        let ghost dom = self@.groups.assignments.dom();
        let ghost list = self@.list.selectable;
        let ghost want = dom.filter(|id: u32| !has_pane(list, id));
        let keys = map_keys(&self.groups.assignments);
        let mut out: Vec<u32> = Vec::new();
        let mut i: usize = 0;
        while i < keys.len()
            invariant
                i <= keys.len(),
                dom == self@.groups.assignments.dom(),
                list == self@.list.selectable,
                keys@.to_set() == dom,
                increasing(keys@),
                increasing(out@),
                forall|j: int| 0 <= j < out.len() && i < keys.len() ==> out@[j] < keys@[i as int],
                forall|j: int|
                    0 <= j < out.len() ==> dom.contains(#[trigger] out@[j]) && !has_pane(
                        list,
                        out@[j],
                    ),
                forall|j: int|
                    0 <= j < i && !has_pane(list, #[trigger] keys@[j]) ==> out@.contains(keys@[j]),
            decreases keys.len() - i,
        {
            let key = keys[i];
            assert(keys@.to_set().contains(key));
            let ghost before = out@;
            if !self.lists_pane(key) {
                out.push(key);
                assert(out@[out.len() - 1] == key);
            }
            assert forall|j: int| 0 <= j < i + 1 && !has_pane(list, #[trigger] keys@[j]) implies
                out@.contains(keys@[j]) by {
                if j < i {
                    assert(before.contains(keys@[j]));
                    let n = choose|n: int| 0 <= n < before.len() && before[n] == keys@[j];
                    assert(out@[n] == keys@[j]);
                }
            }
            i += 1;
        }
        assert(out@.to_set() =~= want) by {
            assert forall|k: u32| out@.to_set().contains(k) == want.contains(k) by {
                if want.contains(k) {
                    assert(keys@.to_set().contains(k));
                    assert(keys@.contains(k));
                    let j = choose|j: int| 0 <= j < keys@.len() && keys@[j] == k;
                    assert(!has_pane(list, keys@[j]));
                }
                if out@.contains(k) {
                    let j = choose|j: int| 0 <= j < out@.len() && out@[j] == k;
                    assert(dom.contains(out@[j]));
                }
            }
        }
        proof {
            lemma_ascending_of(out@);
        }
        out
    }

    /// Takes panes that left the list out of their formations.
    pub fn prune_assignments(&mut self)
        ensures
            final(self)@ == old(self)@.prune_assignments(),
    {
        let gone = self.gone_members();
        let ghost start = self@;
        let mut i: usize = 0;
        assert(gone@.take(0) =~= Seq::empty());
        while i < gone.len()
            invariant
                i <= gone.len(),
                self@ == start.with_groups(start.groups.leave(gone@.take(i as int))),
            decreases gone.len() - i,
        {
            assert(gone@.take(i + 1).drop_last() =~= gone@.take(i as int));
            self.leave_formation(gone[i]);
            i += 1;
        }
        assert(gone@.take(i as int) =~= gone@);
    }
}

// --- laws ---

proof fn lemma_demote(g: FormationsV, pane_id: u32)
    requires
        g.wf(),
    ensures
        g.demote(pane_id).wf(),
        g.demote(pane_id).assignments == g.assignments,
        g.demote(pane_id).next_formation_id == g.next_formation_id,
        g.demote(pane_id).formations.len() == g.formations.len(),
        forall|i: int|
            0 <= i < g.formations.len() ==> (#[trigger] g.demote(pane_id).formations[i]).commander
                != Some(pane_id) && g.demote(pane_id).formations[i].id == g.formations[i].id,
        forall|id: u32|
            has_formation(g.formations, id) == #[trigger] has_formation(
                g.demote(pane_id).formations,
                id,
            ),
{
    let d = g.demote(pane_id);
    assert forall|i: int| 0 <= i < g.formations.len() implies (#[trigger] d.formations[i])
        == without_commander(g.formations[i], pane_id) by {}
    assert forall|id: u32| has_formation(g.formations, id) == #[trigger] has_formation(
        d.formations,
        id,
    ) by {
        if has_formation(g.formations, id) {
            let i = choose|i: int|
                0 <= i < g.formations.len() && (#[trigger] g.formations[i]).id == id;
            assert(d.formations[i].id == id);
        }
        if has_formation(d.formations, id) {
            let i = choose|i: int|
                0 <= i < d.formations.len() && (#[trigger] d.formations[i]).id == id;
            assert(g.formations[i].id == id);
        }
    }
}

/// Joining keeps the formations sound: a pane is in one formation at a time, and one that
/// moves on no longer commands the one it left.
pub proof fn law_join_keeps_sound(g: FormationsV, id: u32, members: Seq<u32>)
    requires
        g.wf(),
        has_formation(g.formations, id),
    ensures
        g.join(id, members).wf(),
        has_formation(g.join(id, members).formations, id),
        forall|i: int|
            0 <= i < members.len() ==> g.join(id, members).assignments.contains_key(
                #[trigger] members[i],
            ) && g.join(id, members).assignments[members[i]] == id,
    decreases members.len(),
{
    if members.len() > 0 {
        let front = members.drop_last();
        let p = members.last();
        law_join_keeps_sound(g, id, front);
        let h = g.join(id, front);
        lemma_demote(h, p);
        let r = g.join(id, members);
        assert(r == h.join_one(id, p));
        assert(r.formations == h.demote(p).formations);
        assert forall|i: int| 0 <= i < members.len() implies r.assignments.contains_key(
            #[trigger] members[i],
        ) && r.assignments[members[i]] == id by {
            if i < front.len() {
                assert(front[i] == members[i]);
            }
        }
        assert(r.wf());
    }
}

/// Leaving keeps the formations sound, and no formation goes with its last member.
pub proof fn law_leave_keeps_sound(g: FormationsV, members: Seq<u32>)
    requires
        g.wf(),
    ensures
        g.leave(members).wf(),
        g.leave(members).formations.len() == g.formations.len(),
        forall|i: int|
            0 <= i < members.len() ==> !g.leave(members).assignments.contains_key(
                #[trigger] members[i],
            ),
    decreases members.len(),
{
    if members.len() > 0 {
        let front = members.drop_last();
        let p = members.last();
        law_leave_keeps_sound(g, front);
        let h = g.leave(front);
        lemma_demote(h, p);
        let r = g.leave(members);
        assert(r == h.leave_one(p));
        assert forall|i: int| 0 <= i < members.len() implies !r.assignments.contains_key(
            #[trigger] members[i],
        ) by {
            if i < front.len() {
                assert(front[i] == members[i]);
            }
        }
        assert(r.wf());
    }
}

/// A new formation keeps the formations sound, as long as ids are left.
pub proof fn law_create_keeps_sound(g: FormationsV, name: Seq<char>, members: Seq<u32>)
    requires
        g.wf(),
        g.next_formation_id < u32::MAX,
    ensures
        g.create(name, members).wf(),
        has_formation(g.create(name, members).formations, g.next_formation_id),
{
    let f = FormationV { id: g.next_formation_id, name, commander: None };
    let h = FormationsV {
        formations: g.formations.push(f),
        next_formation_id: next_id(g.next_formation_id),
        ..g
    };
    assert(h.formations[g.formations.len() as int].id == g.next_formation_id);
    assert forall|p: u32| #[trigger] h.assignments.contains_key(p) implies has_formation(
        h.formations,
        h.assignments[p],
    ) by {
        assert(has_formation(g.formations, g.assignments[p]));
        let i = choose|i: int|
            0 <= i < g.formations.len() && (#[trigger] g.formations[i]).id == g.assignments[p];
        assert(h.formations[i].id == g.assignments[p]);
    }
    assert(h.wf());
    law_join_keeps_sound(h, g.next_formation_id, members);
}

/// Taking or handing back command keeps the formations sound: at most one pane commands a
/// formation, and it is a member.
pub proof fn law_command_keeps_sound(s: StateV)
    requires
        s.groups.wf(),
    ensures
        s.toggle_commander().groups.wf(),
{
    if let Some(n) = s.highlighted_formation() {
        let g = s.groups;
        let p = s.highlighted()->0;
        lemma_formation_place(g.formations, g.assignments[p]);
        let r = s.toggle_commander().groups;
        assert forall|q: u32| #[trigger] r.assignments.contains_key(q) implies has_formation(
            r.formations,
            r.assignments[q],
        ) by {
            assert(has_formation(g.formations, g.assignments[q]));
            let i = choose|i: int|
                0 <= i < g.formations.len() && (#[trigger] g.formations[i]).id == g.assignments[q];
            assert(r.formations[i].id == g.assignments[q]);
        }
        assert(r.wf());
    }
}

/// Panes that left the list are in no formation, and what is left is sound.
pub proof fn law_prune_keeps_sound(s: StateV, pane_id: u32)
    requires
        s.groups.wf(),
        s.groups.assignments.dom().finite(),
    ensures
        s.prune_assignments().groups.wf(),
        s.prune_assignments().groups.assignments.contains_key(pane_id) ==> has_pane(
            s.list.selectable,
            pane_id,
        ),
{
    let set = s.groups.assignments.dom().filter(|id: u32| !has_pane(s.list.selectable, id));
    let gone = ascending(set);
    lemma_ascending(set);
    law_leave_keeps_sound(s.groups, gone);
    if s.prune_assignments().groups.assignments.contains_key(pane_id) && !has_pane(
        s.list.selectable,
        pane_id,
    ) {
        lemma_leave_subset(s.groups, gone, pane_id);
        assert(set.contains(pane_id));
        assert(gone.to_set().contains(pane_id));
        assert(gone.contains(pane_id));
        let i = choose|i: int| 0 <= i < gone.len() && gone[i] == pane_id;
        assert(!s.groups.leave(gone).assignments.contains_key(gone[i]));
    }
}

proof fn lemma_leave_subset(g: FormationsV, members: Seq<u32>, p: u32)
    requires
        g.leave(members).assignments.contains_key(p),
    ensures
        g.assignments.contains_key(p),
    decreases members.len(),
{
    if members.len() > 0 {
        lemma_leave_subset(g, members.drop_last(), p);
    }
}

proof fn lemma_tags()
    ensures
        "F"@ != "A"@,
        forall|c: char| c == '\t' || c == '\n' || c == '\r' ==> !"F"@.contains(c) && !"A"@.contains(c),
        "\t"@ == seq!['\t'],
{
    reveal_strlit("F");
    reveal_strlit("A");
    reveal_strlit("\t");
    assert("F"@[0] == 'F');
    assert("A"@[0] == 'A');
    assert("\t"@ =~= seq!['\t']);
}

proof fn lemma_optional_id(id: Option<u32>)
    ensures
        parsed(optional_id(id), u32::MAX as nat) == (match id {
            Some(id) => Some(id as nat),
            None => None,
        }),
        forall|c: char|
            c == '\t' || c == '\n' || c == '\r' ==> !(#[trigger] optional_id(id).contains(c)),
{
    match id {
        Some(n) => {
            lemma_parsed_digits(n as nat, u32::MAX as nat);
            lemma_digits_without(n as nat, '\t');
            lemma_digits_without(n as nat, '\n');
            lemma_digits_without(n as nat, '\r');
        },
        None => {},
    }
}

proof fn lemma_formation_line(r: Roll, f: FormationV)
    requires
        field_text(f.name),
    ensures
        one_line(formation_line(f)),
        r.take_line(formation_line(f)) == (Roll { formations: r.formations.push(f), ..r }),
{
    let fields = formation_fields(f);
    lemma_tags();
    lemma_optional_id(f.commander);
    lemma_digits_without(f.id as nat, '\t');
    lemma_digits_without(f.id as nat, '\n');
    lemma_joined_without(fields, "\t"@, '\n');
    lemma_joined_end(fields, "\t"@, '\r');
    lemma_pieces_of_joined(fields, '\t');
    lemma_parsed_digits(f.id as nat, u32::MAX as nat);
}

proof fn lemma_assignment_line(r: Roll, pane_id: u32, id: u32)
    ensures
        one_line(assignment_line(pane_id, id)),
        r.take_line(assignment_line(pane_id, id)) == (Roll {
            assignments: r.assignments.insert(pane_id, id),
            ..r
        }),
{
    let fields = assignment_fields(pane_id, id);
    lemma_tags();
    lemma_digits_without(pane_id as nat, '\t');
    lemma_digits_without(pane_id as nat, '\n');
    lemma_digits_without(id as nat, '\t');
    lemma_digits_without(id as nat, '\n');
    lemma_digits_without(id as nat, '\r');
    lemma_joined_without(fields, "\t"@, '\n');
    lemma_joined_end(fields, "\t"@, '\r');
    lemma_pieces_of_joined(fields, '\t');
    lemma_parsed_digits(pane_id as nat, u32::MAX as nat);
    lemma_parsed_digits(id as nat, u32::MAX as nat);
}

proof fn lemma_take_formations(formations: Seq<FormationV>)
    requires
        forall|i: int| 0 <= i < formations.len() ==> field_text((#[trigger] formations[i]).name),
    ensures
        forall|i: int|
            0 <= i < formations.len() ==> one_line(#[trigger] formation_lines(formations)[i]),
        Roll::blank().take_lines(formation_lines(formations)) == (Roll {
            formations,
            assignments: Map::empty(),
        }),
    decreases formations.len(),
{
    let all = formation_lines(formations);
    if formations.len() == 0 {
        assert(formations =~= Seq::empty());
    } else {
        let front = formations.drop_last();
        let f = formations.last();
        assert(field_text(formations[formations.len() - 1].name));
        assert forall|i: int| 0 <= i < front.len() implies field_text((#[trigger] front[i]).name) by {
            assert(front[i] == formations[i]);
        }
        lemma_take_formations(front);
        assert(all.drop_last() =~= formation_lines(front));
        assert(all.last() == formation_line(f));
        let before = Roll::blank().take_lines(formation_lines(front));
        lemma_formation_line(before, f);
        assert(front.push(f) =~= formations);
        assert forall|i: int| 0 <= i < formations.len() implies one_line(#[trigger] all[i]) by {
            if i < front.len() {
                assert(all[i] == formation_lines(front)[i]);
                assert(one_line(formation_lines(front)[i]));
            }
        }
    }
}

proof fn lemma_take_assignments(r: Roll, text: Seq<Seq<char>>, m: Map<u32, u32>, ids: Seq<u32>)
    requires
        Roll::blank().take_lines(text) == r,
        r.assignments == Map::<u32, u32>::empty(),
        forall|i: int| 0 <= i < ids.len() ==> m.contains_key(#[trigger] ids[i]),
    ensures
        forall|i: int| 0 <= i < ids.len() ==> one_line(#[trigger] assignment_lines(m, ids)[i]),
        Roll::blank().take_lines(text + assignment_lines(m, ids)) == (Roll {
            assignments: m.restrict(ids.to_set()),
            ..r
        }),
    decreases ids.len(),
{
    let al = assignment_lines(m, ids);
    if ids.len() == 0 {
        assert(text + al =~= text);
        assert(m.restrict(ids.to_set()) =~= Map::empty());
    } else {
        let front = ids.drop_last();
        let p = ids.last();
        assert(ids[ids.len() - 1] == p);
        assert forall|i: int| 0 <= i < front.len() implies m.contains_key(#[trigger] front[i]) by {
            assert(front[i] == ids[i]);
        }
        lemma_take_assignments(r, text, m, front);
        let fl = assignment_lines(m, front);
        assert((text + al).drop_last() =~= text + fl);
        assert((text + al).last() == assignment_line(p, m[p]));
        let before = Roll::blank().take_lines(text + fl);
        lemma_assignment_line(before, p, m[p]);
        assert forall|k: u32| ids.to_set().contains(k) == (front.to_set().contains(k) || k == p) by {
            if front.contains(k) {
                let j = choose|j: int| 0 <= j < front.len() && front[j] == k;
                assert(ids[j] == k);
            }
            if ids.contains(k) {
                let j = choose|j: int| 0 <= j < ids.len() && ids[j] == k;
                if j < front.len() {
                    assert(front[j] == k);
                }
            }
        }
        assert(m.restrict(front.to_set()).insert(p, m[p]) =~= m.restrict(ids.to_set()));
        assert forall|i: int| 0 <= i < ids.len() implies one_line(#[trigger] al[i]) by {
            if i < front.len() {
                assert(al[i] == fl[i]);
                assert(one_line(fl[i]));
            } else {
                assert(al[i] == assignment_line(p, m[p]));
            }
        }
    }
}

proof fn lemma_largest_id(formations: Seq<FormationV>, least: u32)
    ensures
        least <= largest_id(formations, least),
        forall|i: int|
            0 <= i < formations.len() ==> (#[trigger] formations[i]).id <= largest_id(
                formations,
                least,
            ),
        largest_id(formations, least) == least || exists|i: int|
            0 <= i < formations.len() && (#[trigger] formations[i]).id == largest_id(
                formations,
                least,
            ),
    decreases formations.len(),
{
    if formations.len() > 0 {
        let front = formations.drop_last();
        lemma_largest_id(front, least);
        assert forall|i: int| 0 <= i < formations.len() implies (#[trigger] formations[i]).id
            <= largest_id(formations, least) by {
            if i < front.len() {
                assert(formations[i] == front[i]);
            }
        }
        let largest = largest_id(formations, least);
        if formations.last().id > largest_id(front, least) {
            assert(formations[formations.len() - 1].id == largest);
        } else if largest != least {
            let k = choose|k: int| 0 <= k < front.len() && (#[trigger] front[k]).id == largest;
            assert(formations[k].id == largest);
        }
    }
}

/// Every formation has an id that was given out.
pub open spec fn ids_given_out(g: FormationsV) -> bool {
    forall|i: int| 0 <= i < g.formations.len() ==> (#[trigger] g.formations[i]).id
        < g.next_formation_id
}

/// A sibling that hears of all formations has the same formations with the same members. Names
/// hold no tabs and no line feeds: the prompt does not take such characters. Ids that it hears
/// of are not given out again, as long as ids are left. A second message like the first one
/// changes nothing.
pub proof fn law_formation_round_trip(g: FormationsV, t: FormationsV)
    requires
        g.assignments.dom().finite(),
        forall|p: u32| #[trigger]
            g.assignments.contains_key(p) ==> has_formation(g.formations, g.assignments[p]),
        forall|i: int| 0 <= i < g.formations.len() ==> field_text((#[trigger] g.formations[i]).name),
    ensures
        ({
            let (r, changed) = t.take(g.dump());
            &&& r.formations == g.formations
            &&& r.assignments == g.assignments
            &&& changed == (t.formations != g.formations || t.assignments != g.assignments)
            &&& r.next_formation_id >= t.next_formation_id
            &&& !changed ==> r == t
            &&& (changed || ids_given_out(t)) && (forall|i: int|
                0 <= i < g.formations.len() ==> (#[trigger] g.formations[i]).id < u32::MAX)
                ==> ids_given_out(r)
            &&& g.wf() && (changed || ids_given_out(t)) ==> r.wf()
            &&& r.take(g.dump()) == (r, false)
        }),
{
    let ids = ascending(g.assignments.dom());
    lemma_ascending(g.assignments.dom());
    assert forall|i: int| 0 <= i < ids.len() implies g.assignments.contains_key(#[trigger] ids[i]) by {
        assert(ids.to_set().contains(ids[i]));
    }
    let fl = formation_lines(g.formations);
    let al = assignment_lines(g.assignments, ids);
    lemma_take_formations(g.formations);
    let read = Roll::blank().take_lines(fl);
    lemma_take_assignments(read, fl, g.assignments, ids);
    assert forall|i: int| 0 <= i < (fl + al).len() implies one_line(#[trigger] (fl + al)[i]) by {
        if i < fl.len() {
            assert((fl + al)[i] == fl[i]);
            assert(one_line(fl[i]));
        } else {
            assert((fl + al)[i] == al[i - fl.len()]);
            assert(one_line(al[i - fl.len()]));
        }
    }
    lemma_lines_of_block(fl + al);
    let roll = Roll::blank().take_lines(fl + al);
    assert(g.assignments.restrict(ids.to_set()) =~= g.assignments);
    assert(roll.members() =~= g.assignments);
    assert(roll.formations == g.formations);
    lemma_largest_id(g.formations, 0);
    let (r, changed) = t.take(g.dump());
    if (changed || ids_given_out(t)) && (forall|i: int|
        0 <= i < g.formations.len() ==> (#[trigger] g.formations[i]).id < u32::MAX) {
        assert(largest_id(g.formations, 0) < u32::MAX);
        assert(ids_given_out(r));
    }
    if g.wf() && (changed || ids_given_out(t)) {
        assert(ids_given_out(r));
        assert(r.wf());
    }
}

} // verus!
