//! Formations: named groups of panes, each pane in at most one.

use vstd::prelude::*;

use crate::host::{BareKey, Key};
use crate::ids::{ascending, group_views, views};
use crate::state::{FormationsV, NavV, Selectable, SelectableV, State, StateV};
use crate::text::{chars_of, control, is_control, same, slice_of, trim, trimmed};
use crate::triage::has_pane;
use crate::wire::FORMATION_PIPE;

verus! {

broadcast use group_views;

#[derive(Debug)]
pub struct Formation {
    pub id: u32,
    pub name: String,
    /// One of the members, or none.
    pub commander: Option<u32>,
}

#[verifier::ext_equal]
pub struct FormationV {
    pub id: u32,
    pub name: Seq<char>,
    pub commander: Option<u32>,
}

impl View for Formation {
    type V = FormationV;

    open spec fn view(&self) -> FormationV {
        FormationV { id: self.id, name: self.name@, commander: self.commander }
    }
}

/// Where a typed name goes.
#[derive(Debug)]
pub enum NameTarget {
    /// A new formation with these members.
    New(Vec<u32>),
    Rename(u32),
}

#[verifier::ext_equal]
pub enum NameTargetV {
    New(Seq<u32>),
    Rename(u32),
}

impl View for NameTarget {
    type V = NameTargetV;

    open spec fn view(&self) -> NameTargetV {
        match self {
            NameTarget::New(members) => NameTargetV::New(members@),
            NameTarget::Rename(id) => NameTargetV::Rename(*id),
        }
    }
}

/// The footer prompt of an edit.
#[derive(Debug)]
pub enum FormationPrompt {
    /// Choosing the formation that these panes join.
    Pick(Vec<u32>),
    /// Typing a name; the flag says that the last one was taken.
    Name(String, NameTarget, bool),
}

#[verifier::ext_equal]
pub enum FormationPromptV {
    Pick(Seq<u32>),
    Name(Seq<char>, NameTargetV, bool),
}

impl View for FormationPrompt {
    type V = FormationPromptV;

    open spec fn view(&self) -> FormationPromptV {
        match self {
            FormationPrompt::Pick(members) => FormationPromptV::Pick(members@),
            FormationPrompt::Name(input, target, taken) => FormationPromptV::Name(
                input@,
                target@,
                *taken,
            ),
        }
    }
}

/// How many formations can be picked by a digit.
pub const PICK_LIMIT: usize = 9;

// --- the groups ---

/// The index of the first formation with this id; the length where there is none.
pub open spec fn formation_place(formations: Seq<FormationV>, id: u32) -> nat
    decreases formations.len(),
{
    if formations.len() == 0 || formations[0].id == id {
        0
    } else {
        1 + formation_place(formations.drop_first(), id)
    }
}

pub open spec fn has_formation(formations: Seq<FormationV>, id: u32) -> bool {
    exists|i: int| 0 <= i < formations.len() && (#[trigger] formations[i]).id == id
}

/// A formation without this pane as its commander.
pub open spec fn without_commander(f: FormationV, pane_id: u32) -> FormationV {
    if f.commander == Some(pane_id) {
        FormationV { commander: None, ..f }
    } else {
        f
    }
}

/// The next id; ids do not pass the largest value.
pub open spec fn next_id(id: u32) -> u32 {
    if id < u32::MAX {
        (id + 1) as u32
    } else {
        id
    }
}

impl FormationsV {
    /// The pane commands nothing any more.
    pub open spec fn demote(self, pane_id: u32) -> FormationsV {
        FormationsV {
            formations: self.formations.map_values(
                |f: FormationV| without_commander(f, pane_id),
            ),
            ..self
        }
    }

    /// The pane joins a formation, and leaves the one it was in.
    pub open spec fn join_one(self, id: u32, pane_id: u32) -> FormationsV {
        FormationsV { assignments: self.assignments.insert(pane_id, id), ..self.demote(pane_id) }
    }

    pub open spec fn join(self, id: u32, members: Seq<u32>) -> FormationsV
        decreases members.len(),
    {
        if members.len() == 0 {
            self
        } else {
            self.join(id, members.drop_last()).join_one(id, members.last())
        }
    }

    /// The pane leaves its formation. The formation stays, even when it is empty.
    pub open spec fn leave_one(self, pane_id: u32) -> FormationsV {
        if self.assignments.contains_key(pane_id) {
            FormationsV { assignments: self.assignments.remove(pane_id), ..self.demote(pane_id) }
        } else {
            self
        }
    }

    pub open spec fn leave(self, members: Seq<u32>) -> FormationsV
        decreases members.len(),
    {
        if members.len() == 0 {
            self
        } else {
            self.leave(members.drop_last()).leave_one(members.last())
        }
    }

    /// One of the panes is in a formation.
    pub open spec fn any_assigned(self, members: Seq<u32>) -> bool {
        exists|i: int| 0 <= i < members.len() && self.assignments.contains_key(#[trigger] members[i])
    }

    pub open spec fn create(self, name: Seq<char>, members: Seq<u32>) -> FormationsV {
        FormationsV {
            formations: self.formations.push(
                FormationV { id: self.next_formation_id, name, commander: None },
            ),
            next_formation_id: next_id(self.next_formation_id),
            ..self
        }.join(self.next_formation_id, members)
    }

    pub open spec fn with_formation(self, n: int, f: FormationV) -> FormationsV {
        FormationsV { formations: self.formations.update(n, f), ..self }
    }

    pub open spec fn rename(self, id: u32, name: Seq<char>) -> FormationsV {
        let n = formation_place(self.formations, id) as int;
        if n < self.formations.len() {
            self.with_formation(n, FormationV { name, ..self.formations[n] })
        } else {
            self
        }
    }

    /// The name is in use by a formation other than `except`.
    pub open spec fn name_taken(self, name: Seq<char>, except: Option<u32>) -> bool {
        exists|i: int|
            0 <= i < self.formations.len() && (#[trigger] self.formations[i]).name == name && Some(
                self.formations[i].id,
            ) != except
    }

    /// Every member belongs to a formation that exists, every commander to the formation that
    /// it commands, and no two formations have the same id.
    pub open spec fn wf(self) -> bool {
        &&& forall|i: int, j: int|
            0 <= i < j < self.formations.len() ==> (#[trigger] self.formations[i]).id != (
            #[trigger] self.formations[j]).id
        &&& forall|i: int|
            0 <= i < self.formations.len() ==> (#[trigger] self.formations[i]).id
                < self.next_formation_id
        &&& forall|i: int|
            0 <= i < self.formations.len() && (#[trigger] self.formations[i]).commander is Some
                ==> self.assignments.contains_key(self.formations[i].commander->0)
                && self.assignments[self.formations[i].commander->0] == self.formations[i].id
        &&& forall|p: u32| #[trigger]
            self.assignments.contains_key(p) ==> has_formation(
                self.formations,
                self.assignments[p],
            )
    }
}

proof fn lemma_formation_place_is(formations: Seq<FormationV>, id: u32, n: int)
    requires
        0 <= n <= formations.len(),
        forall|j: int| 0 <= j < n ==> (#[trigger] formations[j]).id != id,
        n < formations.len() ==> formations[n].id == id,
    ensures
        formation_place(formations, id) == n,
    decreases n,
{
    if n > 0 {
        assert(formations[0].id != id);
        let rest = formations.drop_first();
        assert forall|j: int| 0 <= j < n - 1 implies (#[trigger] rest[j]).id != id by {
            assert(rest[j] == formations[j + 1]);
        }
        lemma_formation_place_is(rest, id, n - 1);
    }
}

pub proof fn lemma_formation_place(formations: Seq<FormationV>, id: u32)
    ensures
        formation_place(formations, id) <= formations.len(),
        formation_place(formations, id) < formations.len() ==> formations[formation_place(
            formations,
            id,
        ) as int].id == id,
        has_formation(formations, id) == (formation_place(formations, id) < formations.len()),
    decreases formations.len(),
{
    if formations.len() > 0 && formations[0].id != id {
        let rest = formations.drop_first();
        lemma_formation_place(rest, id);
        if has_formation(formations, id) {
            let i = choose|i: int| 0 <= i < formations.len() && (#[trigger] formations[i]).id == id;
            assert(rest[i - 1].id == id);
        }
        if has_formation(rest, id) {
            let i = choose|i: int| 0 <= i < rest.len() && (#[trigger] rest[i]).id == id;
            assert(formations[i + 1].id == id);
        }
    } else if formations.len() > 0 {
        assert(formations[0].id == id);
    }
}

// --- edits ---

impl StateV {
    pub open spec fn with_groups(self, groups: FormationsV) -> StateV {
        StateV { groups, ..self }
    }

    pub open spec fn with_prompt(self, formation_prompt: Option<FormationPromptV>) -> StateV {
        StateV { nav: NavV { formation_prompt, ..self.nav }, ..self }
    }

    /// The panes of an edit: the marked ones, or the one under the cursor.
    pub open spec fn formation_targets(self) -> Seq<u32> {
        let marked = self.marked_in_tree_order();
        if marked.len() > 0 {
            marked
        } else {
            match self.highlighted() {
                Some(id) => seq![id],
                None => Seq::empty(),
            }
        }
    }

    pub open spec fn formation_of(self, pane_id: u32) -> Option<u32> {
        if self.groups.assignments.contains_key(pane_id) {
            Some(self.groups.assignments[pane_id])
        } else {
            None
        }
    }

    pub open spec fn broadcasts_formations(self) -> StateV {
        self.broadcasts(FORMATION_PIPE@, self.groups.dump())
    }

    /// Where formations exist one of them is picked; else the first one is named at once.
    pub open spec fn begin_formation_add(self) -> StateV {
        let members = self.formation_targets();
        if members.len() == 0 {
            self
        } else if self.groups.formations.len() == 0 {
            self.with_prompt(
                Some(FormationPromptV::Name(Seq::empty(), NameTargetV::New(members), false)),
            )
        } else {
            self.with_prompt(Some(FormationPromptV::Pick(members)))
        }
    }

    pub open spec fn exclude_from_formation(self) -> StateV {
        let targets = self.formation_targets();
        if self.groups.any_assigned(targets) {
            self.with_groups(self.groups.leave(targets)).broadcasts_formations()
        } else {
            self
        }
    }

    /// The formation of the pane under the cursor, as an index.
    pub open spec fn highlighted_formation(self) -> Option<int> {
        match self.highlighted() {
            Some(pane_id) => match self.formation_of(pane_id) {
                Some(id) => {
                    let n = formation_place(self.groups.formations, id);
                    if n < self.groups.formations.len() {
                        Some(n as int)
                    } else {
                        None
                    }
                },
                None => None,
            },
            None => None,
        }
    }

    pub open spec fn begin_formation_rename(self) -> StateV {
        match self.highlighted_formation() {
            Some(n) => {
                let f = self.groups.formations[n];
                self.with_prompt(
                    Some(FormationPromptV::Name(f.name, NameTargetV::Rename(f.id), false)),
                )
            },
            None => self,
        }
    }

    /// The pane under the cursor takes command of its formation, or hands it back.
    pub open spec fn toggle_commander(self) -> StateV {
        match self.highlighted_formation() {
            Some(n) => {
                let f = self.groups.formations[n];
                let pane_id = self.highlighted()->0;
                let commander = if f.commander == Some(pane_id) {
                    None
                } else {
                    Some(pane_id)
                };
                self.with_groups(
                    self.groups.with_formation(n, FormationV { commander, ..f }),
                ).broadcasts_formations()
            },
            None => self,
        }
    }

    pub open spec fn assign_members(self, id: u32, members: Seq<u32>) -> StateV {
        self.with_groups(self.groups.join(id, members)).broadcasts_formations()
    }

    /// A digit picks a formation; one that picks none is ignored.
    pub open spec fn pick_formation(self, digit: char) -> StateV {
        let n = digit as int - '1' as int;
        if n < self.groups.formations.len() && self.nav.formation_prompt is Some
            && self.nav.formation_prompt->0 is Pick {
            self.with_prompt(None).assign_members(
                self.groups.formations[n].id,
                self.nav.formation_prompt->0->Pick_0,
            )
        } else {
            self
        }
    }

    pub open spec fn pick_key(self, bare: BareKey) -> StateV {
        match bare {
            BareKey::Esc => self.with_prompt(None),
            BareKey::Char(c) => if c == 'n' {
                self.with_prompt(
                    Some(
                        FormationPromptV::Name(
                            Seq::empty(),
                            NameTargetV::New(self.nav.formation_prompt->0->Pick_0),
                            false,
                        ),
                    ),
                )
            } else if '1' <= c <= '9' {
                self.pick_formation(c)
            } else {
                self.leave_nav_mode()
            },
            _ => self.leave_nav_mode(),
        }
    }

    /// The name is taken over unless it is empty or in use.
    pub open spec fn confirm_name(self, input: Seq<char>, target: NameTargetV, taken: bool) -> StateV {
        let name = trimmed(input);
        let except = match target {
            NameTargetV::Rename(id) => Some(id),
            NameTargetV::New(_) => None,
        };
        if name.len() == 0 {
            self
        } else if self.groups.name_taken(name, except) {
            self.with_prompt(Some(FormationPromptV::Name(input, target, true)))
        } else {
            match target {
                NameTargetV::New(members) => self.with_prompt(None).with_groups(
                    self.groups.create(name, members),
                ).broadcasts_formations(),
                NameTargetV::Rename(id) => self.with_prompt(None).with_groups(
                    self.groups.rename(id, name),
                ).broadcasts_formations(),
            }
        }
    }

    pub open spec fn name_key(
        self,
        bare: BareKey,
        input: Seq<char>,
        target: NameTargetV,
        taken: bool,
    ) -> StateV {
        match bare {
            BareKey::Esc => self.with_prompt(None),
            BareKey::Enter => self.confirm_name(input, target, taken),
            BareKey::Backspace => self.with_prompt(
                Some(
                    FormationPromptV::Name(
                        if input.len() > 0 {
                            input.drop_last()
                        } else {
                            input
                        },
                        target,
                        false,
                    ),
                ),
            ),
            BareKey::Char(c) => self.with_prompt(
                Some(
                    FormationPromptV::Name(
                        if control(c) {
                            input
                        } else {
                            input.push(c)
                        },
                        target,
                        false,
                    ),
                ),
            ),
            _ => self.leave_nav_mode(),
        }
    }

    /// A key at the prompt: what becomes of the state, and whether to draw.
    pub open spec fn formation_key(self, key: Key) -> (StateV, bool) {
        if key.hard() {
            (self.leave_nav_mode(), true)
        } else {
            match self.nav.formation_prompt {
                Some(FormationPromptV::Pick(_)) => (self.pick_key(key.bare), true),
                Some(FormationPromptV::Name(input, target, taken)) => (
                    self.name_key(key.bare, input, target, taken),
                    true,
                ),
                None => (self, false),
            }
        }
    }

    /// Panes that left the list leave their formation.
    pub open spec fn prune_assignments(self) -> StateV {
        let gone = ascending(
            self.groups.assignments.dom().filter(|id: u32| !has_pane(self.list.selectable, id)),
        );
        self.with_groups(self.groups.leave(gone))
    }
}

/// The panes of the list that are in a formation.
pub open spec fn members_in(
    list: Seq<SelectableV>,
    assignments: Map<u32, u32>,
    id: u32,
) -> Seq<SelectableV>
    decreases list.len(),
{
    if list.len() == 0 {
        Seq::empty()
    } else {
        let front = members_in(list.drop_last(), assignments, id);
        let e = list.last();
        if assignments.contains_key(e.pane_id) && assignments[e.pane_id] == id {
            front.push(e)
        } else {
            front
        }
    }
}

impl State {
    fn formation_targets(&self) -> (r: Vec<u32>)
        ensures
            r@ == self@.formation_targets(),
    {
        let marked = self.marked_in_tree_order();
        if marked.len() > 0 {
            return marked;
        }
        let mut targets: Vec<u32> = Vec::new();
        if let Some(id) = self.highlighted_pane() {
            targets.push(id);
            assert(targets@ =~= seq![id]);
        }
        targets
    }

    fn formation_index(&self, id: u32) -> (r: Option<usize>)
        ensures
            r is Some == (formation_place(self@.groups.formations, id)
                < self@.groups.formations.len()),
            r is Some == has_formation(self@.groups.formations, id),
            r is Some ==> r->0 == formation_place(self@.groups.formations, id) && r->0
                < self.groups.formations.len(),
    {
        place_formation(&self.groups.formations, id)
    }

    /// The formation with this id.
    pub fn formation(&self, id: u32) -> (r: Option<&Formation>)
        ensures
            r is Some == has_formation(self@.groups.formations, id),
            r is Some ==> (r->0)@ == self@.groups.formations[formation_place(
                self@.groups.formations,
                id,
            ) as int],
    {
        match self.formation_index(id) {
            Some(i) => {
                assert(self@.groups.formations[i as int] == self.groups.formations[i as int]@);
                Some(&self.groups.formations[i])
            },
            None => None,
        }
    }

    /// The formation of a pane.
    pub fn formation_of(&self, pane_id: u32) -> (r: Option<u32>)
        ensures
            r == self@.formation_of(pane_id),
    {
        match self.groups.assignments.get(&pane_id) {
            Some(id) => Some(*id),
            None => None,
        }
    }

    /// The panes of a formation, in the order of the list.
    pub fn formation_members(&self, id: u32) -> (r: Vec<&Selectable>)
        ensures
            views(r@) == members_in(self@.list.selectable, self@.groups.assignments, id),
    {
        let ghost all = self@.list.selectable;
        let mut out: Vec<&Selectable> = Vec::new();
        let mut i: usize = 0;
        assert(all.take(0) =~= Seq::empty());
        while i < self.list.selectable.len()
            invariant
                i <= self.list.selectable.len(),
                all == self@.list.selectable,
                views(out@) == members_in(all.take(i as int), self@.groups.assignments, id),
            decreases self.list.selectable.len() - i,
        {
            let entry = &self.list.selectable[i];
            assert(all.take(i + 1).drop_last() =~= all.take(i as int));
            assert(all.take(i + 1).last() == entry@);
            if let Some(of) = self.formation_of(entry.pane_id) {
                if of == id {
                    out.push(entry);
                }
            }
            i += 1;
        }
        assert(all.take(i as int) =~= all);
        out
    }

    pub fn begin_formation_add(&mut self)
        ensures
            final(self)@ == old(self)@.begin_formation_add(),
    {
        let members = self.formation_targets();
        if members.len() == 0 {
            return ;
        }
        self.nav.formation_prompt = Some(
            if self.groups.formations.len() == 0 {
                FormationPrompt::Name(String::new(), NameTarget::New(members), false)
            } else {
                FormationPrompt::Pick(members)
            },
        );
    }

    fn demote_commander(&mut self, pane_id: u32)
        ensures
            final(self)@ == old(self)@.with_groups(old(self)@.groups.demote(pane_id)),
    {
        let ghost start = self@;
        let ghost f0 = start.groups.formations;
        let ghost target = start.groups.demote(pane_id).formations;
        let mut i: usize = 0;
        while i < self.groups.formations.len()
            invariant
                i <= self.groups.formations.len(),
                f0 == start.groups.formations,
                target == start.groups.demote(pane_id).formations,
                self.groups.formations.len() == f0.len(),
                self@ == start.with_groups(
                    FormationsV { formations: views(self.groups.formations@), ..start.groups },
                ),
                forall|j: int| 0 <= j < i ==> views(self.groups.formations@)[j] == target[j],
                forall|j: int|
                    i <= j < f0.len() ==> views(self.groups.formations@)[j] == f0[j],
            decreases self.groups.formations.len() - i,
        {
            let ghost before = views(self.groups.formations@);
            assert(before[i as int] == f0[i as int]);
            assert(before[i as int] == self.groups.formations[i as int]@);
            let commands = match self.groups.formations[i].commander {
                Some(commander) => commander == pane_id,
                None => false,
            };
            if commands {
                self.groups.formations[i].commander = None;
            }
            assert(views(self.groups.formations@) =~= before.update(
                i as int,
                without_commander(f0[i as int], pane_id),
            ));
            i += 1;
        }
        assert(views(self.groups.formations@) =~= target);
    }

    /// Takes the panes of the edit out of their formations.
    pub fn exclude_from_formation(&mut self)
        ensures
            final(self)@ == old(self)@.exclude_from_formation(),
    {
        let targets = self.formation_targets();
        let ghost start = self@;
        let mut changed = false;
        let mut i: usize = 0;
        assert(targets@.take(0) =~= Seq::empty());
        while i < targets.len()
            invariant
                i <= targets.len(),
                self@ == start.with_groups(start.groups.leave(targets@.take(i as int))),
                changed == start.groups.any_assigned(targets@.take(i as int)),
                !changed ==> self@ == start,
            decreases targets.len() - i,
        {
            let ghost front = targets@.take(i as int);
            let ghost upto = targets@.take(i + 1);
            assert(upto.drop_last() =~= front);
            assert(upto[i as int] == targets@[i as int]);
            let ghost was = changed;
            if self.leave_formation(targets[i]) {
                changed = true;
            }
            proof {
                if was {
                    let j = choose|j: int|
                        0 <= j < front.len() && start.groups.assignments.contains_key(
                            #[trigger] front[j],
                        );
                    assert(upto[j] == front[j]);
                } else if start.groups.any_assigned(upto) {
                    let j = choose|j: int|
                        0 <= j < upto.len() && start.groups.assignments.contains_key(
                            #[trigger] upto[j],
                        );
                    if j < i {
                        assert(front[j] == upto[j]);
                    }
                }
            }
            i += 1;
        }
        assert(targets@.take(i as int) =~= targets@);
        if changed {
            self.broadcast_formations();
        }
    }

    /// Takes a pane out of its formation. Returns whether it was in one.
    pub fn leave_formation(&mut self, pane_id: u32) -> (r: bool)
        ensures
            final(self)@ == old(self)@.with_groups(old(self)@.groups.leave_one(pane_id)),
            r == old(self)@.groups.assignments.contains_key(pane_id),
    {
        match self.groups.assignments.remove(&pane_id) {
            Some(_) => {
                self.demote_commander(pane_id);
                true
            },
            None => {
                assert(self@.groups.assignments =~= old(self)@.groups.assignments);
                false
            },
        }
    }

    fn highlighted_formation(&self) -> (r: Option<usize>)
        ensures
            r is Some == self@.highlighted_formation() is Some,
            r is Some ==> r->0 == self@.highlighted_formation()->0 && r->0
                < self.groups.formations.len() && self@.highlighted() is Some,
    {
        match self.highlighted_pane() {
            Some(pane_id) => match self.formation_of(pane_id) {
                Some(id) => self.formation_index(id),
                None => None,
            },
            None => None,
        }
    }

    pub fn begin_formation_rename(&mut self)
        ensures
            final(self)@ == old(self)@.begin_formation_rename(),
    {
        if let Some(i) = self.highlighted_formation() {
            let id = self.groups.formations[i].id;
            let name = self.groups.formations[i].name.clone();
            assert(self@.groups.formations[i as int] == self.groups.formations[i as int]@);
            self.nav.formation_prompt = Some(
                FormationPrompt::Name(name, NameTarget::Rename(id), false),
            );
        }
    }

    pub fn toggle_commander(&mut self)
        ensures
            final(self)@ == old(self)@.toggle_commander(),
    {
        let pane_id = match self.highlighted_pane() {
            Some(pane_id) => pane_id,
            None => {
                return ;
            },
        };
        if let Some(i) = self.highlighted_formation() {
            let ghost before = views(self.groups.formations@);
            assert(before[i as int] == self.groups.formations[i as int]@);
            let commands = match self.groups.formations[i].commander {
                Some(commander) => commander == pane_id,
                None => false,
            };
            let commander = if commands {
                None
            } else {
                Some(pane_id)
            };
            self.groups.formations[i].commander = commander;
            assert(views(self.groups.formations@) =~= before.update(
                i as int,
                FormationV { commander, ..before[i as int] },
            ));
            self.broadcast_formations();
        }
    }

    fn assign_members(&mut self, id: u32, members: &Vec<u32>)
        ensures
            final(self)@ == old(self)@.assign_members(id, members@),
    {
        let ghost start = self@;
        let mut i: usize = 0;
        assert(members@.take(0) =~= Seq::empty());
        while i < members.len()
            invariant
                i <= members.len(),
                self@ == start.with_groups(start.groups.join(id, members@.take(i as int))),
            decreases members.len() - i,
        {
            assert(members@.take(i + 1).drop_last() =~= members@.take(i as int));
            self.demote_commander(members[i]);
            self.groups.assignments.insert(members[i], id);
            i += 1;
        }
        assert(members@.take(i as int) =~= members@);
        self.broadcast_formations();
    }

    fn create_formation(&mut self, name: String, members: &Vec<u32>)
        ensures
            final(self)@ == old(self)@.with_groups(
                old(self)@.groups.create(name@, members@),
            ).broadcasts_formations(),
    {
        let id = self.groups.next_formation_id;
        self.groups.next_formation_id = id.saturating_add(1);
        self.groups.formations.push(Formation { id, name, commander: None });
        self.assign_members(id, members);
    }

    /// Whether the name is in use by a formation other than `except`.
    pub fn name_taken(&self, name: &str, except: Option<u32>) -> (r: bool)
        ensures
            r == self@.groups.name_taken(name@, except),
    {
        let ghost v = self@.groups.formations;
        let mut i: usize = 0;
        while i < self.groups.formations.len()
            invariant
                i <= self.groups.formations.len(),
                v == self@.groups.formations,
                forall|j: int|
                    0 <= j < i ==> !((#[trigger] v[j]).name == name@ && Some(v[j].id) != except),
            decreases self.groups.formations.len() - i,
        {
            assert(v[i as int] == self.groups.formations[i as int]@);
            let excepted = match except {
                Some(id) => id == self.groups.formations[i].id,
                None => false,
            };
            if !excepted && same(self.groups.formations[i].name.as_str(), name) {
                return true;
            }
            i += 1;
        }
        false
    }

    /// A key at the prompt. Returns whether to draw.
    pub fn handle_formation_prompt_key(&mut self, key: Key) -> (r: bool)
        ensures
            (final(self)@, r) == old(self)@.formation_key(key),
    {
        if key.has_hard_modifier() {
            self.leave_nav_mode();
            return true;
        }
        match self.nav.formation_prompt.take() {
            Some(FormationPrompt::Pick(members)) => {
                self.pick_key(key.bare, members);
                true
            },
            Some(FormationPrompt::Name(input, target, taken)) => {
                self.name_key(key.bare, input, target, taken);
                true
            },
            None => false,
        }
    }

    fn pick_key(&mut self, bare: BareKey, members: Vec<u32>)
        requires
            old(self)@.nav.formation_prompt is None,
        ensures
            final(self)@ == old(self)@.with_prompt(
                Some(FormationPromptV::Pick(members@)),
            ).pick_key(bare),
    {
        match bare {
            BareKey::Esc => {},
            BareKey::Char(c) => if c == 'n' {
                self.nav.formation_prompt = Some(
                    FormationPrompt::Name(String::new(), NameTarget::New(members), false),
                );
            } else if '1' <= c && c <= '9' {
                self.pick_formation(c, members);
            } else {
                self.nav.formation_prompt = Some(FormationPrompt::Pick(members));
                self.leave_nav_mode();
            },
            _ => {
                self.nav.formation_prompt = Some(FormationPrompt::Pick(members));
                self.leave_nav_mode();
            },
        }
    }

    fn pick_formation(&mut self, digit: char, members: Vec<u32>)
        requires
            '1' <= digit <= '9',
            old(self)@.nav.formation_prompt is None,
        ensures
            final(self)@ == old(self)@.with_prompt(
                Some(FormationPromptV::Pick(members@)),
            ).pick_formation(digit),
    {
        let n: usize = digit as usize - '1' as usize;
        assert(n < PICK_LIMIT);
        if n < self.groups.formations.len() {
            assert(self@.groups.formations[n as int] == self.groups.formations[n as int]@);
            let id = self.groups.formations[n].id;
            self.assign_members(id, &members);
        } else {
            self.nav.formation_prompt = Some(FormationPrompt::Pick(members));
        }
    }

    fn name_key(&mut self, bare: BareKey, input: String, target: NameTarget, taken: bool)
        requires
            old(self)@.nav.formation_prompt is None,
        ensures
            final(self)@ == old(self)@.with_prompt(
                Some(FormationPromptV::Name(input@, target@, taken)),
            ).name_key(bare, input@, target@, taken),
    {
        match bare {
            BareKey::Esc => {},
            BareKey::Enter => self.confirm_formation_name(input, target, taken),
            BareKey::Backspace => {
                let chars = chars_of(input.as_str());
                let end: usize = if chars.len() > 0 {
                    chars.len() - 1
                } else {
                    0
                };
                let shorter = slice_of(&chars, 0, end);
                assert(shorter@ =~= if chars@.len() > 0 {
                    chars@.drop_last()
                } else {
                    chars@
                });
                self.nav.formation_prompt = Some(FormationPrompt::Name(shorter, target, false));
            },
            BareKey::Char(c) => {
                let mut longer = input;
                if !is_control(c) {
                    longer.push(c);
                }
                self.nav.formation_prompt = Some(FormationPrompt::Name(longer, target, false));
            },
            _ => {
                self.nav.formation_prompt = Some(FormationPrompt::Name(input, target, taken));
                self.leave_nav_mode();
            },
        }
    }

    fn confirm_formation_name(&mut self, input: String, target: NameTarget, taken: bool)
        requires
            old(self)@.nav.formation_prompt is None,
        ensures
            final(self)@ == old(self)@.with_prompt(
                Some(FormationPromptV::Name(input@, target@, taken)),
            ).confirm_name(input@, target@, taken),
    {
        let name = trim(input.as_str());
        if name.as_str().is_empty() {
            self.nav.formation_prompt = Some(FormationPrompt::Name(input, target, taken));
            return ;
        }
        let except = match &target {
            NameTarget::Rename(id) => Some(*id),
            NameTarget::New(_) => None,
        };
        if self.name_taken(name.as_str(), except) {
            self.nav.formation_prompt = Some(FormationPrompt::Name(input, target, true));
            return ;
        }
        match target {
            NameTarget::New(members) => self.create_formation(name, &members),
            NameTarget::Rename(id) => {
                self.rename_formation(id, name);
                self.broadcast_formations();
            },
        }
    }

    fn rename_formation(&mut self, id: u32, name: String)
        ensures
            final(self)@ == old(self)@.with_groups(old(self)@.groups.rename(id, name@)),
    {
        if let Some(i) = self.formation_index(id) {
            let ghost before = views(self.groups.formations@);
            assert(before[i as int] == self.groups.formations[i as int]@);
            self.groups.formations[i].name = name;
            assert(views(self.groups.formations@) =~= before.update(
                i as int,
                FormationV { name: name@, ..before[i as int] },
            ));
        }
    }
}

/// The index of the formation with this id.
pub fn place_formation(formations: &Vec<Formation>, id: u32) -> (r: Option<usize>)
    ensures
        r is Some == (formation_place(views(formations@), id) < formations.len()),
        r is Some == has_formation(views(formations@), id),
        r is Some ==> r->0 == formation_place(views(formations@), id) && r->0 < formations.len(),
{
    let ghost v = views(formations@);
    proof {
        lemma_formation_place(v, id);
    }
    let mut i: usize = 0;
    while i < formations.len()
        invariant
            i <= formations.len(),
            v == views(formations@),
            forall|j: int| 0 <= j < i ==> (#[trigger] v[j]).id != id,
        decreases formations.len() - i,
    {
        assert(v[i as int] == formations[i as int]@);
        if formations[i].id == id {
            proof {
                lemma_formation_place_is(v, id, i as int);
            }
            return Some(i);
        }
        i += 1;
    }
    proof {
        lemma_formation_place_is(v, id, v.len() as int);
    }
    None
}

} // verus!
