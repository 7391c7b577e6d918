//! The search sub-mode.

use std::collections::BTreeMap;

use vstd::prelude::*;

use crate::host::{BareKey, Key};
use crate::ids::{group_views, map_views};
use crate::mark::panes_in;
use crate::matcher::{match_pane, opt_hit, pane_hit, Hit, HitV};
use crate::state::{ListingV, NavV, SelectableV, State, StateV};
use crate::text::{chars_of, control, is_control, slice_of};
use crate::triage::place_of;

verus! {

broadcast use group_views;

#[derive(Debug, Clone, Copy, PartialEq, Eq, Structural)]
pub enum SearchPhase {
    /// Printable characters extend the query.
    Editing,
    /// Keys move the cursor; the query is kept.
    Navigating,
}

#[derive(Debug)]
pub struct SearchState {
    pub phase: SearchPhase,
    pub query: String,
    /// The panes that match, with their hits.
    pub hits: BTreeMap<u32, Hit>,
    /// The pane under the cursor within the hits.
    pub cursor: Option<u32>,
    /// The pane that was selected before the search.
    pub saved: Option<u32>,
}

#[verifier::ext_equal]
pub struct SearchStateV {
    pub phase: SearchPhase,
    pub query: Seq<char>,
    pub hits: Map<u32, HitV>,
    pub cursor: Option<u32>,
    pub saved: Option<u32>,
}

impl View for SearchState {
    type V = SearchStateV;

    open spec fn view(&self) -> SearchStateV {
        SearchStateV {
            phase: self.phase,
            query: self.query@,
            hits: map_views(self.hits@),
            cursor: self.cursor,
            saved: self.saved,
        }
    }
}

/// The index of the first `id`; the length where there is none.
pub open spec fn index_of_id(ids: Seq<u32>, id: u32) -> nat
    decreases ids.len(),
{
    if ids.len() == 0 || ids[0] == id {
        0
    } else {
        1 + index_of_id(ids.drop_first(), id)
    }
}

/// The first pane of the list that is in the set.
pub open spec fn first_in(list: Seq<SelectableV>, set: Set<u32>) -> Option<u32>
    decreases list.len(),
{
    if list.len() == 0 {
        None
    } else if set.contains(list[0].pane_id) {
        Some(list[0].pane_id)
    } else {
        first_in(list.drop_first(), set)
    }
}

/// The text without its control characters.
pub open spec fn printable(s: Seq<char>) -> Seq<char>
    decreases s.len(),
{
    if s.len() == 0 {
        Seq::empty()
    } else if control(s.last()) {
        printable(s.drop_last())
    } else {
        printable(s.drop_last()).push(s.last())
    }
}

impl ListingV {
    /// The hit of a query in one pane.
    pub open spec fn entry_hit(self, query: Seq<char>, e: SelectableV) -> Option<HitV> {
        pane_hit(
            query,
            e.title,
            self.tab_name(e.tab_position),
            if self.pane_cwds.contains_key(e.pane_id) {
                Some(self.pane_cwds[e.pane_id])
            } else {
                None
            },
        )
    }

    /// The hits of a query among the panes.
    pub open spec fn hits_among(self, query: Seq<char>, list: Seq<SelectableV>) -> Map<u32, HitV>
        decreases list.len(),
    {
        if list.len() == 0 {
            Map::empty()
        } else {
            let front = self.hits_among(query, list.drop_last());
            match self.entry_hit(query, list.last()) {
                Some(hit) => front.insert(list.last().pane_id, hit),
                None => front,
            }
        }
    }
}

impl StateV {
    pub open spec fn with_search(self, search: Option<SearchStateV>) -> StateV {
        StateV { nav: NavV { search, ..self.nav }, ..self }
    }

    /// The hits are computed anew. The cursor stays on its pane, or goes to the first hit.
    pub open spec fn refilter(self) -> StateV {
        match self.nav.search {
            None => self,
            Some(search) => {
                let hits = self.list.hits_among(search.query, self.list.selectable);
                let cursor = if search.cursor is Some && hits.contains_key(search.cursor->0) {
                    search.cursor
                } else {
                    first_in(self.list.selectable, hits.dom())
                };
                self.with_search(Some(SearchStateV { hits, cursor, ..search }))
            },
        }
    }

    pub open spec fn enter_search(self) -> StateV {
        self.with_search(
            Some(
                SearchStateV {
                    phase: SearchPhase::Editing,
                    query: Seq::empty(),
                    hits: Map::empty(),
                    cursor: self.selected_pane(),
                    saved: self.selected_pane(),
                },
            ),
        ).refilter()
    }

    /// Drops the query and goes back to the row that was selected before.
    pub open spec fn exit_search(self) -> StateV {
        match self.nav.search {
            None => self,
            Some(search) => match search.saved {
                Some(saved) => self.with_search(None).select(saved),
                None => self.with_search(None),
            },
        }
    }

    /// Jumps to the pane under the cursor; without one nothing happens.
    pub open spec fn confirm_search(self) -> StateV {
        if self.nav.search is Some && self.nav.search->0.cursor is Some {
            let n = place_of(self.list.selectable, self.nav.search->0.cursor->0);
            if n < self.list.selectable.len() {
                self.jump_to(n as usize)
            } else {
                self
            }
        } else {
            self
        }
    }

    /// The cursor moves within the hits, in the order of the list, and stops at the ends.
    pub open spec fn move_search_cursor(self, forward: bool) -> StateV {
        match self.nav.search {
            None => self,
            Some(search) => {
                let ids = panes_in(self.list.selectable, search.hits.dom());
                if ids.len() == 0 {
                    self
                } else {
                    let at = if search.cursor is Some {
                        index_of_id(ids, search.cursor->0)
                    } else {
                        ids.len()
                    };
                    let next: int = if at >= ids.len() {
                        0
                    } else if forward {
                        if at + 1 < ids.len() {
                            at as int + 1
                        } else {
                            at as int
                        }
                    } else if at > 0 {
                        at - 1
                    } else {
                        0
                    };
                    self.with_search(Some(SearchStateV { cursor: Some(ids[next]), ..search }))
                }
            },
        }
    }

    pub open spec fn with_query(self, query: Seq<char>) -> StateV {
        match self.nav.search {
            None => self,
            Some(search) => self.with_search(
                Some(SearchStateV { query, ..search }),
            ).refilter(),
        }
    }

    pub open spec fn with_phase(self, phase: SearchPhase) -> StateV {
        match self.nav.search {
            None => self,
            Some(search) => self.with_search(Some(SearchStateV { phase, ..search })),
        }
    }

    /// Editing: printable characters extend the query; a key without a meaning leaves nav mode.
    pub open spec fn search_editing_key(self, key: Key) -> StateV {
        let query = self.nav.search->0.query;
        match key.bare {
            BareKey::Esc => self.with_phase(SearchPhase::Navigating),
            BareKey::Enter => self.confirm_search(),
            BareKey::Backspace => self.with_query(
                if query.len() > 0 {
                    query.drop_last()
                } else {
                    query
                },
            ),
            BareKey::Up => self.move_search_cursor(false),
            BareKey::Down => self.move_search_cursor(true),
            BareKey::Tab => self.move_search_cursor(!key.shift),
            BareKey::Char(c) => self.with_query(query.push(c)),
            _ => self.leave_nav_mode(),
        }
    }

    /// The key is a command while navigating.
    pub open spec fn navigating_command(key: Key) -> bool {
        match key.bare {
            BareKey::Esc | BareKey::Enter | BareKey::Up | BareKey::Down | BareKey::Tab => true,
            BareKey::Char(c) => c == 'k' || c == 'j' || c == 'i',
            _ => false,
        }
    }

    /// Navigating: keys move the cursor; a key without a meaning does nothing.
    pub open spec fn search_navigating_key(self, key: Key) -> StateV {
        match key.bare {
            BareKey::Esc => self.exit_search(),
            BareKey::Enter => self.confirm_search(),
            BareKey::Up => self.move_search_cursor(false),
            BareKey::Down => self.move_search_cursor(true),
            BareKey::Tab => self.move_search_cursor(!key.shift),
            BareKey::Char(c) => if c == 'k' {
                self.move_search_cursor(false)
            } else if c == 'j' {
                self.move_search_cursor(true)
            } else if c == 'i' {
                self.with_phase(SearchPhase::Editing)
            } else {
                self
            },
            _ => self,
        }
    }

    /// The query is being typed.
    pub open spec fn search_is_editing(self) -> bool {
        self.nav.search is Some && self.nav.search->0.phase == SearchPhase::Editing
    }

    /// What keys mean in the search sub-mode.
    pub open spec fn search_phase(self) -> SearchPhase {
        match self.nav.search {
            Some(search) => search.phase,
            None => SearchPhase::Editing,
        }
    }

    /// A key in the search sub-mode: what becomes of the state, and whether to draw.
    pub open spec fn search_key(self, key: Key) -> (StateV, bool) {
        if key.bare == BareKey::Char('m') && key.alt {
            (self.toggle_mark(), true)
        } else if key.bare == BareKey::Char('p') && key.alt {
            (self.toggle_preview(), true)
        } else if key.hard() {
            (self.leave_nav_mode(), true)
        } else if self.search_phase() == SearchPhase::Editing {
            (self.search_editing_key(key).refresh_preview(), true)
        } else if StateV::navigating_command(key) {
            (self.search_navigating_key(key).refresh_preview(), true)
        } else {
            (self, false)
        }
    }

    /// Text that arrives at once, by paste or from an input method, extends the query.
    pub open spec fn pasted_text(self, text: Seq<char>) -> (StateV, bool) {
        if self.nav.help_overlay || !self.search_is_editing() || printable(text).len() == 0 {
            (self, false)
        } else {
            (self.with_query(self.nav.search->0.query + printable(text)).refresh_preview(), true)
        }
    }
}

impl State {
    /// Computes the hits of the query anew.
    pub fn refilter(&mut self)
        ensures
            final(self)@ == old(self)@.refilter(),
    {
        let search = match self.nav.search.take() {
            Some(search) => search,
            None => {
                return ;
            },
        };
        let hits = self.find_hits(search.query.as_str());
        let mut cursor: Option<u32> = None;
        if let Some(id) = search.cursor {
            if hits.contains_key(&id) {
                cursor = Some(id);
            }
        }
        if cursor.is_none() {
            cursor = self.first_hit(&hits);
        }
        self.nav.search = Some(
            SearchState {
                phase: search.phase,
                query: search.query,
                hits,
                cursor,
                saved: search.saved,
            },
        );
        assert(map_views(hits@).dom() =~= hits@.dom());
    }

    fn find_hits(&self, query: &str) -> (r: BTreeMap<u32, Hit>)
        ensures
            map_views(r@) == self@.list.hits_among(query@, self@.list.selectable),
    {
        let ghost all = self@.list.selectable;
        let mut hits: BTreeMap<u32, Hit> = BTreeMap::new();
        let mut i: usize = 0;
        assert(all.take(0) =~= Seq::empty());
        while i < self.list.selectable.len()
            invariant
                i <= self.list.selectable.len(),
                all == self@.list.selectable,
                map_views(hits@) == self@.list.hits_among(query@, all.take(i as int)),
            decreases self.list.selectable.len() - i,
        {
            let entry = &self.list.selectable[i];
            assert(all.take(i + 1).drop_last() =~= all.take(i as int));
            assert(all.take(i + 1).last() == entry@);
            let tab = self.tab_name(entry.tab_position);
            let cwd: Option<&str> = match self.list.pane_cwds.get(&entry.pane_id) {
                Some(cwd) => Some(cwd.as_str()),
                None => None,
            };
            let hit = match_pane(query, entry.title.as_str(), tab, cwd);
            assert(opt_hit(hit) == self@.list.entry_hit(query@, entry@));
            if let Some(hit) = hit {
                hits.insert(entry.pane_id, hit);
            }
            i += 1;
        }
        assert(all.take(i as int) =~= all);
        hits
    }

    fn first_hit(&self, hits: &BTreeMap<u32, Hit>) -> (r: Option<u32>)
        ensures
            r == first_in(self@.list.selectable, hits@.dom()),
    {
        let ghost all = self@.list.selectable;
        let mut i: usize = 0;
        assert(all.skip(0) =~= all);
        while i < self.list.selectable.len()
            invariant
                i <= self.list.selectable.len(),
                all == self@.list.selectable,
                first_in(all, hits@.dom()) == first_in(all.skip(i as int), hits@.dom()),
            decreases self.list.selectable.len() - i,
        {
            let ghost rest = all.skip(i as int);
            assert(rest[0] == self.list.selectable[i as int]@);
            assert(rest.drop_first() =~= all.skip(i + 1));
            let id = self.list.selectable[i].pane_id;
            if hits.contains_key(&id) {
                return Some(id);
            }
            i += 1;
        }
        assert(all.skip(i as int) =~= Seq::empty());
        None
    }

    pub fn enter_search(&mut self)
        ensures
            final(self)@ == old(self)@.enter_search(),
    {
        let saved = self.selected_pane_id();
        self.nav.search = Some(
            SearchState {
                phase: SearchPhase::Editing,
                query: String::new(),
                hits: BTreeMap::new(),
                cursor: saved,
                saved,
            },
        );
        self.refilter();
    }

    fn exit_search(&mut self)
        ensures
            final(self)@ == old(self)@.exit_search(),
    {
        if let Some(search) = self.nav.search.take() {
            if let Some(saved) = search.saved {
                self.select_pane_id(saved);
            }
        }
    }

    fn confirm_search(&mut self)
        ensures
            final(self)@ == old(self)@.confirm_search(),
    {
        let cursor = match &self.nav.search {
            Some(search) => search.cursor,
            None => None,
        };
        if let Some(id) = cursor {
            if let Some(index) = self.index_of_pane(id) {
                self.jump_to(index);
            }
        }
    }

    /// The panes with a hit, in the order of the list.
    fn hit_ids(&self, hits: &BTreeMap<u32, Hit>) -> (r: Vec<u32>)
        ensures
            r@ == panes_in(self@.list.selectable, hits@.dom()),
    {
        let ghost all = self@.list.selectable;
        let mut out: Vec<u32> = Vec::new();
        let mut i: usize = 0;
        assert(all.take(0) =~= Seq::empty());
        while i < self.list.selectable.len()
            invariant
                i <= self.list.selectable.len(),
                all == self@.list.selectable,
                out@ == panes_in(all.take(i as int), hits@.dom()),
            decreases self.list.selectable.len() - i,
        {
            assert(all.take(i + 1).drop_last() =~= all.take(i as int));
            assert(all.take(i + 1).last() == self.list.selectable[i as int]@);
            let id = self.list.selectable[i].pane_id;
            if hits.contains_key(&id) {
                out.push(id);
            }
            i += 1;
        }
        assert(all.take(i as int) =~= all);
        out
    }

    fn move_search_cursor(&mut self, forward: bool)
        ensures
            final(self)@ == old(self)@.move_search_cursor(forward),
    {
        let search = match self.nav.search.take() {
            Some(search) => search,
            None => {
                return ;
            },
        };
        let ids = self.hit_ids(&search.hits);
        assert(map_views(search.hits@).dom() =~= search.hits@.dom());
        let cursor: Option<u32> = if ids.len() == 0 {
            search.cursor
        } else {
            let at = match search.cursor {
                Some(id) => position(&ids, id),
                None => ids.len(),
            };
            let next: usize = if at >= ids.len() {
                0
            } else if forward {
                if at + 1 < ids.len() {
                    at + 1
                } else {
                    at
                }
            } else if at > 0 {
                at - 1
            } else {
                0
            };
            Some(ids[next])
        };
        self.nav.search = Some(
            SearchState {
                phase: search.phase,
                query: search.query,
                hits: search.hits,
                cursor,
                saved: search.saved,
            },
        );
    }

    fn set_query(&mut self, query: String)
        ensures
            final(self)@ == old(self)@.with_query(query@),
    {
        if let Some(search) = self.nav.search.take() {
            self.nav.search = Some(
                SearchState {
                    phase: search.phase,
                    query,
                    hits: search.hits,
                    cursor: search.cursor,
                    saved: search.saved,
                },
            );
            self.refilter();
        }
    }

    fn set_search_phase(&mut self, phase: SearchPhase)
        ensures
            final(self)@ == old(self)@.with_phase(phase),
    {
        if let Some(search) = self.nav.search.take() {
            self.nav.search = Some(
                SearchState {
                    phase,
                    query: search.query,
                    hits: search.hits,
                    cursor: search.cursor,
                    saved: search.saved,
                },
            );
        }
    }

    pub fn search_is_editing(&self) -> (r: bool)
        ensures
            r == self@.search_is_editing(),
    {
        match &self.nav.search {
            Some(search) => matches!(search.phase, SearchPhase::Editing),
            None => false,
        }
    }

    fn search_phase(&self) -> (r: SearchPhase)
        ensures
            r == self@.search_phase(),
    {
        match &self.nav.search {
            Some(search) => search.phase,
            None => SearchPhase::Editing,
        }
    }

    fn query_chars(&self) -> (r: Vec<char>)
        ensures
            self.nav.search is Some ==> r@ == self@.nav.search->0.query,
    {
        match &self.nav.search {
            Some(search) => chars_of(search.query.as_str()),
            None => Vec::new(),
        }
    }

    fn handle_search_editing_key(&mut self, key: Key)
        ensures
            final(self)@ == old(self)@.search_editing_key(key),
    {
        match key.bare {
            BareKey::Esc => self.set_search_phase(SearchPhase::Navigating),
            BareKey::Enter => self.confirm_search(),
            BareKey::Backspace => {
                let chars = self.query_chars();
                let end: usize = if chars.len() > 0 {
                    chars.len() - 1
                } else {
                    0
                };
                let query = slice_of(&chars, 0, end);
                assert(query@ =~= if chars@.len() > 0 {
                    chars@.drop_last()
                } else {
                    chars@
                });
                self.set_query(query);
            },
            BareKey::Up => self.move_search_cursor(false),
            BareKey::Down => self.move_search_cursor(true),
            BareKey::Tab => self.move_search_cursor(!key.shift),
            BareKey::Char(c) => {
                let chars = self.query_chars();
                let mut query = slice_of(&chars, 0, chars.len());
                assert(query@ =~= chars@);
                query.push(c);
                self.set_query(query);
            },
            _ => self.leave_nav_mode(),
        }
    }

    fn handle_search_navigating_key(&mut self, key: Key) -> (r: bool)
        ensures
            final(self)@ == old(self)@.search_navigating_key(key),
            r == StateV::navigating_command(key),
    {
        match key.bare {
            BareKey::Esc => self.exit_search(),
            BareKey::Enter => self.confirm_search(),
            BareKey::Up => self.move_search_cursor(false),
            BareKey::Down => self.move_search_cursor(true),
            BareKey::Tab => self.move_search_cursor(!key.shift),
            BareKey::Char(c) => {
                if c == 'k' {
                    self.move_search_cursor(false);
                } else if c == 'j' {
                    self.move_search_cursor(true);
                } else if c == 'i' {
                    self.set_search_phase(SearchPhase::Editing);
                } else {
                    return false;
                }
            },
            _ => {
                return false;
            },
        }
        true
    }

    /// A key in the search sub-mode. Returns whether to draw again.
    pub fn handle_search_key(&mut self, key: Key) -> (r: bool)
        ensures
            (final(self)@, r) == old(self)@.search_key(key),
    {
        if key.alt && matches!(key.bare, BareKey::Char('m')) {
            self.toggle_mark();
            return true;
        }
        if key.alt && matches!(key.bare, BareKey::Char('p')) {
            self.toggle_preview();
            return true;
        }
        if key.has_hard_modifier() {
            self.leave_nav_mode();
            return true;
        }
        match self.search_phase() {
            SearchPhase::Editing => self.handle_search_editing_key(key),
            SearchPhase::Navigating => {
                if !self.handle_search_navigating_key(key) {
                    return false;
                }
            },
        }
        self.refresh_preview();
        true
    }

    /// Text that arrives at once. Returns whether to draw again.
    pub fn handle_pasted_text(&mut self, text: &str) -> (r: bool)
        ensures
            (final(self)@, r) == old(self)@.pasted_text(text@),
    {
        if self.nav.help_overlay || !self.search_is_editing() {
            return false;
        }
        let chars = chars_of(text);
        let mut added = String::new();
        let mut i: usize = 0;
        assert(chars@.take(0) =~= Seq::empty());
        while i < chars.len()
            invariant
                i <= chars.len(),
                added@ == printable(chars@.take(i as int)),
            decreases chars.len() - i,
        {
            assert(chars@.take(i + 1).drop_last() =~= chars@.take(i as int));
            if !is_control(chars[i]) {
                added.push(chars[i]);
            }
            i += 1;
        }
        assert(chars@.take(i as int) =~= text@);
        if added.as_str().is_empty() {
            return false;
        }
        let before = self.query_chars();
        let mut query = slice_of(&before, 0, before.len());
        assert(query@ =~= before@);
        query.push_str(added.as_str());
        self.set_query(query);
        self.refresh_preview();
        true
    }
}

/// The index of the first `id`; the length where there is none.
pub fn position(ids: &Vec<u32>, id: u32) -> (r: usize)
    ensures
        r <= ids.len(),
        r == index_of_id(ids@, id),
{
    let mut i: usize = 0;
    assert(ids@.skip(0) =~= ids@);
    while i < ids.len() && ids[i] != id
        invariant
            i <= ids.len(),
            index_of_id(ids@, id) == i + index_of_id(ids@.skip(i as int), id),
        decreases ids.len() - i,
    {
        assert(ids@.skip(i as int).drop_first() =~= ids@.skip(i + 1));
        i += 1;
    }
    i
}

} // verus!
