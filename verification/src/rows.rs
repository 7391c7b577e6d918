//! The rows of the sidebar: a fixed frame, and between its parts the list.
//!
//! What is drawn and what a click hits go by the same rows.

use vstd::prelude::*;

use crate::help::{legend_rows, status_legend, HelpRow, HelpRowV};
use crate::host::{TabInfo, TabInfoV};
use crate::ids::{group_views, opt_view, views};
use crate::line::capped;
use crate::listing::{key_order, sort_order};
use crate::matcher::{Field, Hit, HitV};
use crate::state::{Selectable, SelectableV, State, StateV};
use crate::text::{begins_with, char_count, chars_of, same, slice_of, starts_with};
use crate::width::{behind, fold_highlight_indices};

verus! {

broadcast use group_views;

/// The rows of the frame above the list: a line, the header, a line.
pub const FRAME_TOP: usize = 3;

/// The rows of the frame below the list: a line, the footer, and a row left free.
pub const FRAME_BOTTOM: usize = 3;

/// One row of the sidebar.
#[derive(Debug)]
pub enum Row<'a> {
    Header,
    Divider,
    Footer,
    /// A row that only takes its place.
    Blank,
    Help(HelpRow),
    /// Says why the list is empty.
    Notice(&'static str),
    /// How many rows are hidden, and whether above or below.
    Overflow(usize, bool),
    Tab(&'a TabInfo),
    /// A pane, its number in the list, and the hit of a search in it.
    Pane(&'a Selectable, usize, Option<&'a Hit>),
    /// A pane of the triage list, and the name of its tab.
    Triage(&'a Selectable, &'a str),
    /// The working directory of the pane in the row above, and the hit of a search in it, by
    /// places of the text that is shown.
    Cwd(&'a Selectable, usize, String, Option<Hit>),
}

#[verifier::ext_equal]
pub enum RowV {
    Header,
    Divider,
    Footer,
    Blank,
    Help(HelpRowV),
    Notice(Seq<char>),
    Overflow(usize, bool),
    Tab(TabInfoV),
    Pane(SelectableV, usize, Option<HitV>),
    Triage(SelectableV, Seq<char>),
    Cwd(SelectableV, usize, Seq<char>, Option<HitV>),
}

impl<'a> View for Row<'a> {
    type V = RowV;

    open spec fn view(&self) -> RowV {
        match self {
            Row::Header => RowV::Header,
            Row::Divider => RowV::Divider,
            Row::Footer => RowV::Footer,
            Row::Blank => RowV::Blank,
            Row::Help(row) => RowV::Help(row@),
            Row::Notice(text) => RowV::Notice(text@),
            Row::Overflow(hidden, above) => RowV::Overflow(*hidden, *above),
            Row::Tab(tab) => RowV::Tab(tab@),
            Row::Pane(entry, index, hit) => RowV::Pane(entry@, *index, opt_view(*hit)),
            Row::Triage(entry, tab) => RowV::Triage(entry@, tab@),
            Row::Cwd(entry, index, cwd, hit) => RowV::Cwd(entry@, *index, cwd@, opt_view(*hit)),
        }
    }
}

// --- the list ---

/// The positions of the tabs.
pub open spec fn tab_positions(tabs: Seq<TabInfoV>) -> Seq<usize> {
    tabs.map_values(|t: TabInfoV| t.position)
}

/// The tabs by their position.
pub open spec fn sorted_tabs(tabs: Seq<TabInfoV>) -> Seq<TabInfoV> {
    key_order(tab_positions(tabs), tabs.len()).map_values(|i: usize| tabs[i as int])
}

/// How many of the panes are in the tab.
pub open spec fn count_in(list: Seq<SelectableV>, position: usize) -> nat
    decreases list.len(),
{
    if list.len() == 0 {
        0
    } else if list.last().tab_position == position {
        count_in(list.drop_last(), position) + 1
    } else {
        count_in(list.drop_last(), position)
    }
}

/// The path is the home directory or lies in it.
pub open spec fn at_home(path: Seq<char>, home: Option<Seq<char>>) -> bool {
    home is Some && (home->0).len() > 0 && (path == home->0 || begins_with(
        path,
        (home->0).push('/'),
    ))
}

/// A path with the home directory as `~`.
pub open spec fn with_tilde(path: Seq<char>, home: Option<Seq<char>>) -> Seq<char> {
    if at_home(path, home) {
        seq!['~'] + path.skip((home->0).len() as int)
    } else {
        path
    }
}

impl StateV {
    /// The hit of the search in a pane.
    pub open spec fn hit_of(self, pane_id: u32) -> Option<HitV> {
        if self.nav.search is Some && self.nav.search->0.hits.contains_key(pane_id) {
            Some(self.nav.search->0.hits[pane_id])
        } else {
            None
        }
    }

    /// How many characters at the start of the directory stand as `~`.
    pub open spec fn home_part(self, pane_id: u32) -> nat {
        if self.config.show_cwd_tilde && at_home(
            self.list.pane_cwds[pane_id],
            self.config.home,
        ) {
            (self.config.home->0).len()
        } else {
            0
        }
    }

    /// The directory as it is shown.
    pub open spec fn display_cwd(self, pane_id: u32) -> Option<Seq<char>> {
        if self.list.pane_cwds.contains_key(pane_id) {
            let path = self.list.pane_cwds[pane_id];
            if self.config.show_cwd_tilde {
                Some(with_tilde(path, self.config.home))
            } else {
                Some(path)
            }
        } else {
            None
        }
    }

    /// The hit, if it is one in the working directory.
    pub open spec fn cwd_hit(self, pane_id: u32) -> Option<HitV> {
        match self.hit_of(pane_id) {
            Some(hit) => if hit.field == Field::Cwd {
                Some(hit)
            } else {
                None
            },
            None => None,
        }
    }

    /// The hit in the working directory, by places of the text that is shown. What lies in a
    /// shortened home directory is not seen.
    pub open spec fn shown_cwd_hit(self, pane_id: u32) -> Option<HitV> {
        match (self.cwd_hit(pane_id), self.display_cwd(pane_id)) {
            (Some(hit), Some(cwd)) => if self.home_part(pane_id) > 0 {
                Some(
                    HitV {
                        indices: behind(hit.indices, self.home_part(pane_id), cwd.len(), 0),
                        ..hit
                    },
                )
            } else {
                Some(hit)
            },
            _ => None,
        }
    }

    /// The pane has a row for its working directory: that of an agent, if they are to be shown,
    /// and one that a search hit. Where the directory stands in for the name it is not repeated.
    pub open spec fn cwd_row_of(self, e: SelectableV) -> Option<Seq<char>> {
        let wanted = (self.config.show_cwd && self.status.agents.contains_key(e.pane_id))
            || self.cwd_hit(e.pane_id) is Some;
        if wanted && self.title_fallback(e) is None {
            self.display_cwd(e.pane_id)
        } else {
            None
        }
    }

    /// The rows of one pane; a search hides panes without a hit.
    pub open spec fn entry_rows(self, e: SelectableV, index: nat) -> Seq<RowV> {
        let hit = self.hit_of(e.pane_id);
        if self.nav.search is Some && hit is None {
            Seq::empty()
        } else {
            let pane = seq![RowV::Pane(e, index as usize, hit)];
            match self.cwd_row_of(e) {
                Some(cwd) => pane.push(
                    RowV::Cwd(e, index as usize, cwd, self.shown_cwd_hit(e.pane_id)),
                ),
                None => pane,
            }
        }
    }

    /// The rows of those of the panes that are in the tab; they are numbered from `base`.
    pub open spec fn tab_rows(self, position: usize, list: Seq<SelectableV>, base: nat) -> Seq<RowV>
        decreases list.len(),
    {
        if list.len() == 0 {
            Seq::empty()
        } else {
            let front = self.tab_rows(position, list.drop_last(), base);
            if list.last().tab_position == position {
                front + self.entry_rows(
                    list.last(),
                    capped(base + count_in(list.drop_last(), position)),
                )
            } else {
                front
            }
        }
    }

    /// A search hides tabs without a hit.
    pub open spec fn tab_hidden(self, position: usize) -> bool {
        self.nav.search is Some && forall|i: int|
            0 <= i < self.list.selectable.len() && (#[trigger] self.list.selectable[i]).tab_position
                == position ==> !self.nav.search->0.hits.contains_key(
                self.list.selectable[i].pane_id,
            )
    }

    /// How many panes the tabs have that are not hidden.
    pub open spec fn tree_count(self, tabs: Seq<TabInfoV>) -> nat
        decreases tabs.len(),
    {
        if tabs.len() == 0 {
            0
        } else if self.tab_hidden(tabs.last().position) {
            self.tree_count(tabs.drop_last())
        } else {
            capped(
                self.tree_count(tabs.drop_last()) + count_in(
                    self.list.selectable,
                    tabs.last().position,
                ),
            )
        }
    }

    /// The tabs, each with its panes below it.
    pub open spec fn tree_rows(self, tabs: Seq<TabInfoV>) -> Seq<RowV>
        decreases tabs.len(),
    {
        if tabs.len() == 0 {
            Seq::empty()
        } else {
            let front = self.tree_rows(tabs.drop_last());
            let tab = tabs.last();
            if self.tab_hidden(tab.position) {
                front
            } else {
                front.push(RowV::Tab(tab)) + self.tab_rows(
                    tab.position,
                    self.list.selectable,
                    self.tree_count(tabs.drop_last()),
                )
            }
        }
    }

    /// The rows of the triage list.
    pub open spec fn triage_rows(self) -> Seq<RowV> {
        let list = self.triage_list();
        if list.len() == 0 {
            seq![RowV::Notice("nothing to triage"@)]
        } else {
            list.map_values(
                |e: SelectableV| RowV::Triage(e, self.list.tab_name(e.tab_position)),
            )
        }
    }

    /// The rows inside the frame: the help, the triage list, or the tree.
    pub open spec fn content_rows(self) -> Seq<RowV> {
        if self.nav.help_overlay {
            (self.help_rows() + legend_rows()).map_values(|r: HelpRowV| RowV::Help(r))
        } else if self.nav.triage is Some {
            self.triage_rows()
        } else if self.nav.search is Some && self.nav.search->0.hits.dom().is_empty() {
            seq![RowV::Notice("no matches"@)]
        } else {
            self.tree_rows(sorted_tabs(self.list.tabs))
        }
    }

    /// All rows. The frame is always the same, whatever the mode.
    pub open spec fn visible_rows(self) -> Seq<RowV> {
        if !self.me.permissions_granted {
            Seq::empty()
        } else {
            frame_top() + self.content_rows() + frame_bottom()
        }
    }
}

pub open spec fn frame_top() -> Seq<RowV> {
    seq![RowV::Divider, RowV::Header, RowV::Divider]
}

pub open spec fn frame_bottom() -> Seq<RowV> {
    seq![RowV::Divider, RowV::Footer, RowV::Blank]
}

impl State {
    pub fn hit_of(&self, pane_id: u32) -> (r: Option<&Hit>)
        ensures
            opt_view(r) == self@.hit_of(pane_id),
    {
        match &self.nav.search {
            Some(search) => search.hits.get(&pane_id),
            None => None,
        }
    }

    /// The directory of a pane as it is shown.
    pub fn display_cwd(&self, pane_id: u32) -> (r: Option<String>)
        ensures
            opt_view(r) == self@.display_cwd(pane_id),
    {
        match self.list.pane_cwds.get(&pane_id) {
            Some(path) => if self.config.show_cwd_tilde {
                Some(shorten_home(path.as_str(), &self.config.home))
            } else {
                Some(path.clone())
            },
            None => None,
        }
    }

    fn cwd_row_of(&self, entry: &Selectable, matched: bool) -> (r: Option<String>)
        requires
            matched == self@.cwd_hit(entry.pane_id) is Some,
        ensures
            opt_view(r) == self@.cwd_row_of(entry@),
    {
        let wanted = (self.config.show_cwd && self.status.agents.contains_key(&entry.pane_id))
            || matched;
        if wanted && self.title_fallback(entry).is_none() {
            self.display_cwd(entry.pane_id)
        } else {
            None
        }
    }

    fn home_part(&self, pane_id: u32) -> (r: usize)
        requires
            self@.list.pane_cwds.contains_key(pane_id),
        ensures
            r == self@.home_part(pane_id),
    {
        if !self.config.show_cwd_tilde {
            return 0;
        }
        match (self.list.pane_cwds.get(&pane_id), &self.config.home) {
            (Some(path), Some(home)) => if lies_at_home(path.as_str(), home) {
                char_count(home.as_str())
            } else {
                0
            },
            _ => 0,
        }
    }

    fn shown_cwd_hit(&self, pane_id: u32, hit: Option<&Hit>, cwd: &str) -> (r: Option<Hit>)
        requires
            opt_view(hit) == self@.cwd_hit(pane_id),
            self@.display_cwd(pane_id) == Some(cwd@),
        ensures
            opt_view(r) == self@.shown_cwd_hit(pane_id),
    {
        let hit = match hit {
            Some(hit) => hit,
            None => {
                return None;
            },
        };
        let dropped = self.home_part(pane_id);
        if dropped == 0 {
            return Some(hit.clone());
        }
        let shown = char_count(cwd);
        let indices = fold_highlight_indices(&hit.indices, cwd, dropped, shown, 0);
        Some(Hit { score: hit.score, field: hit.field, indices })
    }

    fn push_entry_rows<'a>(&'a self, entry: &'a Selectable, index: usize, rows: &mut Vec<Row<'a>>)
        ensures
            views(final(rows)@) == views(old(rows)@) + self@.entry_rows(entry@, index as nat),
    {
        let ghost before = views(rows@);
        let hit = self.hit_of(entry.pane_id);
        if self.nav.search.is_some() && hit.is_none() {
            assert(before + Seq::<RowV>::empty() =~= before);
            return ;
        }
        let cwd_hit = match hit {
            Some(hit) => if matches!(hit.field, Field::Cwd) {
                Some(hit)
            } else {
                None
            },
            None => None,
        };
        let cwd = self.cwd_row_of(entry, cwd_hit.is_some());
        rows.push(Row::Pane(entry, index, hit));
        if let Some(cwd) = cwd {
            let shown = self.shown_cwd_hit(entry.pane_id, cwd_hit, cwd.as_str());
            rows.push(Row::Cwd(entry, index, cwd, shown));
        }
        assert(views(rows@) =~= before + self@.entry_rows(entry@, index as nat));
    }

    fn push_tab_rows<'a>(&'a self, position: usize, base: usize, rows: &mut Vec<Row<'a>>) -> (r:
        usize)
        ensures
            views(final(rows)@) == views(old(rows)@) + self@.tab_rows(
                position,
                self@.list.selectable,
                base as nat,
            ),
            r == capped(base as nat + count_in(self@.list.selectable, position)),
    {
        let ghost before = views(rows@);
        let ghost all = self@.list.selectable;
        let mut index: usize = base;
        let mut i: usize = 0;
        assert(all.take(0) =~= Seq::empty());
        assert(before + self@.tab_rows(position, all.take(0), base as nat) =~= before);
        while i < self.list.selectable.len()
            invariant
                i <= self.list.selectable.len(),
                all == self@.list.selectable,
                index == capped(base as nat + count_in(all.take(i as int), position)),
                views(rows@) == before + self@.tab_rows(position, all.take(i as int), base as nat),
            decreases self.list.selectable.len() - i,
        {
            let entry = &self.list.selectable[i];
            assert(all.take(i + 1).drop_last() =~= all.take(i as int));
            assert(all.take(i + 1).last() == entry@);
            if entry.tab_position == position {
                let ghost now = views(rows@);
                self.push_entry_rows(entry, index, rows);
                assert(views(rows@) =~= before + self@.tab_rows(
                    position,
                    all.take(i + 1),
                    base as nat,
                ));
                index = index.saturating_add(1);
            }
            i += 1;
        }
        assert(all.take(i as int) =~= all);
        index
    }

    fn tab_hidden(&self, position: usize) -> (r: bool)
        ensures
            r == self@.tab_hidden(position),
    {
        let search = match &self.nav.search {
            Some(search) => search,
            None => {
                return false;
            },
        };
        let ghost all = self@.list.selectable;
        let mut i: usize = 0;
        while i < self.list.selectable.len()
            invariant
                i <= self.list.selectable.len(),
                all == self@.list.selectable,
                self@.nav.search == Some(search@),
                forall|j: int|
                    0 <= j < i && (#[trigger] all[j]).tab_position == position
                        ==> !search@.hits.contains_key(all[j].pane_id),
            decreases self.list.selectable.len() - i,
        {
            let entry = &self.list.selectable[i];
            assert(all[i as int] == entry@);
            if entry.tab_position == position && search.hits.contains_key(&entry.pane_id) {
                return false;
            }
            i += 1;
        }
        true
    }

    fn tab_order(&self) -> (r: Vec<usize>)
        ensures
            r@ == key_order(tab_positions(self@.list.tabs), self@.list.tabs.len()),
            forall|j: int| 0 <= j < r@.len() ==> (#[trigger] r@[j]) < self.list.tabs.len(),
    {
        let ghost tabs = self@.list.tabs;
        let mut keys: Vec<usize> = Vec::new();
        let mut i: usize = 0;
        while i < self.list.tabs.len()
            invariant
                i <= self.list.tabs.len(),
                tabs == self@.list.tabs,
                keys@ =~= tab_positions(tabs).take(i as int),
            decreases self.list.tabs.len() - i,
        {
            keys.push(self.list.tabs[i].position);
            i += 1;
        }
        assert(keys@ =~= tab_positions(tabs));
        sort_order(&keys)
    }

    fn tree_rows(&self) -> (r: Vec<Row<'_>>)
        ensures
            views(r@) == self@.tree_rows(sorted_tabs(self@.list.tabs)),
    {
        let order = self.tab_order();
        let ghost tabs = self@.list.tabs;
        let ghost sorted = sorted_tabs(tabs);
        let mut rows: Vec<Row<'_>> = Vec::new();
        let mut count: usize = 0;
        let mut k: usize = 0;
        assert(sorted.take(0) =~= Seq::empty());
        while k < order.len()
            invariant
                k <= order.len(),
                tabs == self@.list.tabs,
                sorted == sorted_tabs(tabs),
                order@ == key_order(tab_positions(tabs), tabs.len()),
                forall|j: int| 0 <= j < order@.len() ==> (#[trigger] order@[j]) < tabs.len(),
                count == self@.tree_count(sorted.take(k as int)),
                views(rows@) == self@.tree_rows(sorted.take(k as int)),
            decreases order.len() - k,
        {
            let tab = &self.list.tabs[order[k]];
            assert(sorted[k as int] == tab@);
            assert(sorted.take(k + 1).drop_last() =~= sorted.take(k as int));
            assert(sorted.take(k + 1).last() == tab@);
            if !self.tab_hidden(tab.position) {
                rows.push(Row::Tab(tab));
                count = self.push_tab_rows(tab.position, count, &mut rows);
            }
            k += 1;
        }
        assert(sorted.take(k as int) =~= sorted);
        rows
    }
}

fn lies_at_home(path: &str, home: &String) -> (r: bool)
    ensures
        r == at_home(path@, Some(home@)),
{
    if home.as_str().is_empty() {
        return false;
    }
    let mut below = home.clone();
    below.push('/');
    same(path, home.as_str()) || starts_with(path, below.as_str())
}

fn shorten_home(path: &str, home: &Option<String>) -> (r: String)
    ensures
        r@ == with_tilde(path@, opt_view(*home)),
{
    let home = match home {
        Some(home) => home,
        None => {
            return path.to_owned();
        },
    };
    if !lies_at_home(path, home) {
        return path.to_owned();
    }
    let chars = chars_of(path);
    let start = chars_of(home.as_str());
    proof {
        if begins_with(path@, home@.push('/')) {
            assert(path@.len() >= home@.len() + 1);
        }
    }
    let rest = slice_of(&chars, start.len(), chars.len());
    let mut out = String::new();
    out.push('~');
    out.push_str(rest.as_str());
    assert(out@ =~= seq!['~'] + path@.skip(home@.len() as int));
    out
}

impl State {
    fn triage_rows(&self) -> (r: Vec<Row<'_>>)
        ensures
            views(r@) == self@.triage_rows(),
    {
        let entries = self.triage_entries();
        let ghost v = views(entries@);
        let mut rows: Vec<Row<'_>> = Vec::new();
        if entries.len() == 0 {
            rows.push(Row::Notice("nothing to triage"));
            assert(views(rows@) =~= self@.triage_rows());
            return rows;
        }
        let mut i: usize = 0;
        while i < entries.len()
            invariant
                i <= entries.len(),
                entries.len() > 0,
                v == views(entries@),
                v == self@.triage_list(),
                views(rows@) =~= self@.triage_rows().take(i as int),
            decreases entries.len() - i,
        {
            let entry = entries[i];
            assert(v[i as int] == entry@);
            rows.push(Row::Triage(entry, self.tab_name(entry.tab_position)));
            i += 1;
        }
        assert(views(rows@) =~= self@.triage_rows());
        rows
    }

    fn help_overlay_rows(&self) -> (r: Vec<Row<'_>>)
        ensures
            views(r@) == (self@.help_rows() + legend_rows()).map_values(
                |r: HelpRowV| RowV::Help(r),
            ),
    {
        let mut help = self.help_lines();
        let mut legend = status_legend();
        let ghost all = self@.help_rows() + legend_rows();
        let ghost target = all.map_values(|r: HelpRowV| RowV::Help(r));
        help.append(&mut legend);
        assert(views(help@) =~= all);
        let mut rows: Vec<Row<'_>> = Vec::new();
        let mut i: usize = 0;
        while i < help.len()
            invariant
                i <= help.len(),
                views(help@) == all,
                target == all.map_values(|r: HelpRowV| RowV::Help(r)),
                views(rows@) =~= target.take(i as int),
            decreases help.len() - i,
        {
            assert(all[i as int] == help[i as int]@);
            rows.push(Row::Help(help[i]));
            i += 1;
        }
        assert(views(rows@) =~= target);
        rows
    }

    /// The rows inside the frame.
    pub fn content_rows(&self) -> (r: Vec<Row<'_>>)
        ensures
            views(r@) == self@.content_rows(),
    {
        if self.nav.help_overlay {
            return self.help_overlay_rows();
        }
        if self.nav.triage.is_some() {
            return self.triage_rows();
        }
        if let Some(search) = &self.nav.search {
            assert(search@.hits.dom() == search.hits@.dom());
            if search.hits.is_empty() {
                let mut rows: Vec<Row<'_>> = Vec::new();
                rows.push(Row::Notice("no matches"));
                assert(views(rows@) =~= seq![RowV::Notice("no matches"@)]);
                assert(search.hits@.dom() =~= Set::empty());
                return rows;
            }
        }
        self.tree_rows()
    }

    /// All rows of the sidebar, whatever its height.
    pub fn visible_rows(&self) -> (r: Vec<Row<'_>>)
        ensures
            views(r@) == self@.visible_rows(),
    {
        let mut rows: Vec<Row<'_>> = Vec::new();
        if !self.me.permissions_granted {
            return rows;
        }
        let mut content = self.content_rows();
        rows.push(Row::Divider);
        rows.push(Row::Header);
        rows.push(Row::Divider);
        let ghost inner = views(content@);
        rows.append(&mut content);
        rows.push(Row::Divider);
        rows.push(Row::Footer);
        rows.push(Row::Blank);
        assert(views(rows@) =~= frame_top() + inner + frame_bottom());
        rows
    }
}

// --- laws ---

/// In a shortened directory the same characters are lit: each matched character behind the
/// home directory is lit where it stands now.
pub proof fn law_shortened_hit(path: Seq<char>, home: Seq<char>, i: int)
    requires
        at_home(path, Some(home)),
        home.len() <= i < path.len(),
        path.len() < usize::MAX,
    ensures
        with_tilde(path, Some(home))[i - home.len() + 1] == path[i],
        behind(seq![i as usize], home.len(), with_tilde(path, Some(home)).len(), 0) == seq![
            (i - home.len() + 1) as usize,
        ],
{
    let one = seq![i as usize];
    assert(one.drop_last() =~= Seq::empty());
    assert(behind(one.drop_last(), home.len(), with_tilde(path, Some(home)).len(), 0)
        =~= Seq::empty());
}

} // verus!
