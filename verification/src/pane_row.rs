//! The rows of the tree: the heading of a tab, a pane, and a working directory.

use vstd::prelude::*;

use crate::command::PaneStatus;
use crate::host::{TabInfo, TabInfoV};
use crate::ids::{group_views, opt_view};
use crate::line::{
    append_right_column, brackets, capped, content_cols, content_width, counter_labels,
    floating_brackets, head_text, less, number_text, row_head, with_column, CounterColumn,
    Decoration, DecorationV, Line, LineV, RowHead, COLUMN_GAP, CWD_INDENT, FLOATING_BRACKETS,
    NO_AGENT_ICON,
};
use crate::matcher::{Field, Hit, HitV};
use crate::state::{Selectable, SelectableV, State, StateV};
use crate::text::{char_count, concat, decimal, digits, repeat, spaces};
use crate::width::{
    cut, cut_start, display_width, fold_highlight_indices, fold_to_width, folded, folded_places,
    own_chars, pad_to_width, room, shift_highlight_indices, shifted, truncate, truncate_start,
    width_of,
};

verus! {

broadcast use group_views;

/// What stands in front of the icon of a row: its number, where rows are numbered, and its
/// mark, where the frame has a column for marks.
#[derive(Debug, Clone, Copy)]
pub struct HeadCells<'a> {
    pub number: Option<(&'a str, bool)>,
    pub mark: Option<bool>,
}

// --- the heading of a tab ---

/// What stands in front of the name of a tab.
pub open spec fn tab_prefix(tab: TabInfoV) -> Seq<char> {
    (if tab.active {
        "▾"@
    } else {
        "▸"@
    }) + seq![' '] + digits(tab.position as nat + 1) + seq![' ']
}

impl StateV {
    /// The first hit in the name of the tab among these panes.
    pub open spec fn tab_hit(self, list: Seq<SelectableV>, position: usize) -> Option<HitV>
        decreases list.len(),
    {
        if list.len() == 0 {
            None
        } else {
            let hit = self.hit_of(list[0].pane_id);
            if list[0].tab_position == position && hit is Some && hit->0.field == Field::Tab {
                hit
            } else {
                self.tab_hit(list.drop_first(), position)
            }
        }
    }

    pub open spec fn tab_heading(self, tab: TabInfoV, cols: nat) -> LineV {
        let full = tab_prefix(tab) + tab.name;
        let title = cut(full, content_width(cols));
        let line = if tab.active {
            LineV::plain(title).with(DecorationV::Color(0, 0, title.len() as usize))
        } else {
            LineV::plain(title)
        };
        match self.tab_hit(self.list.selectable, tab.position) {
            Some(hit) => line.with_hits(
                shifted(hit.indices, tab_prefix(tab).len(), own_chars(title.len(), full.len())),
            ),
            None => line,
        }
    }
}

fn tab_head(tab: &TabInfo) -> (r: String)
    ensures
        r@ == tab_prefix(tab@),
{
    let mut prefix = if tab.active {
        "▾".to_owned()
    } else {
        "▸".to_owned()
    };
    let number = decimal(tab.position as u128 + 1);
    prefix.push(' ');
    prefix.push_str(number.as_str());
    prefix.push(' ');
    assert(prefix@ =~= tab_prefix(tab@));
    prefix
}

impl State {
    fn tab_hit(&self, position: usize) -> (r: Option<&Hit>)
        ensures
            opt_view(r) == self@.tab_hit(self@.list.selectable, position),
    {
        let ghost v = self@.list.selectable;
        let mut i: usize = 0;
        assert(v.skip(0) =~= v);
        while i < self.list.selectable.len()
            invariant
                i <= self.list.selectable.len(),
                v == self@.list.selectable,
                self@.tab_hit(v, position) == self@.tab_hit(v.skip(i as int), position),
            decreases self.list.selectable.len() - i,
        {
            assert(v.skip(i as int)[0] == self.list.selectable[i as int]@);
            assert(v.skip(i as int).drop_first() =~= v.skip(i + 1));
            let entry = &self.list.selectable[i];
            if entry.tab_position == position {
                if let Some(hit) = self.hit_of(entry.pane_id) {
                    if hit.field == Field::Tab {
                        return Some(hit);
                    }
                }
            }
            i += 1;
        }
        None
    }

    /// The heading of a tab.
    pub fn tab_heading(&self, tab: &TabInfo, cols: usize) -> (r: Line)
        ensures
            r@ == self@.tab_heading(tab@, cols as nat),
            width_of(r@.text) <= content_width(cols as nat),
    {
        let prefix = tab_head(tab);
        let full = concat(prefix.as_str(), tab.name.as_str());
        let title = truncate(full.as_str(), content_cols(cols));
        let len = char_count(title.as_str());
        let mut line = Line::new(title.as_str());
        if tab.active {
            line.decorate(Decoration::Color(0, 0, len));
        }
        if let Some(hit) = self.tab_hit(tab.position) {
            line.color_hits(
                shift_highlight_indices(
                    &hit.indices,
                    char_count(prefix.as_str()),
                    len,
                    char_count(full.as_str()),
                ),
            );
        }
        line
    }
}

// --- parts of a row ---

impl LineV {
    /// The icon in the colour of the state; `head` is the length of the row's start.
    pub open spec fn with_status(self, status: Option<PaneStatus>, head: nat) -> LineV {
        match status {
            Some(status) => self.with(
                DecorationV::Color(
                    status.like_agent().level(),
                    less(head, 2) as usize,
                    (less(head, 2) + 1) as usize,
                ),
            ),
            None => self,
        }
    }

    /// The number in the colour of keys, or dimmed where it is out of the running.
    pub open spec fn with_number(self, number: Option<(Seq<char>, bool)>) -> LineV {
        match number {
            Some((digits, true)) => self.with(
                DecorationV::Color(2, 2, (2 + digits.len()) as usize),
            ),
            Some((digits, false)) => self.with(DecorationV::Dim(2, (2 + digits.len()) as usize)),
            None => self,
        }
    }

    /// The mark in its colour.
    pub open spec fn with_mark(self, mark: Option<bool>, head: nat) -> LineV {
        if mark == Some(true) {
            self.with(
                DecorationV::Color(2, less(head, 4) as usize, (less(head, 4) + 1) as usize),
            )
        } else {
            self
        }
    }
}

pub fn decorate_head(
    line: &mut Line,
    head: &RowHead,
    status: Option<PaneStatus>,
    number: Option<(&str, bool)>,
    mark: Option<bool>,
)
    requires
        head.icon_at == less(head.text@.len(), 2),
        head.mark_at is Some == mark is Some,
        head.mark_at is Some ==> head.mark_at->0 == less(head.text@.len(), 4),
        2 <= head.text@.len() <= usize::MAX,
        number is Some ==> 2 + (number->0).0@.len() <= head.text@.len(),
    ensures
        final(line)@ == old(line)@.with_status(status, head.text@.len()).with_number(
            number_text(number),
        ).with_mark(mark, head.text@.len()),
{
    if let Some(status) = status {
        line.decorate(Decoration::Color(status.color(), head.icon_at, head.icon_at + 1));
    }
    if let Some((digits, matches)) = number {
        let end = 2 + char_count(digits);
        if matches {
            line.decorate(Decoration::Color(2, 2, end));
        } else {
            line.decorate(Decoration::Dim(2, end));
        }
    }
    if let Some(at) = head.mark_at {
        if let Some(marked) = mark {
            if marked {
                line.decorate(Decoration::Color(2, at, at + 1));
            }
        }
    }
}

/// The text, filled up to `cols` columns where the row is lit.
pub open spec fn filled(label: Seq<char>, lit: bool, cols: nat) -> Seq<char> {
    if lit {
        label + spaces(room(label, cols))
    } else {
        label
    }
}

pub fn fill(label: String, lit: bool, cols: usize) -> (r: String)
    ensures
        r@ == filled(label@, lit, cols as nat),
        lit && width_of(label@) <= cols ==> width_of(r@) == cols,
        lit ==> width_of(r@) >= cols,
{
    if lit {
        pad_to_width(label, cols)
    } else {
        label
    }
}

/// The columns of the brackets of a pane.
pub open spec fn bracket_room(floating: bool) -> nat {
    if floating {
        FLOATING_BRACKETS as nat
    } else {
        0
    }
}

// --- a pane ---

impl StateV {
    /// The start of a pane's row.
    pub open spec fn pane_head(
        self,
        e: SelectableV,
        lit: bool,
        number: Option<(Seq<char>, bool)>,
        mark: Option<bool>,
    ) -> Seq<char> {
        head_text(
            lit,
            number,
            mark,
            match self.status(e.pane_id) {
                Some(status) => status.like_agent().icon_text(),
                None => NO_AGENT_ICON@,
            },
        )
    }

    /// The counters of a pane in their columns.
    pub open spec fn pane_counters(self, e: SelectableV, column: CounterColumn) -> Seq<char> {
        column.cells(self.counters(e.pane_id).0, self.counters(e.pane_id).1)
    }

    /// The columns that are left for the name beside the start and the counters of the row.
    pub open spec fn name_room(
        self,
        e: SelectableV,
        head: Seq<char>,
        counters: Seq<char>,
        cols: nat,
    ) -> nat {
        less(
            content_width(cols),
            capped(
                width_of(head) + bracket_room(e.is_floating) + if counters.len() == 0 {
                    0nat
                } else {
                    COLUMN_GAP as nat + width_of(counters)
                },
            ),
        )
    }

    /// The text of a pane's row: the counters stand at its right end.
    pub open spec fn pane_label(
        self,
        e: SelectableV,
        head: Seq<char>,
        title: Seq<char>,
        counters: Seq<char>,
        cols: nat,
    ) -> Seq<char> {
        let label = named(e, head, title);
        if counters.len() == 0 {
            label
        } else {
            with_column(label, counters, content_width(cols))
        }
    }

    /// The places of a hit in the name of a pane. Where the directory stands in for the name
    /// it is the hit in the directory.
    pub open spec fn name_hits(
        self,
        e: SelectableV,
        hit: Option<HitV>,
        head: Seq<char>,
        name: (Seq<char>, nat),
    ) -> Seq<usize> {
        let field = if self.title_fallback(e) is Some {
            Field::Cwd
        } else {
            Field::Title
        };
        if hit is Some && hit->0.field == field {
            folded_places(
                hit->0.indices,
                name.0,
                name.1,
                self.display_title(e).len(),
                head.len() + brackets(e.is_floating, name.0).0.len(),
            )
        } else {
            Seq::empty()
        }
    }

    pub open spec fn pane_row(
        self,
        e: SelectableV,
        lit: bool,
        hit: Option<HitV>,
        column: CounterColumn,
        number: Option<(Seq<char>, bool)>,
        mark: Option<bool>,
        cols: nat,
    ) -> LineV {
        let head = self.pane_head(e, lit, number, mark);
        let counters = self.pane_counters(e, column);
        let name = folded(self.display_title(e), self.name_room(e, head, counters, cols));
        let label = filled(self.pane_label(e, head, name.0, counters, cols), lit, cols);
        let line = LineV::plain(label).with_name(lit, head.len(), named(e, head, name.0).len());
        let line = line.with_status(self.status(e.pane_id), head.len()).with_number(
            number,
        ).with_mark(mark, head.len());
        line.with_hits(self.name_hits(e, hit, head, name)).lit(lit)
    }
}

/// The start of a row and the name behind it, in brackets where the pane floats.
pub open spec fn named(e: SelectableV, head: Seq<char>, title: Seq<char>) -> Seq<char> {
    head + brackets(e.is_floating, title).0 + title + brackets(e.is_floating, title).1
}

impl LineV {
    /// The name in a normal weight, from one place up to another, unless the row is lit.
    pub open spec fn with_name(self, lit: bool, start: nat, end: nat) -> LineV {
        if lit {
            self
        } else {
            self.with(DecorationV::Unbold(start as usize, end as usize))
        }
    }

    pub open spec fn lit(self, lit: bool) -> LineV {
        if lit {
            self.highlighted()
        } else {
            self
        }
    }
}

/// The start of a row and the name behind it.
pub fn name_row(entry: &Selectable, head: &str, title: &str) -> (r: (String, usize))
    ensures
        r.0@ == named(entry@, head@, title@),
        r.1 == head@.len() + brackets(entry.is_floating, title@).0.len(),
        r.1 + title@.len() <= r.0@.len() <= usize::MAX,
{
    let (open, close) = floating_brackets(entry, title);
    let mut label = concat(head, open);
    let at = char_count(label.as_str());
    label.push_str(title);
    label.push_str(close);
    let _ = char_count(label.as_str());
    (label, at)
}

impl State {
    fn name_hits(
        &self,
        entry: &Selectable,
        hit: Option<&Hit>,
        title: &str,
        dropped: usize,
        at: usize,
        head: Ghost<Seq<char>>,
    ) -> (r: Vec<usize>)
        requires
            title@.len() + at <= usize::MAX,
            at == head@.len() + brackets(entry.is_floating, title@).0.len(),
        ensures
            r@ == self@.name_hits(entry@, opt_view(hit), head@, (title@, dropped as nat)),
    {
        let field = if self.title_fallback(entry).is_some() {
            Field::Cwd
        } else {
            Field::Title
        };
        if let Some(hit) = hit {
            if hit.field == field {
                let full = char_count(self.display_title(entry).as_str());
                return fold_highlight_indices(&hit.indices, title, dropped, full, at);
            }
        }
        Vec::new()
    }

    fn pane_head(&self, entry: &Selectable, lit: bool, cells: HeadCells<'_>) -> (r: RowHead)
        ensures
            r.text@ == self@.pane_head(entry@, lit, number_text(cells.number), cells.mark),
            r.icon_at == less(r.text@.len(), 2),
            r.mark_at is Some == cells.mark is Some,
            r.mark_at is Some ==> r.mark_at->0 == less(r.text@.len(), 4),
            2 <= r.text@.len() <= usize::MAX,
            cells.number is Some ==> 2 + (cells.number->0).0@.len() <= r.text@.len(),
    {
        let icon = match self.pane_status(entry.pane_id) {
            Some(status) => status.icon(),
            None => NO_AGENT_ICON,
        };
        row_head(lit, cells.number, cells.mark, icon)
    }

    fn pane_counters(&self, entry: &Selectable, column: CounterColumn) -> (r: String)
        ensures
            r@ == self@.pane_counters(entry@, column),
    {
        let (subagents, open_tasks) = counter_labels(self.status.agents.get(&entry.pane_id));
        column.render(subagents.as_str(), open_tasks.as_str())
    }

    fn name_room(&self, entry: &Selectable, head: &str, counters: &str, cols: usize) -> (r: usize)
        ensures
            r == self@.name_room(entry@, head@, counters@, cols as nat),
    {
        let brackets_width: usize = if entry.is_floating {
            FLOATING_BRACKETS
        } else {
            0
        };
        let mut reserved = display_width(head).saturating_add(brackets_width);
        if !counters.is_empty() {
            reserved = reserved.saturating_add(COLUMN_GAP).saturating_add(display_width(counters));
        }
        content_cols(cols).saturating_sub(reserved)
    }

    /// The row of a pane: the state, the name, and the counters at the right.
    pub fn pane_row(
        &self,
        entry: &Selectable,
        lit: bool,
        hit: Option<&Hit>,
        column: CounterColumn,
        cells: HeadCells<'_>,
        cols: usize,
    ) -> (r: Line)
        ensures
            r@ == self@.pane_row(
                entry@,
                lit,
                opt_view(hit),
                column,
                number_text(cells.number),
                cells.mark,
                cols as nat,
            ),
            lit ==> width_of(r@.text) >= cols,
    {
        let head = self.pane_head(entry, lit, cells);
        let counters = self.pane_counters(entry, column);
        let budget = self.name_room(entry, head.text.as_str(), counters.as_str(), cols);
        let source = self.display_title(entry);
        let (title, dropped) = fold_to_width(source.as_str(), budget);
        let (row, at) = name_row(entry, head.text.as_str(), title.as_str());
        let start = char_count(head.text.as_str());
        let end = char_count(row.as_str());
        let label = if counters.as_str().is_empty() {
            row
        } else {
            append_right_column(&row, counters.as_str(), content_cols(cols)).0
        };
        let label = fill(label, lit, cols);
        let hits = self.name_hits(entry, hit, title.as_str(), dropped, at, Ghost(head.text@));
        let mut line = Line::new(label.as_str());
        if !lit {
            line.decorate(Decoration::Unbold(start, end));
        }
        decorate_head(
            &mut line,
            &head,
            self.pane_status(entry.pane_id),
            cells.number,
            cells.mark,
        );
        line.color_hits(hits);
        if lit {
            line.highlight();
        }
        line
    }
}

// --- a working directory ---

/// The indent of a working directory; where it is lit the bar goes on.
pub open spec fn cwd_indent(lit: bool) -> Seq<char> {
    (if lit {
        "▌"@
    } else {
        " "@
    }) + spaces(less(CWD_INDENT as nat, 1))
}

pub open spec fn cwd_line(cwd: Seq<char>, lit: bool, hit: Option<HitV>, cols: nat) -> LineV {
    let inner = content_width(cols);
    let (path, dropped) = cut_start(cwd, less(inner, CWD_INDENT as nat));
    let label = filled(cut(cwd_indent(lit) + path, inner), lit, cols);
    let line = if label.len() > CWD_INDENT {
        LineV::plain(label).with(DecorationV::Dim(CWD_INDENT, label.len() as usize))
    } else {
        LineV::plain(label)
    };
    (match hit {
        Some(hit) => line.with_hits(
            folded_places(hit.indices, path, dropped, cwd.len(), CWD_INDENT as nat),
        ),
        None => line,
    }).lit(lit)
}

/// The row of a working directory.
pub fn cwd_row(cwd: &str, lit: bool, hit: Option<&Hit>, cols: usize) -> (r: Line)
    ensures
        r@ == cwd_line(cwd@, lit, opt_view(hit), cols as nat),
        lit ==> width_of(r@.text) == cols,
        !lit ==> width_of(r@.text) <= content_width(cols as nat),
{
    let bar = if lit {
        "▌"
    } else {
        " "
    };
    let indent = concat(bar, repeat(' ', CWD_INDENT.saturating_sub(1)).as_str());
    let inner = content_cols(cols);
    let (path, dropped) = truncate_start(cwd, inner.saturating_sub(CWD_INDENT));
    let row = concat(indent.as_str(), path.as_str());
    let cutted = truncate(row.as_str(), inner);
    let label = fill(cutted, lit, cols);
    let end = char_count(label.as_str());
    let mut line = Line::new(label.as_str());
    if end > CWD_INDENT {
        line.decorate(Decoration::Dim(CWD_INDENT, end));
    }
    if let Some(hit) = hit {
        proof {
            reveal_strlit("▌");
            reveal_strlit(" ");
            assert(indent@.len() == CWD_INDENT);
        }
        let total = char_count(row.as_str());
        assert(total == path@.len() + CWD_INDENT);
        line.color_hits(
            fold_highlight_indices(
                &hit.indices,
                path.as_str(),
                dropped,
                char_count(cwd),
                CWD_INDENT,
            ),
        );
    }
    if lit {
        line.highlight();
    }
    line
}

} // verus!
