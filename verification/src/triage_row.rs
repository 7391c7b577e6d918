//! The rows of the triage list: a pane with the name of its tab at the right.

use vstd::prelude::*;

use crate::ids::{group_views, views};
use crate::line::{
    append_right_column, capped, column_span, content_cols, content_width, head_text, less,
    row_head, with_column, Decoration, DecorationV, Line, LineV, RowHead, COLUMN_GAP,
    FLOATING_BRACKETS,
};
use crate::pane_row::{bracket_room, decorate_head, fill, filled, name_row, named};
use crate::rows::{Row, RowV};
use crate::state::{Selectable, SelectableV, State, StateV};
use crate::text::char_count;
use crate::width::{cut, display_width, fold_to_width, folded, truncate, width_of};

verus! {

broadcast use group_views;

/// The names of tabs take no more than this part of the width.
pub const TRIAGE_TAB_SHARE: usize = 3;

/// The widest name of a tab among the rows.
pub open spec fn widest_tab(rows: Seq<RowV>) -> nat
    decreases rows.len(),
{
    if rows.len() == 0 {
        0
    } else {
        let front = widest_tab(rows.drop_last());
        match rows.last() {
            RowV::Triage(_, tab) => if front < width_of(tab) {
                width_of(tab)
            } else {
                front
            },
            _ => front,
        }
    }
}

/// The column of the tab names: as wide as the widest, up to its share.
pub open spec fn tab_column(rows: Seq<RowV>, cols: nat) -> nat {
    let share = content_width(cols) / TRIAGE_TAB_SHARE as nat;
    if widest_tab(rows) < share {
        widest_tab(rows)
    } else {
        share
    }
}

impl StateV {
    pub open spec fn triage_head(self, e: SelectableV, lit: bool, mark: Option<bool>) -> Seq<char> {
        head_text(
            lit,
            None,
            mark,
            match self.status(e.pane_id) {
                Some(status) => status.like_agent().icon_text(),
                None => " "@,
            },
        )
    }

    /// The columns that are left for the name of the pane.
    pub open spec fn triage_name_room(
        self,
        e: SelectableV,
        head: Seq<char>,
        tab: Seq<char>,
        column: nat,
        cols: nat,
    ) -> nat {
        less(
            content_width(cols),
            capped(
                width_of(head) + bracket_room(e.is_floating) + if tab.len() == 0 {
                    0nat
                } else {
                    COLUMN_GAP as nat + column
                },
            ),
        )
    }

    pub open spec fn triage_row(
        self,
        e: SelectableV,
        tab_name: Seq<char>,
        lit: bool,
        column: nat,
        mark: Option<bool>,
        cols: nat,
    ) -> LineV {
        let inner = content_width(cols);
        let head = self.triage_head(e, lit, mark);
        let tab = cut(tab_name, column);
        let title = folded(
            self.display_title(e),
            self.triage_name_room(e, head, tab, column, cols),
        ).0;
        let row = named(e, head, title);
        let label = if tab.len() == 0 {
            row
        } else {
            with_column(row, tab, inner)
        };
        let span = if tab.len() == 0 {
            None
        } else {
            column_span(row, tab, inner)
        };
        let line = LineV::plain(filled(label, lit, cols)).with_name(lit, head.len(), row.len());
        let line = line.with_status(self.status(e.pane_id), head.len()).with_number(
            None,
        ).with_mark(mark, head.len());
        (match span {
            Some((start, end)) => if lit {
                line
            } else {
                line.with(DecorationV::Dim(start, end))
            },
            None => line,
        }).lit(lit)
    }
}

impl State {
    /// The column of the tab names in this frame.
    pub fn triage_tab_column(&self, rows: &Vec<Row<'_>>, cols: usize) -> (r: usize)
        ensures
            r == tab_column(views(rows@), cols as nat),
    {
        let ghost v = views(rows@);
        let mut widest: usize = 0;
        let mut i: usize = 0;
        assert(v.take(0) =~= Seq::empty());
        while i < rows.len()
            invariant
                i <= rows.len(),
                v == views(rows@),
                widest == widest_tab(v.take(i as int)),
            decreases rows.len() - i,
        {
            assert(v.take(i + 1).drop_last() =~= v.take(i as int));
            assert(v.take(i + 1).last() == rows[i as int]@);
            if let Row::Triage(_, tab) = &rows[i] {
                let width = display_width(tab);
                if widest < width {
                    widest = width;
                }
            }
            i += 1;
        }
        assert(v.take(i as int) =~= v);
        let share = content_cols(cols) / TRIAGE_TAB_SHARE;
        if widest < share {
            widest
        } else {
            share
        }
    }

    fn triage_head(&self, entry: &Selectable, lit: bool, mark: Option<bool>) -> (r: RowHead)
        ensures
            r.text@ == self@.triage_head(entry@, lit, mark),
            r.icon_at == less(r.text@.len(), 2),
            r.mark_at is Some == mark is Some,
            r.mark_at is Some ==> r.mark_at->0 == less(r.text@.len(), 4),
            2 <= r.text@.len() <= usize::MAX,
    {
        let icon = match self.pane_status(entry.pane_id) {
            Some(status) => status.icon(),
            None => " ",
        };
        row_head(lit, None, mark, icon)
    }

    fn triage_name_room(
        &self,
        entry: &Selectable,
        head: &str,
        tab: &str,
        column: usize,
        cols: usize,
    ) -> (r: usize)
        ensures
            r == self@.triage_name_room(entry@, head@, tab@, column as nat, cols as nat),
    {
        let brackets_width: usize = if entry.is_floating {
            FLOATING_BRACKETS
        } else {
            0
        };
        let mut reserved = display_width(head).saturating_add(brackets_width);
        if !tab.is_empty() {
            reserved = reserved.saturating_add(COLUMN_GAP).saturating_add(column);
        }
        content_cols(cols).saturating_sub(reserved)
    }

    /// The row of a pane in the triage list.
    pub fn triage_row(
        &self,
        entry: &Selectable,
        tab_name: &str,
        lit: bool,
        column: usize,
        mark: Option<bool>,
        cols: usize,
    ) -> (r: Line)
        ensures
            r@ == self@.triage_row(entry@, tab_name@, lit, column as nat, mark, cols as nat),
            lit ==> width_of(r@.text) >= cols,
    {
        let head = self.triage_head(entry, lit, mark);
        let tab = truncate(tab_name, column);
        let budget = self.triage_name_room(
            entry,
            head.text.as_str(),
            tab.as_str(),
            column,
            cols,
        );
        let source = self.display_title(entry);
        let (title, _) = fold_to_width(source.as_str(), budget);
        let (row, _) = name_row(entry, head.text.as_str(), title.as_str());
        let start = char_count(head.text.as_str());
        let end = char_count(row.as_str());
        let (label, span) = if tab.as_str().is_empty() {
            (row, None)
        } else {
            append_right_column(&row, tab.as_str(), content_cols(cols))
        };
        let label = fill(label, lit, cols);
        let mut line = Line::new(label.as_str());
        if !lit {
            line.decorate(Decoration::Unbold(start, end));
        }
        decorate_head(&mut line, &head, self.pane_status(entry.pane_id), None, mark);
        if let Some((from, to)) = span {
            if !lit {
                line.decorate(Decoration::Dim(from, to));
            }
        }
        if lit {
            line.highlight();
        }
        line
    }
}

} // verus!
