//! The frame as lines, and the text cursor of the inputs.

use vstd::prelude::*;

use crate::host::{HostCall, HostCallV};
use crate::ids::{group_views, opt_view, views};
use crate::line::{
    capped, compose, composed, content_cols, content_width, divider, divider_line, inked, less,
    CounterColumn, Ink, Line, LineV, HEADER_INDENT,
};
use crate::pane_row::{cwd_line, cwd_row, HeadCells};
use crate::preview::body_lines;
use crate::rows::{Row, RowV};
use crate::screen::law_frame_is_fixed;
use crate::search::SearchPhase;
use crate::state::{ScreenV, State, StateV};
use crate::text::{concat, decimal, digits, repeat, spaces};
use crate::triage_row::tab_column;
use crate::width::{cut, display_width, truncate, width_of};

verus! {

broadcast use group_views;

/// The rows above the text of a preview: a heading and a line.
pub const PREVIEW_HEAD: usize = 2;

/// The heading of a preview before the name of the pane is known.
pub const PREVIEW_PLACEHOLDER: &'static str = "preview";

/// The lines; a row that only takes its place has none.
pub open spec fn line_views(s: Seq<Option<Line>>) -> Seq<Option<LineV>> {
    s.map_values(|x: Option<Line>| opt_view(x))
}

/// How many rows are hidden, above or below.
pub open spec fn overflow_text(hidden: nat, above: bool) -> Seq<char> {
    (if above {
        "▴"@
    } else {
        "▾"@
    }) + " … "@ + digits(hidden) + " more"@
}

pub fn overflow_row(hidden: usize, above: bool, cols: usize) -> (r: Line)
    ensures
        r@ == composed(
            seq![(overflow_text(hidden as nat, above), Ink::Muted)],
            content_width(cols as nat),
        ),
{
    let marker = if above {
        "▴"
    } else {
        "▾"
    };
    let count = decimal(hidden as u128);
    let mut text = concat(marker, " … ");
    text.push_str(count.as_str());
    text.push_str(" more");
    assert(text@ =~= overflow_text(hidden as nat, above));
    muted_line(text.as_str(), content_cols(cols))
}

fn muted_line(text: &str, cols: usize) -> (r: Line)
    ensures
        r@ == composed(seq![(text@, Ink::Muted)], cols as nat),
{
    let mut segments: Vec<(&str, Ink)> = Vec::new();
    segments.push((text, Ink::Muted));
    assert(inked(segments@) =~= seq![(text@, Ink::Muted)]);
    compose(&segments, cols)
}

/// The columns that all rows of a frame share.
#[derive(Debug, Clone, Copy, PartialEq, Eq, Structural)]
pub struct Columns {
    pub counters: CounterColumn,
    pub tabs: usize,
    pub marks: bool,
}

/// The place of the first footer at or after row `i`.
pub open spec fn footer_from(rows: Seq<RowV>, i: nat) -> Option<usize>
    decreases rows.len() - i,
{
    if i >= rows.len() {
        None
    } else if rows[i as int] == RowV::Footer {
        Some(i as usize)
    } else {
        footer_from(rows, i + 1)
    }
}

impl StateV {
    pub open spec fn columns(self, rows: Seq<RowV>, cols: nat) -> Columns {
        Columns {
            counters: CounterColumn {
                subagents: self.counter_column(rows).0 as usize,
                open_tasks: self.counter_column(rows).1 as usize,
            },
            tabs: tab_column(rows, cols) as usize,
            marks: self.mark_column(rows),
        }
    }

    /// The mark of a pane, where the frame has a column for marks.
    pub open spec fn mark_of(self, pane_id: u32, marks: bool) -> Option<bool> {
        if marks {
            Some(self.list.marked.contains(pane_id))
        } else {
            None
        }
    }

    pub open spec fn row_line(self, row: RowV, columns: Columns, cols: nat) -> Option<LineV> {
        match row {
            RowV::Header => Some(self.header(cols)),
            RowV::Footer => Some(self.footer(cols)),
            RowV::Blank => None,
            RowV::Divider => Some(divider(cols)),
            RowV::Help(row) => Some(self.help_line(row, cols)),
            RowV::Notice(text) => Some(composed(seq![("  "@ + text, Ink::Muted)], cols)),
            RowV::Overflow(hidden, above) => Some(
                composed(
                    seq![(overflow_text(hidden as nat, above), Ink::Muted)],
                    content_width(cols),
                ),
            ),
            RowV::Tab(tab) => Some(self.tab_heading(tab, cols)),
            RowV::Pane(e, index, hit) => Some(
                self.pane_row(
                    e,
                    self.lit(row),
                    hit,
                    columns.counters,
                    self.jump_number(index as nat),
                    self.mark_of(e.pane_id, columns.marks),
                    cols,
                ),
            ),
            RowV::Triage(e, tab) => Some(
                self.triage_row(
                    e,
                    tab,
                    self.lit(row),
                    columns.tabs as nat,
                    self.mark_of(e.pane_id, columns.marks),
                    cols,
                ),
            ),
            RowV::Cwd(e, index, cwd, hit) => Some(cwd_line(cwd, self.lit(row), hit, cols)),
        }
    }

    /// The lines of the sidebar.
    pub open spec fn sidebar(self, rows: nat, cols: nat) -> Seq<Option<LineV>> {
        let screen = self.screen_rows(rows);
        screen.map_values(|row: RowV| self.row_line(row, self.columns(screen, cols), cols))
    }

    /// The lines of a preview: a heading, a line, and the text of the pane.
    pub open spec fn preview(self, rows: nat, cols: nat) -> Seq<Option<LineV>> {
        let content = self.screen.preview_content;
        let heading = composed(
            seq![
                (spaces(HEADER_INDENT as nat), Ink::Plain),
                (
                    if content.title.len() == 0 {
                        PREVIEW_PLACEHOLDER@
                    } else {
                        content.title
                    },
                    Ink::Muted,
                ),
            ],
            content_width(cols),
        );
        if !self.me.permissions_granted || rows == 0 {
            Seq::empty()
        } else if rows < PREVIEW_HEAD {
            seq![Some(heading)]
        } else {
            seq![Some(heading), Some(divider(cols))] + body_lines(
                content.lines,
                less(rows, PREVIEW_HEAD as nat),
            ).map_values(|text: Seq<char>| Some(LineV::plain(cut(text, cols))))
        }
    }

    /// The whole screen.
    pub open spec fn ui(self, rows: nat, cols: nat) -> Seq<Option<LineV>> {
        if self.me.is_preview {
            self.preview(rows, cols)
        } else if !self.me.permissions_granted {
            seq![Some(LineV::plain("permissions required (press y)"@))]
        } else if rows == 0 {
            Seq::empty()
        } else {
            self.sidebar(rows, cols)
        }
    }

    /// The column of the text cursor, where the footer holds an input.
    pub open spec fn cursor_column(self) -> Option<nat> {
        if self.nav.help_overlay || self.nav.termination is Some {
            None
        } else if self.nav.search is Some {
            Some(
                capped(
                    HEADER_INDENT as nat + width_of("/"@) + width_of(self.nav.search->0.query),
                ),
            )
        } else if self.nav.jump is Some {
            Some(
                capped(
                    HEADER_INDENT as nat + width_of("n "@) + width_of(self.nav.jump->0.buffer),
                ),
            )
        } else {
            None
        }
    }

    /// The text cursor, where there is an input on the screen: in the row of the footer, and
    /// never right of what takes text.
    pub open spec fn cursor(self) -> Option<(usize, usize)> {
        let last = less(content_width(self.screen.viewport_cols as nat), 1);
        match (
            self.cursor_column(),
            footer_from(self.screen_rows(self.screen.viewport_rows as nat), 0),
        ) {
            (Some(x), Some(y)) => if self.screen.viewport_rows == 0 {
                None
            } else {
                Some(
                    (
                        if x < last {
                            x as usize
                        } else {
                            last as usize
                        },
                        y,
                    ),
                )
            },
            _ => None,
        }
    }

    /// The host learns where the text cursor is when it moved.
    pub open spec fn sync_cursor(self) -> StateV {
        if self.cursor() == self.screen.cursor_shown {
            self
        } else {
            StateV {
                screen: ScreenV { cursor_shown: self.cursor(), ..self.screen },
                ..self.asks(HostCallV::ShowCursor(self.cursor()))
            }
        }
    }

    /// Somebody is typing: only their own keys may draw.
    pub open spec fn defers_render(self) -> bool {
        !self.nav.help_overlay && self.nav.termination is None && match self.nav.search {
            Some(search) => search.phase == SearchPhase::Editing,
            None => self.nav.jump is Some,
        }
    }
}

impl State {
    fn frame_columns(&self, screen: &Vec<Row<'_>>, cols: usize) -> (r: Columns)
        ensures
            r == self@.columns(views(screen@), cols as nat),
    {
        Columns {
            counters: self.counter_column(screen),
            tabs: self.triage_tab_column(screen, cols),
            marks: self.mark_column(screen),
        }
    }

    fn mark_of(&self, pane_id: u32, marks: bool) -> (r: Option<bool>)
        ensures
            r == self@.mark_of(pane_id, marks),
    {
        if marks {
            Some(self.is_marked(pane_id))
        } else {
            None
        }
    }

    fn row_line(
        &self,
        row: &Row<'_>,
        columns: Columns,
        triage_cursor: Option<u32>,
        cols: usize,
    ) -> (r: Option<Line>)
        requires
            triage_cursor == self@.triage_pane(),
        ensures
            opt_view(r) == self@.row_line(row@, columns, cols as nat),
    {
        match row {
            Row::Header => Some(self.header_line(cols)),
            Row::Footer => Some(self.footer_line(cols)),
            Row::Blank => None,
            Row::Divider => Some(divider_line(cols)),
            Row::Help(row) => Some(self.help_line(row, cols)),
            Row::Notice(notice) => {
                let label = concat("  ", notice);
                Some(muted_line(label.as_str(), cols))
            },
            Row::Overflow(hidden, above) => Some(overflow_row(*hidden, *above, cols)),
            Row::Tab(tab) => Some(self.tab_heading(tab, cols)),
            Row::Pane(entry, index, hit) => {
                let lit = self.row_is_highlighted(entry, *index);
                let mark = self.mark_of(entry.pane_id, columns.marks);
                match self.jump_number(*index) {
                    Some((digits, matches)) => {
                        let cells = HeadCells { number: Some((digits.as_str(), matches)), mark };
                        Some(self.pane_row(entry, lit, *hit, columns.counters, cells, cols))
                    },
                    None => {
                        let cells = HeadCells { number: None, mark };
                        Some(self.pane_row(entry, lit, *hit, columns.counters, cells, cols))
                    },
                }
            },
            Row::Triage(entry, tab) => {
                let lit = match triage_cursor {
                    Some(cursor) => cursor == entry.pane_id,
                    None => false,
                };
                let mark = self.mark_of(entry.pane_id, columns.marks);
                Some(self.triage_row(entry, tab, lit, columns.tabs, mark, cols))
            },
            Row::Cwd(entry, index, cwd, hit) => {
                let lit = self.row_is_highlighted(entry, *index);
                let hit = match hit {
                    Some(hit) => Some(hit),
                    None => None,
                };
                Some(cwd_row(cwd.as_str(), lit, hit, cols))
            },
        }
    }

    fn sidebar_lines(&self, rows: usize, cols: usize) -> (r: Vec<Option<Line>>)
        ensures
            line_views(r@) == self@.sidebar(rows as nat, cols as nat),
    {
        let screen = self.screen_rows(rows);
        let columns = self.frame_columns(&screen, cols);
        let triage_cursor = self.triage_cursor();
        let ghost v = views(screen@);
        let mut lines: Vec<Option<Line>> = Vec::new();
        let mut i: usize = 0;
        while i < screen.len()
            invariant
                i <= screen.len(),
                v == views(screen@),
                columns == self@.columns(v, cols as nat),
                triage_cursor == self@.triage_pane(),
                lines.len() == i,
                forall|j: int|
                    0 <= j < i ==> opt_view(#[trigger] lines@[j]) == self@.row_line(
                        v[j],
                        columns,
                        cols as nat,
                    ),
            decreases screen.len() - i,
        {
            assert(v[i as int] == screen[i as int]@);
            lines.push(self.row_line(&screen[i], columns, triage_cursor, cols));
            i += 1;
        }
        assert(line_views(lines@) =~= self@.sidebar(rows as nat, cols as nat));
        lines
    }

    fn preview_heading(&self, cols: usize) -> (r: Line)
        ensures
            r@ == composed(
                seq![
                    (spaces(HEADER_INDENT as nat), Ink::Plain),
                    (
                        if self@.screen.preview_content.title.len() == 0 {
                            PREVIEW_PLACEHOLDER@
                        } else {
                            self@.screen.preview_content.title
                        },
                        Ink::Muted,
                    ),
                ],
                content_width(cols as nat),
            ),
    {
        let indent = repeat(' ', HEADER_INDENT);
        let title = self.screen.preview_content.title.as_str();
        let shown = if title.is_empty() {
            PREVIEW_PLACEHOLDER
        } else {
            title
        };
        let mut segments: Vec<(&str, Ink)> = Vec::new();
        segments.push((indent.as_str(), Ink::Plain));
        segments.push((shown, Ink::Muted));
        assert(inked(segments@) =~= seq![(indent@, Ink::Plain), (shown@, Ink::Muted)]);
        compose(&segments, content_cols(cols))
    }

    fn preview_lines(&self, rows: usize, cols: usize) -> (r: Vec<Option<Line>>)
        ensures
            line_views(r@) == self@.preview(rows as nat, cols as nat),
    {
        let mut lines: Vec<Option<Line>> = Vec::new();
        if !self.me.permissions_granted || rows == 0 {
            assert(line_views(lines@) =~= Seq::empty());
            return lines;
        }
        lines.push(Some(self.preview_heading(cols)));
        if rows < PREVIEW_HEAD {
            assert(line_views(lines@) =~= self@.preview(rows as nat, cols as nat));
            return lines;
        }
        lines.push(Some(divider_line(cols)));
        let (from, to) = self.preview_body(rows.saturating_sub(PREVIEW_HEAD));
        let text = &self.screen.preview_content.lines;
        let ghost body = views(text@).subrange(from as int, to as int);
        let ghost head = line_views(lines@);
        let mut i: usize = from;
        assert(head + body.take(0).map_values(
            |text: Seq<char>| Some(LineV::plain(cut(text, cols as nat))),
        ) =~= head);
        while i < to
            invariant
                from <= i <= to <= text.len(),
                body == views(text@).subrange(from as int, to as int),
                line_views(lines@) == head + body.take(i - from).map_values(
                    |text: Seq<char>| Some(LineV::plain(cut(text, cols as nat))),
                ),
            decreases to - i,
        {
            let ghost before = line_views(lines@);
            assert(body[i - from] == text[i as int]@);
            let shown = truncate(text[i].as_str(), cols);
            lines.push(Some(Line::new(shown.as_str())));
            assert(line_views(lines@) =~= before.push(Some(LineV::plain(shown@))));
            assert(line_views(lines@) =~= head + body.take(i - from + 1).map_values(
                |text: Seq<char>| Some(LineV::plain(cut(text, cols as nat))),
            ));
            i += 1;
        }
        assert(body.take(i - from) =~= body);
        assert(line_views(lines@) =~= self@.preview(rows as nat, cols as nat));
        lines
    }

    /// The lines of the screen, from top to bottom.
    pub fn render_ui(&self, rows: usize, cols: usize) -> (r: Vec<Option<Line>>)
        ensures
            line_views(r@) == self@.ui(rows as nat, cols as nat),
    {
        if self.me.is_preview {
            return self.preview_lines(rows, cols);
        }
        let mut lines: Vec<Option<Line>> = Vec::new();
        if !self.me.permissions_granted {
            lines.push(Some(Line::new("permissions required (press y)")));
            assert(line_views(lines@) =~= self@.ui(rows as nat, cols as nat));
            return lines;
        }
        if rows == 0 {
            assert(line_views(lines@) =~= Seq::empty());
            return lines;
        }
        self.sidebar_lines(rows, cols)
    }

    fn input_cursor_column(&self) -> (r: Option<usize>)
        ensures
            r is Some == self@.cursor_column() is Some,
            r is Some ==> r->0 == self@.cursor_column()->0,
    {
        if self.nav.help_overlay || self.nav.termination.is_some() {
            return None;
        }
        let (tag, input) = if let Some(search) = &self.nav.search {
            ("/", search.query.as_str())
        } else if let Some(jump) = &self.nav.jump {
            ("n ", jump.buffer.as_str())
        } else {
            return None;
        };
        Some(HEADER_INDENT.saturating_add(display_width(tag)).saturating_add(display_width(input)))
    }

    /// The text cursor, where there is an input on the screen.
    pub fn input_cursor_position(&self) -> (r: Option<(usize, usize)>)
        ensures
            r == self@.cursor(),
    {
        let x = match self.input_cursor_column() {
            Some(x) => x,
            None => {
                return None;
            },
        };
        if self.screen.viewport_rows == 0 {
            return None;
        }
        let screen = self.screen_rows(self.screen.viewport_rows);
        let ghost v = views(screen@);
        let mut y: usize = 0;
        while y < screen.len() && !matches!(screen[y], Row::Footer)
            invariant
                y <= screen.len(),
                v == views(screen@),
                footer_from(v, 0) == footer_from(v, y as nat),
            decreases screen.len() - y,
        {
            assert(v[y as int] == screen[y as int]@);
            y += 1;
        }
        if y >= screen.len() {
            return None;
        }
        assert(v[y as int] == screen[y as int]@);
        let last = content_cols(self.screen.viewport_cols).saturating_sub(1);
        if x < last {
            Some((x, y))
        } else {
            Some((last, y))
        }
    }

    /// Tells the host where the text cursor is, if it moved.
    pub fn sync_input_cursor(&mut self)
        ensures
            final(self)@ == old(self)@.sync_cursor(),
    {
        let next = self.input_cursor_position();
        if next != self.screen.cursor_shown {
            self.ask(HostCall::ShowCursor(next));
            self.screen.cursor_shown = next;
        }
    }

    /// Whether only the keys of who is typing may draw.
    pub fn defers_render_while_typing(&self) -> (r: bool)
        ensures
            r == self@.defers_render(),
    {
        if self.nav.help_overlay || self.nav.termination.is_some() {
            return false;
        }
        match &self.nav.search {
            Some(search) => match search.phase {
                SearchPhase::Editing => true,
                SearchPhase::Navigating => false,
            },
            None => self.nav.jump.is_some(),
        }
    }
}

// --- laws ---

proof fn lemma_footer_from(rows: Seq<RowV>, i: nat)
    requires
        rows.len() <= usize::MAX,
    ensures
        footer_from(rows, i) is Some ==> footer_from(rows, i)->0 < rows.len()
            && rows[footer_from(rows, i)->0 as int] == RowV::Footer,
    decreases rows.len() - i,
{
    if i < rows.len() && rows[i as int] != RowV::Footer {
        lemma_footer_from(rows, i + 1);
    }
}

/// The text cursor stands in the row of the footer, on a column that takes text.
pub proof fn law_cursor_in_footer(s: StateV)
    requires
        s.cursor() is Some,
        s.screen_rows(s.screen.viewport_rows as nat).len() <= usize::MAX,
    ensures
        s.screen_rows(s.screen.viewport_rows as nat)[(s.cursor()->0).1 as int] == RowV::Footer,
        content_width(s.screen.viewport_cols as nat) > 0 ==> (s.cursor()->0).0 < content_width(
            s.screen.viewport_cols as nat,
        ),
{
    lemma_footer_from(s.screen_rows(s.screen.viewport_rows as nat), 0);
}

/// Only somebody typing holds back the drawing, and a cursor shows them where they type.
pub proof fn law_typing_has_a_cursor(s: StateV)
    requires
        s.defers_render(),
    ensures
        s.cursor_column() is Some,
{
}

/// A sidebar draws exactly as many rows as the screen has, with the header and the footer
/// always in the same places.
pub proof fn law_sidebar_height(s: StateV, rows: nat, cols: nat)
    requires
        s.me.permissions_granted,
        !s.me.is_preview,
        rows > 6,
    ensures
        s.ui(rows, cols).len() == rows,
        s.ui(rows, cols)[1] == Some(s.header(cols)),
        s.ui(rows, cols)[rows - 2] == Some(s.footer(cols)),
        s.ui(rows, cols)[rows - 1] is None,
{
    law_frame_is_fixed(s, rows);
}

} // verus!
