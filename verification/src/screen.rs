//! The rows that are on the screen, and which pane a row stands for.

use vstd::prelude::*;

use crate::ids::{group_views, views};
use crate::line::{counter_labels, counters_of, less, CounterColumn};
use crate::rows::{frame_bottom, frame_top, Row, RowV, FRAME_BOTTOM, FRAME_TOP};
use crate::scroll::{
    law_scroll_in_list, law_selection_on_screen, reconcile_scroll, rows_shown, scrolled, shown_rows,
};
use crate::state::{ScreenV, Selectable, SelectableV, State, StateV};
use crate::width::{display_width, width_of};

verus! {

broadcast use group_views;

/// The rows, cut or filled up with blank ones to this number.
pub open spec fn resized(rows: Seq<RowV>, n: nat) -> Seq<RowV> {
    if rows.len() >= n {
        rows.take(n as int)
    } else {
        rows + Seq::new((n - rows.len()) as nat, |i: int| RowV::Blank)
    }
}

/// The part of a list that is on screen, with markers for what is hidden.
pub open spec fn window(content: Seq<RowV>, area: nat, scroll: nat) -> Seq<RowV> {
    let n = content.len();
    let s = scrolled(n, area, scroll, None);
    let shown = shown_rows(n, area, s);
    let above = if s > 0 {
        seq![RowV::Overflow(s as usize, true)]
    } else {
        Seq::empty()
    };
    let below = if s + shown < n {
        seq![RowV::Overflow((n - s - shown) as usize, false)]
    } else {
        Seq::empty()
    };
    above + content.subrange(s as int, (s + shown) as int) + below
}

impl StateV {
    /// The rows on a screen of this height. Without a height all rows.
    pub open spec fn screen_rows(self, rows: nat) -> Seq<RowV> {
        let all = self.visible_rows();
        let frame = (FRAME_TOP + FRAME_BOTTOM) as nat;
        if rows == 0 || all.len() == 0 {
            all
        } else if rows <= frame {
            all.take(rows as int)
        } else {
            let area = (rows - frame) as nat;
            frame_top() + resized(
                window(self.content_rows(), area, self.screen.scroll as nat),
                area,
            ) + frame_bottom()
        }
    }

    /// The row of the tree is lit: the cursor of a search, or else the selection.
    pub open spec fn row_is_highlighted(self, e: SelectableV, index: usize) -> bool {
        match self.nav.search {
            Some(search) => search.cursor == Some(e.pane_id),
            None => index == self.list.selected,
        }
    }

    pub open spec fn lit(self, row: RowV) -> bool {
        match row {
            RowV::Pane(e, index, _) => self.row_is_highlighted(e, index),
            RowV::Cwd(e, index, _, _) => self.row_is_highlighted(e, index),
            RowV::Triage(e, _) => self.triage_pane() == Some(e.pane_id),
            _ => false,
        }
    }

    /// The first and the last row that is lit.
    pub open spec fn lit_span(self, rows: Seq<RowV>) -> Option<(usize, usize)>
        decreases rows.len(),
    {
        if rows.len() == 0 {
            None
        } else {
            let front = self.lit_span(rows.drop_last());
            let n = (rows.len() - 1) as usize;
            if !self.lit(rows.last()) {
                front
            } else {
                match front {
                    Some((first, _)) => Some((first, n)),
                    None => Some((n, n)),
                }
            }
        }
    }

    /// Scrolled for a screen of this height so that what is lit can be seen. The help is
    /// never scrolled.
    pub open spec fn reconcile_viewport(self, rows: usize) -> StateV {
        let frame = (FRAME_TOP + FRAME_BOTTOM) as nat;
        let all = self.visible_rows();
        let anchor = match self.lit_span(all) {
            Some((first, last)) => Some(
                (less(first as nat, FRAME_TOP as nat), less(last as nat, FRAME_TOP as nat)),
            ),
            None => None,
        };
        let scroll = if self.nav.help_overlay {
            0
        } else {
            scrolled(
                less(all.len(), frame),
                less(rows as nat, frame),
                self.screen.scroll as nat,
                anchor,
            )
        };
        StateV {
            screen: ScreenV { viewport_rows: rows, scroll: scroll as usize, ..self.screen },
            ..self
        }
    }

    /// The pane that a row of the screen stands for.
    pub open spec fn pane_at_row(self, row: int) -> Option<u32> {
        let rows = self.screen_rows(self.screen.viewport_rows as nat);
        if 0 <= row < rows.len() {
            match rows[row] {
                RowV::Pane(e, _, _) => Some(e.pane_id),
                RowV::Cwd(e, _, _, _) => Some(e.pane_id),
                RowV::Triage(e, _) => Some(e.pane_id),
                _ => None,
            }
        } else {
            None
        }
    }

    /// A click on a row jumps to its pane; a click elsewhere does nothing.
    pub open spec fn click(self, line: int) -> (StateV, bool) {
        match self.pane_at_row(line) {
            Some(id) => {
                let s = if self.nav.nav_mode {
                    self.exit_nav_mode()
                } else {
                    self
                };
                (s.select(id).broadcasts_selection().focus_selected(), true)
            },
            None => (self, false),
        }
    }

    /// A marked pane is among the rows.
    pub open spec fn mark_column(self, rows: Seq<RowV>) -> bool {
        exists|i: int|
            0 <= i < rows.len() && match #[trigger] rows[i] {
                RowV::Pane(e, _, _) => self.list.marked.contains(e.pane_id),
                RowV::Triage(e, _) => self.list.marked.contains(e.pane_id),
                _ => false,
            }
    }

    /// The counters of a pane.
    pub open spec fn counters(self, pane_id: u32) -> (Seq<char>, Seq<char>) {
        counters_of(
            if self.status.agents.contains_key(pane_id) {
                Some(self.status.agents[pane_id])
            } else {
                None
            },
        )
    }

    /// The widest counters of the panes among the rows.
    pub open spec fn counter_column(self, rows: Seq<RowV>) -> (nat, nat)
        decreases rows.len(),
    {
        if rows.len() == 0 {
            (0, 0)
        } else {
            let front = self.counter_column(rows.drop_last());
            match rows.last() {
                RowV::Pane(e, _, _) => {
                    let (subagents, open_tasks) = self.counters(e.pane_id);
                    (wider(front.0, width_of(subagents)), wider(front.1, width_of(open_tasks)))
                },
                _ => front,
            }
        }
    }
}

pub open spec fn wider(a: nat, b: nat) -> nat {
    if a < b {
        b
    } else {
        a
    }
}

fn resize_rows<'a>(rows: &mut Vec<Row<'a>>, n: usize)
    ensures
        views(final(rows)@) == resized(views(old(rows)@), n as nat),
{
    let ghost before = views(rows@);
    if rows.len() >= n {
        rows.truncate(n);
        assert(views(rows@) =~= before.take(n as int));
        return ;
    }
    while rows.len() < n
        invariant
            before.len() <= rows.len() <= n,
            views(rows@) == before + Seq::new(
                (rows.len() - before.len()) as nat,
                |i: int| RowV::Blank,
            ),
        decreases n - rows.len(),
    {
        let ghost now = views(rows@);
        rows.push(Row::Blank);
        assert(views(rows@) =~= before + Seq::new(
            (rows.len() - before.len()) as nat,
            |i: int| RowV::Blank,
        ));
    }
}

fn cut_window<'a>(content: Vec<Row<'a>>, area: usize, scroll: usize) -> (r: Vec<Row<'a>>)
    ensures
        views(r@) == window(views(content@), area as nat, scroll as nat),
{
    let ghost all = views(content@);
    let n = content.len();
    let s = reconcile_scroll(n, area, scroll, None);
    let shown = rows_shown(n, area, s);
    proof {
        law_scroll_in_list(n as nat, area as nat, scroll as nat, None);
    }
    let mut content = content;
    let mut list = content.split_off(s);
    assert(views(list@) =~= all.skip(s as int));
    list.truncate(shown);
    assert(views(list@) =~= all.subrange(s as int, s + shown));
    let mut rows: Vec<Row<'a>> = Vec::new();
    if s > 0 {
        rows.push(Row::Overflow(s, true));
    }
    let ghost above = views(rows@);
    let ghost middle = views(list@);
    rows.append(&mut list);
    assert(views(rows@) =~= above + middle);
    let below = n - s - shown;
    if below > 0 {
        rows.push(Row::Overflow(below, false));
    }
    assert(views(rows@) =~= window(all, area as nat, scroll as nat));
    rows
}

impl State {
    /// The rows on a screen of this height.
    pub fn screen_rows(&self, rows: usize) -> (r: Vec<Row<'_>>)
        ensures
            views(r@) == self@.screen_rows(rows as nat),
    {
        let frame: usize = FRAME_TOP + FRAME_BOTTOM;
        let mut all = self.visible_rows();
        let ghost v = views(all@);
        if rows == 0 || all.len() == 0 {
            return all;
        }
        if rows <= frame {
            all.truncate(rows);
            assert(views(all@) =~= v.take(rows as int));
            return all;
        }
        let area = rows - frame;
        let mut screen: Vec<Row<'_>> = Vec::new();
        screen.push(Row::Divider);
        screen.push(Row::Header);
        screen.push(Row::Divider);
        let mut list = cut_window(self.content_rows(), area, self.screen.scroll);
        resize_rows(&mut list, area);
        let ghost inner = views(list@);
        screen.append(&mut list);
        screen.push(Row::Divider);
        screen.push(Row::Footer);
        screen.push(Row::Blank);
        assert(views(screen@) =~= frame_top() + inner + frame_bottom());
        screen
    }

    /// Whether a row of the tree is lit.
    pub fn row_is_highlighted(&self, entry: &Selectable, flat_index: usize) -> (r: bool)
        ensures
            r == self@.row_is_highlighted(entry@, flat_index),
    {
        match &self.nav.search {
            Some(search) => match search.cursor {
                Some(cursor) => cursor == entry.pane_id,
                None => false,
            },
            None => flat_index == self.list.selected,
        }
    }

    fn is_lit(&self, row: &Row<'_>, triage_cursor: Option<u32>) -> (r: bool)
        requires
            triage_cursor == self@.triage_pane(),
        ensures
            r == self@.lit(row@),
    {
        match row {
            Row::Pane(entry, index, _) => self.row_is_highlighted(entry, *index),
            Row::Cwd(entry, index, _, _) => self.row_is_highlighted(entry, *index),
            Row::Triage(entry, _) => match triage_cursor {
                Some(cursor) => cursor == entry.pane_id,
                None => false,
            },
            _ => false,
        }
    }

    fn highlighted_span(&self, all: &Vec<Row<'_>>) -> (r: Option<(usize, usize)>)
        ensures
            r == self@.lit_span(views(all@)),
    {
        let triage_cursor = self.triage_cursor();
        let ghost v = views(all@);
        let mut span: Option<(usize, usize)> = None;
        let mut i: usize = 0;
        assert(v.take(0) =~= Seq::empty());
        while i < all.len()
            invariant
                i <= all.len(),
                v == views(all@),
                triage_cursor == self@.triage_pane(),
                span == self@.lit_span(v.take(i as int)),
            decreases all.len() - i,
        {
            assert(v.take(i + 1).drop_last() =~= v.take(i as int));
            assert(v.take(i + 1).last() == all[i as int]@);
            if self.is_lit(&all[i], triage_cursor) {
                span = match span {
                    Some((first, _)) => Some((first, i)),
                    None => Some((i, i)),
                };
            }
            i += 1;
        }
        assert(v.take(i as int) =~= v);
        span
    }

    /// Scrolls for a screen of this height.
    pub fn reconcile_viewport(&mut self, rows: usize)
        ensures
            final(self)@ == old(self)@.reconcile_viewport(rows),
    {
        if self.nav.help_overlay {
            self.screen.viewport_rows = rows;
            self.screen.scroll = 0;
            return ;
        }
        let frame: usize = FRAME_TOP + FRAME_BOTTOM;
        let (list_len, anchor) = {
            let all = self.visible_rows();
            let anchor = match self.highlighted_span(&all) {
                Some((first, last)) => Some(
                    (first.saturating_sub(FRAME_TOP), last.saturating_sub(FRAME_TOP)),
                ),
                None => None,
            };
            (all.len().saturating_sub(frame), anchor)
        };
        let area = rows.saturating_sub(frame);
        let scroll = reconcile_scroll(list_len, area, self.screen.scroll, anchor);
        self.screen.viewport_rows = rows;
        self.screen.scroll = scroll;
    }

    /// The pane that a row of the screen stands for.
    pub fn pane_at_row(&self, row: usize) -> (r: Option<u32>)
        ensures
            r == self@.pane_at_row(row as int),
    {
        let rows = self.screen_rows(self.screen.viewport_rows);
        let ghost v = views(rows@);
        if row >= rows.len() {
            return None;
        }
        assert(v[row as int] == rows[row as int]@);
        match &rows[row] {
            Row::Pane(entry, _, _) => Some(entry.pane_id),
            Row::Cwd(entry, _, _, _) => Some(entry.pane_id),
            Row::Triage(entry, _) => Some(entry.pane_id),
            _ => None,
        }
    }

    /// A click on a row of the screen. Returns whether to draw.
    pub fn handle_click(&mut self, line: isize) -> (r: bool)
        ensures
            (final(self)@, r) == old(self)@.click(line as int),
    {
        if line < 0 {
            return false;
        }
        let pane_id = match self.pane_at_row(line as usize) {
            Some(pane_id) => pane_id,
            None => {
                return false;
            },
        };
        if self.nav.nav_mode {
            self.exit_nav_mode();
        }
        self.select_pane_id(pane_id);
        self.broadcast_selection();
        self.focus_selected();
        true
    }

    /// Whether the frame has a column for marks.
    pub fn mark_column(&self, rows: &Vec<Row<'_>>) -> (r: bool)
        ensures
            r == self@.mark_column(views(rows@)),
    {
        let ghost v = views(rows@);
        let mut i: usize = 0;
        while i < rows.len()
            invariant
                i <= rows.len(),
                v == views(rows@),
                forall|j: int|
                    0 <= j < i ==> !(match #[trigger] v[j] {
                        RowV::Pane(e, _, _) => self@.list.marked.contains(e.pane_id),
                        RowV::Triage(e, _) => self@.list.marked.contains(e.pane_id),
                        _ => false,
                    }),
            decreases rows.len() - i,
        {
            assert(v[i as int] == rows[i as int]@);
            let marked = match &rows[i] {
                Row::Pane(entry, _, _) => self.is_marked(entry.pane_id),
                Row::Triage(entry, _) => self.is_marked(entry.pane_id),
                _ => false,
            };
            if marked {
                return true;
            }
            i += 1;
        }
        false
    }

    /// The widths of the counters in this frame.
    pub fn counter_column(&self, rows: &Vec<Row<'_>>) -> (r: CounterColumn)
        ensures
            (r.subagents as nat, r.open_tasks as nat) == self@.counter_column(views(rows@)),
    {
        let ghost v = views(rows@);
        let mut column = CounterColumn { subagents: 0, open_tasks: 0 };
        let mut i: usize = 0;
        assert(v.take(0) =~= Seq::empty());
        while i < rows.len()
            invariant
                i <= rows.len(),
                v == views(rows@),
                (column.subagents as nat, column.open_tasks as nat) == self@.counter_column(
                    v.take(i as int),
                ),
            decreases rows.len() - i,
        {
            assert(v.take(i + 1).drop_last() =~= v.take(i as int));
            assert(v.take(i + 1).last() == rows[i as int]@);
            if let Row::Pane(entry, _, _) = &rows[i] {
                let (subagents, open_tasks) = counter_labels(
                    self.status.agents.get(&entry.pane_id),
                );
                let a = display_width(subagents.as_str());
                let b = display_width(open_tasks.as_str());
                if column.subagents < a {
                    column.subagents = a;
                }
                if column.open_tasks < b {
                    column.open_tasks = b;
                }
            }
            i += 1;
        }
        assert(v.take(i as int) =~= v);
        column
    }
}

// --- laws ---

/// The frame never moves: a screen has as many rows as it is high, with the header in its
/// second row and the footer in its last but one, whatever the mode and the list.
pub proof fn law_frame_is_fixed(s: StateV, rows: nat)
    requires
        s.me.permissions_granted,
        rows > FRAME_TOP + FRAME_BOTTOM,
    ensures
        s.screen_rows(rows).len() == rows,
        s.screen_rows(rows)[0] == RowV::Divider,
        s.screen_rows(rows)[1] == RowV::Header,
        s.screen_rows(rows)[2] == RowV::Divider,
        s.screen_rows(rows)[rows - 3] == RowV::Divider,
        s.screen_rows(rows)[rows - 2] == RowV::Footer,
        s.screen_rows(rows)[rows - 1] == RowV::Blank,
{
}

/// A click on the frame, or below the list, hits no pane.
pub proof fn law_frame_is_not_clickable(s: StateV, row: int)
    requires
        s.me.permissions_granted,
        s.screen.viewport_rows > FRAME_TOP + FRAME_BOTTOM,
        row < 3 || row >= s.screen.viewport_rows - 3,
    ensures
        s.pane_at_row(row) is None,
        s.click(row) == (s, false),
{
    law_frame_is_fixed(s, s.screen.viewport_rows as nat);
}

proof fn lemma_lit_span(s: StateV, rows: Seq<RowV>)
    requires
        rows.len() <= usize::MAX,
    ensures
        s.lit_span(rows) is Some ==> (s.lit_span(rows)->0).0 <= (s.lit_span(rows)->0).1
            < rows.len() && s.lit(rows[(s.lit_span(rows)->0).0 as int]) && s.lit(
            rows[(s.lit_span(rows)->0).1 as int],
        ),
        s.lit_span(rows) is None ==> forall|i: int| 0 <= i < rows.len() ==> !s.lit(#[trigger] rows[i]),
    decreases rows.len(),
{
    if rows.len() > 0 {
        let front = rows.drop_last();
        lemma_lit_span(s, front);
        if s.lit_span(rows) is None {
            assert forall|i: int| 0 <= i < rows.len() implies !s.lit(#[trigger] rows[i]) by {
                if i < front.len() {
                    assert(front[i] == rows[i]);
                    assert(!s.lit(front[i]));
                }
            }
        }
    }
}

/// What is lit can be seen: after a frame is laid out, the first lit row of the list stands on
/// the screen, right where the list scrolled to.
pub proof fn law_lit_row_is_seen(s: StateV, rows: usize)
    requires
        s.me.permissions_granted,
        !s.nav.help_overlay,
        s.visible_rows().len() <= usize::MAX,
        s.lit_span(s.visible_rows()) is Some,
        (s.lit_span(s.visible_rows())->0).1 - (s.lit_span(s.visible_rows())->0).0 + 3 + FRAME_TOP
            + FRAME_BOTTOM <= rows,
    ensures
        ({
            let first = (s.lit_span(s.visible_rows())->0).0 - FRAME_TOP;
            let last = (s.lit_span(s.visible_rows())->0).1 - FRAME_TOP;
            let scroll = s.reconcile_viewport(rows).screen.scroll;
            let n = s.content_rows().len();
            &&& 0 <= scroll <= first <= last
            &&& last < scroll + shown_rows(
                n,
                (rows - FRAME_TOP - FRAME_BOTTOM) as nat,
                scroll as nat,
            )
            &&& s.lit(s.content_rows()[first])
            &&& s.lit(s.content_rows()[last])
        }),
{
    let all = s.visible_rows();
    let content = s.content_rows();
    lemma_lit_span(s, all);
    let (first, last) = s.lit_span(all)->0;
    assert(all.len() == content.len() + 6);
    assert(all[0] == RowV::Divider && all[1] == RowV::Header && all[2] == RowV::Divider);
    assert(all[all.len() - 3] == RowV::Divider && all[all.len() - 2] == RowV::Footer
        && all[all.len() - 1] == RowV::Blank);
    assert(first >= 3);
    assert(last < all.len() - 3);
    assert(all[first as int] == content[first - 3]);
    assert(all[last as int] == content[last - 3]);
    law_selection_on_screen(
        content.len(),
        (rows - FRAME_TOP - FRAME_BOTTOM) as nat,
        s.screen.scroll as nat,
        (first - 3) as nat,
        (last - 3) as nat,
    );
}

} // verus!
