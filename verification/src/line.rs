//! Lines of the screen: a text, and how its characters are set off.

use vstd::prelude::*;

use crate::agent::AgentInfo;
use crate::agent::AgentInfoV;
use crate::ids::{group_views, views};
use crate::mark::MARK_GLYPH;
use crate::state::Selectable;
use crate::text::{char_count, decimal, digits, repeat, repeated, spaces};
use crate::width::{
    colorable_char_limit, cut, display_width, own_chars, pad_left, room, truncate, width_of,
};

verus! {

broadcast use group_views;

// --- measures ---

/// The columns left free at the right edge.
pub const RIGHT_MARGIN: usize = 2;

/// Where the text of the header and the footer starts.
pub const HEADER_INDENT: usize = 2;

/// Where the text of the help starts.
pub const HELP_INDENT: usize = 2;

/// Where a working directory starts, further right than the name of its pane.
pub const CWD_INDENT: usize = 6;

/// The least space between the name of a pane and what stands right of it.
pub const COLUMN_GAP: usize = 1;

/// The columns of the brackets around the name of a floating pane.
pub const FLOATING_BRACKETS: usize = 2;

/// The sign of a pane without an agent.
pub const NO_AGENT_ICON: &'static str = "›";

pub const NO_AGENT_LABEL: &'static str = "no agent";

/// One number less another, but not below zero.
pub open spec fn less(a: nat, b: nat) -> nat {
    if a > b {
        (a - b) as nat
    } else {
        0
    }
}

/// A number of columns; it does not pass the largest value.
pub open spec fn capped(n: nat) -> nat {
    if n <= usize::MAX {
        n
    } else {
        usize::MAX as nat
    }
}

/// The columns that take text.
pub open spec fn content_width(cols: nat) -> nat {
    less(cols, RIGHT_MARGIN as nat)
}

pub fn content_cols(cols: usize) -> (r: usize)
    ensures
        r == content_width(cols as nat),
{
    cols.saturating_sub(RIGHT_MARGIN)
}

// --- lines ---

/// How a stretch of characters, from its first place up to its last, is set off.
#[derive(Debug)]
pub enum Decoration {
    /// In the theme's colour of this level.
    Color(usize, usize, usize),
    /// In the theme's colour of this level, at single places.
    ColorIndices(usize, Vec<usize>),
    Dim(usize, usize),
    Unbold(usize, usize),
    /// With the background of the selection, over the whole line.
    Opaque,
}

#[verifier::ext_equal]
pub enum DecorationV {
    Color(usize, usize, usize),
    ColorIndices(usize, Seq<usize>),
    Dim(usize, usize),
    Unbold(usize, usize),
    Opaque,
}

impl View for Decoration {
    type V = DecorationV;

    open spec fn view(&self) -> DecorationV {
        match self {
            Decoration::Color(level, start, end) => DecorationV::Color(*level, *start, *end),
            Decoration::ColorIndices(level, places) => DecorationV::ColorIndices(*level, places@),
            Decoration::Dim(start, end) => DecorationV::Dim(*start, *end),
            Decoration::Unbold(start, end) => DecorationV::Unbold(*start, *end),
            Decoration::Opaque => DecorationV::Opaque,
        }
    }
}

/// A line of the screen. Later decorations go over earlier ones.
#[derive(Debug)]
pub struct Line {
    pub text: String,
    pub decorations: Vec<Decoration>,
}

#[verifier::ext_equal]
pub struct LineV {
    pub text: Seq<char>,
    pub decorations: Seq<DecorationV>,
}

impl View for Line {
    type V = LineV;

    open spec fn view(&self) -> LineV {
        LineV { text: self.text@, decorations: views(self.decorations@) }
    }
}

impl LineV {
    pub open spec fn plain(text: Seq<char>) -> LineV {
        LineV { text, decorations: Seq::empty() }
    }

    pub open spec fn with(self, d: DecorationV) -> LineV {
        LineV { decorations: self.decorations.push(d), ..self }
    }

    /// The line with the places in the colour of hits, where there are any.
    pub open spec fn with_hits(self, places: Seq<usize>) -> LineV {
        if places.len() > 0 {
            self.with(DecorationV::ColorIndices(1, places))
        } else {
            self
        }
    }

    /// The line of the selected row: a bar at its left on the background of the selection.
    pub open spec fn highlighted(self) -> LineV {
        self.with(DecorationV::Opaque).with(DecorationV::Color(2, 0, 1))
    }
}

impl Line {
    pub fn new(text: &str) -> (r: Line)
        ensures
            r@ == LineV::plain(text@),
    {
        Line { text: text.to_owned(), decorations: Vec::new() }
    }

    /// The text of the line.
    pub fn content(&self) -> (r: &str)
        ensures
            r@ == self@.text,
    {
        self.text.as_str()
    }

    pub fn decorate(&mut self, decoration: Decoration)
        ensures
            final(self)@ == old(self)@.with(decoration@),
    {
        self.decorations.push(decoration);
    }

    pub fn color_hits(&mut self, places: Vec<usize>)
        ensures
            final(self)@ == old(self)@.with_hits(places@),
    {
        if places.len() > 0 {
            self.decorate(Decoration::ColorIndices(1, places));
        }
    }

    pub fn highlight(&mut self)
        ensures
            final(self)@ == old(self)@.highlighted(),
    {
        self.decorate(Decoration::Opaque);
        self.decorate(Decoration::Color(2, 0, 1));
    }
}

// --- lines made of pieces ---

/// What a piece of text stands for.
#[derive(Debug, Clone, Copy, PartialEq, Eq, Structural)]
pub enum Ink {
    /// Text to read.
    Plain,
    /// The sign in front of an input.
    Tag,
    /// A key.
    Key,
    /// Something beside the point.
    Muted,
    /// The theme's colour of this level.
    Accent(usize),
}

impl Ink {
    pub open spec fn on(self, start: usize, end: usize) -> Option<DecorationV> {
        match self {
            Ink::Plain => None,
            Ink::Tag => Some(DecorationV::Color(3, start, end)),
            Ink::Key => Some(DecorationV::Color(2, start, end)),
            Ink::Muted => Some(DecorationV::Dim(start, end)),
            Ink::Accent(level) => Some(DecorationV::Color(level, start, end)),
        }
    }
}

/// The pieces as texts.
pub open spec fn inked(s: Seq<(&str, Ink)>) -> Seq<(Seq<char>, Ink)> {
    s.map_values(|x: (&str, Ink)| (x.0@, x.1))
}

/// The text of all pieces.
pub open spec fn whole(s: Seq<(Seq<char>, Ink)>) -> Seq<char>
    decreases s.len(),
{
    if s.len() == 0 {
        Seq::empty()
    } else {
        whole(s.drop_last()) + s.last().0
    }
}

/// The decorations of the pieces, as far as they lie inside the first `limit` characters.
pub open spec fn inks(s: Seq<(Seq<char>, Ink)>, limit: nat) -> Seq<DecorationV>
    decreases s.len(),
{
    if s.len() == 0 {
        Seq::empty()
    } else {
        let front = inks(s.drop_last(), limit);
        let start = whole(s.drop_last()).len();
        let end = if whole(s).len() < limit {
            whole(s).len()
        } else {
            limit
        };
        if start < end && s.last().1.on(start as usize, end as usize) is Some {
            front.push(s.last().1.on(start as usize, end as usize)->0)
        } else {
            front
        }
    }
}

/// The line of these pieces, cut to `cols` columns.
pub open spec fn composed(s: Seq<(Seq<char>, Ink)>, cols: nat) -> LineV {
    let text = cut(whole(s), cols);
    LineV { text, decorations: inks(s, own_chars(text.len(), whole(s).len())) }
}

/// Puts a line together, cut to `cols` columns.
pub fn compose(segments: &Vec<(&str, Ink)>, cols: usize) -> (r: Line)
    ensures
        r@ == composed(inked(segments@), cols as nat),
        width_of(r@.text) <= cols,
{
    let ghost v = inked(segments@);
    let mut body = String::new();
    let mut ends: Vec<usize> = Vec::new();
    let mut i: usize = 0;
    assert(v.take(0) =~= Seq::empty());
    while i < segments.len()
        invariant
            i <= segments.len(),
            v == inked(segments@),
            body@ == whole(v.take(i as int)),
            ends.len() == i,
            forall|j: int| 0 <= j < i ==> (#[trigger] ends@[j]) == whole(v.take(j + 1)).len(),
        decreases segments.len() - i,
    {
        assert(v.take(i + 1).drop_last() =~= v.take(i as int));
        assert(v.take(i + 1).last() == v[i as int]);
        assert(v[i as int].0 == segments@[i as int].0@);
        body.push_str(segments[i].0);
        ends.push(char_count(body.as_str()));
        i += 1;
    }
    assert(v.take(i as int) =~= v);
    let full = char_count(body.as_str());
    let text = truncate(body.as_str(), cols);
    let limit = colorable_char_limit(char_count(text.as_str()), full);
    let mut line = Line { text, decorations: Vec::new() };
    let mut k: usize = 0;
    let mut start: usize = 0;
    while k < segments.len()
        invariant
            k <= segments.len(),
            v == inked(segments@),
            ends.len() == segments.len(),
            forall|j: int|
                0 <= j < segments.len() ==> (#[trigger] ends@[j]) == whole(v.take(j + 1)).len(),
            start == whole(v.take(k as int)).len(),
            line@.text == text@,
            line@.decorations == inks(v.take(k as int), limit as nat),
        decreases segments.len() - k,
    {
        assert(v.take(k + 1).drop_last() =~= v.take(k as int));
        assert(v.take(k + 1).last() == v[k as int]);
        let end: usize = if ends[k] < limit {
            ends[k]
        } else {
            limit
        };
        if start < end {
            match segments[k].1 {
                Ink::Plain => {},
                Ink::Tag => line.decorate(Decoration::Color(3, start, end)),
                Ink::Key => line.decorate(Decoration::Color(2, start, end)),
                Ink::Muted => line.decorate(Decoration::Dim(start, end)),
                Ink::Accent(level) => line.decorate(Decoration::Color(level, start, end)),
            }
        }
        start = ends[k];
        k += 1;
    }
    assert(v.take(k as int) =~= v);
    line
}

/// The line between header, list and footer.
pub open spec fn divider(cols: nat) -> LineV {
    composed(seq![(repeated('─', content_width(cols)), Ink::Muted)], content_width(cols))
}

pub fn divider_line(cols: usize) -> (r: Line)
    ensures
        r@ == divider(cols as nat),
{
    let inner = content_cols(cols);
    let text = repeat('─', inner);
    let mut segments: Vec<(&str, Ink)> = Vec::new();
    segments.push((text.as_str(), Ink::Muted));
    assert(inked(segments@) =~= seq![(text@, Ink::Muted)]);
    compose(&segments, inner)
}

// --- parts of pane rows ---

/// The counters of an agent: its subagents and its open tasks. A count of none is not shown.
pub open spec fn counters_of(agent: Option<AgentInfoV>) -> (Seq<char>, Seq<char>) {
    match agent {
        Some(a) => (
            if a.subagents > 0 {
                seq!['+'] + digits(a.subagents as nat)
            } else {
                Seq::empty()
            },
            if a.open_tasks > 0 {
                seq!['['] + digits(a.open_tasks as nat) + seq![']']
            } else {
                Seq::empty()
            },
        ),
        None => (Seq::empty(), Seq::empty()),
    }
}

pub fn counter_labels(agent: Option<&AgentInfo>) -> (r: (String, String))
    ensures
        (r.0@, r.1@) == counters_of(
            match agent {
                Some(a) => Some(a@),
                None => None,
            },
        ),
{
    let mut subagents = String::new();
    let mut open_tasks = String::new();
    if let Some(agent) = agent {
        if agent.subagents > 0 {
            let count = decimal(agent.subagents as u128);
            subagents.push('+');
            subagents.push_str(count.as_str());
            assert(subagents@ =~= seq!['+'] + count@);
        }
        if agent.open_tasks > 0 {
            let count = decimal(agent.open_tasks as u128);
            open_tasks.push('[');
            open_tasks.push_str(count.as_str());
            open_tasks.push(']');
            assert(open_tasks@ =~= seq!['['] + count@ + seq![']']);
        }
    }
    (subagents, open_tasks)
}

/// The widths of the two counters over all rows of a frame.
#[derive(Debug, Clone, Copy, PartialEq, Eq, Structural)]
pub struct CounterColumn {
    pub subagents: usize,
    pub open_tasks: usize,
}

impl CounterColumn {
    /// The counters of a row in their columns. A row without counters has nothing there.
    pub open spec fn cells(self, subagents: Seq<char>, open_tasks: Seq<char>) -> Seq<char> {
        if subagents.len() == 0 && open_tasks.len() == 0 {
            Seq::empty()
        } else {
            spaces(room(subagents, self.subagents as nat)) + subagents + (if self.subagents > 0
                && self.open_tasks > 0 {
                seq![' ']
            } else {
                Seq::empty()
            }) + spaces(room(open_tasks, self.open_tasks as nat)) + open_tasks
        }
    }

    pub fn render(&self, subagents: &str, open_tasks: &str) -> (r: String)
        ensures
            r@ == self.cells(subagents@, open_tasks@),
    {
        if subagents.is_empty() && open_tasks.is_empty() {
            return String::new();
        }
        let mut out = pad_left(subagents, self.subagents);
        if self.subagents > 0 && self.open_tasks > 0 {
            out.push(' ');
        }
        let tasks = pad_left(open_tasks, self.open_tasks);
        out.push_str(tasks.as_str());
        assert(out@ =~= self.cells(subagents@, open_tasks@));
        out
    }
}

/// The mark of a row, where the frame has a column for it.
pub open spec fn mark_text(mark: Option<bool>) -> Seq<char> {
    match mark {
        Some(true) => MARK_GLYPH@ + seq![' '],
        Some(false) => spaces(2),
        None => Seq::empty(),
    }
}

fn mark_cell(mark: Option<bool>) -> (r: String)
    ensures
        r@ == mark_text(mark),
{
    match mark {
        Some(marked) => if marked {
            let mut out = MARK_GLYPH.to_owned();
            out.push(' ');
            assert(out@ =~= MARK_GLYPH@ + seq![' ']);
            out
        } else {
            repeat(' ', 2)
        },
        None => String::new(),
    }
}

/// The number in front of a row, and whether it is still in the running.
pub open spec fn number_text(number: Option<(&str, bool)>) -> Option<(Seq<char>, bool)> {
    match number {
        Some((digits, matches)) => Some((digits@, matches)),
        None => None,
    }
}

/// The start of a row: the bar of the selection, the number, the mark and the icon.
pub open spec fn head_text(
    lit: bool,
    number: Option<(Seq<char>, bool)>,
    mark: Option<bool>,
    icon: Seq<char>,
) -> Seq<char> {
    (if lit {
        "▌ "@
    } else {
        "  "@
    }) + (match number {
        Some((digits, _)) => digits + seq![' '],
        None => Seq::empty(),
    }) + mark_text(mark) + icon + seq![' ']
}

/// The start of a row, with the places of the mark and the icon in it.
#[derive(Debug)]
pub struct RowHead {
    pub text: String,
    pub mark_at: Option<usize>,
    pub icon_at: usize,
}

pub fn row_head(
    lit: bool,
    number: Option<(&str, bool)>,
    mark: Option<bool>,
    icon: &str,
) -> (r: RowHead)
    ensures
        r.text@ == head_text(
            lit,
            number_text(number),
            mark,
            icon@,
        ),
        r.mark_at is Some == mark is Some,
        r.mark_at is Some ==> r.mark_at->0 == less(r.text@.len(), 4),
        r.icon_at == less(r.text@.len(), 2),
        2 <= r.text@.len() <= usize::MAX,
        number is Some ==> 2 + (number->0).0@.len() <= r.text@.len(),
{
    let mut text = if lit {
        "▌ ".to_owned()
    } else {
        "  ".to_owned()
    };
    if let Some((digits, _)) = number {
        text.push_str(digits);
        text.push(' ');
    }
    let cell = mark_cell(mark);
    text.push_str(cell.as_str());
    text.push_str(icon);
    text.push(' ');
    assert(text@ =~= head_text(
        lit,
        number_text(number),
        mark,
        icon@,
    ));
    proof {
        reveal_strlit("▌ ");
        reveal_strlit("  ");
    }
    let chars = char_count(text.as_str());
    let mark_at = match mark {
        Some(_) => Some(chars.saturating_sub(4)),
        None => None,
    };
    RowHead { text, mark_at, icon_at: chars.saturating_sub(2) }
}

/// The brackets around the name of a floating pane. An empty name has none.
pub open spec fn brackets(floating: bool, title: Seq<char>) -> (Seq<char>, Seq<char>) {
    if floating && title.len() > 0 {
        ("("@, ")"@)
    } else {
        (""@, ""@)
    }
}

pub fn floating_brackets(entry: &Selectable, title: &str) -> (r: (&'static str, &'static str))
    ensures
        (r.0@, r.1@) == brackets(entry.is_floating, title@),
{
    if entry.is_floating && !title.is_empty() {
        ("(", ")")
    } else {
        ("", "")
    }
}

/// A row with a column at its right end, cut to `inner` columns.
pub open spec fn with_column(label: Seq<char>, column: Seq<char>, inner: nat) -> Seq<char> {
    cut(
        label + spaces(less(inner, capped(width_of(label) + width_of(column)))) + column,
        inner,
    )
}

/// Where the column stands in the row; none where the row had to be cut.
pub open spec fn column_span(label: Seq<char>, column: Seq<char>, inner: nat) -> Option<
    (usize, usize),
> {
    let start = label.len() + less(inner, capped(width_of(label) + width_of(column)));
    let end = start + column.len();
    if with_column(label, column, inner).len() == end {
        Some((start as usize, end as usize))
    } else {
        None
    }
}

/// Adds a column at the right end of a row. Returns where it stands, if nothing was cut.
pub fn append_right_column(label: &String, column: &str, inner: usize) -> (r: (
    String,
    Option<(usize, usize)>,
))
    ensures
        r.0@ == with_column(label@, column@, inner as nat),
        r.1 == column_span(label@, column@, inner as nat),
        width_of(r.0@) <= inner,
{
    let taken = display_width(label.as_str()).saturating_add(display_width(column));
    let filler = inner.saturating_sub(taken);
    let gap = repeat(' ', filler);
    let mut row = label.clone();
    row.push_str(gap.as_str());
    let start = char_count(row.as_str());
    row.push_str(column);
    let end = char_count(row.as_str());
    let fitted = truncate(row.as_str(), inner);
    let span = if char_count(fitted.as_str()) == end {
        Some((start, end))
    } else {
        None
    };
    (fitted, span)
}

} // verus!
