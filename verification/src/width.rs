//! Texts measured in screen columns.
//!
//! A character takes none, one or two columns, and a sequence of them can take fewer than
//! its parts. So texts are always measured as a whole.

use unicode_width::UnicodeWidthStr;
use vstd::prelude::*;

use crate::text::{chars_of, repeat, slice_of, spaces};

verus! {

/// The name of what `UnicodeWidthStr::width` returns.
pub uninterp spec fn unicode_columns(s: Seq<char>) -> nat;

/// A printable character of the ASCII range.
pub open spec fn printable_ascii(c: char) -> bool {
    ' ' <= c <= '~'
}

/// One of the signs that the sidebar draws.
pub open spec fn own_sign(c: char) -> bool {
    ||| c == '›' || c == '»' || c == '…' || c == '×' || c == '✓' || c == '─' || c == '▌'
    ||| c == '▲' || c == '▵' || c == '▴' || c == '▾' || c == '▸' || c == '▣'
    ||| c == '○' || c == '●' || c == '◆'
    ||| c == '←' || c == '↑' || c == '→' || c == '↓'
}

/// A character that always takes one column, and changes nothing about those before it.
pub open spec fn one_column(c: char) -> bool {
    printable_ascii(c) || own_sign(c)
}

/// The columns that a text takes on the screen: one for each plain character at its end, and
/// for the rest what the Unicode tables give.
pub open spec fn width_of(s: Seq<char>) -> nat
    decreases s.len(),
{
    if s.len() == 0 {
        0
    } else if one_column(s.last()) {
        width_of(s.drop_last()) + 1
    } else {
        unicode_columns(s)
    }
}

/// Calls `UnicodeWidthStr::width`, which measures a text in columns by the Unicode tables of
/// the `unicode-width` crate. It reads the text from its end. Printable ASCII and the signs of
/// the sidebar are narrow in the tables and leave the reading as it began, so that each of
/// them at the end adds one column to the rest. No characters take no columns. Of any other
/// text it is only claimed that the number depends on the text alone.
#[verifier::external_body]
pub(crate) fn display_width(s: &str) -> (r: usize)
    ensures
        r == width_of(s@),
        s@.len() > 0 && !one_column(s@.last()) ==> r == unicode_columns(s@),
{
    UnicodeWidthStr::width(s)
}

/// The mark in place of what was cut off.
pub const ELLIPSIS: char = '…';

// --- cutting ---

/// Starting from `n` characters: as many more as fit with the mark behind them.
pub open spec fn prefix_fit(s: Seq<char>, n: nat, cols: nat) -> nat
    decreases s.len() - n,
{
    if n + 1 < s.len() && width_of(s.take(n as int + 1).push(ELLIPSIS)) <= cols {
        prefix_fit(s, n + 1, cols)
    } else {
        n
    }
}

/// The text, cut at its end where it is too wide.
pub open spec fn cut(s: Seq<char>, cols: nat) -> Seq<char> {
    if width_of(s) <= cols {
        s
    } else if width_of(seq![ELLIPSIS]) <= cols {
        s.take(prefix_fit(s, 0, cols) as int).push(ELLIPSIS)
    } else {
        Seq::empty()
    }
}

/// Starting from `n` characters at the end: as many more as fit with the mark in front.
pub open spec fn suffix_fit(s: Seq<char>, n: nat, cols: nat) -> nat
    decreases s.len() - n,
{
    if n + 1 < s.len() && width_of(
        seq![ELLIPSIS] + s.skip(s.len() - n as int - 1),
    ) <= cols {
        suffix_fit(s, n + 1, cols)
    } else {
        n
    }
}

/// The text, cut at its start where it is too wide, and how many characters were dropped.
pub open spec fn cut_start(s: Seq<char>, cols: nat) -> (Seq<char>, nat) {
    if width_of(s) <= cols {
        (s, 0)
    } else if width_of(seq![ELLIPSIS]) <= cols {
        let n = suffix_fit(s, 0, cols);
        (seq![ELLIPSIS] + s.skip(s.len() - n as int), (s.len() - n) as nat)
    } else {
        (Seq::empty(), s.len())
    }
}

/// The text is a path: its end tells more than its start.
pub open spec fn like_path(s: Seq<char>) -> bool {
    s.len() > 0 && (s[0] == '/' || s[0] == '~')
}

/// The text, cut where it tells least, and how many characters at the start were dropped.
pub open spec fn folded(s: Seq<char>, cols: nat) -> (Seq<char>, nat) {
    if like_path(s) {
        cut_start(s, cols)
    } else {
        (cut(s, cols), 0)
    }
}

proof fn lemma_prefix_fit(s: Seq<char>, n: nat, cols: nat)
    requires
        s.len() > 0,
        n < s.len(),
        width_of(s.take(n as int).push(ELLIPSIS)) <= cols,
    ensures
        n <= prefix_fit(s, n, cols) < s.len(),
        width_of(s.take(prefix_fit(s, n, cols) as int).push(ELLIPSIS)) <= cols,
    decreases s.len() - n,
{
    if n + 1 < s.len() && width_of(s.take(n as int + 1).push(ELLIPSIS)) <= cols {
        lemma_prefix_fit(s, n + 1, cols);
    }
}

proof fn lemma_suffix_fit(s: Seq<char>, n: nat, cols: nat)
    requires
        s.len() > 0,
        n < s.len(),
        width_of(seq![ELLIPSIS] + s.skip(s.len() - n as int)) <= cols,
    ensures
        n <= suffix_fit(s, n, cols) < s.len(),
        width_of(seq![ELLIPSIS] + s.skip(s.len() - suffix_fit(s, n, cols) as int)) <= cols,
    decreases s.len() - n,
{
    if n + 1 < s.len() && width_of(seq![ELLIPSIS] + s.skip(s.len() - n as int - 1)) <= cols {
        lemma_suffix_fit(s, n + 1, cols);
    }
}

/// Cuts a text at its end so that it takes no more than `cols` columns.
pub fn truncate(s: &str, cols: usize) -> (r: String)
    ensures
        r@ == cut(s@, cols as nat),
        width_of(r@) <= cols,
{
    if display_width(s) <= cols {
        return s.to_owned();
    }
    let chars = chars_of(s);
    let mut mark = String::new();
    mark.push(ELLIPSIS);
    assert(mark@ =~= seq![ELLIPSIS]);
    if display_width(mark.as_str()) > cols {
        let none = String::new();
        let width = display_width(none.as_str());
        assert(width <= cols);
        return none;
    }
    let mut best = mark;
    let mut n: usize = 0;
    let mut done = false;
    assert(chars@.take(0).push(ELLIPSIS) =~= seq![ELLIPSIS]);
    while n + 1 < chars.len() && !done
        invariant
            chars@ == s@,
            n < chars.len(),
            best@ == chars@.take(n as int).push(ELLIPSIS),
            width_of(best@) <= cols,
            prefix_fit(s@, 0, cols as nat) == prefix_fit(s@, n as nat, cols as nat),
            done ==> prefix_fit(s@, n as nat, cols as nat) == n,
        decreases chars.len() - n + (if done { 0int } else { 1int }),
    {
        let mut longer = slice_of(&chars, 0, n + 1);
        longer.push(ELLIPSIS);
        assert(longer@ =~= chars@.take(n + 1).push(ELLIPSIS));
        if display_width(longer.as_str()) <= cols {
            best = longer;
            n += 1;
        } else {
            done = true;
        }
    }
    best
}

/// Cuts a text at its start so that it takes no more than `cols` columns. Returns how many
/// characters were dropped, too.
pub fn truncate_start(s: &str, cols: usize) -> (r: (String, usize))
    ensures
        (r.0@, r.1 as nat) == cut_start(s@, cols as nat),
        width_of(r.0@) <= cols,
{
    if display_width(s) <= cols {
        return (s.to_owned(), 0);
    }
    let chars = chars_of(s);
    let mut mark = String::new();
    mark.push(ELLIPSIS);
    assert(mark@ =~= seq![ELLIPSIS]);
    if display_width(mark.as_str()) > cols {
        let none = String::new();
        let width = display_width(none.as_str());
        assert(width <= cols);
        return (none, chars.len());
    }
    let mut best = mark;
    let mut n: usize = 0;
    let mut done = false;
    assert(seq![ELLIPSIS] + chars@.skip(chars@.len() as int) =~= seq![ELLIPSIS]);
    while n + 1 < chars.len() && !done
        invariant
            chars@ == s@,
            n < chars.len(),
            best@ == seq![ELLIPSIS] + chars@.skip(chars@.len() - n),
            width_of(best@) <= cols,
            suffix_fit(s@, 0, cols as nat) == suffix_fit(s@, n as nat, cols as nat),
            done ==> suffix_fit(s@, n as nat, cols as nat) == n,
        decreases chars.len() - n + (if done { 0int } else { 1int }),
    {
        let tail = slice_of(&chars, chars.len() - n - 1, chars.len());
        let mut longer = String::new();
        longer.push(ELLIPSIS);
        longer.push_str(tail.as_str());
        assert(longer@ =~= seq![ELLIPSIS] + chars@.skip(chars@.len() - n - 1));
        if display_width(longer.as_str()) <= cols {
            best = longer;
            n += 1;
        } else {
            done = true;
        }
    }
    (best, chars.len() - n)
}

/// Cuts a text where it tells least. Returns how many characters at its start were dropped,
/// too.
pub fn fold_to_width(s: &str, cols: usize) -> (r: (String, usize))
    ensures
        (r.0@, r.1 as nat) == folded(s@, cols as nat),
        width_of(r.0@) <= cols,
{
    let chars = chars_of(s);
    if chars.len() > 0 && (chars[0] == '/' || chars[0] == '~') {
        truncate_start(s, cols)
    } else {
        (truncate(s, cols), 0)
    }
}

// --- highlights ---

/// How many of the shown characters are those of the full text: a shorter text ends with the
/// mark.
pub open spec fn own_chars(shown: nat, full: nat) -> nat {
    if shown < full && shown > 0 {
        (shown - 1) as nat
    } else {
        shown
    }
}

pub fn colorable_char_limit(shown: usize, full: usize) -> (r: usize)
    ensures
        r == own_chars(shown as nat, full as nat),
{
    if shown < full && shown > 0 {
        shown - 1
    } else {
        shown
    }
}

/// The places that lie inside the first `limit` characters, `by` characters further right.
pub open spec fn shifted(places: Seq<usize>, by: nat, limit: nat) -> Seq<usize>
    decreases places.len(),
{
    if places.len() == 0 {
        Seq::empty()
    } else {
        let front = shifted(places.drop_last(), by, limit);
        if places.last() + by < limit {
            front.push((places.last() + by) as usize)
        } else {
            front
        }
    }
}

/// The places that are left when the first `dropped` characters are gone and a mark stands in
/// their place, `by` characters further right.
pub open spec fn behind(places: Seq<usize>, dropped: nat, shown: nat, by: nat) -> Seq<usize>
    decreases places.len(),
{
    if places.len() == 0 {
        Seq::empty()
    } else {
        let front = behind(places.drop_last(), dropped, shown, by);
        if places.last() >= dropped && places.last() - dropped + 1 < shown && places.last()
            - dropped + 1 + by <= usize::MAX {
            front.push((places.last() - dropped + 1 + by) as usize)
        } else {
            front
        }
    }
}

/// The places of a hit in a folded text that starts at character `by` of its row.
pub open spec fn folded_places(
    places: Seq<usize>,
    shown: Seq<char>,
    dropped: nat,
    full: nat,
    by: nat,
) -> Seq<usize> {
    if dropped > 0 {
        behind(places, dropped, shown.len(), by)
    } else {
        shifted(places, by, own_chars(shown.len(), full) + by)
    }
}

fn shift_places(places: &Vec<usize>, by: usize, limit: usize) -> (r: Vec<usize>)
    ensures
        r@ == shifted(places@, by as nat, limit as nat),
{
    let mut out: Vec<usize> = Vec::new();
    let mut i: usize = 0;
    assert(places@.take(0) =~= Seq::empty());
    while i < places.len()
        invariant
            i <= places.len(),
            out@ == shifted(places@.take(i as int), by as nat, limit as nat),
        decreases places.len() - i,
    {
        assert(places@.take(i + 1).drop_last() =~= places@.take(i as int));
        let place = places[i];
        if place < limit && by < limit - place {
            out.push(place + by);
        }
        i += 1;
    }
    assert(places@.take(i as int) =~= places@);
    out
}

/// The places of a hit in a text that stands behind a prefix, cut at its end.
pub fn shift_highlight_indices(
    indices: &Vec<usize>,
    prefix: usize,
    shown: usize,
    full: usize,
) -> (r: Vec<usize>)
    ensures
        r@ == shifted(indices@, prefix as nat, own_chars(shown as nat, full as nat)),
{
    shift_places(indices, prefix, colorable_char_limit(shown, full))
}

/// The places of a hit in a folded text.
pub fn fold_highlight_indices(
    indices: &Vec<usize>,
    shown: &str,
    dropped: usize,
    full: usize,
    offset: usize,
) -> (r: Vec<usize>)
    requires
        shown@.len() + offset <= usize::MAX,
    ensures
        r@ == folded_places(indices@, shown@, dropped as nat, full as nat, offset as nat),
{
    let chars = chars_of(shown);
    if dropped == 0 {
        let limit = colorable_char_limit(chars.len(), full);
        return shift_places(indices, offset, limit + offset);
    }
    let mut out: Vec<usize> = Vec::new();
    let mut i: usize = 0;
    assert(indices@.take(0) =~= Seq::empty());
    while i < indices.len()
        invariant
            i <= indices.len(),
            chars@ == shown@,
            chars.len() + offset <= usize::MAX,
            out@ == behind(
                indices@.take(i as int),
                dropped as nat,
                shown@.len(),
                offset as nat,
            ),
        decreases indices.len() - i,
    {
        assert(indices@.take(i + 1).drop_last() =~= indices@.take(i as int));
        let place = indices[i];
        if place >= dropped && chars.len() > 0 && place - dropped < chars.len() - 1 {
            out.push(place - dropped + 1 + offset);
        }
        i += 1;
    }
    assert(indices@.take(i as int) =~= indices@);
    out
}

// --- padding ---

/// The columns that are left of `cols` beside a text.
pub open spec fn room(s: Seq<char>, cols: nat) -> nat {
    if width_of(s) < cols {
        (cols - width_of(s)) as nat
    } else {
        0
    }
}

/// The text at the right end of `cols` columns.
pub fn pad_left(s: &str, cols: usize) -> (r: String)
    ensures
        r@ == spaces(room(s@, cols as nat)) + s@,
{
    let mut out = repeat(' ', cols.saturating_sub(display_width(s)));
    out.push_str(s);
    out
}

/// The text with spaces behind it up to `cols` columns.
pub fn pad_to_width(s: String, cols: usize) -> (r: String)
    ensures
        r@ == s@ + spaces(room(s@, cols as nat)),
        width_of(r@) == (if width_of(s@) < cols {
            cols as nat
        } else {
            width_of(s@)
        }),
{
    let ghost before = s@;
    let width = display_width(s.as_str());
    let mut out = s;
    let missing = cols.saturating_sub(width);
    let mut i: usize = 0;
    assert(before + spaces(0) =~= before);
    while i < missing
        invariant
            i <= missing,
            width + missing <= usize::MAX,
            out@ == before + spaces(i as nat),
            width_of(out@) == width + i,
        decreases missing - i,
    {
        let ghost now = out@;
        out.push(' ');
        let wider = display_width(out.as_str());
        assert(out@.drop_last() =~= now);
        assert(wider == width + i + 1);
        assert(out@ =~= before + spaces(i as nat + 1));
        i += 1;
    }
    out
}

// --- laws ---

/// A text of plain characters takes as many columns as it has characters.
pub proof fn law_plain_width(s: Seq<char>)
    requires
        forall|i: int| 0 <= i < s.len() ==> one_column(#[trigger] s[i]),
    ensures
        width_of(s) == s.len(),
    decreases s.len(),
{
    if s.len() > 0 {
        let front = s.drop_last();
        assert forall|i: int| 0 <= i < front.len() implies one_column(#[trigger] front[i]) by {
            assert(front[i] == s[i]);
        }
        assert(one_column(s[s.len() - 1]));
        law_plain_width(front);
    }
}

/// A cut text is no wider than allowed, and what is left of it is the start of the text. With
/// a column at hand at least the mark is left.
pub proof fn law_cut(s: Seq<char>, cols: nat)
    requires
        s.len() > 0,
    ensures
        width_of(cut(s, cols)) <= cols,
        cols > 0 ==> cut(s, cols).len() > 0,
        width_of(s) <= cols ==> cut(s, cols) == s,
        width_of(s) > cols && cut(s, cols).len() > 0 ==> cut(s, cols).last() == ELLIPSIS
            && cut(s, cols).len() <= s.len() && cut(s, cols).drop_last() == s.take(
            cut(s, cols).len() - 1,
        ),
{
    law_plain_width(seq![ELLIPSIS]);
    if width_of(s) > cols && width_of(seq![ELLIPSIS]) <= cols {
        assert(s.take(0).push(ELLIPSIS) =~= seq![ELLIPSIS]);
        lemma_prefix_fit(s, 0, cols);
        assert(cut(s, cols).drop_last() =~= s.take(cut(s, cols).len() - 1));
    }
}

/// A text cut at its start is no wider than allowed and keeps its end. With a column at hand
/// at least the mark is left.
pub proof fn law_cut_start(s: Seq<char>, cols: nat)
    requires
        s.len() > 0,
    ensures
        width_of(cut_start(s, cols).0) <= cols,
        cols > 0 ==> cut_start(s, cols).0.len() > 0,
        cut_start(s, cols).1 <= s.len(),
        cut_start(s, cols).1 == 0 ==> cut_start(s, cols).0 == s,
        cut_start(s, cols).1 > 0 && cut_start(s, cols).0.len() > 0 ==> cut_start(s, cols).0
            == seq![ELLIPSIS] + s.skip(cut_start(s, cols).1 as int),
{
    law_plain_width(seq![ELLIPSIS]);
    if width_of(s) > cols && width_of(seq![ELLIPSIS]) <= cols {
        assert(seq![ELLIPSIS] + s.skip(s.len() as int) =~= seq![ELLIPSIS]);
        lemma_suffix_fit(s, 0, cols);
    }
}

} // verus!
