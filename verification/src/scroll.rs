//! Scrolling: which part of a list is on screen. Rows that are hidden above or below are
//! announced by a marker row, which takes a row of the screen itself.

use vstd::prelude::*;

verus! {

pub open spec fn smaller(a: nat, b: nat) -> nat {
    if a < b {
        a
    } else {
        b
    }
}

/// How many rows of the list fit, with `scroll` of them hidden above.
pub open spec fn shown_rows(list_len: nat, area: nat, scroll: nat) -> nat {
    let a = if scroll > 0 && area > 0 {
        (area - 1) as nat
    } else {
        area
    };
    let b = if scroll + a < list_len && a > 0 {
        (a - 1) as nat
    } else {
        a
    };
    smaller(
        b,
        if scroll < list_len {
            (list_len - scroll) as nat
        } else {
            0
        },
    )
}

/// Scrolled back as long as the end of the list stays on screen.
pub open spec fn pulled(list_len: nat, area: nat, scroll: nat) -> nat
    decreases scroll,
{
    if scroll > 0 && scroll - 1 + shown_rows(list_len, area, (scroll - 1) as nat) >= list_len {
        pulled(list_len, area, (scroll - 1) as nat)
    } else {
        scroll
    }
}

/// Scrolled on until row `last` is on screen.
pub open spec fn pushed(list_len: nat, area: nat, scroll: nat, last: nat) -> nat
    decreases list_len - scroll,
{
    if scroll + 1 < list_len && last >= scroll + shown_rows(list_len, area, scroll) {
        pushed(list_len, area, scroll + 1, last)
    } else {
        scroll
    }
}

/// Scrolled so that the rows of the anchor are on screen.
pub open spec fn anchored(list_len: nat, area: nat, scroll: nat, anchor: Option<(nat, nat)>) -> nat {
    match anchor {
        Some((first, last)) => if first < scroll {
            first
        } else {
            pushed(list_len, area, scroll, last)
        },
        None => scroll,
    }
}

/// The rows to hide above: no room is wasted below the list, the anchor is on screen, and a
/// marker never stands for a single row.
pub open spec fn scrolled(list_len: nat, area: nat, scroll: nat, anchor: Option<(nat, nat)>) -> nat {
    if area == 0 || list_len <= area {
        0
    } else {
        let s = anchored(
            list_len,
            area,
            pulled(list_len, area, smaller(scroll, (list_len - 1) as nat)),
            anchor,
        );
        if s == 1 {
            0
        } else {
            s
        }
    }
}

/// How many rows of the list fit, with `scroll` of them hidden above.
pub fn rows_shown(list_len: usize, area: usize, scroll: usize) -> (r: usize)
    ensures
        r == shown_rows(list_len as nat, area as nat, scroll as nat),
{
    let mut shown = area;
    if scroll > 0 {
        shown = shown.saturating_sub(1);
    }
    let rest = list_len.saturating_sub(scroll);
    if shown < rest {
        shown = shown.saturating_sub(1);
    }
    if shown < rest {
        shown
    } else {
        rest
    }
}

/// The anchor as numbers.
pub open spec fn span_of(anchor: Option<(usize, usize)>) -> Option<(nat, nat)> {
    match anchor {
        Some((first, last)) => Some((first as nat, last as nat)),
        None => None,
    }
}

/// The rows to hide above.
pub fn reconcile_scroll(
    list_len: usize,
    area: usize,
    scroll: usize,
    anchor: Option<(usize, usize)>,
) -> (r: usize)
    ensures
        r == scrolled(list_len as nat, area as nat, scroll as nat, span_of(anchor)),
{
    if area == 0 || list_len <= area {
        return 0;
    }
    let mut s: usize = if scroll < list_len - 1 {
        scroll
    } else {
        list_len - 1
    };
    let ghost start = s as nat;
    while s > 0 && rows_shown(list_len, area, s - 1) >= list_len - (s - 1)
        invariant
            s < list_len,
            pulled(list_len as nat, area as nat, start) == pulled(
                list_len as nat,
                area as nat,
                s as nat,
            ),
        decreases s,
    {
        s -= 1;
    }
    let ghost back = pulled(list_len as nat, area as nat, start);
    assert(s == back);
    if let Some((first, last)) = anchor {
        if first < s {
            s = first;
        } else {
            let ghost from = s as nat;
            while s < list_len - 1 && (last >= s && last - s >= rows_shown(list_len, area, s))
                invariant
                    s < list_len,
                    pushed(list_len as nat, area as nat, from, last as nat) == pushed(
                        list_len as nat,
                        area as nat,
                        s as nat,
                        last as nat,
                    ),
                decreases list_len - s,
            {
                s += 1;
            }
        }
    }
    if s == 1 {
        return 0;
    }
    s
}

// --- laws ---

proof fn lemma_pulled(list_len: nat, area: nat, scroll: nat)
    requires
        scroll < list_len,
    ensures
        pulled(list_len, area, scroll) <= scroll,
        pulled(list_len, area, scroll) > 0 ==> pulled(list_len, area, scroll) - 1 + shown_rows(
            list_len,
            area,
            (pulled(list_len, area, scroll) - 1) as nat,
        ) < list_len,
    decreases scroll,
{
    if scroll > 0 && scroll - 1 + shown_rows(list_len, area, (scroll - 1) as nat) >= list_len {
        lemma_pulled(list_len, area, (scroll - 1) as nat);
    }
}

proof fn lemma_pushed(list_len: nat, area: nat, scroll: nat, first: nat, last: nat)
    requires
        scroll <= first <= last < list_len,
        last - first + 3 <= area,
    ensures
        scroll <= pushed(list_len, area, scroll, last) <= first,
        last < pushed(list_len, area, scroll, last) + shown_rows(
            list_len,
            area,
            pushed(list_len, area, scroll, last),
        ),
    decreases list_len - scroll,
{
    if scroll + 1 < list_len && last >= scroll + shown_rows(list_len, area, scroll) {
        assert(scroll < first);
        lemma_pushed(list_len, area, scroll + 1, first, last);
    }
}

/// A list that fits is shown as a whole.
pub proof fn law_short_list_shown(list_len: nat, area: nat, scroll: nat, anchor: Option<(nat, nat)>)
    requires
        list_len <= area,
    ensures
        scrolled(list_len, area, scroll, anchor) == 0,
        shown_rows(list_len, area, 0) == list_len,
{
}

/// The selected rows are always on screen, if there is room for them beside two markers.
pub proof fn law_selection_on_screen(list_len: nat, area: nat, scroll: nat, first: nat, last: nat)
    requires
        first <= last < list_len,
        last - first + 3 <= area,
    ensures
        scrolled(list_len, area, scroll, Some((first, last))) <= first,
        last < scrolled(list_len, area, scroll, Some((first, last))) + shown_rows(
            list_len,
            area,
            scrolled(list_len, area, scroll, Some((first, last))),
        ),
{
    if list_len > area {
        let s = pulled(list_len, area, smaller(scroll, (list_len - 1) as nat));
        lemma_pulled(list_len, area, smaller(scroll, (list_len - 1) as nat));
        if first >= s {
            lemma_pushed(list_len, area, s, first, last);
        }
    }
}

/// A list that does not fit fills the screen: the rows shown and the markers take all of it.
pub proof fn law_screen_is_filled(list_len: nat, area: nat, scroll: nat)
    requires
        area >= 2,
        list_len > area,
    ensures
        ({
            let s = scrolled(list_len, area, scroll, None);
            let shown = shown_rows(list_len, area, s);
            s + shown <= list_len && shown + (if s > 0 {
                1nat
            } else {
                0nat
            }) + (if s + shown < list_len {
                1nat
            } else {
                0nat
            }) == area
        }),
{
    lemma_pulled(list_len, area, smaller(scroll, (list_len - 1) as nat));
}

/// The list never scrolls past its end.
pub proof fn law_scroll_in_list(list_len: nat, area: nat, scroll: nat, anchor: Option<(nat, nat)>)
    ensures
        scrolled(list_len, area, scroll, anchor) <= list_len,
        scrolled(list_len, area, scroll, anchor) + shown_rows(
            list_len,
            area,
            scrolled(list_len, area, scroll, anchor),
        ) <= list_len,
{
    if area > 0 && list_len > area {
        let s = pulled(list_len, area, smaller(scroll, (list_len - 1) as nat));
        lemma_pulled(list_len, area, smaller(scroll, (list_len - 1) as nat));
        if let Some((first, last)) = anchor {
            lemma_pushed_inside(list_len, area, s, last);
        }
    }
}

proof fn lemma_pushed_inside(list_len: nat, area: nat, scroll: nat, last: nat)
    requires
        scroll < list_len,
    ensures
        pushed(list_len, area, scroll, last) < list_len,
    decreases list_len - scroll,
{
    if scroll + 1 < list_len && last >= scroll + shown_rows(list_len, area, scroll) {
        lemma_pushed_inside(list_len, area, scroll + 1, last);
    }
}

/// A marker always stands for at least two rows above.
pub proof fn law_marker_hides_two(list_len: nat, area: nat, scroll: nat, anchor: Option<(nat, nat)>)
    ensures
        scrolled(list_len, area, scroll, anchor) != 1,
{
}

} // verus!
