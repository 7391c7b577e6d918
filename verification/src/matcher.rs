//! Fuzzy matching for the search sub-mode.
//!
//! A query matches a text when its characters occur there in order. Of all the
//! places where they do, the match is the one that ends first, and of those the
//! one that starts last: a query never stretches back over a long region when a
//! tight one ends at the same place.

use vstd::prelude::*;

use crate::text::{
    chars_of, fold_ascii, in_ascii, is_upper_ascii, is_white, same_ignoring_case, upper_ascii,
    white,
};

verus! {

/// The text of a pane that a query matched, in the order of preference on equal scores.
#[derive(Debug, Clone, Copy, PartialEq, Eq, PartialOrd, Ord, Structural)]
pub enum Field {
    /// The pane's name.
    Title,
    /// The name of the tab the pane belongs to.
    Tab,
    /// The working directory a hook reported.
    Cwd,
}

#[derive(Debug)]
pub struct Hit {
    pub score: i32,
    pub field: Field,
    /// The matched character positions in the text that `field` names.
    pub indices: Vec<usize>,
}

#[verifier::ext_equal]
pub struct HitV {
    pub score: i32,
    pub field: Field,
    pub indices: Seq<usize>,
}

impl View for Hit {
    type V = HitV;

    open spec fn view(&self) -> HitV {
        HitV { score: self.score, field: self.field, indices: self.indices@ }
    }
}

impl Clone for Hit {
    fn clone(&self) -> (r: Hit)
        ensures
            r@ == self@,
    {
        let mut indices: Vec<usize> = Vec::new();
        let mut i: usize = 0;
        while i < self.indices.len()
            invariant
                i <= self.indices.len(),
                indices@ == self.indices@.take(i as int),
            decreases self.indices.len() - i,
        {
            indices.push(self.indices[i]);
            i += 1;
        }
        assert(indices@ =~= self.indices@);
        Hit { score: self.score, field: self.field, indices }
    }
}

/// For each matched character.
pub const MATCH: i32 = 16;

/// The character before it matched as well.
pub const BONUS_CONSECUTIVE: i32 = 8;

/// It stands first, or behind a separator or white space.
pub const BONUS_BOUNDARY: i32 = 12;

/// It is a capital behind a small letter.
pub const BONUS_CAMEL: i32 = 8;

/// For each unmatched character between matched ones.
pub const GAP_PENALTY: i32 = -1;

/// The most that gaps cost.
pub const GAP_PENALTY_FLOOR: i32 = -20;

/// The name of what `char::is_lowercase` returns.
pub uninterp spec fn lower_letter(c: char) -> bool;

/// The name of what `char::is_uppercase` returns.
pub uninterp spec fn upper_letter(c: char) -> bool;

/// A small letter.
pub open spec fn small(c: char) -> bool {
    if in_ascii(c) {
        'a' <= c <= 'z'
    } else {
        lower_letter(c)
    }
}

/// A capital.
pub open spec fn capital(c: char) -> bool {
    if in_ascii(c) {
        'A' <= c <= 'Z'
    } else {
        upper_letter(c)
    }
}

/// `char::is_lowercase` tells the Unicode `Lowercase` property, a fixed table of characters.
/// In the ASCII range these are the letters from `a` to `z`; beyond it nothing is claimed of
/// which characters the table holds.
pub assume_specification[ char::is_lowercase ](c: char) -> (r: bool)
    ensures
        in_ascii(c) ==> r == ('a' <= c <= 'z'),
        !in_ascii(c) ==> r == lower_letter(c),
;

/// `char::is_uppercase` tells the Unicode `Uppercase` property, a fixed table of characters.
/// In the ASCII range these are the letters from `A` to `Z`; beyond it nothing is claimed of
/// which characters the table holds.
pub assume_specification[ char::is_uppercase ](c: char) -> (r: bool)
    ensures
        in_ascii(c) ==> r == ('A' <= c <= 'Z'),
        !in_ascii(c) ==> r == upper_letter(c),
;

// --- what a match is ---

pub open spec fn same_char(a: char, b: char, case_sensitive: bool) -> bool {
    if case_sensitive {
        a == b
    } else {
        fold_ascii(a) == fold_ascii(b)
    }
}

/// `idx` names one place for each character of the query, in order, within `lo..hi`.
pub open spec fn placed(
    q: Seq<char>,
    h: Seq<char>,
    lo: int,
    hi: int,
    case_sensitive: bool,
    idx: Seq<int>,
) -> bool {
    &&& idx.len() == q.len()
    &&& forall|j: int|
        0 <= j < idx.len() ==> lo <= #[trigger] idx[j] < hi && same_char(
            q[j],
            h[idx[j]],
            case_sensitive,
        )
    &&& forall|j: int, k: int| 0 <= j < k < idx.len() ==> idx[j] < idx[k]
}

/// The characters of the query occur in order within `lo..hi`.
pub open spec fn fits(
    q: Seq<char>,
    h: Seq<char>,
    lo: int,
    hi: int,
    case_sensitive: bool,
) -> bool {
    exists|idx: Seq<int>| placed(q, h, lo, hi, case_sensitive, idx)
}

/// Some placing of the query within `lo..hi`.
spec fn placing(
    q: Seq<char>,
    h: Seq<char>,
    lo: int,
    hi: int,
    case_sensitive: bool,
) -> Seq<int> {
    choose|idx: Seq<int>| placed(q, h, lo, hi, case_sensitive, idx)
}

/// The matched region `start..=end`: no match ends before `end`, none that ends there
/// starts after `start`.
pub open spec fn region(
    q: Seq<char>,
    h: Seq<char>,
    case_sensitive: bool,
    start: int,
    end: int,
) -> bool {
    &&& 0 <= start <= end < h.len()
    &&& fits(q, h, 0, end + 1, case_sensitive)
    &&& !fits(q, h, 0, end, case_sensitive)
    &&& fits(q, h, start, end + 1, case_sensitive)
    &&& !fits(q, h, start + 1, end + 1, case_sensitive)
}

/// The leftmost places of the query's characters within `lo..hi`.
pub open spec fn leftmost(
    q: Seq<char>,
    h: Seq<char>,
    lo: int,
    hi: int,
    case_sensitive: bool,
) -> Seq<usize>
    decreases hi - lo,
{
    if q.len() == 0 || lo >= hi {
        seq![]
    } else if same_char(q[0], h[lo], case_sensitive) {
        seq![lo as usize] + leftmost(q.drop_first(), h, lo + 1, hi, case_sensitive)
    } else {
        leftmost(q, h, lo + 1, hi, case_sensitive)
    }
}

/// The positions that a matching query marks.
pub open spec fn marked_places(q: Seq<char>, h: Seq<char>, case_sensitive: bool) -> Seq<usize> {
    let (start, end) = choose|start: int, end: int| region(q, h, case_sensitive, start, end);
    leftmost(q, h, start, end + 1, case_sensitive)
}

pub open spec fn separator(c: char) -> bool {
    c == '/' || c == '-' || c == '_' || c == '.'
}

pub open spec fn place_bonus(h: Seq<char>, i: int) -> int {
    if i <= 0 || separator(h[i - 1]) || white(h[i - 1]) {
        BONUS_BOUNDARY as int
    } else if small(h[i - 1]) && capital(h[i]) {
        BONUS_CAMEL as int
    } else {
        0
    }
}

/// The points of the first `n` marked places.
pub open spec fn points(h: Seq<char>, idx: Seq<usize>, n: nat) -> int
    decreases n,
{
    if n == 0 {
        0
    } else {
        let k = (n - 1) as int;
        points(h, idx, (n - 1) as nat) + MATCH + (if k > 0 && idx[k - 1] + 1 == idx[k] {
            BONUS_CONSECUTIVE as int
        } else {
            place_bonus(h, idx[k] as int)
        })
    }
}

/// The unmatched characters between the first and the last marked place.
pub open spec fn gaps(idx: Seq<usize>) -> int {
    if idx.len() == 0 {
        0
    } else {
        idx.last() + 1 - idx[0] - idx.len()
    }
}

pub open spec fn clamp_i32(n: int) -> i32 {
    if n > i32::MAX {
        i32::MAX
    } else {
        n as i32
    }
}

/// The score of the marked places. It saturates at the largest `i32`.
pub open spec fn score_of(h: Seq<char>, idx: Seq<usize>) -> i32 {
    let loss = GAP_PENALTY * gaps(idx);
    clamp_i32(
        points(h, idx, idx.len()) + (if loss < GAP_PENALTY_FLOOR {
            GAP_PENALTY_FLOOR as int
        } else {
            loss
        }),
    )
}

/// What matching one text gives: the score and the marked places.
pub open spec fn matched(q: Seq<char>, h: Seq<char>, case_sensitive: bool) -> Option<
    (i32, Seq<usize>),
> {
    if q.len() == 0 {
        Some((0, seq![]))
    } else if fits(q, h, 0, h.len() as int, case_sensitive) {
        let idx = marked_places(q, h, case_sensitive);
        Some((score_of(h, idx), idx))
    } else {
        None
    }
}

/// A capital anywhere in the query makes it case-sensitive.
pub open spec fn is_case_sensitive(q: Seq<char>) -> bool {
    exists|i: int| 0 <= i < q.len() && upper_ascii(#[trigger] q[i])
}

/// The hit in one field, its score weighted in tenths.
pub open spec fn field_hit(q: Seq<char>, h: Seq<char>, field: Field, weight: int) -> Option<HitV> {
    match matched(q, h, is_case_sensitive(q)) {
        Some((score, indices)) => Some(
            HitV { score: (score * weight / 10) as i32, field, indices },
        ),
        None => None,
    }
}

/// The better of two hits; the first one on equal scores.
pub open spec fn better(a: Option<HitV>, b: Option<HitV>) -> Option<HitV> {
    if b is Some && (a is None || b->0.score > a->0.score) {
        b
    } else {
        a
    }
}

/// The best hit of a query among the three texts of a pane.
pub open spec fn pane_hit(
    q: Seq<char>,
    title: Seq<char>,
    tab: Seq<char>,
    cwd: Option<Seq<char>>,
) -> Option<HitV> {
    better(
        better(field_hit(q, title, Field::Title, 10), field_hit(q, tab, Field::Tab, 8)),
        match cwd {
            Some(cwd) => field_hit(q, cwd, Field::Cwd, 6),
            None => None,
        },
    )
}

// --- lemmas on places ---

proof fn lemma_fits_wider(
    q: Seq<char>,
    h: Seq<char>,
    lo: int,
    hi: int,
    lo2: int,
    hi2: int,
    case_sensitive: bool,
)
    requires
        fits(q, h, lo, hi, case_sensitive),
        lo2 <= lo,
        hi <= hi2,
    ensures
        fits(q, h, lo2, hi2, case_sensitive),
{
    let idx = placing(q, h, lo, hi, case_sensitive);
    assert(placed(q, h, lo2, hi2, case_sensitive, idx));
}

proof fn lemma_empty_fits(h: Seq<char>, lo: int, hi: int, case_sensitive: bool)
    ensures
        fits(seq![], h, lo, hi, case_sensitive),
{
    assert(placed(seq![], h, lo, hi, case_sensitive, seq![]));
}

proof fn lemma_append_place(
    q: Seq<char>,
    h: Seq<char>,
    lo: int,
    at: int,
    c: char,
    case_sensitive: bool,
)
    requires
        fits(q, h, lo, at, case_sensitive),
        lo <= at,
        same_char(c, h[at], case_sensitive),
    ensures
        fits(q.push(c), h, lo, at + 1, case_sensitive),
{
    let idx = placing(q, h, lo, at, case_sensitive);
    assert(placed(q.push(c), h, lo, at + 1, case_sensitive, idx.push(at)));
}

/// A match of `q.push(c)` that ends by `at` either ends before `at` or has `c` there.
proof fn lemma_last_place(
    q: Seq<char>,
    h: Seq<char>,
    lo: int,
    at: int,
    c: char,
    case_sensitive: bool,
)
    requires
        fits(q.push(c), h, lo, at + 1, case_sensitive),
    ensures
        fits(q, h, lo, at, case_sensitive),
        same_char(c, h[at], case_sensitive) || fits(q.push(c), h, lo, at, case_sensitive),
{
    let idx = placing(q.push(c), h, lo, at + 1, case_sensitive);
    let last = idx.last();
    let front = idx.drop_last();
    assert(last == idx[q.len() as int]);
    assert(q.push(c)[q.len() as int] == c);
    assert forall|j: int| 0 <= j < front.len() implies lo <= #[trigger] front[j] < at && same_char(
        q[j],
        h[front[j]],
        case_sensitive,
    ) by {
        assert(front[j] == idx[j]);
        assert(idx[j] < idx[q.len() as int]);
        assert(q.push(c)[j] == q[j]);
    }
    assert(placed(q, h, lo, at, case_sensitive, front));
    if last < at {
        assert forall|j: int| 0 <= j < idx.len() implies lo <= #[trigger] idx[j] < at by {
            if j < q.len() {
                assert(idx[j] < idx[q.len() as int]);
            }
        }
        assert(placed(q.push(c), h, lo, at, case_sensitive, idx));
    } else {
        assert(last == at);
    }
}

proof fn lemma_prepend_place(
    q: Seq<char>,
    h: Seq<char>,
    at: int,
    hi: int,
    c: char,
    case_sensitive: bool,
)
    requires
        fits(q, h, at + 1, hi, case_sensitive),
        at < hi,
        same_char(c, h[at], case_sensitive),
    ensures
        fits(seq![c] + q, h, at, hi, case_sensitive),
{
    let idx = placing(q, h, at + 1, hi, case_sensitive);
    let all = seq![at] + idx;
    let whole = seq![c] + q;
    assert forall|j: int| 0 <= j < all.len() implies at <= #[trigger] all[j] < hi && same_char(
        whole[j],
        h[all[j]],
        case_sensitive,
    ) by {
        if j > 0 {
            assert(all[j] == idx[j - 1]);
            assert(whole[j] == q[j - 1]);
        }
    }
    assert forall|j: int, k: int| 0 <= j < k < all.len() implies all[j] < all[k] by {
        assert(all[k] == idx[k - 1]);
        if j > 0 {
            assert(all[j] == idx[j - 1]);
        }
    }
    assert(placed(whole, h, at, hi, case_sensitive, all));
}

/// A match of `[c] + q` that starts at `at` or later either starts after `at` or has `c` there.
proof fn lemma_first_place(
    q: Seq<char>,
    h: Seq<char>,
    at: int,
    hi: int,
    c: char,
    case_sensitive: bool,
)
    requires
        fits(seq![c] + q, h, at, hi, case_sensitive),
    ensures
        fits(q, h, at + 1, hi, case_sensitive),
        same_char(c, h[at], case_sensitive) || fits(seq![c] + q, h, at + 1, hi, case_sensitive),
{
    let whole = seq![c] + q;
    let idx = placing(whole, h, at, hi, case_sensitive);
    let rest = idx.drop_first();
    assert(whole[0] == c);
    assert forall|j: int| 0 <= j < rest.len() implies at + 1 <= #[trigger] rest[j] < hi
        && same_char(q[j], h[rest[j]], case_sensitive) by {
        assert(rest[j] == idx[j + 1]);
        assert(idx[0] < idx[j + 1]);
        assert(whole[j + 1] == q[j]);
    }
    assert(placed(q, h, at + 1, hi, case_sensitive, rest));
    if idx[0] > at {
        assert forall|j: int| 0 <= j < idx.len() implies at + 1 <= #[trigger] idx[j] < hi by {
            if j > 0 {
                assert(idx[0] < idx[j]);
            }
        }
        assert(placed(whole, h, at + 1, hi, case_sensitive, idx));
    }
}

/// There is one matched region.
proof fn lemma_region_unique(
    q: Seq<char>,
    h: Seq<char>,
    case_sensitive: bool,
    start: int,
    end: int,
)
    requires
        region(q, h, case_sensitive, start, end),
    ensures
        marked_places(q, h, case_sensitive) == leftmost(q, h, start, end + 1, case_sensitive),
{
    let (s2, e2) = choose|s2: int, e2: int| region(q, h, case_sensitive, s2, e2);
    assert(region(q, h, case_sensitive, s2, e2));
    if e2 < end {
        lemma_fits_wider(q, h, 0, e2 + 1, 0, end, case_sensitive);
    } else if end < e2 {
        lemma_fits_wider(q, h, 0, end + 1, 0, e2, case_sensitive);
    }
    if s2 < start {
        lemma_fits_wider(q, h, start, end + 1, s2 + 1, end + 1, case_sensitive);
    } else if start < s2 {
        lemma_fits_wider(q, h, s2, end + 1, start + 1, end + 1, case_sensitive);
    }
}

/// Where the query fits, its leftmost places are a placing of all its characters.
pub proof fn lemma_leftmost_placed(
    q: Seq<char>,
    h: Seq<char>,
    lo: int,
    hi: int,
    case_sensitive: bool,
)
    requires
        fits(q, h, lo, hi, case_sensitive),
        0 <= lo,
        hi <= h.len() <= usize::MAX,
    ensures
        ({
            let idx = leftmost(q, h, lo, hi, case_sensitive);
            placed(q, h, lo, hi, case_sensitive, Seq::new(idx.len(), |j: int| idx[j] as int))
        }),
    decreases hi - lo,
{
    let idx = leftmost(q, h, lo, hi, case_sensitive);
    let ints = Seq::new(idx.len(), |j: int| idx[j] as int);
    if q.len() == 0 {
        assert(placed(q, h, lo, hi, case_sensitive, ints));
    } else {
        let any = placing(q, h, lo, hi, case_sensitive);
        assert(lo <= any[0] < hi);
        let rest = q.drop_first();
        assert(seq![q[0]] + rest =~= q);
        lemma_first_place(rest, h, lo, hi, q[0], case_sensitive);
        if same_char(q[0], h[lo], case_sensitive) {
            lemma_leftmost_placed(rest, h, lo + 1, hi, case_sensitive);
            let tail = leftmost(rest, h, lo + 1, hi, case_sensitive);
            let tail_ints = Seq::new(tail.len(), |j: int| tail[j] as int);
            assert(placed(rest, h, lo + 1, hi, case_sensitive, tail_ints));
            assert forall|j: int| 0 <= j < ints.len() implies lo <= #[trigger] ints[j] < hi
                && same_char(q[j], h[ints[j]], case_sensitive) by {
                if j > 0 {
                    assert(ints[j] == tail_ints[j - 1]);
                    assert(q[j] == rest[j - 1]);
                }
            }
            assert forall|j: int, k: int| 0 <= j < k < ints.len() implies ints[j] < ints[k] by {
                assert(ints[k] == tail_ints[k - 1]);
                if j > 0 {
                    assert(ints[j] == tail_ints[j - 1]);
                }
            }
        } else {
            lemma_leftmost_placed(q, h, lo + 1, hi, case_sensitive);
            let tail = leftmost(q, h, lo + 1, hi, case_sensitive);
            let tail_ints = Seq::new(tail.len(), |j: int| tail[j] as int);
            assert(placed(q, h, lo + 1, hi, case_sensitive, tail_ints));
            assert(ints =~= tail_ints);
        }
    }
}

// --- the functions ---

fn chars_match(a: char, b: char, case_sensitive: bool) -> (r: bool)
    ensures
        r == same_char(a, b, case_sensitive),
{
    if case_sensitive {
        a == b
    } else {
        same_ignoring_case(a, b)
    }
}

/// Matches one text. Returns the score and the matched character positions.
pub fn match_one(query: &[char], haystack: &str, case_sensitive: bool) -> (r: Option<
    (i32, Vec<usize>),
>)
    ensures
        r is Some == matched(query@, haystack@, case_sensitive) is Some,
        r is Some ==> ((r->0).0, (r->0).1@) == matched(query@, haystack@, case_sensitive)->0,
        r is Some ==> (r->0).0 >= 0,
{
    if query.len() == 0 {
        return Some((0, Vec::new()));
    }
    let haystack = chars_of(haystack);
    let ghost q = query@;
    let ghost h = haystack@;
    let end: usize = match match_end(query, &haystack, case_sensitive) {
        Some(end) => end,
        None => {
            return None;
        },
    };
    let start = match_start(query, &haystack, case_sensitive, end);
    let indices = match_places(query, &haystack, case_sensitive, start, end);
    proof {
        lemma_fits_wider(q, h, 0, end + 1, 0, h.len() as int, case_sensitive);
        lemma_region_unique(q, h, case_sensitive, start as int, end as int);
        lemma_score_nonnegative(q, h, case_sensitive);
        lemma_leftmost_placed(q, h, start as int, end + 1, case_sensitive);
        let ints = Seq::new(indices@.len(), |j: int| indices@[j] as int);
        assert(placed(q, h, start as int, end + 1, case_sensitive, ints));
        assert forall|j: int| 0 <= j < indices@.len() implies #[trigger] indices@[j] < h.len() by {
            assert(ints[j] == indices@[j]);
        }
        assert forall|j: int, k: int| 0 <= j < k < indices@.len() implies indices@[j]
            < indices@[k] by {
            assert(ints[j] < ints[k]);
        }
    }
    Some((score(&haystack, &indices), indices))
}

/// Consumes the query from the front: the end of the earliest match.
fn match_end(query: &[char], haystack: &[char], case_sensitive: bool) -> (r: Option<usize>)
    requires
        query.len() > 0,
    ensures
        r is None ==> !fits(query@, haystack@, 0, haystack@.len() as int, case_sensitive),
        r is Some ==> r->0 < haystack.len() && fits(
            query@,
            haystack@,
            0,
            r->0 + 1,
            case_sensitive,
        ) && !fits(query@, haystack@, 0, r->0 as int, case_sensitive),
{
    let ghost q = query@;
    let ghost h = haystack@;
    let mut qi: usize = 0;
    let mut hi: usize = 0;
    proof {
        assert(q.take(0) =~= seq![]);
        lemma_empty_fits(h, 0, 0, case_sensitive);
        if fits(q.take(1), h, 0, 0, case_sensitive) {
            let idx = placing(q.take(1), h, 0, 0, case_sensitive);
            assert(idx.len() == 1);
            assert(0 <= idx[0]);
            assert(false);
        }
    }
    while hi < haystack.len()
        invariant
            q == query@,
            h == haystack@,
            hi <= haystack.len(),
            qi < query.len(),
            fits(q.take(qi as int), h, 0, hi as int, case_sensitive),
            !fits(q.take(qi + 1), h, 0, hi as int, case_sensitive),
        decreases haystack.len() - hi,
    {
        let ghost have = q.take(qi as int);
        let ghost want = q.take(qi + 1);
        assert(have.push(q[qi as int]) =~= want);
        if chars_match(query[qi], haystack[hi], case_sensitive) {
            proof {
                lemma_append_place(have, h, 0, hi as int, q[qi as int], case_sensitive);
            }
            if qi + 1 == query.len() {
                assert(want =~= q);
                return Some(hi);
            }
            proof {
                let next = q.take(qi + 2);
                assert(want.push(q[qi + 1]) =~= next);
                if fits(next, h, 0, hi + 1, case_sensitive) {
                    lemma_last_place(want, h, 0, hi as int, q[qi + 1], case_sensitive);
                }
            }
            qi += 1;
        } else {
            proof {
                lemma_fits_wider(have, h, 0, hi as int, 0, hi + 1, case_sensitive);
                if fits(want, h, 0, hi + 1, case_sensitive) {
                    lemma_last_place(have, h, 0, hi as int, q[qi as int], case_sensitive);
                }
            }
        }
        hi += 1;
    }
    proof {
        if fits(q, h, 0, h.len() as int, case_sensitive) {
            let idx = placing(q, h, 0, h.len() as int, case_sensitive);
            let front = idx.take(qi + 1);
            let want = q.take(qi + 1);
            assert forall|j: int| 0 <= j < front.len() implies 0 <= #[trigger] front[j] < h.len()
                && same_char(want[j], h[front[j]], case_sensitive) by {
                assert(front[j] == idx[j]);
                assert(want[j] == q[j]);
            }
            assert forall|j: int, k: int| 0 <= j < k < front.len() implies front[j] < front[k] by {
                assert(front[j] == idx[j] && front[k] == idx[k]);
            }
            assert(placed(want, h, 0, h.len() as int, case_sensitive, front));
        }
    }
    None
}

/// Consumes the query from the back: the start of the tightest match that ends at `end`.
fn match_start(query: &[char], haystack: &[char], case_sensitive: bool, end: usize) -> (r: usize)
    requires
        query.len() > 0,
        end < haystack.len(),
        fits(query@, haystack@, 0, end + 1, case_sensitive),
    ensures
        r <= end,
        fits(query@, haystack@, r as int, end + 1, case_sensitive),
        !fits(query@, haystack@, r + 1, end + 1, case_sensitive),
{
    let ghost q = query@;
    let ghost h = haystack@;
    let ghost stop = end + 1;
    let mut qi: usize = query.len();
    let mut hi: usize = end + 1;
    proof {
        assert(q.skip(q.len() as int) =~= seq![]);
        lemma_empty_fits(h, stop, stop, case_sensitive);
        let last = q.skip(q.len() - 1);
        if fits(last, h, stop, stop, case_sensitive) {
            let idx = placing(last, h, stop, stop, case_sensitive);
            assert(idx.len() == 1);
            assert(stop <= idx[0]);
            assert(false);
        }
    }
    while hi > 0
        invariant
            q == query@,
            h == haystack@,
            stop == end + 1,
            end < haystack.len(),
            hi <= stop,
            0 < qi <= query.len(),
            fits(q, h, 0, stop, case_sensitive),
            fits(q.skip(qi as int), h, hi as int, stop, case_sensitive),
            !fits(q.skip(qi - 1), h, hi as int, stop, case_sensitive),
        decreases hi,
    {
        let at: usize = hi - 1;
        let ghost have = q.skip(qi as int);
        let ghost want = q.skip(qi - 1);
        let ghost c = q[qi - 1];
        assert(seq![c] + have =~= want);
        if chars_match(query[qi - 1], haystack[at], case_sensitive) {
            proof {
                lemma_prepend_place(have, h, at as int, stop, c, case_sensitive);
            }
            if qi == 1 {
                assert(want =~= q);
                return at;
            }
            proof {
                let next = q.skip(qi - 2);
                assert(seq![q[qi - 2]] + want =~= next);
                if fits(next, h, at as int, stop, case_sensitive) {
                    lemma_first_place(want, h, at as int, stop, q[qi - 2], case_sensitive);
                }
            }
            qi -= 1;
        } else {
            proof {
                lemma_fits_wider(have, h, hi as int, stop, at as int, stop, case_sensitive);
                if fits(want, h, at as int, stop, case_sensitive) {
                    lemma_first_place(have, h, at as int, stop, c, case_sensitive);
                }
            }
        }
        hi = at;
    }
    proof {
        let idx = placing(q, h, 0, stop, case_sensitive);
        let want = q.skip(qi - 1);
        let back = idx.skip(qi - 1);
        assert forall|j: int| 0 <= j < back.len() implies 0 <= #[trigger] back[j] < stop
            && same_char(want[j], h[back[j]], case_sensitive) by {
            assert(back[j] == idx[j + qi - 1]);
            assert(want[j] == q[j + qi - 1]);
        }
        assert forall|j: int, k: int| 0 <= j < k < back.len() implies back[j] < back[k] by {
            assert(back[j] == idx[j + qi - 1] && back[k] == idx[k + qi - 1]);
        }
        assert(placed(want, h, 0, stop, case_sensitive, back));
    }
    0
}

/// The leftmost places of the query within `start..=end`.
fn match_places(
    query: &[char],
    haystack: &[char],
    case_sensitive: bool,
    start: usize,
    end: usize,
) -> (r: Vec<usize>)
    requires
        start <= end < haystack.len(),
    ensures
        r@ == leftmost(query@, haystack@, start as int, end + 1, case_sensitive),
{
    let ghost q = query@;
    let ghost h = haystack@;
    let mut indices: Vec<usize> = Vec::new();
    let mut qi: usize = 0;
    let mut hi: usize = start;
    assert(q.skip(0) =~= q);
    assert(indices@ + leftmost(q, h, start as int, end + 1, case_sensitive) =~= leftmost(
        q,
        h,
        start as int,
        end + 1,
        case_sensitive,
    ));
    while hi <= end
        invariant
            q == query@,
            h == haystack@,
            start <= hi <= end + 1,
            end < haystack.len(),
            qi <= query.len(),
            indices@ + leftmost(q.skip(qi as int), h, hi as int, end + 1, case_sensitive)
                == leftmost(q, h, start as int, end + 1, case_sensitive),
        decreases end + 1 - hi,
    {
        let ghost rest = q.skip(qi as int);
        let ghost before = indices@;
        if qi < query.len() && chars_match(query[qi], haystack[hi], case_sensitive) {
            indices.push(hi);
            assert(rest[0] == q[qi as int]);
            assert(rest.drop_first() =~= q.skip(qi + 1));
            qi += 1;
            assert(indices@ + leftmost(q.skip(qi as int), h, hi + 1, end + 1, case_sensitive)
                =~= before + leftmost(rest, h, hi as int, end + 1, case_sensitive));
        }
        hi += 1;
    }
    assert(leftmost(q.skip(qi as int), h, hi as int, end + 1, case_sensitive) =~= seq![]);
    assert(indices@ =~= leftmost(q, h, start as int, end + 1, case_sensitive));
    indices
}

/// The score of matched positions: each counts, runs and boundaries count more, gaps cost.
pub fn score(haystack: &[char], indices: &[usize]) -> (r: i32)
    requires
        forall|j: int| 0 <= j < indices.len() ==> #[trigger] indices[j] < haystack.len(),
        forall|j: int, k: int| 0 <= j < k < indices.len() ==> indices[j] < indices[k],
    ensures
        r == score_of(haystack@, indices@),
{
    let mut total: i128 = 0;
    let mut k: usize = 0;
    while k < indices.len()
        invariant
            k <= indices.len(),
            forall|j: int| 0 <= j < indices.len() ==> #[trigger] indices[j] < haystack.len(),
            total == points(haystack@, indices@, k as nat),
            0 <= total <= 28 * k,
        decreases indices.len() - k,
    {
        let i = indices[k];
        let bonus: i32 = if k > 0 && i > 0 && indices[k - 1] == i - 1 {
            BONUS_CONSECUTIVE
        } else {
            positional_bonus(haystack, i)
        };
        total = total + MATCH as i128 + bonus as i128;
        k += 1;
    }
    let n = indices.len();
    proof {
        lemma_gaps_nonnegative(indices@);
    }
    let gap: usize = if n == 0 {
        0
    } else {
        indices[n - 1] - indices[0] - (n - 1)
    };
    assert(gap == gaps(indices@));
    let loss: i32 = if gap > 20 {
        GAP_PENALTY_FLOOR
    } else {
        GAP_PENALTY * (gap as i32)
    };
    let sum: i128 = total + loss as i128;
    if sum > i32::MAX as i128 {
        i32::MAX
    } else {
        sum as i32
    }
}

proof fn lemma_gaps_nonnegative(idx: Seq<usize>)
    requires
        forall|j: int, k: int| 0 <= j < k < idx.len() ==> idx[j] < idx[k],
    ensures
        idx.len() > 0 ==> idx.last() - idx[0] >= idx.len() - 1,
    decreases idx.len(),
{
    if idx.len() > 1 {
        let front = idx.drop_last();
        assert forall|j: int, k: int| 0 <= j < k < front.len() implies front[j] < front[k] by {
            assert(front[j] == idx[j] && front[k] == idx[k]);
        }
        lemma_gaps_nonnegative(front);
        assert(front.last() == idx[idx.len() - 2]);
        assert(front[0] == idx[0]);
    }
}

pub fn positional_bonus(haystack: &[char], i: usize) -> (r: i32)
    requires
        i < haystack.len(),
    ensures
        r == place_bonus(haystack@, i as int),
        0 <= r <= 12,
{
    if i == 0 {
        return BONUS_BOUNDARY;
    }
    let prev = haystack[i - 1];
    if prev == '/' || prev == '-' || prev == '_' || prev == '.' || is_white(prev) {
        BONUS_BOUNDARY
    } else if prev.is_lowercase() && haystack[i].is_uppercase() {
        BONUS_CAMEL
    } else {
        0
    }
}

fn has_capital(query: &[char]) -> (r: bool)
    ensures
        r == is_case_sensitive(query@),
{
    let mut i: usize = 0;
    while i < query.len()
        invariant
            i <= query.len(),
            forall|j: int| 0 <= j < i ==> !upper_ascii(#[trigger] query@[j]),
        decreases query.len() - i,
    {
        if is_upper_ascii(query[i]) {
            assert(upper_ascii(query@[i as int]));
            return true;
        }
        i += 1;
    }
    false
}

fn weighted_hit(query: &[char], haystack: &str, field: Field, weight: i32) -> (r: Option<Hit>)
    requires
        0 <= weight <= 10,
    ensures
        r is Some == field_hit(query@, haystack@, field, weight as int) is Some,
        r is Some ==> r->0@ == field_hit(query@, haystack@, field, weight as int)->0,
{
    let case_sensitive = has_capital(query);
    match match_one(query, haystack, case_sensitive) {
        Some((score, indices)) => {
            proof {
                assert(0 <= score * weight <= score * 10) by (nonlinear_arith)
                    requires
                        0 <= score,
                        0 <= weight <= 10,
                ;
            }
            let weighted: i64 = score as i64 * weight as i64 / 10;
            Some(Hit { score: weighted as i32, field, indices })
        },
        None => None,
    }
}

/// A match never scores below zero.
pub proof fn lemma_score_nonnegative(q: Seq<char>, h: Seq<char>, case_sensitive: bool)
    requires
        h.len() <= usize::MAX,
        matched(q, h, case_sensitive) is Some,
    ensures
        (matched(q, h, case_sensitive)->0).0 >= 0,
{
    if q.len() > 0 {
        let idx = marked_places(q, h, case_sensitive);
        lemma_points_nonnegative(h, idx, idx.len());
        lemma_region_exists(q, h, case_sensitive);
        let (start, end) = choose|start: int, end: int| region(q, h, case_sensitive, start, end);
        assert(region(q, h, case_sensitive, start, end));
        lemma_leftmost_placed(q, h, start, end + 1, case_sensitive);
        let ints = Seq::new(idx.len(), |j: int| idx[j] as int);
        assert(placed(q, h, start, end + 1, case_sensitive, ints));
        if idx.len() == 1 {
            assert(gaps(idx) == 0);
        }
    }
}

proof fn lemma_points_nonnegative(h: Seq<char>, idx: Seq<usize>, n: nat)
    ensures
        points(h, idx, n) >= 16 * n,
    decreases n,
{
    if n > 0 {
        lemma_points_nonnegative(h, idx, (n - 1) as nat);
    }
}

/// A query that fits has a matched region.
pub proof fn lemma_region_exists(q: Seq<char>, h: Seq<char>, case_sensitive: bool)
    requires
        q.len() > 0,
        fits(q, h, 0, h.len() as int, case_sensitive),
    ensures
        exists|start: int, end: int| region(q, h, case_sensitive, start, end),
{
    let end = lemma_first_end(q, h, h.len() as int, case_sensitive);
    let start = lemma_last_start(q, h, 0, end, case_sensitive);
    assert(region(q, h, case_sensitive, start, end));
}

proof fn lemma_first_end(q: Seq<char>, h: Seq<char>, hi: int, case_sensitive: bool) -> (end: int)
    requires
        q.len() > 0,
        0 <= hi,
        fits(q, h, 0, hi, case_sensitive),
    ensures
        0 <= end < hi,
        fits(q, h, 0, end + 1, case_sensitive),
        !fits(q, h, 0, end, case_sensitive),
    decreases hi,
{
    let idx = placing(q, h, 0, hi, case_sensitive);
    assert(0 <= idx[0] < hi);
    if fits(q, h, 0, hi - 1, case_sensitive) {
        lemma_first_end(q, h, hi - 1, case_sensitive)
    } else {
        hi - 1
    }
}

proof fn lemma_last_start(
    q: Seq<char>,
    h: Seq<char>,
    lo: int,
    end: int,
    case_sensitive: bool,
) -> (start: int)
    requires
        q.len() > 0,
        lo <= end + 1,
        fits(q, h, lo, end + 1, case_sensitive),
    ensures
        lo <= start <= end,
        fits(q, h, start, end + 1, case_sensitive),
        !fits(q, h, start + 1, end + 1, case_sensitive),
    decreases end + 1 - lo,
{
    let idx = placing(q, h, lo, end + 1, case_sensitive);
    assert(lo <= idx[0] < end + 1);
    if fits(q, h, lo + 1, end + 1, case_sensitive) {
        lemma_last_start(q, h, lo + 1, end, case_sensitive)
    } else {
        lo
    }
}

fn take_better(a: Option<Hit>, b: Option<Hit>) -> (r: Option<Hit>)
    ensures
        r is Some == better(opt_hit(a), opt_hit(b)) is Some,
        r is Some ==> r->0@ == better(opt_hit(a), opt_hit(b))->0,
{
    match b {
        None => a,
        Some(second) => match a {
            None => Some(second),
            Some(first) => if second.score > first.score {
                Some(second)
            } else {
                Some(first)
            },
        },
    }
}

pub open spec fn opt_hit(hit: Option<Hit>) -> Option<HitV> {
    match hit {
        Some(hit) => Some(hit@),
        None => None,
    }
}

/// Matches a query against the three texts of a pane, each on its own, and returns the
/// best hit. A query never matches across two of them.
pub fn match_pane(query: &str, title: &str, tab: &str, cwd: Option<&str>) -> (r: Option<Hit>)
    ensures
        opt_hit(r) == pane_hit(
            query@,
            title@,
            tab@,
            match cwd {
                Some(cwd) => Some(cwd@),
                None => None,
            },
        ),
{
    let query = chars_of(query);
    let by_title = weighted_hit(&query, title, Field::Title, 10);
    let by_tab = weighted_hit(&query, tab, Field::Tab, 8);
    let by_cwd = match cwd {
        Some(cwd) => weighted_hit(&query, cwd, Field::Cwd, 6),
        None => None,
    };
    take_better(take_better(by_title, by_tab), by_cwd)
}

// --- laws ---

/// A text matches exactly when the query's characters occur in it in order, and then the
/// marked positions are such an occurrence.
pub proof fn law_match_is_subsequence(q: Seq<char>, h: Seq<char>, case_sensitive: bool)
    requires
        h.len() <= usize::MAX,
    ensures
        matched(q, h, case_sensitive) is Some <==> fits(q, h, 0, h.len() as int, case_sensitive),
        matched(q, h, case_sensitive) is Some ==> ({
            let idx = (matched(q, h, case_sensitive)->0).1;
            placed(
                q,
                h,
                0,
                h.len() as int,
                case_sensitive,
                Seq::new(idx.len(), |j: int| idx[j] as int),
            )
        }),
{
    if q.len() == 0 {
        assert(q =~= seq![]);
        lemma_empty_fits(h, 0, h.len() as int, case_sensitive);
        let idx = (matched(q, h, case_sensitive)->0).1;
        assert(placed(
            q,
            h,
            0,
            h.len() as int,
            case_sensitive,
            Seq::new(idx.len(), |j: int| idx[j] as int),
        ));
    } else if fits(q, h, 0, h.len() as int, case_sensitive) {
        lemma_region_exists(q, h, case_sensitive);
        let (start, end) = choose|start: int, end: int| region(q, h, case_sensitive, start, end);
        assert(region(q, h, case_sensitive, start, end));
        lemma_leftmost_placed(q, h, start, end + 1, case_sensitive);
        let idx = marked_places(q, h, case_sensitive);
        let ints = Seq::new(idx.len(), |j: int| idx[j] as int);
        assert(placed(q, h, start, end + 1, case_sensitive, ints));
        assert(placed(q, h, 0, h.len() as int, case_sensitive, ints));
    }
}

/// The marked positions are the tightest region: no match ends earlier, and none that
/// ends there starts later.
pub proof fn law_match_is_tight(q: Seq<char>, h: Seq<char>, case_sensitive: bool, idx: Seq<int>)
    requires
        h.len() <= usize::MAX,
        q.len() > 0,
        placed(q, h, 0, h.len() as int, case_sensitive, idx),
    ensures
        ({
            let marked = (matched(q, h, case_sensitive)->0).1;
            &&& matched(q, h, case_sensitive) is Some
            &&& marked.last() <= idx.last()
            &&& marked.last() == idx.last() ==> idx[0] <= marked[0]
        }),
{
    lemma_region_exists(q, h, case_sensitive);
    let (start, end) = choose|start: int, end: int| region(q, h, case_sensitive, start, end);
    assert(region(q, h, case_sensitive, start, end));
    lemma_leftmost_placed(q, h, start, end + 1, case_sensitive);
    let marked = marked_places(q, h, case_sensitive);
    let ints = Seq::new(marked.len(), |j: int| marked[j] as int);
    assert(placed(q, h, start, end + 1, case_sensitive, ints));
    let last = idx.last();
    assert forall|j: int| 0 <= j < idx.len() implies idx[0] <= #[trigger] idx[j] <= last by {
        if j > 0 {
            assert(idx[0] < idx[j]);
        }
        if j < idx.len() - 1 {
            assert(idx[j] < idx[idx.len() - 1]);
        }
    }
    assert(placed(q, h, idx[0], last + 1, case_sensitive, idx));
    if last < end {
        lemma_fits_wider(q, h, idx[0], last + 1, 0, end, case_sensitive);
    }
    assert(ints[ints.len() - 1] == marked.last());
    assert(ints[0] == marked[0]);
    if marked.last() == last && idx[0] > marked[0] {
        lemma_fits_wider(q, h, idx[0], last + 1, start + 1, end + 1, case_sensitive);
    }
}

/// A query never matches across two texts: a hit is a hit in one of them.
pub proof fn law_hit_is_in_one_field(
    q: Seq<char>,
    title: Seq<char>,
    tab: Seq<char>,
    cwd: Option<Seq<char>>,
)
    ensures
        pane_hit(q, title, tab, cwd) is Some <==> (matched(q, title, is_case_sensitive(q)) is Some
            || matched(q, tab, is_case_sensitive(q)) is Some || (cwd is Some && matched(
            q,
            cwd->0,
            is_case_sensitive(q),
        ) is Some)),
        pane_hit(q, title, tab, cwd) is Some ==> {
            let hit = pane_hit(q, title, tab, cwd)->0;
            match hit.field {
                Field::Title => Some(hit) == field_hit(q, title, Field::Title, 10),
                Field::Tab => Some(hit) == field_hit(q, tab, Field::Tab, 8),
                Field::Cwd => cwd is Some && Some(hit) == field_hit(q, cwd->0, Field::Cwd, 6),
            }
        },
{
}

/// On equal texts the title wins over the tab name, and the tab name over the cwd.
pub proof fn law_title_wins_ties(
    q: Seq<char>,
    title: Seq<char>,
    tab: Seq<char>,
    cwd: Option<Seq<char>>,
)
    requires
        title.len() <= usize::MAX,
        tab.len() <= usize::MAX,
        matched(q, title, is_case_sensitive(q)) is Some || matched(
            q,
            tab,
            is_case_sensitive(q),
        ) is Some,
        cwd is Some ==> cwd->0 == title || cwd->0 == tab,
    ensures
        tab == title ==> pane_hit(q, title, tab, cwd)->0.field == Field::Title,
        cwd is Some && cwd->0 == tab && matched(q, title, is_case_sensitive(q)) is None
            ==> pane_hit(q, title, tab, cwd)->0.field == Field::Tab,
{
    let cs = is_case_sensitive(q);
    if matched(q, title, cs) is Some {
        lemma_score_nonnegative(q, title, cs);
    }
    if matched(q, tab, cs) is Some {
        lemma_score_nonnegative(q, tab, cs);
    }
}

proof fn lemma_points_bounds(h: Seq<char>, idx: Seq<usize>, n: nat)
    requires
        n <= idx.len(),
        n > 0,
    ensures
        (forall|k: int| 0 < k < n ==> idx[k - 1] + 1 == #[trigger] idx[k]) ==> points(h, idx, n)
            == MATCH * n + place_bonus(h, idx[0] as int) + BONUS_CONSECUTIVE * (n - 1),
        (forall|k: int|
            0 < k < n ==> idx[k - 1] + 1 < #[trigger] idx[k] && place_bonus(h, idx[k] as int) == 0)
            ==> points(h, idx, n) == MATCH * n + place_bonus(h, idx[0] as int),
    decreases n,
{
    if n > 1 {
        lemma_points_bounds(h, idx, (n - 1) as nat);
        if forall|k: int| 0 < k < n ==> idx[k - 1] + 1 == #[trigger] idx[k] {
            assert(idx[n - 2] + 1 == idx[n - 1]);
        }
        if forall|k: int|
            0 < k < n ==> idx[k - 1] + 1 < #[trigger] idx[k] && place_bonus(h, idx[k] as int)
                == 0 {
            assert(idx[n - 2] + 1 < idx[n - 1]);
        }
    } else {
        assert(points(h, idx, 0) == 0);
    }
}

proof fn lemma_gaps(idx: Seq<usize>, n: nat)
    requires
        0 < n <= idx.len(),
    ensures
        (forall|k: int| 0 < k < n ==> idx[k - 1] + 1 == #[trigger] idx[k]) ==> idx[n - 1] - idx[0]
            == n - 1,
        (forall|k: int| 0 < k < n ==> idx[k - 1] + 1 < #[trigger] idx[k]) ==> idx[n - 1] - idx[0]
            >= 2 * (n - 1),
    decreases n,
{
    if n > 1 {
        lemma_gaps(idx, (n - 1) as nat);
        if forall|k: int| 0 < k < n ==> idx[k - 1] + 1 == #[trigger] idx[k] {
            assert(idx[n - 2] + 1 == idx[n - 1]);
        }
        if forall|k: int| 0 < k < n ==> idx[k - 1] + 1 < #[trigger] idx[k] {
            assert(idx[n - 2] + 1 < idx[n - 1]);
        }
    }
}

/// The places follow one another.
pub open spec fn unbroken(idx: Seq<usize>) -> bool {
    forall|k: int| 0 < k < idx.len() ==> idx[k - 1] + 1 == #[trigger] idx[k]
}

/// No two places are neighbours, and none behind the first one gets a bonus.
pub open spec fn scattered(h: Seq<char>, idx: Seq<usize>) -> bool {
    forall|k: int|
        0 < k < idx.len() ==> idx[k - 1] + 1 < #[trigger] idx[k] && place_bonus(h, idx[k] as int)
            == 0
}

/// From three characters on, an unbroken match scores more than a scattered one, wherever
/// either starts. Scores that reached the largest value cannot be told apart.
pub proof fn law_consecutive_beats_scattered(
    h: Seq<char>,
    a: Seq<usize>,
    g: Seq<char>,
    b: Seq<usize>,
)
    requires
        a.len() == b.len(),
        a.len() >= 3,
        unbroken(a),
        scattered(g, b),
        score_of(g, b) < i32::MAX,
    ensures
        score_of(h, a) > score_of(g, b),
{
    lemma_points_bounds(h, a, a.len());
    lemma_points_bounds(g, b, b.len());
    lemma_gaps(a, a.len());
    lemma_gaps(b, b.len());
}

/// Of two unbroken matches of the same length, one that starts at a boundary scores more than
/// one that starts in the middle of a word.
pub proof fn law_boundary_beats_middle(
    h: Seq<char>,
    a: Seq<usize>,
    g: Seq<char>,
    b: Seq<usize>,
)
    requires
        a.len() == b.len(),
        a.len() > 0,
        unbroken(a),
        unbroken(b),
        place_bonus(h, a[0] as int) > place_bonus(g, b[0] as int),
        score_of(g, b) < i32::MAX,
    ensures
        score_of(h, a) > score_of(g, b),
{
    lemma_points_bounds(h, a, a.len());
    lemma_points_bounds(g, b, b.len());
    lemma_gaps(a, a.len());
    lemma_gaps(b, b.len());
}

/// A boundary gets the largest bonus, a capital behind a small letter less, and the middle of
/// a word of small ASCII letters none.
pub proof fn law_bonus_of_place(h: Seq<char>, i: int)
    requires
        0 < i < h.len(),
    ensures
        separator(h[i - 1]) || white(h[i - 1]) ==> place_bonus(h, i) == BONUS_BOUNDARY,
        'a' <= h[i - 1] <= 'z' && 'A' <= h[i] <= 'Z' ==> place_bonus(h, i) == BONUS_CAMEL,
        'a' <= h[i - 1] <= 'z' && 'a' <= h[i] <= 'z' ==> place_bonus(h, i) == 0,
        place_bonus(h, 0) == BONUS_BOUNDARY,
        place_bonus(h, i) <= BONUS_BOUNDARY,
{
}

} // verus!
