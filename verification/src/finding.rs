//! What holds of reading and finding: texts and their parts, the fields of a report, and the
//! panes that a query finds.

use vstd::prelude::*;

use crate::host::{Key, TabInfoV};
use crate::ids::group_views;
use crate::keys::{law_preview_follows_quietly, types};
use crate::laws::{distinct_panes, in_tree};
use crate::mark::panes_in;
use crate::matcher::{
    fits, gaps, is_case_sensitive, law_hit_is_in_one_field, law_match_is_subsequence,
    law_match_is_tight, leftmost, lemma_leftmost_placed, lemma_region_exists,
    lemma_score_nonnegative, marked_places, matched, pane_hit, place_bonus, placed, points, region,
    same_char, score_of, Field,
};
use crate::nav::name_of_tab;
use crate::payload::{quoted_key, value_of, StatusPayloadV};
use crate::search::{first_in, SearchPhase};
use crate::state::{SelectableV, StateV};
use crate::text::{
    begins_with, digits, found, is_digit, joined, lemma_digits_len, lemma_digits_without,
    lemma_joined_front, lemma_number_of_digits, lemma_parsed_digits, lemma_trimmed_digits,
    lemma_until, lemma_until_prefix, pieces, trim_end, trim_start, trimmed, until, upper_ascii,
    white,
};

verus! {

broadcast use group_views;

// --- texts ---

proof fn lemma_trim_start(s: Seq<char>)
    ensures
        trim_start(s).len() <= s.len(),
        s.skip(s.len() - trim_start(s).len()) == trim_start(s),
        forall|i: int| 0 <= i < s.len() - trim_start(s).len() ==> white(#[trigger] s[i]),
        trim_start(s).len() > 0 ==> !white(trim_start(s)[0]),
    decreases s.len(),
{
    if s.len() > 0 && white(s[0]) {
        let rest = s.drop_first();
        lemma_trim_start(rest);
        let n = s.len() - trim_start(s).len();
        assert(s.skip(n) =~= rest.skip(n - 1));
        assert forall|i: int| 0 <= i < n implies white(#[trigger] s[i]) by {
            if i > 0 {
                assert(rest[i - 1] == s[i]);
            }
        }
    } else {
        assert(s.skip(0) =~= s);
    }
}

proof fn lemma_trim_end(s: Seq<char>)
    ensures
        trim_end(s).len() <= s.len(),
        s.take(trim_end(s).len() as int) == trim_end(s),
        forall|i: int| trim_end(s).len() <= i < s.len() ==> white(#[trigger] s[i]),
        trim_end(s).len() > 0 ==> !white(trim_end(s).last()),
    decreases s.len(),
{
    if s.len() > 0 && white(s.last()) {
        let rest = s.drop_last();
        lemma_trim_end(rest);
        let n = trim_end(s).len() as int;
        assert(s.take(n) =~= rest.take(n));
        assert forall|i: int| n <= i < s.len() implies white(#[trigger] s[i]) by {
            if i < rest.len() {
                assert(rest[i] == s[i]);
            }
        }
    } else {
        assert(s.take(s.len() as int) =~= s);
    }
}

/// Trimming takes the white space off both ends and nothing else: what is left begins and ends
/// with something else, and all that is gone was white.
pub proof fn law_trimmed(s: Seq<char>) -> (start: int)
    ensures
        0 <= start,
        start + trimmed(s).len() <= s.len(),
        s.subrange(start, start + trimmed(s).len()) == trimmed(s),
        forall|i: int| 0 <= i < start ==> white(#[trigger] s[i]),
        forall|i: int| start + trimmed(s).len() <= i < s.len() ==> white(#[trigger] s[i]),
        trimmed(s).len() > 0 ==> !white(trimmed(s)[0]) && !white(trimmed(s).last()),
{
    let a = trim_start(s);
    lemma_trim_start(s);
    lemma_trim_end(a);
    let start = s.len() - a.len();
    let n = trimmed(s).len() as int;
    assert(s.subrange(start, start + n) =~= a.take(n));
    assert forall|i: int| start + n <= i < s.len() implies white(#[trigger] s[i]) by {
        assert(a[i - start] == s[i]);
    }
    if n > 0 {
        assert(trimmed(s)[0] == a[0]);
    }
    start
}

/// The pieces of a text hold no separator, and with the separators between them they are the text
/// again.
pub proof fn law_pieces(s: Seq<char>, sep: char)
    ensures
        pieces(s, sep).len() > 0,
        joined(pieces(s, sep), seq![sep]) == s,
        forall|i: int| 0 <= i < pieces(s, sep).len() ==> !(#[trigger] pieces(s, sep)[i]).contains(sep),
    decreases s.len(),
{
    let n = until(s, sep);
    lemma_until(s, sep);
    let all = pieces(s, sep);
    if n >= s.len() {
        assert(!s.contains(sep));
    } else {
        let head = s.take(n as int);
        let tail = s.skip(n as int + 1);
        law_pieces(tail, sep);
        let rest = pieces(tail, sep);
        assert(all == seq![head] + rest);
        lemma_joined_front(all, seq![sep]);
        assert(all.drop_first() =~= rest);
        assert(head + seq![sep] + tail =~= s);
        assert(!head.contains(sep));
        assert forall|i: int| 0 <= i < all.len() implies !(#[trigger] all[i]).contains(sep) by {
            if i > 0 {
                assert(all[i] == rest[i - 1]);
            }
        }
    }
}

// --- reports ---

proof fn lemma_found(s: Seq<char>, pat: Seq<char>, n: int)
    requires
        0 <= n <= s.len(),
        begins_with(s.skip(n), pat),
        forall|j: int| 0 <= j < n ==> !begins_with(#[trigger] s.skip(j), pat),
    ensures
        found(s, pat) == Some(n as nat),
    decreases n,
{
    assert(s.skip(0) =~= s);
    if n > 0 {
        assert(!begins_with(s.skip(0), pat));
        let rest = s.drop_first();
        assert(rest.skip(n - 1) =~= s.skip(n));
        assert forall|j: int| 0 <= j < n - 1 implies !begins_with(#[trigger] rest.skip(j), pat) by {
            assert(rest.skip(j) =~= s.skip(j + 1));
        }
        lemma_found(rest, pat, n - 1);
    }
}

proof fn lemma_not_found(s: Seq<char>, pat: Seq<char>)
    requires
        pat.len() > 0,
        forall|j: int| 0 <= j < s.len() ==> !begins_with(#[trigger] s.skip(j), pat),
    ensures
        found(s, pat) is None,
    decreases s.len(),
{
    assert(s.skip(0) =~= s);
    if s.len() > 0 {
        assert(!begins_with(s.skip(0), pat));
        let rest = s.drop_first();
        assert forall|j: int| 0 <= j < rest.len() implies !begins_with(
            #[trigger] rest.skip(j),
            pat,
        ) by {
            assert(rest.skip(j) =~= s.skip(j + 1));
        }
        lemma_not_found(rest, pat);
    }
}

/// The key, in quotes and with a colon, stands at `n` in the text and nowhere before.
pub open spec fn key_first_at(raw: Seq<char>, key: Seq<char>, n: int) -> bool {
    0 <= n <= raw.len() && begins_with(raw.skip(n), seq!['"'] + key + seq!['"', ':']) && forall|
        j: int,
    |
        0 <= j < n ==> !begins_with(#[trigger] raw.skip(j), seq!['"'] + key + seq!['"', ':'])
}

/// A field of a report that is a string: the text between the quotes behind the first occurrence
/// of its key, white space in front of it aside.
pub proof fn law_string_field(
    raw: Seq<char>,
    key: Seq<char>,
    n: int,
    gap: Seq<char>,
    value: Seq<char>,
    rest: Seq<char>,
)
    requires
        key_first_at(raw, key, n),
        raw.skip(n) == seq!['"'] + key + seq!['"', ':'] + gap + seq!['"'] + value + seq!['"']
            + rest,
        forall|i: int| 0 <= i < gap.len() ==> white(#[trigger] gap[i]),
        !value.contains('"'),
    ensures
        value_of(raw, key) == Some(value),
{
    let pat = quoted_key(key);
    assert(pat =~= seq!['"'] + key + seq!['"', ':']);
    assert forall|j: int| 0 <= j < n implies !begins_with(#[trigger] raw.skip(j), pat) by {}
    lemma_found(raw, pat, n);
    let body = seq!['"'] + value + seq!['"'] + rest;
    let tail = raw.skip(n + pat.len());
    assert(tail =~= raw.skip(n).skip(pat.len() as int));
    assert(tail =~= gap + body);
    lemma_skip_gap(gap, body);
    let inner = body.drop_first();
    assert(inner =~= value + seq!['"'] + rest);
    lemma_until_prefix(value, '"', rest);
    assert(value.push('"') + rest =~= inner);
    assert(inner.take(value.len() as int) =~= value);
}

proof fn lemma_skip_gap(gap: Seq<char>, body: Seq<char>)
    requires
        forall|i: int| 0 <= i < gap.len() ==> white(#[trigger] gap[i]),
        body.len() > 0,
        !white(body[0]),
    ensures
        trim_start(gap + body) == body,
    decreases gap.len(),
{
    if gap.len() > 0 {
        let all = gap + body;
        assert(white(gap[0]));
        assert(all.drop_first() =~= gap.drop_first() + body);
        let less = gap.drop_first();
        assert forall|i: int| 0 <= i < less.len() implies white(#[trigger] less[i]) by {
            assert(less[i] == gap[i + 1]);
        }
        lemma_skip_gap(less, body);
    } else {
        assert(gap + body =~= body);
    }
}

/// A field of a report that is a number: the digits behind the first occurrence of its key, up to
/// the comma or the brace that follows.
pub proof fn law_number_field(
    raw: Seq<char>,
    key: Seq<char>,
    n: int,
    gap: Seq<char>,
    id: nat,
    end: char,
    rest: Seq<char>,
)
    requires
        key_first_at(raw, key, n),
        raw.skip(n) == seq!['"'] + key + seq!['"', ':'] + gap + digits(id) + seq![end] + rest,
        forall|i: int| 0 <= i < gap.len() ==> white(#[trigger] gap[i]),
        end == ',' || end == '}',
    ensures
        value_of(raw, key) == Some(digits(id)),
{
    let pat = quoted_key(key);
    let d = digits(id);
    assert(pat =~= seq!['"'] + key + seq!['"', ':']);
    assert forall|j: int| 0 <= j < n implies !begins_with(#[trigger] raw.skip(j), pat) by {}
    lemma_found(raw, pat, n);
    let body = d + seq![end] + rest;
    let tail = raw.skip(n + pat.len());
    assert(tail =~= raw.skip(n).skip(pat.len() as int));
    assert(tail =~= gap + body);
    lemma_number_of_digits(id);
    lemma_digits_len(id, id);
    assert(body[0] == d[0]);
    assert(is_digit(d[0]));
    lemma_skip_gap(gap, body);
    lemma_digits_without(id, ',');
    lemma_digits_without(id, '}');
    lemma_until(body, ',');
    lemma_until(body, '}');
    assert(body[d.len() as int] == end);
    assert forall|j: int| 0 <= j < d.len() implies body[j] != ',' && body[j] != '}' by {
        assert(body[j] == d[j]);
        assert(d.contains(d[j]));
    }
    let comma = until(body, ',') as int;
    let brace = until(body, '}') as int;
    assert(body.take(d.len() as int) =~= d);
    lemma_trimmed_digits(id);
    assert(comma >= d.len()) by {
        if comma < d.len() {
            assert(body[comma] == ',');
        }
    }
    assert(brace >= d.len()) by {
        if brace < d.len() {
            assert(body[brace] == '}');
        }
    }
}

/// A report is read from its fields: it needs the id of a pane and an event, an agent without a
/// name is unknown, and what else it says is optional.
pub proof fn law_report_fields(raw: Seq<char>, id: u32, event: Seq<char>)
    requires
        value_of(raw, "pane_id"@) == Some(digits(id as nat)),
        value_of(raw, "event"@) == Some(event),
    ensures
        StatusPayloadV::read(raw) matches Some(p) && p.pane_id == id && p.event == event && (
        value_of(raw, "agent"@) is Some ==> p.agent == value_of(raw, "agent"@)->0) && (value_of(
            raw,
            "agent"@,
        ) is None ==> p.agent == "unknown"@) && p.source == value_of(raw, "source"@) && p.cwd
            == value_of(raw, "cwd"@) && p.detail == value_of(raw, "detail"@),
{
    lemma_parsed_digits(id as nat, u32::MAX as nat);
}

/// A text without the key of a pane or of an event is no report.
pub proof fn law_no_report(raw: Seq<char>)
    requires
        (forall|j: int|
            0 <= j < raw.len() ==> !begins_with(
                #[trigger] raw.skip(j),
                seq!['"'] + "pane_id"@ + seq!['"', ':'],
            )) || (forall|j: int|
            0 <= j < raw.len() ==> !begins_with(
                #[trigger] raw.skip(j),
                seq!['"'] + "event"@ + seq!['"', ':'],
            )),
    ensures
        StatusPayloadV::read(raw) is None,
{
    if forall|j: int|
        0 <= j < raw.len() ==> !begins_with(
            #[trigger] raw.skip(j),
            seq!['"'] + "pane_id"@ + seq!['"', ':'],
        ) {
        assert(quoted_key("pane_id"@) =~= seq!['"'] + "pane_id"@ + seq!['"', ':']);
        lemma_not_found(raw, quoted_key("pane_id"@));
    } else {
        assert(quoted_key("event"@) =~= seq!['"'] + "event"@ + seq!['"', ':']);
        lemma_not_found(raw, quoted_key("event"@));
    }
}

// --- queries ---

/// The query's characters occur in the text in order; a query without a capital does not mind
/// the case of ASCII letters.
pub open spec fn finds(q: Seq<char>, h: Seq<char>) -> bool {
    exists|idx: Seq<int>| #[trigger] finds_at(q, h, idx)
}

/// The places of the query's characters in the text.
pub open spec fn finds_at(q: Seq<char>, h: Seq<char>, idx: Seq<int>) -> bool {
    let strict = exists|i: int| 0 <= i < q.len() && 'A' <= (#[trigger] q[i]) && q[i] <= 'Z';
    &&& idx.len() == q.len()
    &&& forall|j: int|
        0 <= j < q.len() ==> 0 <= #[trigger] idx[j] < h.len() && (h[idx[j]] == q[j] || (!strict
            && 'A' <= h[idx[j]] && h[idx[j]] <= 'Z' && h[idx[j]] as int + 32 == q[j] as int))
    &&& forall|j: int, k: int| 0 <= j < k < q.len() ==> idx[j] < idx[k]
}

/// A text matches a query if and only if the query's characters occur in it in order.
pub proof fn law_match_is_occurrence(q: Seq<char>, h: Seq<char>)
    requires
        h.len() <= usize::MAX,
    ensures
        matched(q, h, is_case_sensitive(q)) is Some <==> finds(q, h),
{
    let cs = is_case_sensitive(q);
    law_match_is_subsequence(q, h, cs);
    if fits(q, h, 0, h.len() as int, cs) {
        let idx = choose|idx: Seq<int>|
            placed(q, h, 0, h.len() as int, cs, idx);
        assert forall|j: int| 0 <= j < q.len() implies 0 <= #[trigger] idx[j] < h.len() && (
        h[idx[j]] == q[j] || (!cs && 'A' <= h[idx[j]] && h[idx[j]] <= 'Z' && h[idx[j]] as int + 32
            == q[j] as int)) by {
            assert(same_char(q[j], h[idx[j]], cs));
            if !cs {
                assert(!upper_ascii(q[j]));
            }
        }
        assert(finds_at(q, h, idx));
    }
    if finds(q, h) {
        let idx = choose|idx: Seq<int>| #[trigger] finds_at(q, h, idx);
        assert forall|j: int| 0 <= j < idx.len() implies 0 <= #[trigger] idx[j] < h.len()
            && same_char(q[j], h[idx[j]], cs) by {
            if h[idx[j]] != q[j] {
                let c = h[idx[j]];
                assert((c as u32 + 32) as char == q[j]);
            }
        }
        assert(placed(q, h, 0, h.len() as int, cs, idx));
    }
}

/// A pane is found by its title, by the name of its tab, or by its directory where one is known,
/// and by nothing else.
pub proof fn law_pane_is_found(q: Seq<char>, title: Seq<char>, tab: Seq<char>, cwd: Option<Seq<char>>)
    requires
        title.len() <= usize::MAX,
        tab.len() <= usize::MAX,
        cwd is Some ==> cwd->0.len() <= usize::MAX,
    ensures
        pane_hit(q, title, tab, cwd) is Some <==> finds(q, title) || finds(q, tab) || (cwd is Some
            && finds(q, cwd->0)),
{
    law_hit_is_in_one_field(q, title, tab, cwd);
    law_match_is_occurrence(q, title);
    law_match_is_occurrence(q, tab);
    if cwd is Some {
        law_match_is_occurrence(q, cwd->0);
    }
}

/// A hit counts in full in the title, with eight tenths in the tab's name and with six in the
/// directory; the best of them is the hit of the pane.
pub proof fn law_fields_are_weighted(
    q: Seq<char>,
    title: Seq<char>,
    tab: Seq<char>,
    cwd: Option<Seq<char>>,
)
    requires
        title.len() <= usize::MAX,
        tab.len() <= usize::MAX,
        cwd is Some ==> cwd->0.len() <= usize::MAX,
        pane_hit(q, title, tab, cwd) is Some,
    ensures
        ({
            let hit = pane_hit(q, title, tab, cwd)->0;
            let cs = is_case_sensitive(q);
            let t = matched(q, title, cs);
            let b = matched(q, tab, cs);
            let c = if cwd is Some {
                matched(q, cwd->0, cs)
            } else {
                None
            };
            &&& t is Some ==> hit.score >= (t->0).0
            &&& b is Some ==> hit.score >= (b->0).0 * 8 / 10
            &&& c is Some ==> hit.score >= (c->0).0 * 6 / 10
            &&& hit.field == Field::Title ==> t is Some && hit.score == (t->0).0 && hit.indices
                == (t->0).1
            &&& hit.field == Field::Tab ==> b is Some && hit.score == (b->0).0 * 8 / 10
                && hit.indices == (b->0).1
            &&& hit.field == Field::Cwd ==> c is Some && hit.score == (c->0).0 * 6 / 10
                && hit.indices == (c->0).1
        }),
{
    let cs = is_case_sensitive(q);
    if matched(q, title, cs) is Some {
        lemma_score_nonnegative(q, title, cs);
    }
    if matched(q, tab, cs) is Some {
        lemma_score_nonnegative(q, tab, cs);
    }
    if cwd is Some && matched(q, cwd->0, cs) is Some {
        lemma_score_nonnegative(q, cwd->0, cs);
    }
}

proof fn lemma_run_points(h: Seq<char>, idx: Seq<usize>, n: nat)
    requires
        0 < n <= idx.len(),
        forall|k: int| 0 < k < idx.len() ==> idx[k - 1] + 1 == #[trigger] idx[k],
    ensures
        points(h, idx, n) == 16 * n + 8 * (n - 1) + place_bonus(h, idx[0] as int),
    decreases n,
{
    if n > 1 {
        lemma_run_points(h, idx, (n - 1) as nat);
        assert(idx[n - 2] + 1 == idx[n - 1]);
    } else {
        assert(points(h, idx, 0) == 0);
    }
}

proof fn lemma_run_ends(idx: Seq<usize>, n: nat)
    requires
        0 < n <= idx.len(),
        forall|k: int| 0 < k < idx.len() ==> idx[k - 1] + 1 == #[trigger] idx[k],
    ensures
        idx[n - 1] == idx[0] + n - 1,
    decreases n,
{
    if n > 1 {
        lemma_run_ends(idx, (n - 1) as nat);
        assert(idx[n - 2] + 1 == idx[n - 1]);
    }
}

/// The score of an unbroken run: 16 for each character, 8 more for each but the first, and the
/// bonus of the place where it starts.
pub proof fn law_score_of_a_run(h: Seq<char>, idx: Seq<usize>)
    requires
        0 < idx.len() < 10_000_000,
        forall|k: int| 0 < k < idx.len() ==> idx[k - 1] + 1 == #[trigger] idx[k],
    ensures
        score_of(h, idx) == 16 * idx.len() + 8 * (idx.len() - 1) + place_bonus(
            h,
            idx[0] as int,
        ),
{
    lemma_run_points(h, idx, idx.len());
    lemma_run_ends(idx, idx.len());
    assert(gaps(idx) == 0);
}

/// The score of two characters apart: 16 for each, the bonus of each place, and one point less
/// for each character between them, but no more than 20.
pub proof fn law_score_of_a_gap(h: Seq<char>, i: usize, j: usize)
    requires
        i + 1 < j,
    ensures
        score_of(h, seq![i, j]) == 32 + place_bonus(h, i as int) + place_bonus(h, j as int) - (if j
            - i - 1 <= 20 {
            j - i - 1
        } else {
            20
        }),
{
    let idx = seq![i, j];
    reveal_with_fuel(points, 3);
    assert(gaps(idx) == j - i - 1);
}

/// The bonus of a place: 12 at the start of a text and behind a separator or white space, 8 for a
/// capital behind a small letter, none elsewhere.
pub proof fn law_bonus(h: Seq<char>, i: int)
    requires
        0 <= i < h.len(),
    ensures
        i == 0 ==> place_bonus(h, i) == 12,
        i > 0 && (h[i - 1] == '/' || h[i - 1] == '-' || h[i - 1] == '_' || h[i - 1] == '.' || h[i
            - 1] == ' ') ==> place_bonus(h, i) == 12,
        i > 0 && 'a' <= h[i - 1] <= 'z' && 'A' <= h[i] <= 'Z' ==> place_bonus(h, i) == 8,
        i > 0 && ('a' <= h[i - 1] <= 'z' || 'A' <= h[i - 1] <= 'Z' || '0' <= h[i - 1] <= '9') && (
        'a' <= h[i] <= 'z' || '0' <= h[i] <= '9') ==> place_bonus(h, i) == 0,
{
}

// --- the hits of a search ---

proof fn lemma_hits_among(s: StateV, q: Seq<char>, list: Seq<SelectableV>, n: int)
    requires
        0 <= n < list.len(),
        distinct_panes(list),
    ensures
        s.list.hits_among(q, list).contains_key(list[n].pane_id) <==> s.list.entry_hit(
            q,
            list[n],
        ) is Some,
        s.list.entry_hit(q, list[n]) is Some ==> s.list.hits_among(q, list)[list[n].pane_id]
            == s.list.entry_hit(q, list[n])->0,
    decreases list.len(),
{
    let front = list.drop_last();
    let last = list.len() - 1;
    if n < last {
        assert forall|i: int, j: int| 0 <= i < j < front.len() implies (
        #[trigger] front[i]).pane_id != (#[trigger] front[j]).pane_id by {
            assert(front[i] == list[i] && front[j] == list[j]);
        }
        lemma_hits_among(s, q, front, n);
        assert(front[n] == list[n]);
        assert(list[n].pane_id != list[last].pane_id);
    } else {
        lemma_no_early_hit(s, q, front, list[last].pane_id);
    }
}

proof fn lemma_no_early_hit(s: StateV, q: Seq<char>, list: Seq<SelectableV>, id: u32)
    ensures
        s.list.hits_among(q, list).contains_key(id) ==> exists|i: int|
            0 <= i < list.len() && (#[trigger] list[i]).pane_id == id,
    decreases list.len(),
{
    if list.len() > 0 {
        let front = list.drop_last();
        lemma_no_early_hit(s, q, front, id);
        assert(list[list.len() - 1] == list.last());
        if s.list.hits_among(q, front).contains_key(id) {
            let i = choose|i: int| 0 <= i < front.len() && (#[trigger] front[i]).pane_id == id;
            assert(list[i].pane_id == id);
        }
    }
}

/// The directory that was reported for a pane.
pub open spec fn known_cwd(s: StateV, pane_id: u32) -> Option<Seq<char>> {
    if s.list.pane_cwds.contains_key(pane_id) {
        Some(s.list.pane_cwds[pane_id])
    } else {
        None
    }
}

/// A character typed into a query leaves exactly the panes that the longer query finds, by title,
/// tab name or directory.
pub proof fn law_typing_filters(s: StateV, key: Key, c: char, n: int)
    requires
        s.nav.search is Some,
        s.nav.search->0.phase == SearchPhase::Editing,
        !s.nav.help_overlay,
        types(key, c),
        0 <= n < s.list.selectable.len(),
        distinct_panes(s.list.selectable),
        s.list.selectable[n].title.len() <= usize::MAX,
        s.list.tab_name(s.list.selectable[n].tab_position).len() <= usize::MAX,
        known_cwd(s, s.list.selectable[n].pane_id) is Some ==> known_cwd(
            s,
            s.list.selectable[n].pane_id,
        )->0.len() <= usize::MAX,
    ensures
        ({
            let t = s.nav_key(key).0;
            let q = s.nav.search->0.query.push(c);
            let e = s.list.selectable[n];
            let cwd = known_cwd(s, e.pane_id);
            &&& t.nav.search is Some
            &&& t.nav.search->0.query == q
            &&& t.nav.search->0.hits.contains_key(e.pane_id) <==> finds(q, e.title) || finds(
                q,
                s.list.tab_name(e.tab_position),
            ) || (cwd is Some && finds(q, cwd->0))
        }),
{
    let q = s.nav.search->0.query.push(c);
    let e = s.list.selectable[n];
    lemma_hits_among(s, q, s.list.selectable, n);
    law_pane_is_found(q, e.title, s.list.tab_name(e.tab_position), known_cwd(s, e.pane_id));
    law_preview_follows_quietly(s.with_query(q));
}

/// The name of a tab is that of the first tab at its position.
pub proof fn law_tab_name(s: StateV, position: usize, n: int)
    requires
        0 <= n < s.list.tabs.len(),
        s.list.tabs[n].position == position,
        forall|j: int| 0 <= j < n ==> (#[trigger] s.list.tabs[j]).position != position,
    ensures
        s.list.tab_name(position) == s.list.tabs[n].name,
{
    lemma_tab_name(s.list.tabs, position, n);
}

proof fn lemma_tab_name(tabs: Seq<TabInfoV>, position: usize, n: int)
    requires
        0 <= n < tabs.len(),
        tabs[n].position == position,
        forall|j: int| 0 <= j < n ==> (#[trigger] tabs[j]).position != position,
    ensures
        name_of_tab(tabs, position) == tabs[n].name,
    decreases n,
{
    if n > 0 {
        assert(tabs[0].position != position);
        let rest = tabs.drop_first();
        assert forall|j: int| 0 <= j < n - 1 implies (#[trigger] rest[j]).position != position by {
            assert(rest[j] == tabs[j + 1]);
        }
        lemma_tab_name(rest, position, n - 1);
    }
}

/// When the hits change, the cursor stays on its pane as long as that is a hit, and else goes to
/// the first hit of the list; without a hit there is no cursor.
pub proof fn law_cursor_stays_on_a_hit(s: StateV, n: int)
    requires
        s.nav.search is Some,
        distinct_panes(s.list.selectable),
    ensures
        ({
            let t = s.refilter();
            let hits = t.nav.search->0.hits;
            let old = s.nav.search->0.cursor;
            let cursor = t.nav.search->0.cursor;
            let list = s.list.selectable;
            &&& t.nav.search is Some
            &&& old is Some && hits.contains_key(old->0) ==> cursor == old
            &&& !(old is Some && hits.contains_key(old->0)) && 0 <= n < list.len()
                && hits.contains_key(list[n].pane_id) && (forall|j: int|
                0 <= j < n ==> !hits.contains_key((#[trigger] list[j]).pane_id)) ==> cursor == Some(
                list[n].pane_id,
            )
            &&& !(old is Some && hits.contains_key(old->0)) && (forall|j: int|
                0 <= j < list.len() ==> !hits.contains_key((#[trigger] list[j]).pane_id))
                ==> cursor is None
            &&& t.nav.search->0.query == s.nav.search->0.query
            &&& t.nav.search->0.phase == s.nav.search->0.phase
            &&& t.nav.search->0.saved == s.nav.search->0.saved
        }),
{
    let list = s.list.selectable;
    let hits = s.refilter().nav.search->0.hits;
    if 0 <= n < list.len() && hits.contains_key(list[n].pane_id) && (forall|j: int|
        0 <= j < n ==> !hits.contains_key((#[trigger] list[j]).pane_id)) {
        lemma_first_in(list, hits.dom(), n);
    }
    if forall|j: int| 0 <= j < list.len() ==> !hits.contains_key((#[trigger] list[j]).pane_id) {
        lemma_first_in(list, hits.dom(), list.len() as int);
    }
}

proof fn lemma_first_in(list: Seq<SelectableV>, set: Set<u32>, n: int)
    requires
        0 <= n <= list.len(),
        n < list.len() ==> set.contains(list[n].pane_id),
        forall|j: int| 0 <= j < n ==> !set.contains((#[trigger] list[j]).pane_id),
    ensures
        n < list.len() ==> first_in(list, set) == Some(list[n].pane_id),
        n == list.len() ==> first_in(list, set) is None,
    decreases list.len(),
{
    if list.len() > 0 && n > 0 {
        assert(!set.contains(list[0].pane_id));
        let rest = list.drop_first();
        assert forall|j: int| 0 <= j < n - 1 implies !set.contains(
            (#[trigger] rest[j]).pane_id,
        ) by {
            assert(rest[j] == list[j + 1]);
        }
        lemma_first_in(rest, set, n - 1);
    }
}

proof fn lemma_leftmost_least(
    q: Seq<char>,
    h: Seq<char>,
    lo: int,
    hi: int,
    cs: bool,
    idx: Seq<int>,
)
    requires
        placed(q, h, lo, hi, cs, idx),
        0 <= lo,
        hi <= h.len() <= usize::MAX,
    ensures
        leftmost(q, h, lo, hi, cs).len() == q.len(),
        forall|k: int| 0 <= k < q.len() ==> (#[trigger] leftmost(q, h, lo, hi, cs)[k]) <= idx[k],
    decreases hi - lo,
{
    if q.len() > 0 {
        assert(lo <= idx[0] < hi);
        if same_char(q[0], h[lo], cs) {
            let rest = q.drop_first();
            let tail = idx.drop_first();
            assert forall|j: int| 0 <= j < tail.len() implies lo + 1 <= #[trigger] tail[j] < hi
                && same_char(rest[j], h[tail[j]], cs) by {
                assert(tail[j] == idx[j + 1]);
                assert(idx[0] < idx[j + 1]);
            }
            assert forall|j: int, k: int| 0 <= j < k < tail.len() implies tail[j] < tail[k] by {
                assert(tail[j] == idx[j + 1] && tail[k] == idx[k + 1]);
            }
            lemma_leftmost_least(rest, h, lo + 1, hi, cs, tail);
            let all = leftmost(q, h, lo, hi, cs);
            let after = leftmost(rest, h, lo + 1, hi, cs);
            assert forall|k: int| 0 <= k < q.len() implies (#[trigger] all[k]) <= idx[k] by {
                if k > 0 {
                    assert(all[k] == after[k - 1]);
                    assert(tail[k - 1] == idx[k]);
                }
            }
        } else {
            assert(idx[0] != lo);
            assert forall|j: int| 0 <= j < idx.len() implies lo + 1 <= #[trigger] idx[j] < hi
                && same_char(q[j], h[idx[j]], cs) by {
                if j > 0 {
                    assert(idx[0] < idx[j]);
                }
            }
            lemma_leftmost_least(q, h, lo + 1, hi, cs, idx);
        }
    }
}

/// Between the first and the last place the marked characters stand as far left as they can: no
/// occurrence that starts and ends with them has any of its characters further left.
pub proof fn law_marks_are_leftmost(q: Seq<char>, h: Seq<char>, cs: bool, idx: Seq<int>, k: int)
    requires
        h.len() <= usize::MAX,
        q.len() > 0,
        placed(q, h, 0, h.len() as int, cs, idx),
        ({
            let marked = (matched(q, h, cs)->0).1;
            idx[0] >= marked[0] && idx.last() <= marked.last()
        }),
        0 <= k < q.len(),
    ensures
        (matched(q, h, cs)->0).1[k] <= idx[k],
{
    law_match_is_subsequence(q, h, cs);
    law_match_is_tight(q, h, cs, idx);
    let marked = marked_places(q, h, cs);
    let (start, end) = choose|start: int, end: int| region(q, h, cs, start, end);
    lemma_region_there(q, h, cs);
    lemma_leftmost_placed(q, h, start, end + 1, cs);
    let ints = Seq::new(marked.len(), |j: int| marked[j] as int);
    assert(placed(q, h, start, end + 1, cs, ints));
    assert(ints[0] == marked[0] && start <= ints[0]);
    assert(ints[ints.len() - 1] == marked.last() && ints[ints.len() - 1] < end + 1);
    assert forall|j: int| 0 <= j < idx.len() implies start <= #[trigger] idx[j] < end + 1
        && same_char(q[j], h[idx[j]], cs) by {
        if j > 0 {
            assert(idx[0] < idx[j]);
        }
        if j < idx.len() - 1 {
            assert(idx[j] < idx[idx.len() - 1]);
        }
    }
    assert(placed(q, h, start, end + 1, cs, idx));
    lemma_leftmost_least(q, h, start, end + 1, cs, idx);
}

proof fn lemma_region_there(q: Seq<char>, h: Seq<char>, cs: bool)
    requires
        h.len() <= usize::MAX,
        q.len() > 0,
        fits(q, h, 0, h.len() as int, cs),
    ensures
        exists|start: int, end: int| region(q, h, cs, start, end),
{
    lemma_region_exists(q, h, cs);
}

/// A search starts on the pane that was selected, with every pane in it: an empty query finds all.
pub proof fn law_search_starts_at_selection(s: StateV, key: Key, n: int)
    requires
        in_tree(s),
        types(key, '/'),
        distinct_panes(s.list.selectable),
        s.list.selected < s.list.selectable.len(),
        0 <= n < s.list.selectable.len(),
    ensures
        ({
            let t = s.nav_key(key).0;
            &&& t.nav.search is Some
            &&& t.nav.search->0.hits.contains_key(s.list.selectable[n].pane_id)
            &&& t.nav.search->0.cursor == Some(
                s.list.selectable[s.list.selected as int].pane_id,
            )
        }),
{
    let q = Seq::<char>::empty();
    let list = s.list.selectable;
    let at = s.list.selected as int;
    lemma_hits_among(s, q, list, n);
    lemma_hits_among(s, q, list, at);
    assert(matched(q, list[n].title, is_case_sensitive(q)) is Some);
    assert(matched(q, list[at].title, is_case_sensitive(q)) is Some);
    law_hit_is_in_one_field(
        q,
        list[n].title,
        s.list.tab_name(list[n].tab_position),
        known_cwd(s, list[n].pane_id),
    );
    law_hit_is_in_one_field(
        q,
        list[at].title,
        s.list.tab_name(list[at].tab_position),
        known_cwd(s, list[at].pane_id),
    );
    let opened = s.enter_search();
    law_preview_follows_quietly(opened.broadcasts_selection());
}

/// In a search that has hits but no cursor, a move goes to the first hit.
pub proof fn law_moves_find_the_first_hit(s: StateV, forward: bool, n: int)
    requires
        s.nav.search is Some,
        s.nav.search->0.cursor is None,
        0 <= n < s.list.selectable.len(),
        s.nav.search->0.hits.contains_key(s.list.selectable[n].pane_id),
        forall|j: int|
            0 <= j < n ==> !s.nav.search->0.hits.contains_key(
                (#[trigger] s.list.selectable[j]).pane_id,
            ),
    ensures
        s.move_search_cursor(forward).nav.search->0.cursor == Some(s.list.selectable[n].pane_id),
{
    lemma_first_of(s.list.selectable, s.nav.search->0.hits.dom(), n);
}

proof fn lemma_first_of(list: Seq<SelectableV>, set: Set<u32>, n: int)
    requires
        0 <= n < list.len(),
        set.contains(list[n].pane_id),
        forall|j: int| 0 <= j < n ==> !set.contains((#[trigger] list[j]).pane_id),
    ensures
        panes_in(list, set).len() > 0,
        panes_in(list, set)[0] == list[n].pane_id,
    decreases list.len(),
{
    let front = list.drop_last();
    if n < front.len() {
        assert(front[n] == list[n]);
        assert forall|j: int| 0 <= j < n implies !set.contains((#[trigger] front[j]).pane_id) by {
            assert(front[j] == list[j]);
        }
        lemma_first_of(front, set, n);
    } else {
        lemma_none_of(front, set);
    }
}

proof fn lemma_none_of(list: Seq<SelectableV>, set: Set<u32>)
    requires
        forall|j: int| 0 <= j < list.len() ==> !set.contains((#[trigger] list[j]).pane_id),
    ensures
        panes_in(list, set).len() == 0,
    decreases list.len(),
{
    if list.len() > 0 {
        let front = list.drop_last();
        assert(!set.contains(list[list.len() - 1].pane_id));
        assert forall|j: int| 0 <= j < front.len() implies !set.contains(
            (#[trigger] front[j]).pane_id,
        ) by {
            assert(front[j] == list[j]);
        }
        lemma_none_of(front, set);
    }
}

} // verus!
