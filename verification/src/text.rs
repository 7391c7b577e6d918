//! Text as sequences of characters.
//!
//! Every string operation the sidebar needs is stated over `Seq<char>`: the
//! specification functions come first, the executable functions that compute
//! them follow.

use vstd::prelude::*;

use crate::ids::views;

verus! {

// --- std functions that verified code calls directly ---

/// `String::push` appends the character to the end of the string.
pub assume_specification[ String::push ](s: &mut String, c: char)
    ensures
        final(s)@ == old(s)@.push(c),
;

/// `String::push_str` appends the whole of `t` to the end of the string.
pub assume_specification[ String::push_str ](s: &mut String, t: &str)
    ensures
        final(s)@ == old(s)@ + t@,
;

// --- characters ---

/// The Unicode `White_Space` property.
pub open spec fn white(c: char) -> bool {
    ||| '\u{9}' <= c <= '\u{d}'
    ||| c == ' '
    ||| c == '\u{85}'
    ||| c == '\u{a0}'
    ||| c == '\u{1680}'
    ||| '\u{2000}' <= c <= '\u{200a}'
    ||| c == '\u{2028}'
    ||| c == '\u{2029}'
    ||| c == '\u{202f}'
    ||| c == '\u{205f}'
    ||| c == '\u{3000}'
}

/// The Unicode general category `Cc`: the C0 and C1 control codes.
pub open spec fn control(c: char) -> bool {
    c <= '\u{1f}' || '\u{7f}' <= c <= '\u{9f}'
}

pub open spec fn upper_ascii(c: char) -> bool {
    'A' <= c <= 'Z'
}

/// A character of the ASCII range.
pub open spec fn in_ascii(c: char) -> bool {
    c <= '\u{7f}'
}

/// The character with ASCII capitals folded to small letters.
pub open spec fn fold_ascii(c: char) -> char {
    if upper_ascii(c) {
        (c as u32 + 32) as char
    } else {
        c
    }
}

pub fn is_white(c: char) -> (r: bool)
    ensures
        r == white(c),
{
    ('\u{9}' <= c && c <= '\u{d}') || c == ' ' || c == '\u{85}' || c == '\u{a0}' || c == '\u{1680}'
        || ('\u{2000}' <= c && c <= '\u{200a}') || c == '\u{2028}' || c == '\u{2029}' || c
        == '\u{202f}' || c == '\u{205f}' || c == '\u{3000}'
}

pub fn is_control(c: char) -> (r: bool)
    ensures
        r == control(c),
{
    c <= '\u{1f}' || ('\u{7f}' <= c && c <= '\u{9f}')
}

pub fn is_upper_ascii(c: char) -> (r: bool)
    ensures
        r == upper_ascii(c),
{
    'A' <= c && c <= 'Z'
}

/// Equality of characters up to the case of ASCII letters.
pub fn same_ignoring_case(a: char, b: char) -> (r: bool)
    ensures
        r == (fold_ascii(a) == fold_ascii(b)),
{
    fold(a) == fold(b)
}

fn fold(c: char) -> (r: u32)
    ensures
        r == fold_ascii(c) as u32,
{
    if 'A' <= c && c <= 'Z' {
        c as u32 + 32
    } else {
        c as u32
    }
}

// --- pieces of a text ---

pub open spec fn trim_start(s: Seq<char>) -> Seq<char>
    decreases s.len(),
{
    if s.len() > 0 && white(s[0]) {
        trim_start(s.drop_first())
    } else {
        s
    }
}

pub open spec fn trim_end(s: Seq<char>) -> Seq<char>
    decreases s.len(),
{
    if s.len() > 0 && white(s.last()) {
        trim_end(s.drop_last())
    } else {
        s
    }
}

/// The text without the white space at its two ends.
pub open spec fn trimmed(s: Seq<char>) -> Seq<char> {
    trim_end(trim_start(s))
}

/// The number of characters before the first `c`; the length where there is none.
pub open spec fn until(s: Seq<char>, c: char) -> nat
    decreases s.len(),
{
    if s.len() == 0 || s[0] == c {
        0
    } else {
        1 + until(s.drop_first(), c)
    }
}

/// The pieces between the separators: one more piece than separators.
pub open spec fn pieces(s: Seq<char>, sep: char) -> Seq<Seq<char>>
    decreases s.len(),
{
    let n = until(s, sep);
    if n >= s.len() {
        seq![s]
    } else {
        seq![s.take(n as int)] + pieces(s.skip(n as int + 1), sep)
    }
}

pub open spec fn without_cr(s: Seq<char>) -> Seq<char> {
    if s.len() > 0 && s.last() == '\r' {
        s.drop_last()
    } else {
        s
    }
}

/// The lines of a text. A line ends with `\n` or `\r\n`; the last one needs no ending.
pub open spec fn lines_of(s: Seq<char>) -> Seq<Seq<char>>
    decreases s.len(),
{
    let n = until(s, '\n');
    if s.len() == 0 {
        seq![]
    } else if n >= s.len() {
        seq![s]
    } else {
        seq![without_cr(s.take(n as int))] + lines_of(s.skip(n as int + 1))
    }
}

/// The parts one after another with `sep` between them.
pub open spec fn joined(parts: Seq<Seq<char>>, sep: Seq<char>) -> Seq<char>
    decreases parts.len(),
{
    if parts.len() == 0 {
        seq![]
    } else if parts.len() == 1 {
        parts[0]
    } else {
        joined(parts.drop_last(), sep) + sep + parts.last()
    }
}

/// `n` times the same character.
pub open spec fn repeated(c: char, n: nat) -> Seq<char> {
    Seq::new(n, |i: int| c)
}

pub open spec fn spaces(n: nat) -> Seq<char> {
    repeated(' ', n)
}

pub open spec fn begins_with(s: Seq<char>, prefix: Seq<char>) -> bool {
    prefix.len() <= s.len() && s.take(prefix.len() as int) == prefix
}

// --- numbers ---

pub open spec fn digit(d: nat) -> char {
    (48 + d) as char
}

pub open spec fn is_digit(c: char) -> bool {
    '0' <= c <= '9'
}

pub open spec fn digit_value(c: char) -> nat {
    (c as nat - 48) as nat
}

/// The decimal spelling of a number, without leading zeros.
pub open spec fn digits(n: nat) -> Seq<char>
    decreases n,
{
    if n < 10 {
        seq![digit(n)]
    } else {
        digits(n / 10).push(digit(n % 10))
    }
}

pub open spec fn all_digits(s: Seq<char>) -> bool {
    forall|i: int| 0 <= i < s.len() ==> is_digit(#[trigger] s[i])
}

/// The number that a row of digits spells.
pub open spec fn number(s: Seq<char>) -> nat
    decreases s.len(),
{
    if s.len() == 0 {
        0
    } else {
        number(s.drop_last()) * 10 + digit_value(s.last())
    }
}

/// The digits of a spelled number: a single leading `+` is allowed.
pub open spec fn unsigned(s: Seq<char>) -> Seq<char> {
    if s.len() > 0 && s[0] == '+' {
        s.drop_first()
    } else {
        s
    }
}

/// The number that the text spells, if it spells one that is at most `max`.
pub open spec fn parsed(s: Seq<char>, max: nat) -> Option<nat> {
    let d = unsigned(s);
    if d.len() > 0 && all_digits(d) && number(d) <= max {
        Some(number(d))
    } else {
        None
    }
}

// --- executable counterparts ---

pub fn chars_of(s: &str) -> (r: Vec<char>)
    ensures
        r@ == s@,
{
    let mut out: Vec<char> = Vec::new();
    for c in it: s.chars()
        invariant
            it.seq() == s@,
            out@ == s@.take(it.index() as int),
    {
        out.push(c);
    }
    out
}

pub fn text_of(chars: &[char]) -> (r: String)
    ensures
        r@ == chars@,
{
    slice_of(chars, 0, chars.len())
}

pub fn slice_of(chars: &[char], from: usize, to: usize) -> (r: String)
    requires
        from <= to <= chars.len(),
    ensures
        r@ == chars@.subrange(from as int, to as int),
{
    let mut out = String::new();
    let mut i: usize = from;
    while i < to
        invariant
            from <= i <= to <= chars.len(),
            out@ == chars@.subrange(from as int, i as int),
        decreases to - i,
    {
        out.push(chars[i]);
        i += 1;
    }
    out
}

pub fn char_count(s: &str) -> (r: usize)
    ensures
        r == s@.len(),
{
    chars_of(s).len()
}

pub fn same(a: &str, b: &str) -> (r: bool)
    ensures
        r == (a@ == b@),
{
    let x = chars_of(a);
    let y = chars_of(b);
    same_chars(&x, &y)
}

pub fn same_chars(x: &[char], y: &[char]) -> (r: bool)
    ensures
        r == (x@ == y@),
{
    if x.len() != y.len() {
        return false;
    }
    let mut i: usize = 0;
    while i < x.len()
        invariant
            i <= x.len(),
            x.len() == y.len(),
            forall|j: int| 0 <= j < i ==> x[j] == y[j],
        decreases x.len() - i,
    {
        if x[i] != y[i] {
            assert(x@[i as int] != y@[i as int]);
            return false;
        }
        i += 1;
    }
    assert(x@ =~= y@);
    true
}

/// Whether the optional text is `b`.
pub fn is_text(a: &Option<String>, b: &str) -> (r: bool)
    ensures
        r == (a is Some && a->0@ == b@),
{
    match a {
        Some(text) => same(text.as_str(), b),
        None => false,
    }
}

proof fn lemma_trim_start_is_suffix(s: Seq<char>, n: int)
    requires
        0 <= n <= s.len(),
        forall|j: int| 0 <= j < n ==> white(#[trigger] s[j]),
        n < s.len() ==> !white(s[n]),
    ensures
        trim_start(s) == s.skip(n),
    decreases n,
{
    if n > 0 {
        assert(white(s[0]));
        let t = s.drop_first();
        assert forall|j: int| 0 <= j < n - 1 implies white(#[trigger] t[j]) by {
            assert(t[j] == s[j + 1]);
        }
        lemma_trim_start_is_suffix(t, n - 1);
        assert(t.skip(n - 1) =~= s.skip(n));
    } else {
        assert(s.skip(0) =~= s);
    }
}

proof fn lemma_trim_end_is_prefix(s: Seq<char>, n: int)
    requires
        0 <= n <= s.len(),
        forall|j: int| n <= j < s.len() ==> white(#[trigger] s[j]),
        n > 0 ==> !white(s[n - 1]),
    ensures
        trim_end(s) == s.take(n),
    decreases s.len() - n,
{
    if n < s.len() {
        assert(white(s[s.len() - 1]));
        let t = s.drop_last();
        assert forall|j: int| n <= j < t.len() implies white(#[trigger] t[j]) by {
            assert(t[j] == s[j]);
        }
        lemma_trim_end_is_prefix(t, n);
        assert(t.take(n) =~= s.take(n));
    } else {
        assert(s.take(n) =~= s);
    }
}

pub fn trim(s: &str) -> (r: String)
    ensures
        r@ == trimmed(s@),
{
    let chars = chars_of(s);
    let mut from: usize = 0;
    while from < chars.len() && is_white(chars[from])
        invariant
            from <= chars.len(),
            forall|j: int| 0 <= j < from ==> white(#[trigger] chars@[j]),
        decreases chars.len() - from,
    {
        from += 1;
    }
    let ghost rest = chars@.skip(from as int);
    proof {
        lemma_trim_start_is_suffix(chars@, from as int);
    }
    let mut to: usize = chars.len();
    while to > from && is_white(chars[to - 1])
        invariant
            from <= to <= chars.len(),
            forall|j: int| to <= j < chars.len() ==> white(#[trigger] chars@[j]),
        decreases to,
    {
        to -= 1;
    }
    proof {
        let n = to - from;
        assert forall|j: int| n <= j < rest.len() implies white(#[trigger] rest[j]) by {
            assert(rest[j] == chars@[j + from]);
        }
        lemma_trim_end_is_prefix(rest, n);
        assert(rest.take(n) =~= chars@.subrange(from as int, to as int));
    }
    slice_of(&chars, from, to)
}

/// The characters behind the leading white space.
pub fn trim_left(s: &str) -> (r: Vec<char>)
    ensures
        r@ == trim_start(s@),
{
    let chars = chars_of(s);
    let mut from: usize = 0;
    while from < chars.len() && is_white(chars[from])
        invariant
            from <= chars.len(),
            forall|j: int| 0 <= j < from ==> white(#[trigger] chars@[j]),
        decreases chars.len() - from,
    {
        from += 1;
    }
    proof {
        lemma_trim_start_is_suffix(chars@, from as int);
    }
    let rest = slice_of(&chars, from, chars.len());
    assert(rest@ =~= chars@.skip(from as int));
    chars_of(rest.as_str())
}

/// Whether the text holds nothing but white space.
pub fn is_blank(s: &str) -> (r: bool)
    ensures
        r == (trimmed(s@).len() == 0),
{
    trim(s).as_str().is_empty()
}

proof fn lemma_until_is(s: Seq<char>, c: char, n: int)
    requires
        0 <= n <= s.len(),
        forall|j: int| 0 <= j < n ==> #[trigger] s[j] != c,
        n < s.len() ==> s[n] == c,
    ensures
        until(s, c) == n,
    decreases n,
{
    if n > 0 {
        assert(s[0] != c);
        let t = s.drop_first();
        assert forall|j: int| 0 <= j < n - 1 implies #[trigger] t[j] != c by {
            assert(t[j] == s[j + 1]);
        }
        lemma_until_is(t, c, n - 1);
    }
}

/// What `until` counts: no `c` before it, and a `c` there unless it is the end.
pub proof fn lemma_until(s: Seq<char>, c: char)
    ensures
        until(s, c) <= s.len(),
        forall|j: int| 0 <= j < until(s, c) ==> #[trigger] s[j] != c,
        until(s, c) < s.len() ==> s[until(s, c) as int] == c,
    decreases s.len(),
{
    if s.len() > 0 && s[0] != c {
        let t = s.drop_first();
        lemma_until(t, c);
        assert forall|j: int| 0 <= j < until(s, c) implies #[trigger] s[j] != c by {
            if j > 0 {
                assert(t[j - 1] == s[j]);
            }
        }
    }
}

/// The index of the first `c` at or after `from`; the length where there is none.
fn next_index(chars: &[char], from: usize, c: char) -> (r: usize)
    requires
        from <= chars.len(),
    ensures
        from <= r <= chars.len(),
        r == from + until(chars@.skip(from as int), c),
{
    let mut i: usize = from;
    while i < chars.len() && chars[i] != c
        invariant
            from <= i <= chars.len(),
            forall|j: int| from <= j < i ==> #[trigger] chars@[j] != c,
        decreases chars.len() - i,
    {
        i += 1;
    }
    proof {
        let rest = chars@.skip(from as int);
        assert forall|j: int| 0 <= j < i - from implies #[trigger] rest[j] != c by {
            assert(rest[j] == chars@[j + from]);
        }
        lemma_until_is(rest, c, i - from);
    }
    i
}

/// The index of the first `c`; the length where there is none.
pub fn first_index(chars: &[char], c: char) -> (r: usize)
    ensures
        r <= chars.len(),
        r == until(chars@, c),
{
    assert(chars@.skip(0) =~= chars@);
    next_index(chars, 0, c)
}

pub fn split(s: &str, sep: char) -> (r: Vec<String>)
    ensures
        views(r@) == pieces(s@, sep),
{
    let chars = chars_of(s);
    let mut out: Vec<String> = Vec::new();
    let mut from: usize = 0;
    assert(chars@.skip(0) =~= s@);
    assert(views(out@) + pieces(s@, sep) =~= pieces(s@, sep));
    loop
        invariant_except_break
            chars@ == s@,
            from <= chars.len(),
            views(out@) + pieces(chars@.skip(from as int), sep) == pieces(s@, sep),
        ensures
            views(out@) == pieces(s@, sep),
        decreases chars.len() - from,
    {
        let at = next_index(&chars, from, sep);
        let ghost rest = chars@.skip(from as int);
        let piece = slice_of(&chars, from, at);
        let ghost before = views(out@);
        assert(rest.take(at - from) =~= chars@.subrange(from as int, at as int));
        out.push(piece);
        assert(views(out@) =~= before.push(rest.take(at - from)));
        if at >= chars.len() {
            assert(rest.take(at - from) =~= rest);
            assert(views(out@) =~= before + pieces(rest, sep));
            break;
        }
        assert(rest.skip(at - from + 1) =~= chars@.skip(at + 1));
        assert(views(out@) + pieces(chars@.skip(at + 1), sep) =~= before + pieces(rest, sep));
        from = at + 1;
    }
    out
}

pub fn lines(s: &str) -> (r: Vec<String>)
    ensures
        views(r@) == lines_of(s@),
{
    let chars = chars_of(s);
    let mut out: Vec<String> = Vec::new();
    let mut from: usize = 0;
    assert(chars@.skip(0) =~= s@);
    assert(views(out@) + lines_of(s@) =~= lines_of(s@));
    while from < chars.len()
        invariant
            chars@ == s@,
            from <= chars.len(),
            views(out@) + lines_of(chars@.skip(from as int)) == lines_of(s@),
        decreases chars.len() - from,
    {
        let at = next_index(&chars, from, '\n');
        let ghost rest = chars@.skip(from as int);
        let ghost before = views(out@);
        if at >= chars.len() {
            let line = slice_of(&chars, from, at);
            assert(chars@.subrange(from as int, at as int) =~= rest);
            out.push(line);
            assert(chars@.skip(at as int) =~= seq![]);
            assert(views(out@) + lines_of(chars@.skip(at as int)) =~= before + lines_of(rest));
            from = at;
        } else {
            let cr = at > from && chars[at - 1] == '\r';
            let end: usize = if cr {
                at - 1
            } else {
                at
            };
            let line = slice_of(&chars, from, end);
            assert(rest.take(at - from) =~= chars@.subrange(from as int, at as int));
            assert(chars@.subrange(from as int, end as int) =~= without_cr(rest.take(at - from)));
            out.push(line);
            assert(rest.skip(at - from + 1) =~= chars@.skip(at + 1));
            assert(views(out@) + lines_of(chars@.skip(at + 1)) =~= before + lines_of(rest));
            from = at + 1;
        }
    }
    assert(chars@.skip(from as int) =~= seq![]);
    assert(views(out@) =~= views(out@) + lines_of(seq![]));
    out
}

pub fn join(parts: &Vec<String>, sep: &str) -> (r: String)
    ensures
        r@ == joined(views(parts@), sep@),
{
    let mut out = String::new();
    let mut i: usize = 0;
    assert(views(parts@).take(0) =~= seq![]);
    while i < parts.len()
        invariant
            i <= parts.len(),
            out@ == joined(views(parts@).take(i as int), sep@),
        decreases parts.len() - i,
    {
        let ghost v = views(parts@);
        assert(v.take(i + 1).drop_last() =~= v.take(i as int));
        if i > 0 {
            out.push_str(sep);
        }
        out.push_str(parts[i].as_str());
        assert(out@ =~= joined(v.take(i + 1), sep@));
        i += 1;
    }
    assert(views(parts@).take(i as int) =~= views(parts@));
    out
}

pub fn repeat(c: char, n: usize) -> (r: String)
    ensures
        r@ == repeated(c, n as nat),
{
    let mut out = String::new();
    let mut i: usize = 0;
    while i < n
        invariant
            i <= n,
            out@ == repeated(c, i as nat),
        decreases n - i,
    {
        out.push(c);
        i += 1;
        assert(out@ =~= repeated(c, i as nat));
    }
    out
}

/// The first text with the second behind it.
pub fn concat(a: &str, b: &str) -> (r: String)
    ensures
        r@ == a@ + b@,
{
    let mut out = a.to_owned();
    out.push_str(b);
    out
}

pub fn starts_with(s: &str, prefix: &str) -> (r: bool)
    ensures
        r == begins_with(s@, prefix@),
{
    let x = chars_of(s);
    let p = chars_of(prefix);
    if p.len() > x.len() {
        return false;
    }
    let head = slice_of(&x, 0, p.len());
    same(head.as_str(), prefix)
}

fn digit_char(d: u128) -> (r: char)
    requires
        d < 10,
    ensures
        r == digit(d as nat),
{
    match d {
        0 => '0',
        1 => '1',
        2 => '2',
        3 => '3',
        4 => '4',
        5 => '5',
        6 => '6',
        7 => '7',
        8 => '8',
        _ => '9',
    }
}

pub fn decimal(n: u128) -> (r: String)
    ensures
        r@ == digits(n as nat),
    decreases n,
{
    if n < 10 {
        let mut out = String::new();
        out.push(digit_char(n));
        assert(out@ =~= seq![digit(n as nat)]);
        out
    } else {
        let mut out = decimal(n / 10);
        out.push(digit_char(n % 10));
        out
    }
}

proof fn lemma_number_grows(s: Seq<char>, i: int)
    requires
        0 <= i <= s.len(),
        all_digits(s),
    ensures
        number(s.take(i)) <= number(s),
    decreases s.len() - i,
{
    if i < s.len() {
        let t = s.drop_last();
        lemma_number_grows(t, i);
        assert(t.take(i) =~= s.take(i));
    } else {
        assert(s.take(i) =~= s);
    }
}

/// The number that the text spells, if it spells one of at most `max`.
pub fn parse(s: &str, max: u64) -> (r: Option<u64>)
    ensures
        r is Some == parsed(s@, max as nat) is Some,
        r is Some ==> r->0 == parsed(s@, max as nat)->0,
{
    let chars = chars_of(s);
    let from: usize = if chars.len() > 0 && chars[0] == '+' {
        1
    } else {
        0
    };
    let ghost d = unsigned(s@);
    assert(d =~= chars@.skip(from as int));
    if from >= chars.len() {
        return None;
    }
    let mut value: u64 = 0;
    let mut i: usize = from;
    assert(d.take(0) =~= seq![]);
    while i < chars.len()
        invariant
            from <= i <= chars.len(),
            from <= 1,
            d == chars@.skip(from as int),
            d == unsigned(s@),
            d.len() > 0,
            value == number(d.take(i - from)),
            value <= max,
            forall|j: int| 0 <= j < i - from ==> is_digit(#[trigger] d[j]),
        decreases chars.len() - i,
    {
        let c = chars[i];
        let ghost k = i - from;
        assert(d[k] == c);
        if c < '0' || c > '9' {
            assert(!is_digit(d[k]));
            return None;
        }
        let v: u64 = (c as u32 - 48) as u64;
        assert(d.take(k + 1).drop_last() =~= d.take(k));
        assert(number(d.take(k + 1)) == value * 10 + v);
        if value > max / 10 || v > max - value * 10 {
            proof {
                if all_digits(d) {
                    lemma_number_grows(d, k + 1);
                }
            }
            return None;
        }
        value = value * 10 + v;
        i += 1;
    }
    assert(d.take(i - from) =~= d);
    Some(value)
}

pub fn parse_u32(s: &str) -> (r: Option<u32>)
    ensures
        r is Some == parsed(s@, u32::MAX as nat) is Some,
        r is Some ==> r->0 == parsed(s@, u32::MAX as nat)->0,
{
    match parse(s, u32::MAX as u64) {
        Some(n) => Some(n as u32),
        None => None,
    }
}

pub fn parse_u64(s: &str) -> (r: Option<u64>)
    ensures
        r is Some == parsed(s@, u64::MAX as nat) is Some,
        r is Some ==> r->0 == parsed(s@, u64::MAX as nat)->0,
{
    parse(s, u64::MAX)
}

pub fn parse_usize(s: &str) -> (r: Option<usize>)
    ensures
        r is Some == parsed(s@, usize::MAX as nat) is Some,
        r is Some ==> r->0 == parsed(s@, usize::MAX as nat)->0,
{
    match parse(s, usize::MAX as u64) {
        Some(n) => Some(n as usize),
        None => None,
    }
}

// --- laws of texts ---

/// A larger number is not spelled shorter.
pub proof fn lemma_digits_len(a: nat, b: nat)
    requires
        a <= b,
    ensures
        0 < digits(a).len() <= digits(b).len(),
    decreases b,
{
    if a >= 10 {
        lemma_digits_len(a / 10, b / 10);
    } else if b >= 10 {
        lemma_digits_len(0, b / 10);
    }
}

/// A spelled number consists of digits and spells that number.
pub proof fn lemma_number_of_digits(n: nat)
    ensures
        all_digits(digits(n)),
        number(digits(n)) == n,
    decreases n,
{
    if n < 10 {
        let s = digits(n);
        assert(s.drop_last() =~= Seq::empty());
        assert(number(s.drop_last()) == 0);
        assert(digit_value(digit(n)) == n);
    } else {
        let s = digits(n);
        lemma_number_of_digits(n / 10);
        assert(s.drop_last() =~= digits(n / 10));
        assert(s.last() == digit(n % 10));
        assert(digit_value(digit(n % 10)) == n % 10);
    }
}

/// Zeros in front do not change a number.
pub proof fn lemma_leading_zeros(zeros: nat, s: Seq<char>)
    ensures
        number(repeated('0', zeros) + s) == number(s),
    decreases s.len(), zeros,
{
    let all = repeated('0', zeros) + s;
    if s.len() > 0 {
        lemma_leading_zeros(zeros, s.drop_last());
        assert(all.drop_last() =~= repeated('0', zeros) + s.drop_last());
    } else if zeros > 0 {
        let fewer = repeated('0', (zeros - 1) as nat);
        lemma_leading_zeros((zeros - 1) as nat, s);
        assert(fewer + s =~= fewer);
        assert(all.drop_last() =~= fewer);
        assert(digit_value('0') == 0);
    } else {
        assert(all =~= s);
    }
}

/// Reading back a spelled number gives the number.
pub proof fn lemma_parsed_digits(n: nat, max: nat)
    requires
        n <= max,
    ensures
        parsed(digits(n), max) == Some(n),
{
    lemma_number_of_digits(n);
    lemma_digits_len(n, n);
    let d = digits(n);
    assert(is_digit(d[0]));
    assert(unsigned(d) == d);
}

/// A spelled number has no white space around it.
pub proof fn lemma_trimmed_digits(n: nat)
    ensures
        trimmed(digits(n)) == digits(n),
        trim_start(digits(n)) == digits(n),
{
    lemma_number_of_digits(n);
    lemma_digits_len(n, n);
    let d = digits(n);
    assert(is_digit(d[0]));
    assert(is_digit(d[d.len() - 1]));
}

/// A spelled number holds nothing but digits.
pub proof fn lemma_digits_without(n: nat, c: char)
    requires
        !is_digit(c),
    ensures
        !digits(n).contains(c),
{
    lemma_number_of_digits(n);
    let d = digits(n);
    if d.contains(c) {
        let i = choose|i: int| 0 <= i < d.len() && d[i] == c;
        assert(is_digit(d[i]));
    }
}


/// In `s`, a `c` and more text, the first `c` stands behind `s`.
pub proof fn lemma_until_prefix(s: Seq<char>, c: char, rest: Seq<char>)
    requires
        !s.contains(c),
    ensures
        until(s.push(c) + rest, c) == s.len(),
{
    let t = s.push(c) + rest;
    assert forall|j: int| 0 <= j < s.len() implies #[trigger] t[j] != c by {
        assert(t[j] == s[j]);
        assert(s.contains(s[j]));
    }
    lemma_until_is(t, c, s.len() as int);
}

/// A text without `c` is one piece.
pub proof fn lemma_until_absent(s: Seq<char>, c: char)
    requires
        !s.contains(c),
    ensures
        until(s, c) == s.len(),
{
    assert forall|j: int| 0 <= j < s.len() implies #[trigger] s[j] != c by {
        assert(s.contains(s[j]));
    }
    lemma_until_is(s, c, s.len() as int);
}

/// Joining parts from the front: the first part, the separator, the rest.
pub proof fn lemma_joined_front(parts: Seq<Seq<char>>, sep: Seq<char>)
    requires
        parts.len() > 1,
    ensures
        joined(parts, sep) == parts[0] + sep + joined(parts.drop_first(), sep),
    decreases parts.len(),
{
    let front = parts.drop_last();
    if parts.len() == 2 {
        assert(front.len() == 1);
        assert(parts.drop_first().len() == 1);
        assert(joined(front, sep) == parts[0]);
        assert(joined(parts.drop_first(), sep) == parts[1]);
    } else {
        lemma_joined_front(front, sep);
        let rest = parts.drop_first();
        assert(rest.drop_last() =~= front.drop_first());
        assert(rest.last() == parts.last());
        assert(front[0] == parts[0]);
        assert(joined(parts, sep) =~= parts[0] + sep + joined(rest, sep));
    }
}

/// Splitting at a separator gives back the parts that were joined with it.
pub proof fn lemma_pieces_of_joined(parts: Seq<Seq<char>>, sep: char)
    requires
        parts.len() > 0,
        forall|i: int| 0 <= i < parts.len() ==> !(#[trigger] parts[i]).contains(sep),
    ensures
        pieces(joined(parts, seq![sep]), sep) == parts,
    decreases parts.len(),
{
    let all = joined(parts, seq![sep]);
    if parts.len() == 1 {
        assert(!parts[0].contains(sep));
        lemma_until_absent(parts[0], sep);
        assert(pieces(all, sep) =~= parts);
    } else {
        let first = parts[0];
        let rest = parts.drop_first();
        assert(!parts[0].contains(sep));
        assert forall|i: int| 0 <= i < rest.len() implies !(#[trigger] rest[i]).contains(sep) by {
            assert(rest[i] == parts[i + 1]);
        }
        lemma_joined_front(parts, seq![sep]);
        let tail = joined(rest, seq![sep]);
        assert(all =~= first.push(sep) + tail);
        lemma_until_prefix(first, sep, tail);
        assert(all.take(first.len() as int) =~= first);
        assert(all.skip(first.len() as int + 1) =~= tail);
        lemma_pieces_of_joined(rest, sep);
        assert(pieces(all, sep) =~= seq![first] + rest);
        assert(seq![first] + rest =~= parts);
    }
}

/// The text ends in a carriage return.
pub open spec fn ends_in_cr(s: Seq<char>) -> bool {
    s.len() > 0 && s.last() == '\r'
}

/// The lines of joined lines are those lines; an empty last one leaves no trace. A carriage
/// return that comes to stand before a separator would be taken for a part of it.
pub proof fn lemma_lines_of_joined(parts: Seq<Seq<char>>)
    requires
        parts.len() > 0,
        forall|i: int| 0 <= i < parts.len() ==> !(#[trigger] parts[i]).contains('\n'),
        forall|i: int| 0 <= i < parts.len() - 1 ==> !ends_in_cr(#[trigger] parts[i]),
    ensures
        lines_of(joined(parts, "\n"@)) == if parts.last().len() > 0 {
            parts
        } else {
            parts.drop_last()
        },
    decreases parts.len(),
{
    reveal_strlit("\n");
    assert("\n"@ =~= seq!['\n']);
    let all = joined(parts, "\n"@);
    let first = parts[0];
    assert(!parts[0].contains('\n'));
    if parts.len() == 1 {
        lemma_until_absent(first, '\n');
        assert(all == first);
        if first.len() > 0 {
            assert(lines_of(all) =~= parts);
        } else {
            assert(lines_of(all) =~= parts.drop_last());
        }
    } else {
        let rest = parts.drop_first();
        assert forall|i: int| 0 <= i < rest.len() implies !(#[trigger] rest[i]).contains('\n') by {
            assert(rest[i] == parts[i + 1]);
        }
        assert forall|i: int| 0 <= i < rest.len() - 1 implies !ends_in_cr(#[trigger] rest[i]) by {
            assert(rest[i] == parts[i + 1]);
        }
        assert(rest.last() == parts.last());
        lemma_joined_front(parts, "\n"@);
        let tail = joined(rest, "\n"@);
        assert(all =~= first.push('\n') + tail);
        lemma_until_prefix(first, '\n', tail);
        assert(all.take(first.len() as int) =~= first);
        assert(all.skip(first.len() as int + 1) =~= tail);
        assert(!ends_in_cr(parts[0]));
        assert(without_cr(first) == first);
        lemma_lines_of_joined(rest);
        assert(lines_of(all) =~= seq![first] + lines_of(tail));
        assert(seq![first] + rest =~= parts);
        assert(seq![first] + rest.drop_last() =~= parts.drop_last());
    }
}

/// Lines, each with its ending.
pub open spec fn block(lines: Seq<Seq<char>>) -> Seq<char>
    decreases lines.len(),
{
    if lines.len() == 0 {
        Seq::empty()
    } else {
        block(lines.drop_last()) + lines.last().push('\n')
    }
}

/// A text that can stand on a line of its own.
pub open spec fn one_line(s: Seq<char>) -> bool {
    !s.contains('\n') && !ends_in_cr(s)
}

proof fn lemma_block_front(lines: Seq<Seq<char>>)
    requires
        lines.len() > 0,
    ensures
        block(lines) == lines[0].push('\n') + block(lines.drop_first()),
    decreases lines.len(),
{
    if lines.len() == 1 {
        assert(lines.drop_last() =~= Seq::empty());
        assert(lines.drop_first() =~= Seq::empty());
        assert(block(lines) =~= lines[0].push('\n') + block(lines.drop_first()));
    } else {
        let front = lines.drop_last();
        let rest = lines.drop_first();
        lemma_block_front(front);
        assert(rest.drop_last() =~= front.drop_first());
        assert(block(lines) =~= lines[0].push('\n') + block(rest));
    }
}

/// The lines of a block are the lines it was made of.
pub proof fn lemma_lines_of_block(lines: Seq<Seq<char>>)
    requires
        forall|i: int| 0 <= i < lines.len() ==> one_line(#[trigger] lines[i]),
    ensures
        lines_of(block(lines)) == lines,
    decreases lines.len(),
{
    if lines.len() == 0 {
        assert(lines_of(block(lines)) =~= lines);
    } else {
        let first = lines[0];
        let rest = lines.drop_first();
        assert(one_line(lines[0]));
        assert forall|i: int| 0 <= i < rest.len() implies one_line(#[trigger] rest[i]) by {
            assert(rest[i] == lines[i + 1]);
        }
        lemma_block_front(lines);
        lemma_lines_of_block(rest);
        let tail = block(rest);
        let all = block(lines);
        lemma_until_prefix(first, '\n', tail);
        assert(all.take(first.len() as int) =~= first);
        assert(all.skip(first.len() as int + 1) =~= tail);
        assert(without_cr(first) == first);
        assert(lines_of(all) =~= seq![first] + rest);
        assert(seq![first] + rest =~= lines);
    }
}

/// Several joined parts end as their last part does, or with the separator.
pub proof fn lemma_joined_end(parts: Seq<Seq<char>>, sep: Seq<char>, c: char)
    requires
        parts.len() > 1,
        sep.len() > 0,
        !sep.contains(c),
        !parts.last().contains(c),
    ensures
        joined(parts, sep).len() > 0,
        joined(parts, sep).last() != c,
{
    let before = joined(parts.drop_last(), sep) + sep;
    assert(before.last() == sep.last());
    assert(sep.contains(sep.last()));
    if parts.last().len() > 0 {
        assert((before + parts.last()).last() == parts.last().last());
        assert(parts.last().contains(parts.last().last()));
    } else {
        assert(before + parts.last() =~= before);
    }
}

/// What is left after trimming holds no character that the text does not hold.
pub proof fn lemma_trimmed_without(s: Seq<char>, c: char)
    requires
        !s.contains(c),
    ensures
        !trimmed(s).contains(c),
{
    lemma_trim_start_without(s, c);
    lemma_trim_end_without(trim_start(s), c);
}

proof fn lemma_trim_start_without(s: Seq<char>, c: char)
    requires
        !s.contains(c),
    ensures
        !trim_start(s).contains(c),
    decreases s.len(),
{
    if s.len() > 0 && white(s[0]) {
        let t = s.drop_first();
        assert forall|i: int| 0 <= i < t.len() implies t[i] != c by {
            assert(s.contains(s[i + 1]));
        }
        lemma_trim_start_without(t, c);
    }
}

proof fn lemma_trim_end_without(s: Seq<char>, c: char)
    requires
        !s.contains(c),
    ensures
        !trim_end(s).contains(c),
    decreases s.len(),
{
    if s.len() > 0 && white(s.last()) {
        let t = s.drop_last();
        assert forall|i: int| 0 <= i < t.len() implies t[i] != c by {
            assert(s.contains(s[i]));
        }
        lemma_trim_end_without(t, c);
    }
}

/// Joined parts hold no character that neither a part nor the separator holds.
pub proof fn lemma_joined_without(parts: Seq<Seq<char>>, sep: Seq<char>, c: char)
    requires
        forall|i: int| 0 <= i < parts.len() ==> !(#[trigger] parts[i]).contains(c),
        !sep.contains(c),
    ensures
        !joined(parts, sep).contains(c),
    decreases parts.len(),
{
    if parts.len() > 0 {
        let front = parts.drop_last();
        assert(!parts[parts.len() - 1].contains(c));
        assert forall|i: int| 0 <= i < front.len() implies !(#[trigger] front[i]).contains(c) by {
            assert(front[i] == parts[i]);
        }
        lemma_joined_without(front, sep, c);
        let all = joined(parts, sep);
        if all.contains(c) {
            let i = choose|i: int| 0 <= i < all.len() && all[i] == c;
            let a = joined(front, sep);
            if parts.len() == 1 {
                assert(all =~= parts[0]);
                assert(parts[0][i] == c);
            } else if i < a.len() {
                assert(a[i] == c);
            } else if i < a.len() + sep.len() {
                assert(sep[i - a.len()] == c);
            } else {
                assert(parts.last()[i - a.len() - sep.len()] == c);
            }
        }
    }
}

// --- texts inside texts ---

/// The index of the first occurrence of `pat`.
pub open spec fn found(s: Seq<char>, pat: Seq<char>) -> Option<nat>
    decreases s.len(),
{
    if begins_with(s, pat) {
        Some(0)
    } else if s.len() == 0 {
        None
    } else {
        match found(s.drop_first(), pat) {
            Some(n) => Some(n + 1),
            None => None,
        }
    }
}

fn occurs_at(chars: &Vec<char>, at: usize, pat: &Vec<char>) -> (r: bool)
    requires
        at <= chars.len(),
    ensures
        r == begins_with(chars@.skip(at as int), pat@),
{
    if chars.len() - at < pat.len() {
        return false;
    }
    let ghost rest = chars@.skip(at as int);
    let mut i: usize = 0;
    while i < pat.len()
        invariant
            i <= pat.len(),
            at <= chars.len(),
            pat.len() <= chars.len() - at,
            rest == chars@.skip(at as int),
            forall|j: int| 0 <= j < i ==> rest[j] == pat@[j],
        decreases pat.len() - i,
    {
        if chars[at + i] != pat[i] {
            assert(rest.take(pat@.len() as int)[i as int] != pat@[i as int]);
            return false;
        }
        i += 1;
    }
    assert(rest.take(pat@.len() as int) =~= pat@);
    true
}

/// The index of the first occurrence of a text.
pub fn find(chars: &Vec<char>, pat: &Vec<char>) -> (r: Option<usize>)
    ensures
        r is Some == found(chars@, pat@) is Some,
        r is Some ==> r->0 == found(chars@, pat@)->0 && r->0 + pat.len() <= chars.len(),
{
    let mut i: usize = 0;
    assert(chars@.skip(0) =~= chars@);
    while i <= chars.len()
        invariant
            i <= chars.len() + 1,
            i <= chars.len() ==> match found(chars@.skip(i as int), pat@) {
                Some(n) => found(chars@, pat@) == Some(i as nat + n),
                None => found(chars@, pat@) is None,
            },
            i == chars.len() + 1 ==> found(chars@, pat@) is None,
        decreases chars.len() + 1 - i,
    {
        let ghost rest = chars@.skip(i as int);
        if occurs_at(chars, i, pat) {
            return Some(i);
        }
        if i == chars.len() {
            return None;
        }
        assert(rest.drop_first() =~= chars@.skip(i + 1));
        i += 1;
    }
    None
}

} // verus!
