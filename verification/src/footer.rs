//! The footer: what can be done right now. It also holds the inputs, the prompt before panes
//! end, and the warning of settings that could not be read.

use vstd::prelude::*;

use crate::config::{lookup, setting_table, settings, Kind, KindV, SettingV};
use crate::ids::{group_views, views};
use crate::line::{
    compose, composed, content_cols, content_width, inked, less, Ink, Line, LineV, HEADER_INDENT,
    NO_AGENT_ICON,
};
use crate::search::SearchPhase;
use crate::state::{key_views, str_views, State, StateV};
use crate::text::{
    begins_with, chars_of, concat, decimal, digits, join, joined, repeat, same, slice_of, spaces,
};
use crate::width::{display_width, width_of};

verus! {

broadcast use group_views;

// --- keys and their actions ---

/// The place of the last `+`.
pub open spec fn last_plus(s: Seq<char>) -> Option<nat>
    decreases s.len(),
{
    if s.len() == 0 {
        None
    } else if s.last() == '+' {
        Some((s.len() - 1) as nat)
    } else {
        last_plus(s.drop_last())
    }
}

/// A key's spelling, parted into its modifiers and the bare key. The last character always
/// belongs to the bare key, which may be `+` itself.
pub open spec fn parted(key: Seq<char>) -> Option<(Seq<char>, Seq<char>)> {
    if key.len() == 0 {
        None
    } else {
        match last_plus(key.drop_last()) {
            Some(at) => Some((key.take(at as int), key.skip((at + 1) as int))),
            None => None,
        }
    }
}

/// Keys with the names of their actions as texts.
pub open spec fn part_views(s: Seq<(&str, &'static str)>) -> Seq<(Seq<char>, Seq<char>)> {
    s.map_values(|x: (&str, &'static str)| (x.0@, x.1@))
}

/// The modifiers that all keys have, where there are at least two keys.
pub open spec fn shared(parts: Seq<(Seq<char>, Seq<char>)>) -> Option<Seq<char>> {
    if parts.len() < 2 || parted(parts[0].0) is None {
        None
    } else {
        let modifiers = (parted(parts[0].0)->0).0;
        if forall|i: int|
            0 <= i < parts.len() ==> has_modifiers((#[trigger] parts[i]).0, modifiers) {
            Some(modifiers)
        } else {
            None
        }
    }
}

/// The key has exactly these modifiers.
pub open spec fn has_modifiers(key: Seq<char>, modifiers: Seq<char>) -> bool {
    parted(key) is Some && (parted(key)->0).0 == modifiers
}

/// A key and its action.
pub open spec fn item(key: Seq<char>, label: Seq<char>) -> Seq<char> {
    key + seq![':'] + label
}

/// The key without its modifiers.
pub open spec fn bare(key: Seq<char>) -> Seq<char> {
    match parted(key) {
        Some((_, bare)) => bare,
        None => key,
    }
}

/// The keys on one line. Modifiers that all keys share are written once, in front.
pub open spec fn key_line(parts: Seq<(Seq<char>, Seq<char>)>) -> Seq<char> {
    match shared(parts) {
        Some(modifiers) => modifiers + " + "@ + NO_AGENT_ICON@ + seq![' '] + joined(
            parts.map_values(|p: (Seq<char>, Seq<char>)| item(bare(p.0), p.1)),
            "  "@,
        ),
        None => joined(
            parts.map_values(|p: (Seq<char>, Seq<char>)| item(p.0, p.1)),
            "  "@,
        ),
    }
}

/// Parts a key's spelling into its modifiers and the bare key.
pub fn split_modifiers(key: &str) -> (r: Option<(String, String)>)
    ensures
        r is Some == parted(key@) is Some,
        r is Some ==> ((r->0).0@, (r->0).1@) == parted(key@)->0,
{
    let chars = chars_of(key);
    if chars.len() == 0 {
        return None;
    }
    let ghost front = key@.drop_last();
    let mut i: usize = chars.len() - 1;
    assert(front.take(i as int) =~= front);
    while i > 0
        invariant
            i < chars.len(),
            chars@ == key@,
            front == key@.drop_last(),
            last_plus(front) == last_plus(front.take(i as int)),
        decreases i,
    {
        assert(front.take(i as int).last() == chars@[i - 1]);
        assert(front.take(i as int).drop_last() =~= front.take(i - 1));
        if chars[i - 1] == '+' {
            let modifiers = slice_of(&chars, 0, i - 1);
            let bare_key = slice_of(&chars, i, chars.len());
            assert(modifiers@ =~= key@.take(i - 1));
            assert(bare_key@ =~= key@.skip(i as int));
            return Some((modifiers, bare_key));
        }
        i -= 1;
    }
    None
}

/// The modifiers that all keys have.
pub fn shared_modifiers(parts: &Vec<(&str, &'static str)>) -> (r: Option<String>)
    ensures
        r is Some == shared(part_views(parts@)) is Some,
        r is Some ==> r->0@ == shared(part_views(parts@))->0,
{
    let ghost v = part_views(parts@);
    if parts.len() < 2 {
        return None;
    }
    assert(v[0].0 == parts@[0].0@);
    let modifiers = match split_modifiers(parts[0].0) {
        Some((modifiers, _)) => modifiers,
        None => {
            return None;
        },
    };
    let mut i: usize = 0;
    while i < parts.len()
        invariant
            i <= parts.len(),
            2 <= parts.len(),
            v == part_views(parts@),
            parted(v[0].0) is Some,
            modifiers@ == (parted(v[0].0)->0).0,
            forall|j: int| 0 <= j < i ==> has_modifiers((#[trigger] v[j]).0, modifiers@),
        decreases parts.len() - i,
    {
        assert(v[i as int].0 == parts@[i as int].0@);
        let equal = match split_modifiers(parts[i].0) {
            Some((other, _)) => same(other.as_str(), modifiers.as_str()),
            None => false,
        };
        if !equal {
            assert(!has_modifiers(v[i as int].0, modifiers@));
            return None;
        }
        i += 1;
    }
    Some(modifiers)
}

fn key_item(key: &str, label: &str) -> (r: String)
    ensures
        r@ == item(key@, label@),
{
    let mut out = key.to_owned();
    out.push(':');
    out.push_str(label);
    assert(out@ =~= item(key@, label@));
    out
}

fn key_items(parts: &Vec<(&str, &'static str)>, without_modifiers: bool) -> (r: Vec<String>)
    ensures
        without_modifiers ==> views(r@) == part_views(parts@).map_values(
            |p: (Seq<char>, Seq<char>)| item(bare(p.0), p.1),
        ),
        !without_modifiers ==> views(r@) == part_views(parts@).map_values(
            |p: (Seq<char>, Seq<char>)| item(p.0, p.1),
        ),
{
    let ghost v = part_views(parts@);
    let mut items: Vec<String> = Vec::new();
    let mut i: usize = 0;
    while i < parts.len()
        invariant
            i <= parts.len(),
            v == part_views(parts@),
            items.len() == i,
            forall|j: int|
                0 <= j < i ==> (#[trigger] items@[j])@ == (if without_modifiers {
                    item(bare(v[j].0), v[j].1)
                } else {
                    item(v[j].0, v[j].1)
                }),
        decreases parts.len() - i,
    {
        assert(v[i as int] == (parts@[i as int].0@, parts@[i as int].1@));
        if without_modifiers {
            match split_modifiers(parts[i].0) {
                Some((_, bare_key)) => items.push(key_item(bare_key.as_str(), parts[i].1)),
                None => items.push(key_item(parts[i].0, parts[i].1)),
            }
        } else {
            items.push(key_item(parts[i].0, parts[i].1));
        }
        i += 1;
    }
    proof {
        if without_modifiers {
            assert(views(items@) =~= v.map_values(
                |p: (Seq<char>, Seq<char>)| item(bare(p.0), p.1),
            ));
        } else {
            assert(views(items@) =~= v.map_values(|p: (Seq<char>, Seq<char>)| item(p.0, p.1)));
        }
    }
    items
}

/// Puts the keys on one line.
pub fn join_direct_keys(parts: &Vec<(&str, &'static str)>) -> (r: String)
    ensures
        r@ == key_line(part_views(parts@)),
{
    match shared_modifiers(parts) {
        Some(modifiers) => {
            let items = join(&key_items(parts, true), "  ");
            let mut line = modifiers.clone();
            line.push_str(" + ");
            line.push_str(NO_AGENT_ICON);
            line.push(' ');
            line.push_str(items.as_str());
            assert(line@ =~= modifiers@ + " + "@ + NO_AGENT_ICON@ + seq![' '] + items@);
            line
        },
        None => join(&key_items(parts, false), "  "),
    }
}

// --- what fits ---

/// As many of the first `n` hints as fit, with a column between them and the input.
pub open spec fn fitting(hints: Seq<Seq<char>>, n: nat, budget: nat) -> Seq<char>
    decreases n,
{
    if n == 0 {
        Seq::empty()
    } else if width_of(joined(hints.take(n as int), "  "@)) < budget {
        joined(hints.take(n as int), "  "@)
    } else {
        fitting(hints, (n - 1) as nat, budget)
    }
}

/// As many of the first `n` keys as fit: with the names of the actions, or else with arrows.
pub open spec fn fitting_keys(
    words: Seq<(Seq<char>, Seq<char>)>,
    arrows: Seq<(Seq<char>, Seq<char>)>,
    n: nat,
    budget: nat,
) -> Seq<char>
    decreases n,
{
    if n == 0 {
        Seq::empty()
    } else if width_of(key_line(words.take(n as int))) <= budget {
        key_line(words.take(n as int))
    } else if width_of(key_line(arrows.take(n as int))) <= budget {
        key_line(arrows.take(n as int))
    } else {
        fitting_keys(words, arrows, (n - 1) as nat, budget)
    }
}

/// The first `n` of the settings that could not be read, and how many more there are.
pub open spec fn bad_values(keys: Seq<Seq<char>>, n: nat) -> Seq<char> {
    (if keys.len() == 1 {
        "!bad value: "@
    } else {
        "!bad values: "@
    }) + joined(keys.take(n as int), " "@) + if n < keys.len() {
        " +"@ + digits((keys.len() - n) as nat)
    } else {
        Seq::empty()
    }
}

/// As many of the first `n` of them as fit.
pub open spec fn fitting_warning(keys: Seq<Seq<char>>, n: nat, budget: nat) -> Seq<char>
    decreases n,
{
    if n == 0 {
        "!bad config"@
    } else if width_of(bad_values(keys, n)) <= budget {
        bad_values(keys, n)
    } else {
        fitting_warning(keys, (n - 1) as nat, budget)
    }
}

/// How many panes would end, where more than the selected one is meant.
pub open spec fn ending_count(marked: nat) -> Seq<char> {
    if marked == 0 {
        Seq::empty()
    } else if marked == 1 {
        "1 pane  "@
    } else {
        digits(marked) + " panes  "@
    }
}

/// The prompt before panes end. Without room for the actions only the keys are left.
pub open spec fn ending_prompt(marked: nat, budget: nat) -> Seq<char> {
    if width_of("c:close k:kill x:kill+close"@) <= less(budget, width_of(ending_count(marked))) {
        ending_count(marked) + "c:close k:kill x:kill+close"@
    } else {
        ending_count(marked) + "c k x"@
    }
}

fn join_first(parts: &Vec<&'static str>, count: usize, sep: &str) -> (r: String)
    requires
        count <= parts.len(),
    ensures
        r@ == joined(str_views(parts@).take(count as int), sep@),
{
    let ghost v = str_views(parts@);
    let mut out = String::new();
    let mut i: usize = 0;
    assert(v.take(0) =~= seq![]);
    while i < count
        invariant
            i <= count <= parts.len(),
            v == str_views(parts@),
            out@ == joined(v.take(i as int), sep@),
        decreases count - i,
    {
        assert(v.take(i + 1).drop_last() =~= v.take(i as int));
        assert(v.take(i + 1).last() == parts@[i as int]@);
        if i > 0 {
            out.push_str(sep);
        }
        out.push_str(parts[i]);
        assert(out@ =~= joined(v.take(i + 1), sep@));
        i += 1;
    }
    out
}

/// As many of the hints as fit.
pub fn fit_hint(hints: &Vec<&'static str>, budget: usize) -> (r: String)
    ensures
        r@ == fitting(str_views(hints@), hints.len() as nat, budget as nat),
{
    let mut count = hints.len();
    while count > 0
        invariant
            count <= hints.len(),
            fitting(str_views(hints@), hints.len() as nat, budget as nat) == fitting(
                str_views(hints@),
                count as nat,
                budget as nat,
            ),
        decreases count,
    {
        let line = join_first(hints, count, "  ");
        if display_width(line.as_str()) < budget {
            return line;
        }
        count -= 1;
    }
    String::new()
}

/// The prompt before panes end.
pub fn termination_prompt(marked: usize, budget: usize) -> (r: String)
    ensures
        r@ == ending_prompt(marked as nat, budget as nat),
{
    let count = if marked == 0 {
        String::new()
    } else if marked == 1 {
        "1 pane  ".to_owned()
    } else {
        concat(decimal(marked as u128).as_str(), " panes  ")
    };
    let rest = budget.saturating_sub(display_width(count.as_str()));
    let full = "c:close k:kill x:kill+close";
    if display_width(full) <= rest {
        concat(count.as_str(), full)
    } else {
        concat(count.as_str(), "c k x")
    }
}

// --- the inputs ---

/// The ink of the input of a search: one that cannot be edited is muted.
pub open spec fn search_ink(phase: SearchPhase) -> Ink {
    match phase {
        SearchPhase::Editing => Ink::Plain,
        SearchPhase::Navigating => Ink::Muted,
    }
}

/// The hints beside the input of a search.
pub open spec fn search_hints(phase: SearchPhase) -> Seq<Seq<char>> {
    match phase {
        SearchPhase::Editing => seq!["esc:browse"@, "enter:jump"@],
        SearchPhase::Navigating => seq![
            "j/k:move"@,
            "?:help"@,
            "i:edit"@,
            "esc:cancel"@,
            "enter:jump"@,
        ],
    }
}

/// The columns beside an input.
pub open spec fn input_room(tag: Seq<char>, input: Seq<char>, cols: nat) -> nat {
    less(less(less(cols, width_of(spaces(HEADER_INDENT as nat))), width_of(tag)), width_of(input))
}

/// An input at the left, and as many hints as fit at the right.
pub open spec fn input_pieces(
    tag: Seq<char>,
    input: Seq<char>,
    input_ink: Ink,
    hints: Seq<Seq<char>>,
    ink: Ink,
    cols: nat,
) -> Seq<(Seq<char>, Ink)> {
    let budget = input_room(tag, input, cols);
    let hint = fitting(hints, hints.len(), budget);
    seq![(spaces(HEADER_INDENT as nat), Ink::Plain), (tag, Ink::Tag), (input, input_ink)] + (
    if hint.len() > 0 {
        seq![(spaces(less(budget, width_of(hint))), Ink::Plain), (hint, ink)]
    } else {
        Seq::empty()
    })
}

fn search_input_style(phase: SearchPhase) -> (r: (Ink, Vec<&'static str>))
    ensures
        r.0 == search_ink(phase),
        str_views(r.1@) == search_hints(phase),
{
    let mut hints: Vec<&'static str> = Vec::new();
    match phase {
        SearchPhase::Editing => {
            hints.push("esc:browse");
            hints.push("enter:jump");
            assert(str_views(hints@) =~= search_hints(phase));
            (Ink::Plain, hints)
        },
        SearchPhase::Navigating => {
            hints.push("j/k:move");
            hints.push("?:help");
            hints.push("i:edit");
            hints.push("esc:cancel");
            hints.push("enter:jump");
            assert(str_views(hints@) =~= search_hints(phase));
            (Ink::Muted, hints)
        },
    }
}

fn input_footer(
    tag: &str,
    input: &str,
    input_ink: Ink,
    hints: &Vec<&'static str>,
    ink: Ink,
    cols: usize,
) -> (r: Line)
    ensures
        r@ == composed(
            input_pieces(tag@, input@, input_ink, str_views(hints@), ink, cols as nat),
            cols as nat,
        ),
        width_of(r@.text) <= cols,
{
    let indent = repeat(' ', HEADER_INDENT);
    let budget = cols.saturating_sub(display_width(indent.as_str())).saturating_sub(
        display_width(tag),
    ).saturating_sub(display_width(input));
    let hint = fit_hint(hints, budget);
    let spacer = repeat(' ', budget.saturating_sub(display_width(hint.as_str())));
    let mut segments: Vec<(&str, Ink)> = Vec::new();
    segments.push((indent.as_str(), Ink::Plain));
    segments.push((tag, Ink::Tag));
    segments.push((input, input_ink));
    if !hint.as_str().is_empty() {
        segments.push((spacer.as_str(), Ink::Plain));
        segments.push((hint.as_str(), ink));
    }
    assert(inked(segments@) =~= input_pieces(
        tag@,
        input@,
        input_ink,
        str_views(hints@),
        ink,
        cols as nat,
    ));
    compose(&segments, cols)
}

/// A text behind the indent.
pub open spec fn note(text: Seq<char>, ink: Ink, cols: nat) -> LineV {
    composed(seq![(spaces(HEADER_INDENT as nat), Ink::Plain), (text, ink)], cols)
}

fn note_line(text: &str, ink: Ink, cols: usize) -> (r: Line)
    ensures
        r@ == note(text@, ink, cols as nat),
        width_of(r@.text) <= cols,
{
    let indent = repeat(' ', HEADER_INDENT);
    let mut segments: Vec<(&str, Ink)> = Vec::new();
    segments.push((indent.as_str(), Ink::Plain));
    segments.push((text, ink));
    assert(inked(segments@) =~= seq![(indent@, Ink::Plain), (text@, ink)]);
    compose(&segments, cols)
}

// --- the footer ---

impl StateV {
    /// The bound keys among the settings, with the names of their actions or with arrows.
    pub open spec fn key_parts(self, table: Seq<SettingV>, arrows: bool) -> Seq<
        (Seq<char>, Seq<char>),
    >
        decreases table.len(),
    {
        if table.len() == 0 {
            Seq::empty()
        } else {
            let front = self.key_parts(table.drop_last(), arrows);
            match (table.last().kind, lookup(self.config.direct_keys, table.last().key)) {
                (KindV::DirectKey(label, arrow), Some(key)) => front.push(
                    (
                        key,
                        if arrows && arrow is Some {
                            arrow->0
                        } else {
                            label
                        },
                    ),
                ),
                _ => front,
            }
        }
    }

    pub open spec fn direct_keys_hint(self, budget: nat) -> Seq<char> {
        let words = self.key_parts(setting_table(), false);
        fitting_keys(words, self.key_parts(setting_table(), true), words.len(), budget)
    }

    pub open spec fn footer(self, cols: nat) -> LineV {
        let inner = content_width(cols);
        let ink = self.state_ink();
        let budget = less(inner, HEADER_INDENT as nat);
        if self.nav.help_overlay {
            note("press any key to close"@, ink, inner)
        } else if self.nav.termination is Some {
            note(ending_prompt(self.termination_marked_count(), budget), ink, inner)
        } else if self.nav.search is Some {
            let search = self.nav.search->0;
            composed(
                input_pieces(
                    "/"@,
                    search.query,
                    search_ink(search.phase),
                    search_hints(search.phase),
                    ink,
                    inner,
                ),
                inner,
            )
        } else if self.nav.jump is Some {
            composed(
                input_pieces(
                    "n "@,
                    self.nav.jump->0.buffer,
                    Ink::Plain,
                    seq!["?:help"@],
                    ink,
                    inner,
                ),
                inner,
            )
        } else if self.showing_config_warning() {
            let keys = self.config.config_warnings;
            note(fitting_warning(keys, keys.len(), budget), ink, inner)
        } else if self.nav.triage is Some {
            note("?:help  esc:back"@, ink, inner)
        } else if self.nav.nav_mode {
            note("?:help  esc:exit"@, ink, inner)
        } else {
            note(self.direct_keys_hint(budget), ink, inner)
        }
    }
}

fn find_key<'a>(keys: &'a Vec<(&'static str, String)>, key: &str) -> (r: Option<&'a String>)
    ensures
        r is Some == lookup(key_views(keys@), key@) is Some,
        r is Some ==> r->0@ == lookup(key_views(keys@), key@)->0,
{
    let ghost v = key_views(keys@);
    let mut i: usize = 0;
    assert(v.skip(0) =~= v);
    while i < keys.len()
        invariant
            i <= keys.len(),
            v == key_views(keys@),
            lookup(v, key@) == lookup(v.skip(i as int), key@),
        decreases keys.len() - i,
    {
        assert(v.skip(i as int)[0] == (keys@[i as int].0@, keys@[i as int].1@));
        assert(v.skip(i as int).drop_first() =~= v.skip(i + 1));
        if same(keys[i].0, key) {
            return Some(&keys[i].1);
        }
        i += 1;
    }
    None
}

fn take_parts<'a>(parts: &Vec<(&'a str, &'static str)>, count: usize) -> (r: Vec<
    (&'a str, &'static str),
>)
    requires
        count <= parts.len(),
    ensures
        part_views(r@) == part_views(parts@).take(count as int),
{
    let mut out: Vec<(&'a str, &'static str)> = Vec::new();
    let mut i: usize = 0;
    while i < count
        invariant
            i <= count <= parts.len(),
            out@ == parts@.take(i as int),
        decreases count - i,
    {
        out.push(parts[i]);
        i += 1;
    }
    assert(part_views(out@) =~= part_views(parts@).take(count as int));
    out
}

impl State {
    fn direct_key_parts(&self, arrows: bool) -> (r: Vec<(&str, &'static str)>)
        ensures
            part_views(r@) == self@.key_parts(setting_table(), arrows),
    {
        let table = settings();
        let ghost v = views(table@);
        let mut parts: Vec<(&str, &'static str)> = Vec::new();
        let mut i: usize = 0;
        assert(v.take(0) =~= Seq::empty());
        assert(part_views(parts@) =~= Seq::empty());
        while i < table.len()
            invariant
                i <= table.len(),
                v == views(table@),
                part_views(parts@) == self@.key_parts(v.take(i as int), arrows),
            decreases table.len() - i,
        {
            assert(v.take(i + 1).drop_last() =~= v.take(i as int));
            assert(v.take(i + 1).last() == table[i as int]@);
            let ghost before = part_views(parts@);
            if let Kind::DirectKey(label, arrow) = table[i].kind {
                if let Some(key) = find_key(&self.config.direct_keys, table[i].key) {
                    let shown = match arrow {
                        Some(arrow) => if arrows {
                            arrow
                        } else {
                            label
                        },
                        None => label,
                    };
                    parts.push((key.as_str(), shown));
                    assert(part_views(parts@) =~= before.push((key@, shown@)));
                }
            }
            i += 1;
        }
        assert(v.take(i as int) =~= v);
        parts
    }

    fn direct_keys_hint(&self, budget: usize) -> (r: String)
        ensures
            r@ == self@.direct_keys_hint(budget as nat),
    {
        let words = self.direct_key_parts(false);
        let arrows = self.direct_key_parts(true);
        let ghost w = part_views(words@);
        let ghost a = part_views(arrows@);
        proof {
            lemma_same_keys(self@, setting_table());
            assert(a.len() == arrows@.len());
        }
        let mut count = words.len();
        while count > 0
            invariant
                count <= words.len() == arrows.len(),
                w == part_views(words@),
                a == part_views(arrows@),
                w == self@.key_parts(setting_table(), false),
                a == self@.key_parts(setting_table(), true),
                fitting_keys(w, a, w.len(), budget as nat) == fitting_keys(
                    w,
                    a,
                    count as nat,
                    budget as nat,
                ),
            decreases count,
        {
            let line = join_direct_keys(&take_parts(&words, count));
            if display_width(line.as_str()) <= budget {
                return line;
            }
            let line = join_direct_keys(&take_parts(&arrows, count));
            if display_width(line.as_str()) <= budget {
                return line;
            }
            count -= 1;
        }
        String::new()
    }

    fn config_warning_line(&self, budget: usize) -> (r: String)
        ensures
            r@ == fitting_warning(
                self@.config.config_warnings,
                self@.config.config_warnings.len(),
                budget as nat,
            ),
    {
        let keys = &self.config.config_warnings;
        let ghost v = str_views(keys@);
        let head = if keys.len() == 1 {
            "!bad value: "
        } else {
            "!bad values: "
        };
        let mut shown = keys.len();
        while shown > 0
            invariant
                shown <= keys.len(),
                v == str_views(keys@),
                v == self@.config.config_warnings,
                head@ == (if keys.len() == 1 {
                    "!bad value: "@
                } else {
                    "!bad values: "@
                }),
                fitting_warning(v, v.len(), budget as nat) == fitting_warning(
                    v,
                    shown as nat,
                    budget as nat,
                ),
            decreases shown,
        {
            let names = join_first(keys, shown, " ");
            let mut line = concat(head, names.as_str());
            if shown < keys.len() {
                let more = decimal((keys.len() - shown) as u128);
                line.push_str(" +");
                line.push_str(more.as_str());
            }
            assert(line@ =~= bad_values(v, shown as nat));
            if display_width(line.as_str()) <= budget {
                return line;
            }
            shown -= 1;
        }
        "!bad config".to_owned()
    }

    /// The footer.
    pub fn footer_line(&self, cols: usize) -> (r: Line)
        ensures
            r@ == self@.footer(cols as nat),
            width_of(r@.text) <= content_width(cols as nat),
    {
        let inner = content_cols(cols);
        let ink = self.state_ink();
        let budget = inner.saturating_sub(HEADER_INDENT);
        if self.nav.help_overlay {
            return note_line("press any key to close", ink, inner);
        }
        if self.nav.termination.is_some() {
            let prompt = termination_prompt(self.termination_marked_count(), budget);
            return note_line(prompt.as_str(), ink, inner);
        }
        if let Some(search) = &self.nav.search {
            let (input_ink, hints) = search_input_style(search.phase);
            return input_footer("/", search.query.as_str(), input_ink, &hints, ink, inner);
        }
        if let Some(jump) = &self.nav.jump {
            let mut hints: Vec<&'static str> = Vec::new();
            hints.push("?:help");
            assert(str_views(hints@) =~= seq!["?:help"@]);
            return input_footer("n ", jump.buffer.as_str(), Ink::Plain, &hints, ink, inner);
        }
        if self.showing_config_warning() {
            let warning = self.config_warning_line(budget);
            return note_line(warning.as_str(), ink, inner);
        }
        if self.nav.triage.is_some() {
            return note_line("?:help  esc:back", ink, inner);
        }
        if self.nav.nav_mode {
            return note_line("?:help  esc:exit", ink, inner);
        }
        let hint = self.direct_keys_hint(budget);
        note_line(hint.as_str(), ink, inner)
    }
}

proof fn lemma_same_keys(s: StateV, table: Seq<SettingV>)
    ensures
        s.key_parts(table, true).len() == s.key_parts(table, false).len(),
    decreases table.len(),
{
    if table.len() > 0 {
        lemma_same_keys(s, table.drop_last());
    }
}

// --- laws ---

proof fn lemma_last_plus(s: Seq<char>)
    ensures
        last_plus(s) is Some ==> last_plus(s)->0 < s.len() && s[last_plus(s)->0 as int] == '+',
    decreases s.len(),
{
    if s.len() > 0 {
        lemma_last_plus(s.drop_last());
    }
}

/// Parting a key loses nothing: its modifiers, a `+` and the bare key are the spelling again,
/// and the bare key is never empty.
pub proof fn law_parted_key(key: Seq<char>)
    requires
        parted(key) is Some,
    ensures
        (parted(key)->0).0 + seq!['+'] + (parted(key)->0).1 == key,
        (parted(key)->0).1.len() > 0,
{
    lemma_last_plus(key.drop_last());
    let at = last_plus(key.drop_last())->0;
    assert((parted(key)->0).0 + seq!['+'] + (parted(key)->0).1 =~= key);
}

/// The hints of the keys are never cut inside an item: what is shown are the first of them,
/// whole, or nothing.
pub proof fn law_key_hints_stay_whole(
    words: Seq<(Seq<char>, Seq<char>)>,
    arrows: Seq<(Seq<char>, Seq<char>)>,
    n: nat,
    budget: nat,
)
    ensures
        exists|k: nat| k <= n && (fitting_keys(words, arrows, n, budget) == #[trigger] key_line(
            words.take(k as int),
        ) || fitting_keys(words, arrows, n, budget) == key_line(arrows.take(k as int))),
    decreases n,
{
    if n == 0 {
        let none = words.take(0);
        assert(none.map_values(|p: (Seq<char>, Seq<char>)| item(p.0, p.1)) =~= Seq::empty());
        assert(key_line(words.take(0 as int)) == fitting_keys(words, arrows, n, budget));
    } else if width_of(key_line(words.take(n as int))) <= budget || width_of(
        key_line(arrows.take(n as int)),
    ) <= budget {
        assert(key_line(words.take(n as int)) == key_line(words.take(n as int)));
    } else {
        law_key_hints_stay_whole(words, arrows, (n - 1) as nat, budget);
        let k = choose|k: nat|
            k <= n - 1 && (fitting_keys(words, arrows, (n - 1) as nat, budget)
                == #[trigger] key_line(words.take(k as int)) || fitting_keys(
                words,
                arrows,
                (n - 1) as nat,
                budget,
            ) == key_line(arrows.take(k as int)));
        assert(key_line(words.take(k as int)) == key_line(words.take(k as int)));
    }
}

/// The prompt before panes end always says how many would.
pub proof fn law_prompt_counts(marked: nat, budget: nat)
    ensures
        begins_with(ending_prompt(marked, budget), ending_count(marked)),
{
    let prompt = ending_prompt(marked, budget);
    assert(prompt.take(ending_count(marked).len() as int) =~= ending_count(marked));
}

} // verus!
