//! What the screen says: how texts are cut, what the header and the footer read, and what a row
//! shows of its pane.

use vstd::prelude::*;

use crate::agent::AgentState;
use crate::attention::{needs_triage, shows};
use crate::draw::overflow_text;
use crate::footer::{
    bad_values, bare, ending_count, ending_prompt, fitting, fitting_keys, fitting_warning,
    has_modifiers, input_pieces, input_room, item, key_line, last_plus, note, parted, search_hints,
    search_ink, shared,
};
use crate::header::{troop_gaps, troop_pieces, width_sum};
use crate::help::{widest_keys, HelpRowV};
use crate::host::{HostCallV, TabInfoV};
use crate::ids::group_views;
use crate::jump::row_number;
use crate::line::{
    composed, content_width, inks, less, whole, with_column, CounterColumn, DecorationV, Ink, LineV,
    NO_AGENT_ICON,
};
use crate::matcher::HitV;
use crate::pane_row::{cwd_indent, cwd_line, named, tab_prefix};
use crate::preview::{body_lines, used_lines};
use crate::rows::{with_tilde, RowV};
use crate::screen::window;
use crate::scroll::{scrolled, shown_rows};
use crate::search::SearchPhase;
use crate::state::{SelectableV, StateV};
use crate::text::{
    all_digits, begins_with, digits, is_digit, joined, lemma_digits_len, lemma_leading_zeros,
    lemma_number_of_digits, number, repeated, spaces, trimmed,
};
use crate::width::{
    cut, folded, law_plain_width, one_column, prefix_fit, room, shifted, suffix_fit, width_of,
    ELLIPSIS,
};

verus! {

broadcast use group_views;

// --- cutting ---

/// Every character takes one column.
pub open spec fn plain_text(s: Seq<char>) -> bool {
    forall|i: int| 0 <= i < s.len() ==> one_column(#[trigger] s[i])
}

proof fn lemma_prefix_is(s: Seq<char>, n: nat, cols: nat)
    requires
        plain_text(s),
        cols >= 1,
        s.len() > cols,
        n + 1 <= cols,
    ensures
        prefix_fit(s, n, cols) == cols - 1,
    decreases cols - n,
{
    let t = s.take(n as int + 1).push(ELLIPSIS);
    assert forall|i: int| 0 <= i < t.len() implies one_column(#[trigger] t[i]) by {
        if i <= n {
            assert(t[i] == s[i]);
        }
    }
    law_plain_width(t);
    if n + 1 < cols {
        lemma_prefix_is(s, n + 1, cols);
    }
}

proof fn lemma_suffix_is(s: Seq<char>, n: nat, cols: nat)
    requires
        plain_text(s),
        cols >= 1,
        s.len() > cols,
        n + 1 <= cols,
    ensures
        suffix_fit(s, n, cols) == cols - 1,
    decreases cols - n,
{
    let t = seq![ELLIPSIS] + s.skip(s.len() - n as int - 1);
    assert forall|i: int| 0 <= i < t.len() implies one_column(#[trigger] t[i]) by {
        if i > 0 {
            assert(t[i] == s[s.len() - n - 1 + i - 1]);
        }
    }
    law_plain_width(t);
    if n + 1 < cols {
        lemma_suffix_is(s, n + 1, cols);
    }
}

/// A text that is too wide keeps as much as fits: all columns but one for its own characters, and
/// the last one for the mark. A text that fits is not touched.
pub proof fn law_cut_keeps_what_fits(s: Seq<char>, cols: nat)
    requires
        plain_text(s),
    ensures
        s.len() <= cols ==> cut(s, cols) == s,
        s.len() > cols && cols > 0 ==> cut(s, cols) == s.take(cols - 1).push('…'),
        s.len() > 0 && cols == 0 ==> cut(s, cols).len() == 0,
{
    law_plain_width(s);
    law_plain_width(seq![ELLIPSIS]);
    if s.len() > cols && cols > 0 {
        lemma_prefix_is(s, 0, cols);
    }
}

/// A path that is too wide keeps as much of its end as fits, with the mark in front, and says how
/// many characters are gone. Any other text keeps its start.
pub proof fn law_folding_keeps_the_telling_end(s: Seq<char>, cols: nat)
    requires
        plain_text(s),
        s.len() > cols,
        cols > 0,
    ensures
        s[0] == '/' || s[0] == '~' ==> folded(s, cols) == (
            seq!['…'] + s.skip(s.len() - (cols - 1)),
            (s.len() - (cols - 1)) as nat,
        ),
        s[0] != '/' && s[0] != '~' ==> folded(s, cols) == (s.take(cols - 1).push('…'), 0nat),
{
    law_plain_width(s);
    law_plain_width(seq![ELLIPSIS]);
    lemma_prefix_is(s, 0, cols);
    lemma_suffix_is(s, 0, cols);
}

proof fn lemma_add_plain(a: Seq<char>, b: Seq<char>)
    requires
        plain_text(a),
        plain_text(b),
    ensures
        plain_text(a + b),
{
    let t = a + b;
    assert forall|i: int| 0 <= i < t.len() implies one_column(#[trigger] t[i]) by {
        if i < a.len() {
            assert(t[i] == a[i]);
        } else {
            assert(t[i] == b[i - a.len()]);
        }
    }
}

proof fn lemma_whole_one(a: Seq<char>, x: Ink)
    ensures
        whole(seq![(a, x)]) == a,
{
    reveal_with_fuel(whole, 2);
    let one = seq![(a, x)];
    assert(one.drop_last() =~= Seq::empty());
    assert(whole(one) =~= a);
}

proof fn lemma_whole_push(s: Seq<(Seq<char>, Ink)>, a: Seq<char>, x: Ink)
    ensures
        whole(s.push((a, x))) == whole(s) + a,
{
    assert(s.push((a, x)).drop_last() =~= s);
}

proof fn lemma_composed_fits(s: Seq<(Seq<char>, Ink)>, cols: nat)
    requires
        plain_text(whole(s)),
        whole(s).len() <= cols,
    ensures
        composed(s, cols).text == whole(s),
{
    law_plain_width(whole(s));
}

// --- the header ---

/// The header reads the name of the plugin, and in nav mode and in triage the name of the mode.
/// Nothing else stands there while nobody marches.
pub proof fn law_header_reads(s: StateV, cols: nat)
    requires
        s.clock.deployment is None,
        cols >= 16,
    ensures
        s.nav.triage is Some ==> s.header(cols).text == "▲ fujin  [tri]"@,
        s.nav.triage is None && (s.nav.nav_mode || s.nav.search is Some) ==> s.header(cols).text
            == "▲ fujin  [nav]"@,
        s.nav.triage is None && !s.nav.nav_mode && s.nav.search is None ==> s.header(cols).text
            == "▲ fujin"@,
{
    reveal_strlit("▲ fujin  [tri]");
    reveal_strlit("▲ fujin  [nav]");
    reveal_strlit("▲ fujin");
    reveal_strlit("▲");
    reveal_strlit(" fujin");
    reveal_strlit("  ");
    reveal_strlit("[tri]");
    reveal_strlit("[nav]");
    let pieces = s.header_pieces();
    let none = troop_pieces(troop_gaps(s.troop_columns(cols), s.header_width()));
    assert(none =~= Seq::empty());
    assert(pieces + none =~= pieces);
    let ink = s.state_ink();
    let a = seq![("▲"@, ink)];
    lemma_whole_one("▲"@, ink);
    let b = a.push((" fujin"@, Ink::Muted));
    lemma_whole_push(a, " fujin"@, Ink::Muted);
    assert(whole(b) =~= "▲ fujin"@);
    if s.nav.triage is Some || s.nav.nav_mode || s.nav.search is Some {
        let label = s.mode_label()->0;
        let c = b.push(("  "@, Ink::Plain));
        lemma_whole_push(b, "  "@, Ink::Plain);
        let d = c.push((label, ink));
        lemma_whole_push(c, label, ink);
        assert(pieces =~= d);
        if s.nav.triage is Some {
            assert(whole(d) =~= "▲ fujin  [tri]"@);
        } else {
            assert(whole(d) =~= "▲ fujin  [nav]"@);
        }
        lemma_composed_fits(d, content_width(cols));
    } else {
        assert(pieces =~= b);
        lemma_composed_fits(b, content_width(cols));
    }
}

/// The sign of the header tells the mode by its colour: that of errors while something is about
/// to end or a warning is up, then that of triage, then that of nav mode; else it is dimmed.
pub proof fn law_header_colour(s: StateV)
    ensures
        s.nav.termination is Some ==> s.state_ink() == Ink::Accent(6),
        s.showing_config_warning() ==> s.state_ink() == Ink::Accent(6),
        s.nav.termination is None && !s.showing_config_warning() && s.nav.triage is Some
            ==> s.state_ink() == Ink::Accent(0),
        s.nav.termination is None && !s.showing_config_warning() && s.nav.triage is None && (
        s.nav.nav_mode || s.nav.search is Some) ==> s.state_ink() == Ink::Accent(2),
        s.nav.termination is None && !s.showing_config_warning() && s.nav.triage is None
            && !s.nav.nav_mode && s.nav.search is None ==> s.state_ink() == Ink::Muted,
{
}

// --- the footer ---

/// Nothing is open that has the footer before the plain hints do.
pub open spec fn footer_free(s: StateV) -> bool {
    !s.nav.help_overlay && s.nav.termination is None && s.nav.search is None && s.nav.jump is None
        && !s.showing_config_warning()
}

proof fn lemma_note(text: Seq<char>, ink: Ink, cols: nat)
    requires
        plain_text(text),
        text.len() + 2 <= cols,
    ensures
        note(text, ink, cols).text == seq![' ', ' '] + text,
{
    let a = seq![(spaces(2), Ink::Plain)];
    let b = a.push((text, ink));
    assert(spaces(2) =~= seq![' ', ' ']);
    lemma_whole_one(spaces(2), Ink::Plain);
    lemma_whole_push(a, text, ink);
    assert(b =~= seq![(spaces(2), Ink::Plain), (text, ink)]);
    lemma_add_plain(spaces(2), text);
    lemma_composed_fits(b, cols);
}

/// The footer's hints: how to close the help, and in nav mode and in triage where the help is and
/// where Esc leads.
pub proof fn law_footer_hints(s: StateV, cols: nat)
    requires
        cols >= 26,
    ensures
        s.nav.help_overlay ==> s.footer(cols).text == "  press any key to close"@,
        footer_free(s) && s.nav.triage is Some ==> s.footer(cols).text == "  ?:help  esc:back"@,
        footer_free(s) && s.nav.triage is None && s.nav.nav_mode ==> s.footer(cols).text
            == "  ?:help  esc:exit"@,
{
    reveal_strlit("  press any key to close");
    reveal_strlit("  ?:help  esc:back");
    reveal_strlit("  ?:help  esc:exit");
    reveal_strlit("press any key to close");
    reveal_strlit("?:help  esc:back");
    reveal_strlit("?:help  esc:exit");
    lemma_note("press any key to close"@, s.state_ink(), content_width(cols));
    lemma_note("?:help  esc:back"@, s.state_ink(), content_width(cols));
    lemma_note("?:help  esc:exit"@, s.state_ink(), content_width(cols));
    assert(seq![' ', ' '] + "press any key to close"@ =~= "  press any key to close"@);
    assert(seq![' ', ' '] + "?:help  esc:back"@ =~= "  ?:help  esc:back"@);
    assert(seq![' ', ' '] + "?:help  esc:exit"@ =~= "  ?:help  esc:exit"@);
}

proof fn lemma_digits_plain(n: nat)
    ensures
        plain_text(digits(n)),
{
    lemma_number_of_digits(n);
    let d = digits(n);
    assert forall|i: int| 0 <= i < d.len() implies one_column(#[trigger] d[i]) by {}
}

/// The prompt before panes end: the three keys with what they do, and in front of them how many
/// panes are meant where they were marked.
pub proof fn law_footer_prompt(s: StateV, cols: nat, marked: nat)
    requires
        !s.nav.help_overlay,
        s.nav.termination is Some,
        marked == (if s.nav.termination->0.from_marks {
            s.nav.termination->0.targets.len()
        } else {
            0
        }),
        cols >= 39 + digits(marked).len(),
    ensures
        marked == 0 ==> s.footer(cols).text == "  c:close k:kill x:kill+close"@,
        marked == 1 ==> s.footer(cols).text == "  1 pane  c:close k:kill x:kill+close"@,
        marked > 1 ==> s.footer(cols).text == seq![' ', ' '] + digits(marked)
            + " panes  c:close k:kill x:kill+close"@,
{
    reveal_strlit("  c:close k:kill x:kill+close");
    reveal_strlit("  1 pane  c:close k:kill x:kill+close");
    reveal_strlit(" panes  c:close k:kill x:kill+close");
    reveal_strlit("c:close k:kill x:kill+close");
    reveal_strlit("1 pane  ");
    reveal_strlit(" panes  ");
    let keys = "c:close k:kill x:kill+close"@;
    let inner = content_width(cols);
    law_plain_width(keys);
    lemma_digits_plain(marked);
    lemma_digits_len(marked, marked);
    let count = ending_count(marked);
    if marked > 1 {
        lemma_add_plain(digits(marked), " panes  "@);
    }
    assert(plain_text(count));
    law_plain_width(count);
    let text = ending_prompt(marked, less(inner, 2));
    assert(text =~= count + keys);
    lemma_add_plain(count, keys);
    lemma_note(text, s.state_ink(), inner);
    if marked == 0 {
        assert(seq![' ', ' '] + text =~= "  c:close k:kill x:kill+close"@);
    } else if marked == 1 {
        assert(seq![' ', ' '] + text =~= "  1 pane  c:close k:kill x:kill+close"@);
    } else {
        assert(seq![' ', ' '] + text =~= seq![' ', ' '] + digits(marked)
            + " panes  c:close k:kill x:kill+close"@);
    }
}

proof fn lemma_inputs(
    tag: Seq<char>,
    input: Seq<char>,
    ink: Ink,
    hints: Seq<Seq<char>>,
    hint_ink: Ink,
    cols: nat,
)
    ensures
        begins_with(
            whole(input_pieces(tag, input, ink, hints, hint_ink, cols)),
            spaces(2) + tag + input,
        ),
{
    let budget = input_room(tag, input, cols);
    let hint = fitting(hints, hints.len(), budget);
    let a = seq![(spaces(2), Ink::Plain)];
    lemma_whole_one(spaces(2), Ink::Plain);
    let b = a.push((tag, Ink::Tag));
    lemma_whole_push(a, tag, Ink::Tag);
    let c = b.push((input, ink));
    lemma_whole_push(b, input, ink);
    assert(whole(c) =~= spaces(2) + tag + input);
    let all = input_pieces(tag, input, ink, hints, hint_ink, cols);
    if hint.len() > 0 {
        let gap = spaces(less(budget, width_of(hint)));
        let d = c.push((gap, Ink::Plain));
        lemma_whole_push(c, gap, Ink::Plain);
        let e = d.push((hint, hint_ink));
        lemma_whole_push(d, hint, hint_ink);
        assert(all =~= e);
        assert(whole(e).take(whole(c).len() as int) =~= whole(c));
    } else {
        assert(all =~= c);
        assert(whole(c).take(whole(c).len() as int) =~= whole(c));
    }
}

/// While a query or a number is typed the footer holds it, behind its sign, as long as it fits.
pub proof fn law_footer_holds_the_input(s: StateV, cols: nat)
    requires
        !s.nav.help_overlay,
        s.nav.termination is None,
    ensures
        s.nav.search is Some && width_of(
            whole(
                input_pieces(
                    "/"@,
                    s.nav.search->0.query,
                    search_ink(s.nav.search->0.phase),
                    search_hints(s.nav.search->0.phase),
                    s.state_ink(),
                    content_width(cols),
                ),
            ),
        ) <= content_width(cols) ==> begins_with(
            s.footer(cols).text,
            seq![' ', ' ', '/'] + s.nav.search->0.query,
        ),
        s.nav.search is None && s.nav.jump is Some && width_of(
            whole(
                input_pieces(
                    "n "@,
                    s.nav.jump->0.buffer,
                    Ink::Plain,
                    seq!["?:help"@],
                    s.state_ink(),
                    content_width(cols),
                ),
            ),
        ) <= content_width(cols) ==> begins_with(
            s.footer(cols).text,
            seq![' ', ' ', 'n', ' '] + s.nav.jump->0.buffer,
        ),
{
    reveal_strlit("/");
    reveal_strlit("n ");
    assert(spaces(2) =~= seq![' ', ' ']);
    if s.nav.search is Some {
        let search = s.nav.search->0;
        lemma_inputs(
            "/"@,
            search.query,
            search_ink(search.phase),
            search_hints(search.phase),
            s.state_ink(),
            content_width(cols),
        );
        assert(spaces(2) + "/"@ + search.query =~= seq![' ', ' ', '/'] + search.query);
    } else if s.nav.jump is Some {
        let buffer = s.nav.jump->0.buffer;
        lemma_inputs(
            "n "@,
            buffer,
            Ink::Plain,
            seq!["?:help"@],
            s.state_ink(),
            content_width(cols),
        );
        assert(spaces(2) + "n "@ + buffer =~= seq![' ', ' ', 'n', ' '] + buffer);
    }
}

// --- the rows of panes ---

/// What stands for the state of a pane: its icon, or the sign of a pane that shows nothing.
pub open spec fn state_icon(s: StateV, pane_id: u32) -> Seq<char> {
    if shows(s.status, pane_id, AgentState::Idle) {
        seq!['○']
    } else if shows(s.status, pane_id, AgentState::Working) {
        seq!['»']
    } else if shows(s.status, pane_id, AgentState::Blocked) {
        seq!['◆']
    } else if shows(s.status, pane_id, AgentState::Done) {
        seq!['●']
    } else if shows(s.status, pane_id, AgentState::Error) {
        seq!['×']
    } else {
        seq!['›']
    }
}

/// The name of a pane: its title, or the directory that its agent reported where the title is
/// blank.
pub open spec fn shown_name(s: StateV, e: SelectableV) -> Seq<char> {
    if trimmed(e.title).len() == 0 && s.list.pane_cwds.contains_key(e.pane_id) {
        s.list.pane_cwds[e.pane_id]
    } else {
        e.title
    }
}

/// The row of a pane, from left to right: the bar of the selection or nothing, the number while
/// numbers are shown, the mark while marks are shown, the icon, and the name.
pub open spec fn pane_reads(
    s: StateV,
    e: SelectableV,
    lit: bool,
    number: Option<(Seq<char>, bool)>,
    mark: Option<bool>,
    name: Seq<char>,
) -> Seq<char> {
    (if lit {
        seq!['▌', ' ']
    } else {
        seq![' ', ' ']
    }) + (if number is Some {
        (number->0).0 + seq![' ']
    } else {
        seq![]
    }) + (if mark == Some(true) {
        seq!['✓', ' ']
    } else if mark == Some(false) {
        seq![' ', ' ']
    } else {
        seq![]
    }) + state_icon(s, e.pane_id) + seq![' '] + (if e.is_floating && name.len() > 0 {
        seq!['('] + name + seq![')']
    } else {
        name
    })
}

proof fn lemma_icons(s: StateV, e: SelectableV)
    ensures
        (match s.status(e.pane_id) {
            Some(status) => status.like_agent().icon_text(),
            None => NO_AGENT_ICON@,
        }) == state_icon(s, e.pane_id),
{
    reveal_strlit("○");
    reveal_strlit("»");
    reveal_strlit("◆");
    reveal_strlit("●");
    reveal_strlit("×");
    reveal_strlit("›");
    assert("○"@ =~= seq!['○']);
    assert("»"@ =~= seq!['»']);
    assert("◆"@ =~= seq!['◆']);
    assert("●"@ =~= seq!['●']);
    assert("×"@ =~= seq!['×']);
    assert("›"@ =~= seq!['›']);
}

proof fn lemma_pane_reads(
    s: StateV,
    e: SelectableV,
    lit: bool,
    number: Option<(Seq<char>, bool)>,
    mark: Option<bool>,
    name: Seq<char>,
)
    ensures
        named(e, s.pane_head(e, lit, number, mark), name) == pane_reads(
            s,
            e,
            lit,
            number,
            mark,
            name,
        ),
{
    reveal_strlit("▌ ");
    reveal_strlit("  ");
    reveal_strlit("✓");
    reveal_strlit("(");
    reveal_strlit(")");
    reveal_strlit("");
    lemma_icons(s, e);
    assert("▌ "@ =~= seq!['▌', ' ']);
    assert("  "@ =~= seq![' ', ' ']);
    assert("✓"@ + seq![' '] =~= seq!['✓', ' ']);
    assert(spaces(2) =~= seq![' ', ' ']);
    let head = s.pane_head(e, lit, number, mark);
    if e.is_floating && name.len() > 0 {
        assert(named(e, head, name) =~= head + (seq!['('] + name + seq![')']));
    } else {
        assert(named(e, head, name) =~= head + name);
    }
    assert(named(e, head, name) =~= pane_reads(s, e, lit, number, mark, name));
}

/// A pane without counters reads as its parts, one behind the other, as long as its name fits
/// beside them. Where its row is lit it is filled up to the full width.
pub proof fn law_pane_row_reads(
    s: StateV,
    e: SelectableV,
    lit: bool,
    hit: Option<HitV>,
    column: CounterColumn,
    number: Option<(Seq<char>, bool)>,
    mark: Option<bool>,
    cols: nat,
)
    requires
        !s.status.agents.contains_key(e.pane_id) || (s.status.agents[e.pane_id].subagents == 0
            && s.status.agents[e.pane_id].open_tasks == 0),
        cols <= usize::MAX,
        width_of(shown_name(s, e)) + width_of(s.pane_head(e, lit, number, mark)) + (
        if e.is_floating {
            2nat
        } else {
            0
        }) + 2 <= cols,
    ensures
        ({
            let text = s.pane_row(e, lit, hit, column, number, mark, cols).text;
            let reads = pane_reads(s, e, lit, number, mark, shown_name(s, e));
            &&& !lit ==> text == reads
            &&& lit ==> text == reads + spaces(room(reads, cols))
        }),
{
    let name = shown_name(s, e);
    let head = s.pane_head(e, lit, number, mark);
    assert(s.display_title(e) == name);
    let counters = s.pane_counters(e, column);
    assert(counters.len() == 0);
    assert(width_of(name) <= s.name_room(e, head, counters, cols));
    assert(folded(name, s.name_room(e, head, counters, cols)) == (name, 0nat));
    lemma_pane_reads(s, e, lit, number, mark, name);
}

/// The counters of an agent: its subagents behind a plus, its open tasks in brackets, and nothing
/// for a count of none.
pub proof fn law_counters_read(s: StateV, pane_id: u32)
    ensures
        ({
            let (subagents, tasks) = s.counters(pane_id);
            let known = s.status.agents.contains_key(pane_id);
            let a = s.status.agents[pane_id];
            &&& known && a.subagents > 0 ==> subagents == seq!['+'] + digits(a.subagents as nat)
            &&& !known || a.subagents == 0 ==> subagents.len() == 0
            &&& known && a.open_tasks > 0 ==> tasks == seq!['['] + digits(a.open_tasks as nat)
                + seq![']']
            &&& !known || a.open_tasks == 0 ==> tasks.len() == 0
        }),
{
}

/// What stands in the column at the right ends in the last column that takes text, with nothing
/// but spaces between it and the name.
pub proof fn law_column_is_flush_right(label: Seq<char>, column: Seq<char>, inner: nat)
    requires
        plain_text(label),
        plain_text(column),
        label.len() + column.len() <= inner,
        inner <= usize::MAX,
    ensures
        with_column(label, column, inner).len() == inner,
        begins_with(with_column(label, column, inner), label),
        with_column(label, column, inner).skip(inner - column.len()) == column,
        forall|i: int|
            label.len() <= i < inner - column.len() ==> (#[trigger] with_column(
                label,
                column,
                inner,
            )[i]) == ' ',
{
    law_plain_width(label);
    law_plain_width(column);
    let gap = spaces((inner - label.len() - column.len()) as nat);
    let all = label + gap + column;
    lemma_add_plain(label, gap);
    lemma_add_plain(label + gap, column);
    law_plain_width(all);
    assert(with_column(label, column, inner) =~= all);
    assert(all.take(label.len() as int) =~= label);
    assert(all.skip(inner - column.len()) =~= column);
}

/// Only the row that is lit has the background of the selection, and it always has it.
pub proof fn law_lit_rows_stand_out(
    s: StateV,
    e: SelectableV,
    lit: bool,
    hit: Option<HitV>,
    column: CounterColumn,
    number: Option<(Seq<char>, bool)>,
    mark: Option<bool>,
    cols: nat,
)
    ensures
        s.pane_row(e, lit, hit, column, number, mark, cols).decorations.contains(
            DecorationV::Opaque,
        ) <==> lit,
{
    let line = s.pane_row(e, lit, hit, column, number, mark, cols);
    if lit {
        let d = line.decorations;
        assert(d[d.len() - 2] == DecorationV::Opaque);
    } else {
        assert forall|i: int| 0 <= i < line.decorations.len() implies line.decorations[i]
            != DecorationV::Opaque by {}
    }
}

/// The icon is in the colour of the state: 0 for idle, 2 for working, 3 for blocked, 1 for done,
/// 6 for an error. A pane that shows nothing has no colour there.
pub proof fn law_icon_has_the_colour(s: StateV, line: LineV, pane_id: u32, head: nat)
    requires
        2 <= head < usize::MAX,
    ensures
        ({
            let d = line.with_status(s.status(pane_id), head).decorations;
            let at = (head - 2) as usize;
            let end = (head - 1) as usize;
            let n = line.decorations.len() as int;
            &&& shows(s.status, pane_id, AgentState::Idle) ==> d.len() == n + 1 && d[n]
                == DecorationV::Color(0, at, end)
            &&& shows(s.status, pane_id, AgentState::Working) ==> d.len() == n + 1 && d[n]
                == DecorationV::Color(2, at, end)
            &&& shows(s.status, pane_id, AgentState::Blocked) ==> d.len() == n + 1 && d[n]
                == DecorationV::Color(3, at, end)
            &&& shows(s.status, pane_id, AgentState::Done) ==> d.len() == n + 1 && d[n]
                == DecorationV::Color(1, at, end)
            &&& shows(s.status, pane_id, AgentState::Error) ==> d.len() == n + 1 && d[n]
                == DecorationV::Color(6, at, end)
            &&& !s.status.agents.contains_key(pane_id) && !(s.status.commands.contains_key(pane_id)
                && !s.status.commands[pane_id].read) ==> d == line.decorations
        }),
{
}

/// The heading of a tab: a sign that tells whether it is active, its number counted from one, and
/// its name.
pub proof fn law_tab_heading_reads(s: StateV, tab: TabInfoV, cols: nat)
    requires
        width_of(tab_prefix(tab) + tab.name) + 2 <= cols,
    ensures
        s.tab_heading(tab, cols).text == (if tab.active {
            seq!['▾']
        } else {
            seq!['▸']
        }) + seq![' '] + digits(tab.position as nat + 1) + seq![' '] + tab.name,
{
    reveal_strlit("▾");
    reveal_strlit("▸");
    assert("▾"@ =~= seq!['▾']);
    assert("▸"@ =~= seq!['▸']);
}

/// A pane has a row for its working directory where one is known and either directories are shown
/// and an agent is on the pane, or a search found it there; but not where the directory stands in
/// for the name.
pub proof fn law_cwd_rows(s: StateV, e: SelectableV)
    requires
        s.nav.search is None,
    ensures
        s.cwd_row_of(e) is Some <==> s.config.show_cwd && s.status.agents.contains_key(e.pane_id)
            && s.list.pane_cwds.contains_key(e.pane_id) && trimmed(e.title).len() > 0,
        s.cwd_row_of(e) is Some && !s.config.show_cwd_tilde ==> s.cwd_row_of(e)->0
            == s.list.pane_cwds[e.pane_id],
{
}

/// The home directory is shown as `~`, and a path below it behind `~/`; any other path, one that
/// only begins with the same letters among them, is shown as it is.
pub proof fn law_home_is_short(home: Seq<char>, rest: Seq<char>, path: Seq<char>)
    requires
        home.len() > 0,
    ensures
        with_tilde(home, Some(home)) == seq!['~'],
        with_tilde(home + seq!['/'] + rest, Some(home)) == seq!['~', '/'] + rest,
        path != home && !begins_with(path, home + seq!['/']) ==> with_tilde(path, Some(home))
            == path,
        with_tilde(path, None) == path,
{
    assert(home.skip(home.len() as int) =~= Seq::empty());
    assert(seq!['~'] + home.skip(home.len() as int) =~= seq!['~']);
    let below = home + seq!['/'] + rest;
    assert(home.push('/') =~= home + seq!['/']);
    assert(below.take(home.len() as int + 1) =~= home.push('/'));
    assert(begins_with(below, home.push('/')));
    assert(seq!['~'] + below.skip(home.len() as int) =~= seq!['~', '/'] + rest);
}

/// The number of a row, as it is shown and typed: one more than its place, with zeros in front up
/// to the length of the largest.
pub proof fn law_row_numbers_count_from_one(count: nat, i: nat)
    requires
        i < count,
    ensures
        all_digits(row_number(count, i)),
        number(row_number(count, i)) == i + 1,
        row_number(count, i).len() == digits(count).len(),
{
    let d = digits(i + 1);
    lemma_number_of_digits(i + 1);
    lemma_digits_len(i + 1, count);
    let zeros = (digits(count).len() - d.len()) as nat;
    lemma_leading_zeros(zeros, d);
    let r = row_number(count, i);
    assert(r =~= repeated('0', zeros) + d);
    assert forall|k: int| 0 <= k < r.len() implies is_digit(#[trigger] r[k]) by {
        if k >= zeros {
            assert(r[k] == d[k - zeros]);
        }
    }
}

/// The numbers are shown while they are typed and at no other time, and those that begin with
/// what was typed are in the running.
pub proof fn law_numbers_are_shown(s: StateV, i: nat)
    ensures
        s.nav.jump is None ==> s.jump_number(i) is None,
        s.nav.jump is Some ==> s.jump_number(i) is Some && (s.jump_number(i)->0).0 == row_number(
            s.list.selectable.len(),
            i,
        ) && ((s.jump_number(i)->0).1 <==> begins_with(
            row_number(s.list.selectable.len(), i),
            s.nav.jump->0.buffer,
        )),
{
}

// --- what does not fit the screen ---

/// What is hidden is counted: the rows above the screen, those on it and those below it are all
/// rows of the list, and the markers say how many are hidden.
pub proof fn law_markers_count(content: Seq<RowV>, area: nat, scroll: nat)
    requires
        content.len() <= usize::MAX,
        scrolled(content.len(), area, scroll, None) + shown_rows(
            content.len(),
            area,
            scrolled(content.len(), area, scroll, None),
        ) <= content.len(),
    ensures
        ({
            let w = window(content, area, scroll);
            let above = scrolled(content.len(), area, scroll, None) as int;
            let shown = shown_rows(content.len(), area, above as nat) as int;
            let below = content.len() - above - shown;
            let first = if above > 0 {
                1int
            } else {
                0
            };
            &&& above > 0 ==> w[0] == RowV::Overflow(above as usize, true)
            &&& below > 0 ==> w.last() == RowV::Overflow(below as usize, false)
            &&& w.len() == first + shown + (if below > 0 {
                1int
            } else {
                0
            })
            &&& forall|i: int| 0 <= i < shown ==> w[first + i] == #[trigger] content[above + i]
        }),
{
    let w = window(content, area, scroll);
    let above = scrolled(content.len(), area, scroll, None) as int;
    let shown = shown_rows(content.len(), area, above as nat) as int;
    let first = if above > 0 {
        1int
    } else {
        0
    };
    assert forall|i: int| 0 <= i < shown implies w[first + i] == #[trigger] content[above + i] by {}
}

/// A marker reads an arrow to where rows are hidden, and how many.
pub proof fn law_marker_reads(hidden: nat)
    ensures
        overflow_text(hidden, true) == seq!['▴', ' ', '…', ' '] + digits(hidden) + seq![
            ' ',
            'm',
            'o',
            'r',
            'e',
        ],
        overflow_text(hidden, false) == seq!['▾', ' ', '…', ' '] + digits(hidden) + seq![
            ' ',
            'm',
            'o',
            'r',
            'e',
        ],
{
    reveal_strlit("▴");
    reveal_strlit("▾");
    reveal_strlit(" … ");
    reveal_strlit(" more");
    let more = seq![' ', 'm', 'o', 'r', 'e'];
    assert(" more"@ =~= more);
    assert(overflow_text(hidden, true) =~= seq!['▴', ' ', '…', ' '] + digits(hidden) + more);
    assert(overflow_text(hidden, false) =~= seq!['▾', ' ', '…', ' '] + digits(hidden) + more);
}

// --- help ---

/// The help lists the keys of the mode that is open, and under them in every mode the same
/// legend.
pub proof fn law_help_shows(s: StateV)
    requires
        s.nav.help_overlay,
    ensures
        ({
            let rows = s.content_rows();
            let n = rows.len();
            let keys = s.help_rows();
            &&& n == keys.len() + 9
            &&& forall|i: int| 0 <= i < keys.len() ==> (#[trigger] rows[i]) == RowV::Help(keys[i])
            &&& rows[n - 6] == RowV::Help(HelpRowV::Legend(AgentState::Idle))
            &&& rows[n - 5] == RowV::Help(HelpRowV::Legend(AgentState::Working))
            &&& rows[n - 4] == RowV::Help(HelpRowV::Legend(AgentState::Blocked))
            &&& rows[n - 3] == RowV::Help(HelpRowV::Legend(AgentState::Done))
            &&& rows[n - 2] == RowV::Help(HelpRowV::Legend(AgentState::Error))
            &&& rows[n - 1] == RowV::Help(HelpRowV::NoAgent)
        }),
{
}

/// The keys that the help lists, mode by mode.
#[verifier::rlimit(40)]
pub proof fn law_help_lists_keys(s: StateV)
    ensures
        ({
            let rows = s.help_rows();
            let has = |keys: Seq<char>, text: Seq<char>|
                rows.contains(HelpRowV::Entry(keys, text));
            let tree = s.nav.triage is None && s.nav.termination is None && s.nav.jump is None
                && s.nav.search is None;
            &&& tree ==> has("j k"@, "move"@) && has("g G"@, "top / bottom"@) && has(
                "enter"@,
                "jump & exit"@,
            ) && has("/"@, "search"@) && has("t"@, "triage"@) && has("n"@, "number jump"@) && has(
                "m M"@,
                "mark / clear all"@,
            ) && has("d"@, "terminate pane"@) && has("?"@, "this help"@) && has("esc"@, "exit"@)
            &&& tree && s.nav.preview is None ==> has("p"@, "preview"@)
            &&& tree && s.nav.preview is Some ==> has("p"@, "preview off"@) && has(
                "r"@,
                "mark read"@,
            )
            &&& s.nav.triage is Some ==> has("enter"@, "jump & exit"@) && has(
                "m M"@,
                "mark / clear all"@,
            ) && has("esc"@, "back to tree"@)
            &&& s.nav.triage is None && s.nav.termination is Some ==> has("c"@, "close pane"@)
                && has("k"@, "kill process"@) && has("x"@, "kill & close"@) && has(
                "esc"@,
                "cancel"@,
            )
            &&& s.nav.triage is None && s.nav.termination is None && s.nav.jump is Some ==> has(
                "0-9"@,
                "narrow & jump"@,
            ) && has("backspace"@, "delete digit"@) && has("esc"@, "back to tree"@)
            &&& s.nav.triage is None && s.nav.termination is None && s.nav.jump is None
                && s.nav.search is Some ==> has("i"@, "edit query"@) && has(
                "enter"@,
                "jump & exit"@,
            ) && has("alt+m"@, "mark"@) && has("alt+p"@, "preview"@) && has(
                "esc"@,
                "cancel search"@,
            )
        }),
{
    let rows = s.help_rows();
    assert(rows[2] == rows[2]);
    if s.nav.triage is Some {
        assert(rows[4] == HelpRowV::Entry("enter"@, "jump & exit"@));
        assert(rows[5] == HelpRowV::Entry("m M"@, "mark / clear all"@));
        assert(rows[9] == HelpRowV::Entry("esc"@, "back to tree"@));
    } else if s.nav.termination is Some {
        assert(rows[2] == HelpRowV::Entry("c"@, "close pane"@));
        assert(rows[3] == HelpRowV::Entry("k"@, "kill process"@));
        assert(rows[4] == HelpRowV::Entry("x"@, "kill & close"@));
        assert(rows[5] == HelpRowV::Entry("esc"@, "cancel"@));
    } else if s.nav.jump is Some {
        assert(rows[2] == HelpRowV::Entry("0-9"@, "narrow & jump"@));
        assert(rows[3] == HelpRowV::Entry("backspace"@, "delete digit"@));
        assert(rows[4] == HelpRowV::Entry("esc"@, "back to tree"@));
    } else if s.nav.search is Some {
        assert(rows[4] == HelpRowV::Entry("i"@, "edit query"@));
        assert(rows[7] == HelpRowV::Entry("alt+m"@, "mark"@));
        assert(rows[8] == HelpRowV::Entry("alt+p"@, "preview"@));
        assert(rows[9] == HelpRowV::Entry("enter"@, "jump & exit"@));
        assert(rows[10] == HelpRowV::Entry("esc"@, "cancel search"@));
    } else {
        assert(rows[2] == HelpRowV::Entry("j k"@, "move"@));
        assert(rows[3] == HelpRowV::Entry("g G"@, "top / bottom"@));
        assert(rows[4] == HelpRowV::Entry("enter"@, "jump & exit"@));
        assert(rows[5] == HelpRowV::Entry("/"@, "search"@));
        assert(rows[6] == HelpRowV::Entry("t"@, "triage"@));
        assert(rows[7] == HelpRowV::Entry("n"@, "number jump"@));
        assert(rows[8] == HelpRowV::Entry("m M"@, "mark / clear all"@));
        if s.nav.preview is Some {
            assert(rows[9] == HelpRowV::Entry("p"@, "preview off"@));
            assert(rows[10] == HelpRowV::Entry("r"@, "mark read"@));
            assert(rows[11] == HelpRowV::Entry("d"@, "terminate pane"@));
            assert(rows[12] == HelpRowV::Entry("?"@, "this help"@));
            assert(rows[13] == HelpRowV::Entry("esc"@, "exit"@));
        } else {
            assert(rows[9] == HelpRowV::Entry("p"@, "preview"@));
            assert(rows[10] == HelpRowV::Entry("d"@, "terminate pane"@));
            assert(rows[11] == HelpRowV::Entry("?"@, "this help"@));
            assert(rows[12] == HelpRowV::Entry("esc"@, "exit"@));
        }
    }
}

/// Where there is nothing to list the screen says so, in its own words for a search and for
/// triage.
pub proof fn law_empty_lists_say_so(s: StateV)
    requires
        !s.nav.help_overlay,
    ensures
        s.nav.triage is Some && s.triage_list().len() == 0 ==> s.content_rows() == seq![
            RowV::Notice("nothing to triage"@),
        ],
        s.nav.triage is None && s.nav.search is Some && s.nav.search->0.hits.dom().is_empty()
            ==> s.content_rows() == seq![RowV::Notice("no matches"@)],
        s.nav.triage is Some && s.triage_list().len() > 0 ==> s.content_rows().len()
            == s.triage_list().len() && forall|i: int|
            0 <= i < s.triage_list().len() ==> ((
            #[trigger] s.content_rows()[i]) matches RowV::Triage(e, tab) && e
                == s.triage_list()[i]),
{
}

// --- what is lit and what can be clicked ---

/// In a search the pane under the cursor is lit, in triage the one under its cursor, or the first
/// entry where the cursor is nowhere; headings, markers and the frame never are.
pub proof fn law_what_is_lit(s: StateV, e: SelectableV, index: usize, hit: Option<HitV>, tab: Seq<char>)
    ensures
        s.nav.search is Some ==> (s.lit(RowV::Pane(e, index, hit)) <==> s.nav.search->0.cursor
            == Some(e.pane_id)),
        s.nav.search is None ==> (s.lit(RowV::Pane(e, index, hit)) <==> index == s.list.selected),
        s.nav.triage is Some && s.triage_list().len() > 0 && s.nav.triage->0.cursor is None ==> (
        s.lit(RowV::Triage(e, tab)) <==> e.pane_id == s.triage_list()[0].pane_id),
        s.nav.triage is Some && s.nav.triage->0.cursor == Some(e.pane_id) && s.triage_list().contains(
            e,
        ) ==> s.lit(RowV::Triage(e, tab)),
        !s.lit(RowV::Header) && !s.lit(RowV::Footer) && !s.lit(RowV::Divider) && !s.lit(RowV::Blank),
{
    if s.nav.triage is Some && s.triage_list().contains(e) {
        let list = s.triage_list();
        let i = choose|i: int| 0 <= i < list.len() && list[i] == e;
        assert(list[i].pane_id == e.pane_id);
    }
}

/// A click means the pane of the row that it hits: its own row, that of its directory, or its row
/// in the triage list.
pub proof fn law_click_means_its_row(s: StateV, line: int)
    requires
        0 <= line < s.screen_rows(s.screen.viewport_rows as nat).len(),
    ensures
        ({
            let row = s.screen_rows(s.screen.viewport_rows as nat)[line];
            &&& row matches RowV::Pane(e, _, _) ==> s.pane_at_row(line) == Some(e.pane_id)
            &&& row matches RowV::Cwd(e, _, _, _) ==> s.pane_at_row(line) == Some(e.pane_id)
            &&& row matches RowV::Triage(e, _) ==> s.pane_at_row(line) == Some(e.pane_id)
        }),
{
}

/// The marks have a column in a frame that shows a marked pane, and in no other.
pub proof fn law_mark_column(s: StateV, rows: Seq<RowV>)
    ensures
        s.mark_column(rows) <==> exists|i: int|
            0 <= i < rows.len() && (match #[trigger] rows[i] {
                RowV::Pane(e, _, _) => s.list.marked.contains(e.pane_id),
                RowV::Triage(e, _) => s.list.marked.contains(e.pane_id),
                _ => false,
            }),
        forall|id: u32| #[trigger]
            s.mark_of(id, true) == Some(s.list.marked.contains(id)) && s.mark_of(id, false) is None,
{
}

/// In a search the heading of a tab is shown if and only if some pane of the tab has a hit;
/// without one every heading is.
pub proof fn law_headings_of_hits(s: StateV, position: usize)
    ensures
        s.nav.search is None ==> !s.tab_hidden(position),
        s.nav.search is Some ==> (!s.tab_hidden(position) <==> exists|i: int|
            0 <= i < s.list.selectable.len() && (#[trigger] s.list.selectable[i]).tab_position
                == position && s.nav.search->0.hits.contains_key(s.list.selectable[i].pane_id)),
{
}

// --- the cursor and when to draw ---

/// The text cursor stands behind what is typed: behind the indent, the sign and the input.
pub proof fn law_cursor_behind_input(s: StateV)
    requires
        !s.nav.help_overlay,
        s.nav.termination is None,
    ensures
        s.nav.search is Some && plain_text(s.nav.search->0.query) && s.nav.search->0.query.len() + 3
            <= usize::MAX ==> s.cursor_column() == Some(3 + s.nav.search->0.query.len()),
        s.nav.search is None && s.nav.jump is Some && plain_text(s.nav.jump->0.buffer)
            && s.nav.jump->0.buffer.len() + 4 <= usize::MAX ==> s.cursor_column() == Some(
            4 + s.nav.jump->0.buffer.len(),
        ),
        s.nav.search is None && s.nav.jump is None ==> s.cursor_column() is None,
{
    reveal_strlit("/");
    reveal_strlit("n ");
    law_plain_width("/"@);
    law_plain_width("n "@);
    if s.nav.search is Some && plain_text(s.nav.search->0.query) {
        law_plain_width(s.nav.search->0.query);
    }
    if s.nav.jump is Some && plain_text(s.nav.jump->0.buffer) {
        law_plain_width(s.nav.jump->0.buffer);
    }
}

/// The host is told of the cursor when it moved, and else not.
pub proof fn law_cursor_is_told(s: StateV)
    ensures
        s.cursor() == s.screen.cursor_shown ==> s.sync_cursor() == s,
        s.cursor() != s.screen.cursor_shown ==> s.sync_cursor().calls == s.calls.push(
            HostCallV::ShowCursor(s.cursor()),
        ) && s.sync_cursor().screen.cursor_shown == s.cursor(),
{
}

/// Somebody types while a query is edited or a number is entered, unless the help or the prompt
/// is over it: then only what is typed draws.
pub proof fn law_typing_defers(s: StateV)
    ensures
        s.defers_render() <==> !s.nav.help_overlay && s.nav.termination is None && ((
        s.nav.search is Some && s.nav.search->0.phase == SearchPhase::Editing) || (
        s.nav.search is None && s.nav.jump is Some)),
{
}

// --- the whole screen ---

/// Without the user's leave the sidebar only says that it needs it, whatever its size.
pub proof fn law_permission_is_asked(s: StateV, rows: nat, cols: nat)
    requires
        !s.me.is_preview,
        !s.me.permissions_granted,
    ensures
        s.ui(rows, cols).len() == 1,
        s.ui(rows, cols)[0] == Some(LineV::plain("permissions required (press y)"@)),
{
}

proof fn lemma_used_lines(s: Seq<Seq<char>>)
    ensures
        used_lines(s) <= s.len(),
        used_lines(s) > 0 ==> trimmed(s[used_lines(s) - 1]).len() > 0,
        forall|i: int| used_lines(s) <= i < s.len() ==> trimmed(#[trigger] s[i]).len() == 0,
    decreases s.len(),
{
    if s.len() > 0 && trimmed(s.last()).len() == 0 {
        let front = s.drop_last();
        lemma_used_lines(front);
        assert forall|i: int| used_lines(s) <= i < s.len() implies trimmed(#[trigger] s[i]).len()
            == 0 by {
            if i < front.len() {
                assert(front[i] == s[i]);
            }
        }
        if used_lines(s) > 0 {
            assert(front[used_lines(s) - 1] == s[used_lines(s) - 1]);
        }
    }
}

/// A preview shows the end of a pane: the last lines that fit, blank ones at the very end left out.
pub proof fn law_preview_shows_the_end(s: Seq<Seq<char>>, area: nat, n: int)
    requires
        0 <= n <= s.len(),
        n > 0 ==> trimmed(s[n - 1]).len() > 0,
        forall|i: int| n <= i < s.len() ==> trimmed(#[trigger] s[i]).len() == 0,
    ensures
        n <= area ==> body_lines(s, area) == s.take(n),
        n > area ==> body_lines(s, area) == s.subrange(n - area, n),
{
    lemma_used_lines(s);
    let used = used_lines(s) as int;
    assert(used == n) by {
        if used < n {
            assert(trimmed(s[n - 1]).len() == 0);
        }
        if used > n {
            assert(trimmed(s[used - 1]).len() == 0);
        }
    }
    if n <= area {
        assert(s.subrange(0, n) =~= s.take(n));
    }
}

/// What a preview draws: a heading, a line, and then what it was sent, as much as fits.
pub proof fn law_preview_draws(s: StateV, rows: nat, cols: nat, i: int)
    requires
        s.me.is_preview,
        s.me.permissions_granted,
        rows >= 2,
    ensures
        ({
            let body = body_lines(s.screen.preview_content.lines, (rows - 2) as nat);
            let lines = s.ui(rows, cols);
            &&& lines.len() == 2 + body.len()
            &&& 0 <= i < body.len() ==> lines[2 + i] == Some(LineV::plain(cut(body[i], cols)))
        }),
{
}

// --- rows in full ---

/// The row of a working directory: six columns of indent, with the bar where it is lit, and the
/// path, as long as it fits.
pub proof fn law_cwd_row_reads(cwd: Seq<char>, lit: bool, hit: Option<HitV>, cols: nat)
    requires
        plain_text(cwd),
        cwd.len() + 8 <= cols,
    ensures
        ({
            let text = cwd_line(cwd, lit, hit, cols).text;
            let head = (if lit {
                seq!['▌']
            } else {
                seq![' ']
            }) + spaces(5);
            &&& !lit ==> text == head + cwd
            &&& lit ==> begins_with(text, head + cwd) && text.len() == cols
        }),
{
    reveal_strlit("▌");
    reveal_strlit(" ");
    law_plain_width(cwd);
    let head = (if lit {
        seq!['▌']
    } else {
        seq![' ']
    }) + spaces(5);
    assert(cwd_indent(lit) =~= head);
    assert(plain_text(head));
    lemma_add_plain(head, cwd);
    let all = head + cwd;
    law_plain_width(all);
    if lit {
        let text = all + spaces(room(all, cols));
        assert(text.take(all.len() as int) =~= all);
    }
}

/// A row of the triage list reads like that of a pane, with the name of its tab flush right where
/// both fit.
#[verifier::rlimit(40)]
pub proof fn law_triage_row_reads(
    s: StateV,
    e: SelectableV,
    tab: Seq<char>,
    column: nat,
    mark: Option<bool>,
    cols: nat,
)
    requires
        needs_triage(s.status, e.pane_id),
        plain_text(pane_reads(s, e, false, None, mark, shown_name(s, e))),
        plain_text(shown_name(s, e)),
        plain_text(tab),
        0 < tab.len() <= column,
        cols <= usize::MAX,
        pane_reads(s, e, false, None, mark, shown_name(s, e)).len() + (if e.is_floating {
            2nat
        } else {
            0
        }) + 1 + column + 2 <= cols,
    ensures
        s.triage_row(e, tab, false, column, mark, cols).text == with_column(
            pane_reads(s, e, false, None, mark, shown_name(s, e)),
            tab,
            content_width(cols),
        ),
{
    let name = shown_name(s, e);
    let head = s.triage_head(e, false, mark);
    lemma_icons(s, e);
    assert(s.status(e.pane_id) is Some);
    assert(head == s.pane_head(e, false, None, mark));
    lemma_pane_reads(s, e, false, None, mark, name);
    law_plain_width(tab);
    assert(cut(tab, column) == tab);
    assert(s.display_title(e) == name);
    law_plain_width(name);
    let reads = pane_reads(s, e, false, None, mark, name);
    assert(reads =~= named(e, head, name));
    assert forall|i: int| 0 <= i < head.len() implies one_column(#[trigger] head[i]) by {
        assert(reads[i] == head[i]);
    }
    law_plain_width(head);
    let left = s.triage_name_room(e, head, tab, column, cols);
    assert(name.len() <= left);
    assert(folded(name, left) == (name, 0nat));
}

// --- hints of the footer ---

proof fn lemma_fitting(hints: Seq<Seq<char>>, n: nat, budget: nat) -> (k: nat)
    requires
        n <= hints.len(),
    ensures
        k <= n,
        k == 0 ==> fitting(hints, n, budget).len() == 0,
        k > 0 ==> fitting(hints, n, budget) == joined(hints.take(k as int), "  "@) && width_of(
            joined(hints.take(k as int), "  "@),
        ) < budget,
        forall|j: int|
            k < j <= n ==> width_of(#[trigger] joined(hints.take(j), "  "@)) >= budget,
    decreases n,
{
    if n == 0 {
        0
    } else if width_of(joined(hints.take(n as int), "  "@)) < budget {
        n
    } else {
        lemma_fitting(hints, (n - 1) as nat, budget)
    }
}

/// Beside an input as many hints are shown as fit, whole and from the first on: one more would not
/// fit.
pub proof fn law_most_hints_that_fit(hints: Seq<Seq<char>>, budget: nat) -> (k: nat)
    ensures
        k <= hints.len(),
        k == 0 ==> fitting(hints, hints.len(), budget).len() == 0,
        k > 0 ==> fitting(hints, hints.len(), budget) == joined(hints.take(k as int), "  "@)
            && width_of(joined(hints.take(k as int), "  "@)) < budget,
        k < hints.len() ==> width_of(joined(hints.take(k as int + 1), "  "@)) >= budget,
{
    let k = lemma_fitting(hints, hints.len(), budget);
    if k < hints.len() {
        assert(width_of(joined(hints.take(k as int + 1), "  "@)) >= budget);
    }
    k
}

/// The hints of a search, by its phase.
pub proof fn law_search_hints(phase: SearchPhase)
    ensures
        phase == SearchPhase::Editing ==> search_hints(phase) == seq![
            "esc:browse"@,
            "enter:jump"@,
        ] && search_ink(phase) == Ink::Plain,
        phase == SearchPhase::Navigating ==> search_hints(phase) == seq![
            "j/k:move"@,
            "?:help"@,
            "i:edit"@,
            "esc:cancel"@,
            "enter:jump"@,
        ] && search_ink(phase) == Ink::Muted,
{
}

proof fn lemma_last_plus_at(s: Seq<char>, n: int)
    requires
        0 <= n < s.len(),
        s[n] == '+',
        forall|i: int| n < i < s.len() ==> (#[trigger] s[i]) != '+',
    ensures
        last_plus(s) == Some(n as nat),
    decreases s.len(),
{
    if n < s.len() - 1 {
        assert(s[s.len() - 1] != '+');
        let front = s.drop_last();
        assert forall|i: int| n < i < front.len() implies (#[trigger] front[i]) != '+' by {
            assert(front[i] == s[i]);
        }
        lemma_last_plus_at(front, n);
    }
}

/// A key with modifiers parts at the last plus in front of the bare key.
pub proof fn law_key_parts(modifiers: Seq<char>, bare_key: Seq<char>)
    requires
        bare_key.len() > 0,
        forall|i: int| 0 <= i < bare_key.len() - 1 ==> (#[trigger] bare_key[i]) != '+',
    ensures
        parted(modifiers + seq!['+'] + bare_key) == Some((modifiers, bare_key)),
{
    let key = modifiers + seq!['+'] + bare_key;
    let front = key.drop_last();
    let n = modifiers.len() as int;
    assert forall|i: int| n < i < front.len() implies (#[trigger] front[i]) != '+' by {
        assert(front[i] == bare_key[i - n - 1]);
    }
    lemma_last_plus_at(front, n);
    assert(key.take(n) =~= modifiers);
    assert(key.skip(n + 1) =~= bare_key);
}

/// Two direct keys with the same modifiers are written with these once, in front; with different
/// ones each is written in full.
#[verifier::rlimit(40)]
pub proof fn law_modifiers_are_shared(
    m: Seq<char>,
    a: Seq<char>,
    x: Seq<char>,
    b: Seq<char>,
    y: Seq<char>,
    other: Seq<char>,
)
    requires
        a.len() > 0,
        b.len() > 0,
        forall|i: int| 0 <= i < a.len() - 1 ==> (#[trigger] a[i]) != '+',
        forall|i: int| 0 <= i < b.len() - 1 ==> (#[trigger] b[i]) != '+',
        other != m,
    ensures
        key_line(seq![(m + seq!['+'] + a, x), (m + seq!['+'] + b, y)]) == m + " + › "@ + a + seq![
            ':',
        ] + x + "  "@ + b + seq![':'] + y,
        key_line(seq![(m + seq!['+'] + a, x), (other + seq!['+'] + b, y)]) == m + seq!['+'] + a
            + seq![':'] + x + "  "@ + other + seq!['+'] + b + seq![':'] + y,
{
    reveal_strlit(" + › ");
    reveal_strlit(" + ");
    reveal_strlit("›");
    law_key_parts(m, a);
    law_key_parts(m, b);
    law_key_parts(other, b);
    let ka = m + seq!['+'] + a;
    let kb = m + seq!['+'] + b;
    let kc = other + seq!['+'] + b;
    let same = seq![(ka, x), (kb, y)];
    let mixed = seq![(ka, x), (kc, y)];
    assert(has_modifiers(same[0].0, m) && has_modifiers(same[1].0, m));
    assert(shared(same) == Some(m));
    assert(!has_modifiers(mixed[1].0, m));
    assert(shared(mixed) is None);
    let short = same.map_values(|p: (Seq<char>, Seq<char>)| item(bare(p.0), p.1));
    let long = mixed.map_values(|p: (Seq<char>, Seq<char>)| item(p.0, p.1));
    assert(short =~= seq![item(a, x), item(b, y)]);
    assert(long =~= seq![item(ka, x), item(kc, y)]);
    lemma_join_two(item(a, x), item(b, y), "  "@);
    lemma_join_two(item(ka, x), item(kc, y), "  "@);
    assert(key_line(same) =~= m + " + › "@ + a + seq![':'] + x + "  "@ + b + seq![':'] + y);
    assert(key_line(mixed) =~= m + seq!['+'] + a + seq![':'] + x + "  "@ + other + seq!['+'] + b
        + seq![':'] + y);
}

proof fn lemma_join_two(a: Seq<char>, b: Seq<char>, sep: Seq<char>)
    ensures
        joined(seq![a, b], sep) == a + sep + b,
{
    reveal_with_fuel(joined, 3);
    assert(seq![a, b].drop_last() =~= seq![a]);
}

/// A setting that could not be read is named in the warning; more than one are all named where they
/// fit.
pub proof fn law_warning_names_settings(keys: Seq<Seq<char>>, budget: nat)
    requires
        keys.len() > 0,
        width_of(bad_values(keys, keys.len())) <= budget,
    ensures
        keys.len() == 1 ==> fitting_warning(keys, keys.len(), budget) == "!bad value: "@ + keys[0],
        keys.len() > 1 ==> fitting_warning(keys, keys.len(), budget) == "!bad values: "@ + joined(
            keys,
            " "@,
        ),
{
    assert(keys.take(keys.len() as int) =~= keys);
    assert(bad_values(keys, keys.len()) =~= (if keys.len() == 1 {
        "!bad value: "@
    } else {
        "!bad values: "@
    }) + joined(keys, " "@));
}

// --- colours of hits ---

/// The places of a hit move with the text that they are in: each place that is still shown is lit
/// that much further right, in order, and no other.
pub proof fn law_hits_move_along(places: Seq<usize>, by: nat, limit: nat)
    requires
        forall|i: int| 0 <= i < places.len() ==> (#[trigger] places[i]) + by < limit,
        limit <= usize::MAX,
    ensures
        shifted(places, by, limit).len() == places.len(),
        forall|i: int|
            0 <= i < places.len() ==> (#[trigger] shifted(places, by, limit)[i]) == places[i] + by,
    decreases places.len(),
{
    if places.len() > 0 {
        let front = places.drop_last();
        assert forall|i: int| 0 <= i < front.len() implies (#[trigger] front[i]) + by < limit by {
            assert(front[i] == places[i]);
        }
        law_hits_move_along(front, by, limit);
        assert(places[places.len() - 1] + by < limit);
        let all = shifted(places, by, limit);
        let rest = shifted(front, by, limit);
        assert forall|i: int| 0 <= i < places.len() implies (#[trigger] all[i]) == places[i] + by by {
            if i < front.len() {
                assert(all[i] == rest[i]);
                assert(front[i] == places[i]);
            }
        }
    }
}

/// The inks: keys and the selection have colour 2, the sign of an input colour 3, what is beside the
/// point is dimmed, and plain text is left alone.
pub proof fn law_inks(start: usize, end: usize, level: usize)
    ensures
        Ink::Plain.on(start, end) is None,
        Ink::Key.on(start, end) == Some(DecorationV::Color(2, start, end)),
        Ink::Tag.on(start, end) == Some(DecorationV::Color(3, start, end)),
        Ink::Muted.on(start, end) == Some(DecorationV::Dim(start, end)),
        Ink::Accent(level).on(start, end) == Some(DecorationV::Color(level, start, end)),
{
}

/// The sign of the header, and nothing else of it, has the first colour, and that of the mode.
#[verifier::rlimit(40)]
pub proof fn law_header_sign_is_coloured(s: StateV, cols: nat)
    requires
        s.clock.deployment is None,
        cols >= 16,
    ensures
        ({
            let d = s.header(cols).decorations;
            &&& d.len() >= 2
            &&& s.nav.termination is Some ==> d[0] == DecorationV::Color(6, 0, 1)
            &&& s.nav.termination is None && !s.showing_config_warning() && s.nav.triage is Some
                ==> d[0] == DecorationV::Color(0, 0, 1)
            &&& s.nav.termination is None && !s.showing_config_warning() && s.nav.triage is None
                && s.nav.nav_mode ==> d[0] == DecorationV::Color(2, 0, 1)
            &&& d[1] == DecorationV::Dim(1, 7)
        }),
{
    law_header_reads(s, cols);
    reveal_strlit("▲ fujin  [tri]");
    reveal_strlit("▲ fujin  [nav]");
    reveal_strlit("▲ fujin");
    reveal_strlit("▲");
    reveal_strlit(" fujin");
    reveal_strlit("  ");
    reveal_strlit("[tri]");
    reveal_strlit("[nav]");
    let pieces = s.header_pieces();
    let none = troop_pieces(troop_gaps(s.troop_columns(cols), s.header_width()));
    assert(none =~= Seq::empty());
    assert(pieces + none =~= pieces);
    let ink = s.state_ink();
    let a = seq![("▲"@, ink)];
    lemma_whole_one("▲"@, ink);
    let b = a.push((" fujin"@, Ink::Muted));
    lemma_whole_push(a, " fujin"@, Ink::Muted);
    let limit = s.header(cols).text.len();
    assert(a.drop_last() =~= Seq::empty());
    assert(b.drop_last() =~= a);
    assert(whole(Seq::<(Seq<char>, Ink)>::empty()) =~= Seq::empty());
    assert(inks(a, limit) =~= seq![ink.on(0, 1)->0]) by {
        assert(inks(a.drop_last(), limit) =~= Seq::empty());
    }
    assert(inks(b, limit) =~= inks(a, limit).push(DecorationV::Dim(1, 7)));
    if s.mode_label() is Some {
        let label = s.mode_label()->0;
        let c = b.push(("  "@, Ink::Plain));
        lemma_whole_push(b, "  "@, Ink::Plain);
        let d = c.push((label, ink));
        lemma_whole_push(c, label, ink);
        assert(pieces =~= d);
        assert(c.drop_last() =~= b);
        assert(d.drop_last() =~= c);
        assert(inks(c, limit) == inks(b, limit));
    } else {
        assert(pieces =~= b);
    }
}

// --- troops, help and counters ---

#[verifier::rlimit(40)]
proof fn lemma_troops_stand(columns: Seq<usize>, start: nat, n: nat)
    requires
        n <= columns.len(),
        forall|i: int, j: int| 0 <= i < j < columns.len() ==> columns[i] < columns[j],
        forall|i: int| 0 <= i < columns.len() ==> start <= (#[trigger] columns[i]) < usize::MAX,
    ensures
        ({
            let text = whole(troop_pieces(troop_gaps(columns, start).take(n as int)));
            &&& n == 0 ==> text.len() == 0
            &&& n > 0 ==> text.len() + start == columns[n - 1] + 1
            &&& plain_text(text)
            &&& forall|i: int|
                0 <= i < n ==> text.len() > columns[i] - start && text[(#[trigger] columns[i])
                    - start] == '▵'
        }),
    decreases n,
{
    reveal_strlit("▵");
    assert("▵"@ =~= seq!['▵']);
    law_plain_width("▵"@);
    let gaps = troop_gaps(columns, start);
    if n == 0 {
        assert(gaps.take(0) =~= Seq::empty());
        assert(whole(troop_pieces(gaps.take(0))) =~= Seq::empty());
    } else {
        let m = (n - 1) as nat;
        lemma_troops_stand(columns, start, m);
        let front = gaps.take(m as int);
        let all = gaps.take(n as int);
        assert(all.drop_last() =~= front);
        assert(all.last() == gaps[m as int]);
        let a = troop_pieces(front);
        let b = a.push((gaps[m as int], Ink::Plain));
        let c = b.push(("▵"@, Ink::Accent(2)));
        assert(troop_pieces(all) =~= c);
        lemma_whole_push(a, gaps[m as int], Ink::Plain);
        lemma_whole_push(b, "▵"@, Ink::Accent(2));
        let text = whole(c);
        let before = whole(a);
        if m > 0 {
            assert(columns[m - 1] < columns[m as int]);
        }
        assert(gaps[m as int].len() + before.len() + start == columns[m as int]);
        lemma_add_plain(before, gaps[m as int]);
        lemma_add_plain(before + gaps[m as int], "▵"@);
        assert(text =~= before + gaps[m as int] + "▵"@);
        assert forall|i: int| 0 <= i < n implies text.len() > columns[i] - start && text[(
        #[trigger] columns[i]) - start] == '▵' by {
            if i < m {
                assert(before[columns[i] - start] == '▵');
            }
        }
    }
}

/// Each troop that is on its way stands in the column of its place, behind the text of the header.
pub proof fn law_troops_stand_in_their_columns(columns: Seq<usize>, start: nat, i: int)
    requires
        0 <= i < columns.len(),
        forall|j: int, k: int| 0 <= j < k < columns.len() ==> columns[j] < columns[k],
        forall|j: int| 0 <= j < columns.len() ==> start <= (#[trigger] columns[j]) < usize::MAX,
    ensures
        ({
            let text = whole(troop_pieces(troop_gaps(columns, start)));
            columns[i] - start < text.len() && text[columns[i] - start] == '▵'
        }),
{
    let gaps = troop_gaps(columns, start);
    assert(gaps.take(columns.len() as int) =~= gaps);
    lemma_troops_stand(columns, start, columns.len());
    assert(columns[i] == columns[i]);
}

/// A line of the help: the keys behind the indent, and what they do in the column behind the widest
/// keys.
pub proof fn law_help_line_reads(s: StateV, keys: Seq<char>, text: Seq<char>, cols: nat)
    requires
        plain_text(keys),
        plain_text(text),
        keys.len() + 2 <= s.help_key_column(),
        2 + s.help_key_column() + text.len() <= cols,
    ensures
        ({
            let line = s.help_line(HelpRowV::Entry(keys, text), cols).text;
            let column = 2 + s.help_key_column();
            &&& line.len() == column + text.len()
            &&& line.subrange(2, 2 + keys.len() as int) == keys
            &&& line.skip(column as int) == text
            &&& forall|i: int| 2 + keys.len() <= i < column ==> (#[trigger] line[i]) == ' '
        }),
{
    law_plain_width(keys);
    let column = s.help_key_column();
    let pad = spaces((column - keys.len()) as nat);
    let a = seq![(spaces(2), Ink::Plain)];
    lemma_whole_one(spaces(2), Ink::Plain);
    let b = a.push((keys, Ink::Key));
    lemma_whole_push(a, keys, Ink::Key);
    let c = b.push((pad, Ink::Plain));
    lemma_whole_push(b, pad, Ink::Plain);
    let d = c.push((text, Ink::Plain));
    lemma_whole_push(c, text, Ink::Plain);
    let all = spaces(2) + keys + pad + text;
    lemma_add_plain(spaces(2), keys);
    lemma_add_plain(spaces(2) + keys, pad);
    lemma_add_plain(spaces(2) + keys + pad, text);
    lemma_composed_fits(d, cols);
    assert(d =~= seq![
        (spaces(2), Ink::Plain),
        (keys, Ink::Key),
        (pad, Ink::Plain),
        (text, Ink::Plain),
    ]);
    let line = s.help_line(HelpRowV::Entry(keys, text), cols).text;
    assert(line =~= all);
    assert(all.subrange(2, 2 + keys.len() as int) =~= keys);
    assert(all.skip(2 + column as int) =~= text);
}

/// The keys of a mode have a column two wider than the widest of them: none is wider, and one is
/// just as wide.
pub proof fn law_help_column(s: StateV, i: int)
    requires
        widest_keys(s.help_rows()) + 2 <= usize::MAX,
        0 <= i < s.help_rows().len(),
    ensures
        s.help_rows()[i] matches HelpRowV::Entry(keys, _) ==> width_of(keys) + 2
            <= s.help_key_column(),
        s.help_key_column() > 2 ==> exists|j: int|
            0 <= j < s.help_rows().len() && ((
            #[trigger] s.help_rows()[j]) matches HelpRowV::Entry(keys, _) && width_of(keys) + 2
                == s.help_key_column()),
{
    lemma_widest_keys(s.help_rows(), i);
}

proof fn lemma_widest_keys(rows: Seq<HelpRowV>, i: int)
    ensures
        0 <= i < rows.len() ==> (rows[i] matches HelpRowV::Entry(keys, _) ==> width_of(keys)
            <= widest_keys(rows)),
        widest_keys(rows) > 0 ==> exists|j: int|
            0 <= j < rows.len() && ((#[trigger] rows[j]) matches HelpRowV::Entry(keys, _)
                && width_of(keys) == widest_keys(rows)),
    decreases rows.len(),
{
    if rows.len() > 0 {
        let front = rows.drop_last();
        lemma_widest_keys(front, i);
        if 0 <= i < front.len() {
            assert(front[i] == rows[i]);
        }
        if widest_keys(rows) == widest_keys(front) && widest_keys(rows) > 0 {
            let j = choose|j: int|
                0 <= j < front.len() && ((#[trigger] front[j]) matches HelpRowV::Entry(keys, _)
                    && width_of(keys) == widest_keys(front));
            assert(front[j] == rows[j]);
        } else {
            assert(rows[rows.len() - 1] == rows.last());
        }
    }
}

/// The counters stand in columns of their own: the subagents right-aligned in theirs, the open
/// tasks in theirs, with one space between where both columns are there. A pane without either
/// has none.
pub proof fn law_counter_cells(column: CounterColumn, subagents: Seq<char>, tasks: Seq<char>)
    requires
        plain_text(subagents),
        plain_text(tasks),
        subagents.len() <= column.subagents,
        tasks.len() <= column.open_tasks,
    ensures
        ({
            let cells = column.cells(subagents, tasks);
            let gap = if column.subagents > 0 && column.open_tasks > 0 {
                1int
            } else {
                0
            };
            &&& subagents.len() == 0 && tasks.len() == 0 ==> cells.len() == 0
            &&& subagents.len() > 0 || tasks.len() > 0 ==> cells.len() == column.subagents + gap
                + column.open_tasks && cells.subrange(
                column.subagents - subagents.len(),
                column.subagents as int,
            ) == subagents && cells.skip(cells.len() - tasks.len()) == tasks
        }),
{
    law_plain_width(subagents);
    law_plain_width(tasks);
    let cells = column.cells(subagents, tasks);
    if subagents.len() > 0 || tasks.len() > 0 {
        assert(cells.subrange(
            column.subagents - subagents.len(),
            column.subagents as int,
        ) =~= subagents);
        assert(cells.skip(cells.len() - tasks.len()) =~= tasks);
    }
}

/// The columns of the counters are as wide as the widest counter of the panes that are shown.
pub proof fn law_counter_columns(s: StateV, rows: Seq<RowV>, i: int)
    requires
        0 <= i < rows.len(),
    ensures
        rows[i] matches RowV::Pane(e, _, _) ==> width_of(s.counters(e.pane_id).0)
            <= s.counter_column(rows).0 && width_of(s.counters(e.pane_id).1)
            <= s.counter_column(rows).1,
    decreases rows.len(),
{
    if i < rows.len() - 1 {
        law_counter_columns(s, rows.drop_last(), i);
        assert(rows.drop_last()[i] == rows[i]);
    }
}

// --- what stays and what gives way ---

/// What is on screen does not move as long as the lit rows are on it and no room is wasted.
pub proof fn law_scroll_stays(list_len: nat, area: nat, scroll: nat, first: nat, last: nat)
    requires
        0 < area < list_len,
        scroll < list_len,
        scroll != 1,
        scroll == 0 || scroll - 1 + shown_rows(list_len, area, (scroll - 1) as nat) < list_len,
        scroll <= first,
        last < scroll + shown_rows(list_len, area, scroll),
    ensures
        scrolled(list_len, area, scroll, Some((first, last))) == scroll,
        scrolled(list_len, area, scroll, None) == scroll,
{
}

/// Troops march out one column behind the text of the header: in the ninth column, or in the
/// sixteenth where the mode is named.
pub proof fn law_troops_start_behind_the_header(s: StateV, cols: nat)
    ensures
        s.nav.triage is None && !s.nav.nav_mode && s.nav.search is None ==> s.troop_field(cols).0
            == 8,
        s.nav.triage is Some || s.nav.nav_mode || s.nav.search is Some ==> s.troop_field(cols).0
            == 15,
        cols >= 2 ==> s.troop_field(cols).1 == cols - 2,
{
    reveal_strlit("▲");
    reveal_strlit(" fujin");
    reveal_strlit("  ");
    reveal_strlit("[tri]");
    reveal_strlit("[nav]");
    law_plain_width("▲"@);
    law_plain_width(" fujin"@);
    law_plain_width("  "@);
    law_plain_width("[tri]"@);
    law_plain_width("[nav]"@);
    reveal_with_fuel(width_sum, 5);
    let pieces = s.header_pieces();
    let ink = s.state_ink();
    let a = seq![("▲"@, ink)];
    let b = a.push((" fujin"@, Ink::Muted));
    assert(a.drop_last() =~= Seq::empty());
    assert(b.drop_last() =~= a);
    assert(width_sum(b) == 7);
    if s.mode_label() is Some {
        let label = s.mode_label()->0;
        let c = b.push(("  "@, Ink::Plain));
        let d = c.push((label, ink));
        assert(c.drop_last() =~= b);
        assert(d.drop_last() =~= c);
        assert(pieces =~= d);
        assert(width_sum(d) == 14);
    } else {
        assert(pieces =~= b);
    }
}

proof fn lemma_fitting_keys(
    words: Seq<(Seq<char>, Seq<char>)>,
    arrows: Seq<(Seq<char>, Seq<char>)>,
    n: nat,
    budget: nat,
) -> (k: nat)
    ensures
        k <= n,
        k == 0 ==> fitting_keys(words, arrows, n, budget).len() == 0,
        k > 0 ==> (if width_of(key_line(words.take(k as int))) <= budget {
            fitting_keys(words, arrows, n, budget) == key_line(words.take(k as int))
        } else {
            fitting_keys(words, arrows, n, budget) == key_line(arrows.take(k as int)) && width_of(
                key_line(arrows.take(k as int)),
            ) <= budget
        }),
        k < n ==> width_of(key_line(words.take(k as int + 1))) > budget && width_of(
            key_line(arrows.take(k as int + 1)),
        ) > budget,
    decreases n,
{
    if n == 0 {
        0
    } else if width_of(key_line(words.take(n as int))) <= budget || width_of(
        key_line(arrows.take(n as int)),
    ) <= budget {
        n
    } else {
        lemma_fitting_keys(words, arrows, (n - 1) as nat, budget)
    }
}

/// Of the direct keys as many are shown as fit, from the first on: with words where these fit, with
/// arrows where only they do, and one more would fit with neither.
pub proof fn law_most_keys_that_fit(
    words: Seq<(Seq<char>, Seq<char>)>,
    arrows: Seq<(Seq<char>, Seq<char>)>,
    budget: nat,
) -> (k: nat)
    ensures
        k <= words.len(),
        k == 0 ==> fitting_keys(words, arrows, words.len(), budget).len() == 0,
        k > 0 ==> (if width_of(key_line(words.take(k as int))) <= budget {
            fitting_keys(words, arrows, words.len(), budget) == key_line(words.take(k as int))
        } else {
            fitting_keys(words, arrows, words.len(), budget) == key_line(arrows.take(k as int))
                && width_of(key_line(arrows.take(k as int))) <= budget
        }),
        k < words.len() ==> width_of(key_line(words.take(k as int + 1))) > budget && width_of(
            key_line(arrows.take(k as int + 1)),
        ) > budget,
{
    lemma_fitting_keys(words, arrows, words.len(), budget)
}

/// Without room for what the keys do, the prompt before panes end still names the three keys.
pub proof fn law_prompt_gives_way(marked: nat, budget: nat)
    ensures
        width_of("c:close k:kill x:kill+close"@) + width_of(ending_count(marked)) > budget
            ==> ending_prompt(marked, budget) == ending_count(marked) + "c k x"@,
{
    reveal_strlit("c:close k:kill x:kill+close");
    law_plain_width("c:close k:kill x:kill+close"@);
}

/// Where not all bad settings can be named, the first ones are, with the number of the others; with
/// room for none the warning only says that there are some.
pub proof fn law_warning_gives_way(keys: Seq<Seq<char>>, n: nat, budget: nat)
    requires
        0 < n < keys.len(),
        width_of(bad_values(keys, n + 1)) > budget,
    ensures
        width_of(bad_values(keys, n)) <= budget ==> fitting_warning(keys, n + 1, budget)
            == "!bad values: "@ + joined(keys.take(n as int), " "@) + " +"@ + digits(
            (keys.len() - n) as nat,
        ),
        fitting_warning(keys, 0, budget) == "!bad config"@,
{
    reveal_with_fuel(fitting_warning, 3);
    assert(bad_values(keys, n) =~= "!bad values: "@ + joined(keys.take(n as int), " "@) + " +"@
        + digits((keys.len() - n) as nat));
}

} // verus!
