//! The help overlay: which keys each mode has, and the legend of the status icons.

use vstd::prelude::*;

use crate::agent::AgentState;
use crate::formation::{FormationPrompt, FormationPromptV};
use crate::ids::{group_views, views};
use crate::line::{
    capped, compose, composed, inked, less, Ink, Line, LineV, HELP_INDENT, NO_AGENT_ICON,
    NO_AGENT_LABEL,
};
use crate::state::{State, StateV};
use crate::text::{repeat, spaces};
use crate::width::{display_width, width_of};

verus! {

broadcast use group_views;

/// One row of the overlay.
#[derive(Debug, Clone, Copy)]
pub enum HelpRow {
    /// The heading of a section.
    Section(&'static str),
    /// Keys, and what they do.
    Entry(&'static str, &'static str),
    /// The icon of a state and its name.
    Legend(AgentState),
    /// The sign of a pane without an agent.
    NoAgent,
    Blank,
}

#[verifier::ext_equal]
pub enum HelpRowV {
    Section(Seq<char>),
    Entry(Seq<char>, Seq<char>),
    Legend(AgentState),
    NoAgent,
    Blank,
}

impl View for HelpRow {
    type V = HelpRowV;

    open spec fn view(&self) -> HelpRowV {
        match self {
            HelpRow::Section(label) => HelpRowV::Section(label@),
            HelpRow::Entry(keys, text) => HelpRowV::Entry(keys@, text@),
            HelpRow::Legend(state) => HelpRowV::Legend(*state),
            HelpRow::NoAgent => HelpRowV::NoAgent,
            HelpRow::Blank => HelpRowV::Blank,
        }
    }
}

/// Keys and what they do, as an overlay row.
pub open spec fn entry(keys: &str, text: &str) -> HelpRowV {
    HelpRowV::Entry(keys@, text@)
}

/// The head of every key list.
pub open spec fn key_head() -> Seq<HelpRowV> {
    seq![HelpRowV::Section("keys"@), HelpRowV::Blank]
}

pub open spec fn tree_help(preview: bool) -> Seq<HelpRowV> {
    let head = key_head().push(entry("j k", "move")).push(entry("g G", "top / bottom")).push(
        entry("enter", "jump & exit"),
    ).push(entry("/", "search")).push(entry("t", "triage")).push(entry("n", "number jump")).push(
        entry("m M", "mark / clear all"),
    );
    let middle = if preview {
        head.push(entry("p", "preview off")).push(entry("r", "mark read"))
    } else {
        head.push(entry("p", "preview"))
    };
    middle.push(entry("d", "terminate pane")).push(entry("?", "this help")).push(
        entry("esc", "exit"),
    )
}

pub open spec fn search_help() -> Seq<HelpRowV> {
    key_head().push(entry("j k", "move cursor")).push(entry("shift+tab", "move back")).push(
        entry("i", "edit query"),
    ).push(entry("type", "filter panes")).push(entry("backspace", "delete char")).push(
        entry("alt+m", "mark"),
    ).push(entry("alt+p", "preview")).push(entry("enter", "jump & exit")).push(
        entry("esc", "cancel search"),
    ).push(entry("?", "this help"))
}

pub open spec fn jump_help() -> Seq<HelpRowV> {
    key_head().push(entry("0-9", "narrow & jump")).push(entry("backspace", "delete digit")).push(
        entry("esc", "back to tree"),
    ).push(entry("?", "this help"))
}

pub open spec fn triage_help() -> Seq<HelpRowV> {
    key_head().push(entry("j k", "move")).push(entry("g G", "top / bottom")).push(
        entry("enter", "jump & exit"),
    ).push(entry("m M", "mark / clear all")).push(entry("p", "preview")).push(
        entry("r", "mark read"),
    ).push(entry("?", "this help")).push(entry("esc", "back to tree"))
}

pub open spec fn termination_help() -> Seq<HelpRowV> {
    key_head().push(entry("c", "close pane")).push(entry("k", "kill process")).push(
        entry("x", "kill & close"),
    ).push(entry("esc", "cancel")).push(entry("?", "this help"))
}

pub open spec fn formation_help(prompt: Option<FormationPromptV>) -> Seq<HelpRowV> {
    if prompt is Some && prompt->0 is Pick {
        key_head().push(entry("1-9", "pick formation")).push(entry("n", "new formation")).push(
            entry("esc", "cancel"),
        ).push(entry("?", "this help"))
    } else {
        key_head().push(entry("type", "formation name")).push(
            entry("backspace", "delete char"),
        ).push(entry("enter", "confirm")).push(entry("esc", "cancel")).push(
            entry("?", "this help"),
        )
    }
}

/// The legend that follows every key list: the states in the order in which an agent goes
/// through them, and the sign of a pane without one.
pub open spec fn legend_rows() -> Seq<HelpRowV> {
    seq![
        HelpRowV::Blank,
        HelpRowV::Section("status"@),
        HelpRowV::Blank,
        HelpRowV::Legend(AgentState::Idle),
        HelpRowV::Legend(AgentState::Working),
        HelpRowV::Legend(AgentState::Blocked),
        HelpRowV::Legend(AgentState::Done),
        HelpRowV::Legend(AgentState::Error),
        HelpRowV::NoAgent,
    ]
}

impl StateV {
    /// The keys of the mode that is on.
    pub open spec fn help_rows(self) -> Seq<HelpRowV> {
        if self.nav.triage is Some {
            triage_help()
        } else if self.nav.termination is Some {
            termination_help()
        } else if self.nav.jump is Some {
            jump_help()
        } else if self.nav.search is Some {
            search_help()
        } else {
            tree_help(self.nav.preview is Some)
        }
    }
}

fn keys() -> (r: Vec<HelpRow>)
    ensures
        views(r@) == key_head(),
{
    let mut rows: Vec<HelpRow> = Vec::new();
    rows.push(HelpRow::Section("keys"));
    rows.push(HelpRow::Blank);
    rows
}

fn tree_help_lines(preview: bool) -> (r: Vec<HelpRow>)
    ensures
        views(r@) == tree_help(preview),
{
    let mut rows = keys();
    rows.push(HelpRow::Entry("j k", "move"));
    rows.push(HelpRow::Entry("g G", "top / bottom"));
    rows.push(HelpRow::Entry("enter", "jump & exit"));
    rows.push(HelpRow::Entry("/", "search"));
    rows.push(HelpRow::Entry("t", "triage"));
    rows.push(HelpRow::Entry("n", "number jump"));
    rows.push(HelpRow::Entry("m M", "mark / clear all"));
    if preview {
        rows.push(HelpRow::Entry("p", "preview off"));
        rows.push(HelpRow::Entry("r", "mark read"));
    } else {
        rows.push(HelpRow::Entry("p", "preview"));
    }
    rows.push(HelpRow::Entry("d", "terminate pane"));
    rows.push(HelpRow::Entry("?", "this help"));
    rows.push(HelpRow::Entry("esc", "exit"));
    rows
}

fn search_help_lines() -> (r: Vec<HelpRow>)
    ensures
        views(r@) == search_help(),
{
    let mut rows = keys();
    rows.push(HelpRow::Entry("j k", "move cursor"));
    rows.push(HelpRow::Entry("shift+tab", "move back"));
    rows.push(HelpRow::Entry("i", "edit query"));
    rows.push(HelpRow::Entry("type", "filter panes"));
    rows.push(HelpRow::Entry("backspace", "delete char"));
    rows.push(HelpRow::Entry("alt+m", "mark"));
    rows.push(HelpRow::Entry("alt+p", "preview"));
    rows.push(HelpRow::Entry("enter", "jump & exit"));
    rows.push(HelpRow::Entry("esc", "cancel search"));
    rows.push(HelpRow::Entry("?", "this help"));
    rows
}

fn jump_help_lines() -> (r: Vec<HelpRow>)
    ensures
        views(r@) == jump_help(),
{
    let mut rows = keys();
    rows.push(HelpRow::Entry("0-9", "narrow & jump"));
    rows.push(HelpRow::Entry("backspace", "delete digit"));
    rows.push(HelpRow::Entry("esc", "back to tree"));
    rows.push(HelpRow::Entry("?", "this help"));
    rows
}

fn triage_help_lines() -> (r: Vec<HelpRow>)
    ensures
        views(r@) == triage_help(),
{
    let mut rows = keys();
    rows.push(HelpRow::Entry("j k", "move"));
    rows.push(HelpRow::Entry("g G", "top / bottom"));
    rows.push(HelpRow::Entry("enter", "jump & exit"));
    rows.push(HelpRow::Entry("m M", "mark / clear all"));
    rows.push(HelpRow::Entry("p", "preview"));
    rows.push(HelpRow::Entry("r", "mark read"));
    rows.push(HelpRow::Entry("?", "this help"));
    rows.push(HelpRow::Entry("esc", "back to tree"));
    rows
}

fn termination_help_lines() -> (r: Vec<HelpRow>)
    ensures
        views(r@) == termination_help(),
{
    let mut rows = keys();
    rows.push(HelpRow::Entry("c", "close pane"));
    rows.push(HelpRow::Entry("k", "kill process"));
    rows.push(HelpRow::Entry("x", "kill & close"));
    rows.push(HelpRow::Entry("esc", "cancel"));
    rows.push(HelpRow::Entry("?", "this help"));
    rows
}

/// The legend of the status icons.
pub fn status_legend() -> (r: Vec<HelpRow>)
    ensures
        views(r@) == legend_rows(),
{
    let mut rows: Vec<HelpRow> = Vec::new();
    rows.push(HelpRow::Blank);
    rows.push(HelpRow::Section("status"));
    rows.push(HelpRow::Blank);
    rows.push(HelpRow::Legend(AgentState::Idle));
    rows.push(HelpRow::Legend(AgentState::Working));
    rows.push(HelpRow::Legend(AgentState::Blocked));
    rows.push(HelpRow::Legend(AgentState::Done));
    rows.push(HelpRow::Legend(AgentState::Error));
    rows.push(HelpRow::NoAgent);
    rows
}

impl State {
    /// The keys of the mode that is on.
    pub fn help_lines(&self) -> (r: Vec<HelpRow>)
        ensures
            views(r@) == self@.help_rows(),
    {
        if self.nav.triage.is_some() {
            triage_help_lines()
        } else if self.nav.termination.is_some() {
            termination_help_lines()
        } else if self.nav.jump.is_some() {
            jump_help_lines()
        } else if self.nav.search.is_some() {
            search_help_lines()
        } else {
            tree_help_lines(self.nav.preview.is_some())
        }
    }

    /// The keys of the formation prompt.
    pub fn formation_prompt_help_lines(&self) -> (r: Vec<HelpRow>)
        ensures
            views(r@) == formation_help(self@.nav.formation_prompt),
    {
        let mut rows = keys();
        let pick = match &self.nav.formation_prompt {
            Some(prompt) => matches!(prompt, FormationPrompt::Pick(_)),
            None => false,
        };
        if pick {
            rows.push(HelpRow::Entry("1-9", "pick formation"));
            rows.push(HelpRow::Entry("n", "new formation"));
            rows.push(HelpRow::Entry("esc", "cancel"));
            rows.push(HelpRow::Entry("?", "this help"));
        } else {
            rows.push(HelpRow::Entry("type", "formation name"));
            rows.push(HelpRow::Entry("backspace", "delete char"));
            rows.push(HelpRow::Entry("enter", "confirm"));
            rows.push(HelpRow::Entry("esc", "cancel"));
            rows.push(HelpRow::Entry("?", "this help"));
        }
        rows
    }
}

// --- the rows as lines ---

/// The columns between the keys and what they do.
pub const HELP_KEY_GAP: usize = 2;

/// The spaces behind keys in their column; at least one.
pub open spec fn key_pad(keys: Seq<char>, column: nat) -> nat {
    if less(column, width_of(keys)) > 1 {
        less(column, width_of(keys))
    } else {
        1
    }
}

/// The columns of the widest keys.
pub open spec fn widest_keys(rows: Seq<HelpRowV>) -> nat
    decreases rows.len(),
{
    if rows.len() == 0 {
        0
    } else {
        let front = widest_keys(rows.drop_last());
        match rows.last() {
            HelpRowV::Entry(keys, _) => if front < width_of(keys) {
                width_of(keys)
            } else {
                front
            },
            _ => front,
        }
    }
}

/// Something in the column of the keys, and its description.
pub open spec fn explained(
    keys: Seq<char>,
    ink: Ink,
    text: Seq<char>,
    column: nat,
    cols: nat,
) -> LineV {
    composed(
        seq![
            (spaces(HELP_INDENT as nat), Ink::Plain),
            (keys, ink),
            (spaces(key_pad(keys, column)), Ink::Plain),
            (text, Ink::Plain),
        ],
        cols,
    )
}

impl StateV {
    /// The column of the keys, as wide as the widest of them.
    pub open spec fn help_key_column(self) -> nat {
        capped(widest_keys(self.help_rows()) + HELP_KEY_GAP as nat)
    }

    pub open spec fn help_line(self, row: HelpRowV, cols: nat) -> LineV {
        let column = self.help_key_column();
        match row {
            HelpRowV::Section(label) => composed(
                seq![(spaces(HELP_INDENT as nat), Ink::Plain), (label, Ink::Muted)],
                cols,
            ),
            HelpRowV::Entry(keys, text) => explained(keys, Ink::Key, text, column, cols),
            HelpRowV::Legend(state) => explained(
                state.icon_text(),
                Ink::Accent(state.level()),
                state.name(),
                column,
                cols,
            ),
            HelpRowV::NoAgent => explained(
                NO_AGENT_ICON@,
                Ink::Plain,
                NO_AGENT_LABEL@,
                column,
                cols,
            ),
            HelpRowV::Blank => LineV::plain(Seq::empty()),
        }
    }
}

/// The spaces behind keys in their column.
pub fn help_key_pad(keys: &str, column: usize) -> (r: usize)
    ensures
        r == key_pad(keys@, column as nat),
{
    let pad = column.saturating_sub(display_width(keys));
    if pad > 1 {
        pad
    } else {
        1
    }
}

fn explained_line(keys: &str, ink: Ink, text: &str, column: usize, cols: usize) -> (r: Line)
    ensures
        r@ == explained(keys@, ink, text@, column as nat, cols as nat),
{
    let indent = repeat(' ', HELP_INDENT);
    let gap = repeat(' ', help_key_pad(keys, column));
    let mut segments: Vec<(&str, Ink)> = Vec::new();
    segments.push((indent.as_str(), Ink::Plain));
    segments.push((keys, ink));
    segments.push((gap.as_str(), Ink::Plain));
    segments.push((text, Ink::Plain));
    assert(inked(segments@) =~= seq![
        (indent@, Ink::Plain),
        (keys@, ink),
        (gap@, Ink::Plain),
        (text@, Ink::Plain),
    ]);
    compose(&segments, cols)
}

impl State {
    fn help_key_column(&self) -> (r: usize)
        ensures
            r == self@.help_key_column(),
    {
        let rows = self.help_lines();
        let ghost v = views(rows@);
        let mut widest: usize = 0;
        let mut i: usize = 0;
        assert(v.take(0) =~= Seq::empty());
        while i < rows.len()
            invariant
                i <= rows.len(),
                v == views(rows@),
                widest == widest_keys(v.take(i as int)),
            decreases rows.len() - i,
        {
            assert(v.take(i + 1).drop_last() =~= v.take(i as int));
            assert(v.take(i + 1).last() == rows[i as int]@);
            if let HelpRow::Entry(keys, _) = rows[i] {
                let width = display_width(keys);
                if widest < width {
                    widest = width;
                }
            }
            i += 1;
        }
        assert(v.take(i as int) =~= v);
        widest.saturating_add(HELP_KEY_GAP)
    }

    /// A row of the overlay.
    pub fn help_line(&self, row: &HelpRow, cols: usize) -> (r: Line)
        ensures
            r@ == self@.help_line(row@, cols as nat),
    {
        let column = self.help_key_column();
        match *row {
            HelpRow::Section(label) => {
                let indent = repeat(' ', HELP_INDENT);
                let mut segments: Vec<(&str, Ink)> = Vec::new();
                segments.push((indent.as_str(), Ink::Plain));
                segments.push((label, Ink::Muted));
                assert(inked(segments@) =~= seq![(indent@, Ink::Plain), (label@, Ink::Muted)]);
                compose(&segments, cols)
            },
            HelpRow::Entry(keys, text) => explained_line(keys, Ink::Key, text, column, cols),
            HelpRow::Legend(state) => explained_line(
                state.icon(),
                Ink::Accent(state.color()),
                state.label(),
                column,
                cols,
            ),
            HelpRow::NoAgent => explained_line(
                NO_AGENT_ICON,
                Ink::Plain,
                NO_AGENT_LABEL,
                column,
                cols,
            ),
            HelpRow::Blank => Line { text: String::new(), decorations: Vec::new() },
        }
    }
}

// --- laws ---

proof fn lemma_widest_keys(rows: Seq<HelpRowV>, i: int)
    requires
        0 <= i < rows.len(),
        rows[i] is Entry,
    ensures
        width_of(rows[i]->Entry_0) <= widest_keys(rows),
    decreases rows.len(),
{
    if i < rows.len() - 1 {
        assert(rows.drop_last()[i] == rows[i]);
        lemma_widest_keys(rows.drop_last(), i);
    }
}

/// All descriptions of a key list start in the same column, two columns behind the widest keys.
pub proof fn law_help_is_aligned(s: StateV, i: int)
    requires
        0 <= i < s.help_rows().len(),
        s.help_rows()[i] is Entry,
    ensures
        s.help_key_column() < usize::MAX ==> width_of(s.help_rows()[i]->Entry_0) + key_pad(
            s.help_rows()[i]->Entry_0,
            s.help_key_column(),
        ) == s.help_key_column(),
{
    lemma_widest_keys(s.help_rows(), i);
}

} // verus!
