//! The header: the name of the plugin, the mode, and the troops of a running deployment.

use vstd::prelude::*;

use crate::deploy::TROOP;
use crate::ids::{group_views, views};
use crate::line::{
    capped, compose, composed, content_cols, content_width, inked, less, Ink, Line, LineV,
};
use crate::state::{State, StateV};
use crate::text::{repeat, spaces};
use crate::width::{display_width, width_of};

verus! {

broadcast use group_views;

/// The colour of nav mode and search.
pub const NAV_LEVEL: usize = 2;

/// The colour of triage mode.
pub const TRIAGE_LEVEL: usize = 0;

/// The colour of warnings and of the prompt before something ends.
pub const TERMINATION_LEVEL: usize = 6;

/// The colour of the troops.
pub const TROOP_LEVEL: usize = 2;

/// The columns between the header's text and the place where troops start.
pub const LAUNCH_GAP: usize = 1;

/// The columns that the pieces take together.
pub open spec fn width_sum(pieces: Seq<(Seq<char>, Ink)>) -> nat
    decreases pieces.len(),
{
    if pieces.len() == 0 {
        0
    } else {
        width_sum(pieces.drop_last()) + width_of(pieces.last().0)
    }
}

/// The spaces in front of each troop, with the text in front of the first ending at `start`.
pub open spec fn troop_gaps(columns: Seq<usize>, start: nat) -> Seq<Seq<char>> {
    Seq::new(
        columns.len(),
        |i: int|
            spaces(
                less(
                    columns[i] as nat,
                    if i == 0 {
                        start
                    } else {
                        capped(columns[i - 1] as nat + width_of(TROOP@))
                    },
                ),
            ),
    )
}

/// The troops with the spaces in front of them.
pub open spec fn troop_pieces(gaps: Seq<Seq<char>>) -> Seq<(Seq<char>, Ink)>
    decreases gaps.len(),
{
    if gaps.len() == 0 {
        Seq::empty()
    } else {
        troop_pieces(gaps.drop_last()).push((gaps.last(), Ink::Plain)).push(
            (TROOP@, Ink::Accent(TROOP_LEVEL)),
        )
    }
}

impl StateV {
    /// The colour that tells the mode, in the header and the footer.
    pub open spec fn state_ink(self) -> Ink {
        if self.nav.termination is Some || self.showing_config_warning() {
            Ink::Accent(TERMINATION_LEVEL)
        } else if self.nav.triage is Some {
            Ink::Accent(TRIAGE_LEVEL)
        } else if self.nav.nav_mode || self.nav.search is Some {
            Ink::Accent(NAV_LEVEL)
        } else {
            Ink::Muted
        }
    }

    /// The name of the mode.
    pub open spec fn mode_label(self) -> Option<Seq<char>> {
        if self.nav.triage is Some {
            Some("[tri]"@)
        } else if self.nav.nav_mode || self.nav.search is Some {
            Some("[nav]"@)
        } else {
            None
        }
    }

    /// The header's text.
    pub open spec fn header_pieces(self) -> Seq<(Seq<char>, Ink)> {
        seq![("▲"@, self.state_ink()), (" fujin"@, Ink::Muted)] + match self.mode_label() {
            Some(label) => seq![("  "@, Ink::Plain), (label, self.state_ink())],
            None => Seq::empty(),
        }
    }

    pub open spec fn header_width(self) -> nat {
        capped(width_sum(self.header_pieces()))
    }

    /// Where troops start, and the columns that they have.
    pub open spec fn troop_field(self, cols: nat) -> (nat, nat) {
        (capped(self.header_width() + LAUNCH_GAP as nat), content_width(cols))
    }

    /// The columns of the troops on screen.
    pub open spec fn troop_columns(self, cols: nat) -> Seq<usize> {
        match self.clock.deployment {
            Some(d) => d.places(
                d.troops as nat,
                self.troop_field(cols).0,
                self.troop_field(cols).1,
            ),
            None => Seq::empty(),
        }
    }

    pub open spec fn header(self, cols: nat) -> LineV {
        composed(
            self.header_pieces() + troop_pieces(
                troop_gaps(self.troop_columns(cols), self.header_width()),
            ),
            content_width(cols),
        )
    }
}

impl State {
    /// The colour that tells the mode.
    pub fn state_ink(&self) -> (r: Ink)
        ensures
            r == self@.state_ink(),
    {
        if self.nav.termination.is_some() || self.showing_config_warning() {
            Ink::Accent(TERMINATION_LEVEL)
        } else if self.nav.triage.is_some() {
            Ink::Accent(TRIAGE_LEVEL)
        } else if self.nav.nav_mode || self.nav.search.is_some() {
            Ink::Accent(NAV_LEVEL)
        } else {
            Ink::Muted
        }
    }

    fn mode_label(&self) -> (r: Option<&'static str>)
        ensures
            r is Some == self@.mode_label() is Some,
            r is Some ==> r->0@ == self@.mode_label()->0,
    {
        if self.nav.triage.is_some() {
            Some("[tri]")
        } else if self.nav.nav_mode || self.nav.search.is_some() {
            Some("[nav]")
        } else {
            None
        }
    }

    fn header_segments(&self) -> (r: Vec<(&'static str, Ink)>)
        ensures
            inked(r@) == self@.header_pieces(),
    {
        let ink = self.state_ink();
        let mut segments: Vec<(&'static str, Ink)> = Vec::new();
        segments.push(("▲", ink));
        segments.push((" fujin", Ink::Muted));
        if let Some(label) = self.mode_label() {
            segments.push(("  ", Ink::Plain));
            segments.push((label, ink));
        }
        assert(inked(segments@) =~= self@.header_pieces());
        segments
    }

    fn header_width(&self) -> (r: usize)
        ensures
            r == self@.header_width(),
    {
        let segments = self.header_segments();
        let ghost v = self@.header_pieces();
        let mut width: usize = 0;
        let mut i: usize = 0;
        assert(v.take(0) =~= Seq::empty());
        while i < segments.len()
            invariant
                i <= segments.len(),
                v == inked(segments@),
                width == capped(width_sum(v.take(i as int))),
            decreases segments.len() - i,
        {
            assert(v.take(i + 1).drop_last() =~= v.take(i as int));
            assert(v.take(i + 1).last() == v[i as int]);
            assert(v[i as int].0 == segments@[i as int].0@);
            width = width.saturating_add(display_width(segments[i].0));
            i += 1;
        }
        assert(v.take(i as int) =~= v);
        width
    }

    /// Where troops start, and the columns that they have.
    pub fn troop_field(&self, cols: usize) -> (r: (usize, usize))
        ensures
            (r.0 as nat, r.1 as nat) == self@.troop_field(cols as nat),
    {
        (self.header_width().saturating_add(LAUNCH_GAP), content_cols(cols))
    }

    fn troop_pads(&self, cols: usize) -> (r: Vec<String>)
        ensures
            views(r@) == troop_gaps(self@.troop_columns(cols as nat), self@.header_width()),
    {
        let mut pads: Vec<String> = Vec::new();
        let deployment = match self.clock.deployment {
            Some(deployment) => deployment,
            None => {
                assert(views(pads@) =~= troop_gaps(Seq::empty(), self@.header_width()));
                return pads;
            },
        };
        let (launch, width) = self.troop_field(cols);
        let columns = deployment.columns(launch, width);
        let start = self.header_width();
        let troop = display_width(TROOP);
        let ghost gaps = troop_gaps(columns@, start as nat);
        let mut x = start;
        let mut i: usize = 0;
        while i < columns.len()
            invariant
                i <= columns.len(),
                gaps == troop_gaps(columns@, start as nat),
                troop == width_of(TROOP@),
                i == 0 ==> x == start,
                i > 0 ==> x == capped(columns@[i - 1] as nat + width_of(TROOP@)),
                views(pads@) == gaps.take(i as int),
            decreases columns.len() - i,
        {
            let pad = repeat(' ', columns[i].saturating_sub(x));
            assert(pad@ == gaps[i as int]);
            pads.push(pad);
            assert(gaps.take(i + 1) =~= gaps.take(i as int).push(gaps[i as int]));
            x = columns[i].saturating_add(troop);
            i += 1;
        }
        assert(gaps.take(i as int) =~= gaps);
        pads
    }

    /// The header.
    pub fn header_line(&self, cols: usize) -> (r: Line)
        ensures
            r@ == self@.header(cols as nat),
            width_of(r@.text) <= content_width(cols as nat),
    {
        let pads = self.troop_pads(cols);
        let ghost gaps = views(pads@);
        let ghost head = self@.header_pieces();
        let mut segments: Vec<(&str, Ink)> = self.header_segments();
        let mut i: usize = 0;
        assert(gaps.take(0) =~= Seq::empty());
        assert(inked(segments@) =~= head + troop_pieces(gaps.take(0)));
        while i < pads.len()
            invariant
                i <= pads.len(),
                gaps == views(pads@),
                inked(segments@) == head + troop_pieces(gaps.take(i as int)),
            decreases pads.len() - i,
        {
            assert(gaps.take(i + 1).drop_last() =~= gaps.take(i as int));
            assert(gaps.take(i + 1).last() == pads[i as int]@);
            let ghost before = inked(segments@);
            segments.push((pads[i].as_str(), Ink::Plain));
            segments.push((TROOP, Ink::Accent(TROOP_LEVEL)));
            assert(inked(segments@) =~= before.push((pads[i as int]@, Ink::Plain)).push(
                (TROOP@, Ink::Accent(TROOP_LEVEL)),
            ));
            assert(inked(segments@) =~= head + troop_pieces(gaps.take(i + 1)));
            i += 1;
        }
        assert(gaps.take(i as int) =~= gaps);
        compose(&segments, content_cols(cols))
    }
}

// --- laws ---

/// When the troops are gone the header is what it was before they came.
pub proof fn law_header_returns(before: StateV, after: StateV, cols: nat)
    requires
        before.clock.deployment is None,
        after == before.with_deployment(after.clock.deployment),
    ensures
        after.with_deployment(None).header(cols) == before.header(cols),
{
    assert(after.with_deployment(None) == before);
}

} // verus!
