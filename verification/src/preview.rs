//! The preview: a floating instance that shows the text of the highlighted pane.

use vstd::prelude::*;

use crate::host::{entries, Coordinates, Extent, HostCall, HostCallV, Opening, PaneId};
use crate::ids::{group_views, opt_view, views};
use crate::summon::SIDEBAR_WIDTH;
use crate::state::{NavV, ScreenV, Selectable, SelectableV, State, StateV};
use crate::text::{
    chars_of, ends_in_cr, first_index, is_blank, join, joined, lemma_lines_of_joined, lemma_until_prefix,
    lines, lines_of, slice_of, trimmed, until,
};
use crate::triage::{lemma_place_of_is, place_of};


verus! {

broadcast use group_views;

/// The configuration entry of an instance that only draws a preview.
pub const PREVIEW_KEY: &'static str = "preview";

pub const PREVIEW_WIDTH_PERCENT: usize = 35;

/// Shown in place of a text that could not be read.
pub const UNAVAILABLE: &'static str = "(scrollback unavailable)";

#[derive(Debug, Clone, Copy, PartialEq, Eq, Structural)]
pub struct PreviewState {
    /// The preview's plugin pane, once it is open.
    pub pane: Option<u32>,
    /// The pane was asked for and its id is not known yet.
    pub opening: bool,
    /// The pane whose text was sent last.
    pub target: Option<u32>,
}

/// What a preview instance draws.
#[derive(Debug)]
pub struct PreviewContent {
    pub title: String,
    pub lines: Vec<String>,
}

#[verifier::ext_equal]
pub struct PreviewContentV {
    pub title: Seq<char>,
    pub lines: Seq<Seq<char>>,
}

impl View for PreviewContent {
    type V = PreviewContentV;

    open spec fn view(&self) -> PreviewContentV {
        PreviewContentV { title: self.title@, lines: views(self.lines@) }
    }
}

/// Right of the sidebar, over the whole height.
pub open spec fn preview_place() -> Coordinates {
    Coordinates {
        x: SIDEBAR_WIDTH,
        y: 0,
        width: Extent::Percent(PREVIEW_WIDTH_PERCENT),
        height: Extent::Percent(100),
        pinned: true,
    }
}

fn preview_coordinates() -> (r: Coordinates)
    ensures
        r == preview_place(),
{
    Coordinates {
        x: SIDEBAR_WIDTH,
        y: 0,
        width: Extent::Percent(PREVIEW_WIDTH_PERCENT),
        height: Extent::Percent(100),
        pinned: true,
    }
}

impl StateV {
    pub open spec fn with_preview(self, preview: Option<PreviewState>) -> StateV {
        StateV { nav: NavV { preview, ..self.nav }, ..self }
    }

    /// The cwd that stands in for the name of a pane without one.
    pub open spec fn title_fallback(self, entry: SelectableV) -> Option<Seq<char>> {
        if trimmed(entry.title).len() == 0 && self.list.pane_cwds.contains_key(entry.pane_id) {
            Some(self.list.pane_cwds[entry.pane_id])
        } else {
            None
        }
    }

    /// The name that a pane is shown under.
    pub open spec fn display_title(self, entry: SelectableV) -> Seq<char> {
        match self.title_fallback(entry) {
            Some(cwd) => cwd,
            None => entry.title,
        }
    }

    /// The name of the previewed pane; empty where it left the list.
    pub open spec fn preview_title(self, target: u32) -> Seq<char> {
        let n = place_of(self.list.selectable, target);
        if n < self.list.selectable.len() {
            self.display_title(self.list.selectable[n as int])
        } else {
            Seq::empty()
        }
    }

    pub open spec fn toggle_preview(self) -> StateV {
        if self.nav.preview is Some {
            self.close_preview()
        } else {
            self.with_preview(
                Some(PreviewState { pane: None, opening: false, target: None }),
            ).refresh_preview()
        }
    }

    pub open spec fn close_preview(self) -> StateV {
        match self.nav.preview {
            None => self,
            Some(preview) => {
                let s = self.with_preview(None);
                match preview.pane {
                    Some(id) => s.asks(HostCallV::ClosePluginPane(id)),
                    None => s,
                }
            },
        }
    }

    /// Asks for the preview's pane unless it is there or under way.
    pub open spec fn open_preview_pane(self) -> StateV {
        match self.nav.preview {
            None => self,
            Some(preview) => if preview.pane is Some || preview.opening
                || self.me.own_plugin_url is None {
                self
            } else {
                self.with_preview(Some(PreviewState { opening: true, ..preview })).asks(
                    HostCallV::OpenFloating(
                        self.me.own_plugin_url->0,
                        seq![(PREVIEW_KEY@, "true"@)],
                        preview_place(),
                        Opening::Preview,
                    ),
                )
            },
        }
    }

    /// The preview shows the highlighted pane: its text is sent once, when it changes.
    pub open spec fn follow_preview(self) -> StateV {
        match (self.nav.preview, self.highlighted()) {
            (Some(preview), Some(target)) => if preview.target == Some(target) {
                self
            } else {
                let s = self.with_preview(Some(PreviewState { target: Some(target), ..preview }));
                match preview.pane {
                    Some(pane) => s.asks(
                        HostCallV::SendSnapshot(target, pane, self.preview_title(target)),
                    ),
                    None => s,
                }
            },
            _ => self,
        }
    }

    /// Opens the preview's pane if need be, and shows the highlighted pane in it. While a
    /// number is typed no pane is the target, so the preview stays as it is.
    pub open spec fn refresh_preview(self) -> StateV {
        if self.nav.preview is None || self.nav.jump is Some {
            self
        } else {
            let s = self.open_preview_pane();
            if s.nav.preview->0.opening {
                s
            } else {
                s.follow_preview()
            }
        }
    }

    /// The host opened the pane that was asked for, or failed to.
    pub open spec fn preview_opened(self, opened: Option<PaneId>) -> StateV {
        match self.nav.preview {
            None => match opened {
                Some(PaneId::Plugin(id)) => self.asks(HostCallV::ClosePluginPane(id)),
                _ => self,
            },
            Some(preview) => {
                let s = match opened {
                    Some(PaneId::Plugin(id)) => {
                        let placed = self.with_preview(
                            Some(PreviewState { pane: Some(id), opening: false, ..preview }),
                        ).asks(HostCallV::ChangeCoordinates(PaneId::Plugin(id), preview_place()));
                        match self.me.own_plugin_id {
                            Some(own) => placed.asks(HostCallV::FocusPluginPane(own)),
                            None => placed,
                        }
                    },
                    _ => self.with_preview(Some(PreviewState { opening: false, ..preview })),
                };
                s.follow_preview()
            },
        }
    }

    /// The user says that a pane was seen; the siblings learn of it.
    pub open spec fn read_pane(self, pane_id: u32) -> StateV {
        let s = self.with_status(self.status.read(pane_id, true));
        if self.status.unread(pane_id, true) {
            s.broadcasts_reads(seq![pane_id])
        } else {
            s
        }
    }

    /// Marks the previewed pane as read. Without a preview the key has no meaning.
    pub open spec fn mark_preview_read(self) -> StateV {
        if self.nav.preview is None {
            self.leave_nav_mode()
        } else {
            match self.highlighted() {
                Some(id) => self.read_pane(id),
                None => self,
            }
        }
    }

    /// The plugin pane is the preview that this instance opened.
    pub open spec fn is_preview_pane(self, id: u32) -> bool {
        self.nav.preview is Some && self.nav.preview->0.pane == Some(id)
    }

    /// The text of a pane arrives at the preview: a title line, then the content.
    pub open spec fn apply_preview_snapshot(self, raw: Seq<char>) -> StateV {
        let n = until(raw, '\n');
        let content = if n < raw.len() {
            PreviewContentV { title: raw.take(n as int), lines: lines_of(raw.skip(n as int + 1)) }
        } else {
            PreviewContentV { title: raw, lines: Seq::empty() }
        };
        StateV { screen: ScreenV { preview_content: content, ..self.screen }, ..self }
    }
}

/// The message that carries the text of a pane to the preview.
pub open spec fn snapshot_text(title: Seq<char>, viewport: Option<Seq<Seq<char>>>) -> Seq<char> {
    title.push('\n') + match viewport {
        Some(rows) => joined(rows, "\n"@),
        None => UNAVAILABLE@,
    }
}

/// Makes the message of a snapshot: the pane's visible rows, or word that there are none.
pub fn snapshot_payload(title: &str, viewport: &Option<Vec<String>>) -> (r: String)
    ensures
        r@ == snapshot_text(
            title@,
            match viewport {
                Some(rows) => Some(views(rows@)),
                None => None,
            },
        ),
{
    let mut out = title.to_owned();
    out.push('\n');
    match viewport {
        Some(rows) => {
            let body = join(rows, "\n");
            out.push_str(body.as_str());
        },
        None => out.push_str(UNAVAILABLE),
    }
    out
}

/// The number of lines up to and with the last one that is not blank.
pub open spec fn used_lines(s: Seq<Seq<char>>) -> nat
    decreases s.len(),
{
    if s.len() == 0 || trimmed(s.last()).len() > 0 {
        s.len()
    } else {
        used_lines(s.drop_last())
    }
}

/// The last lines that fit the height, blank lines at the end aside.
pub open spec fn body_lines(s: Seq<Seq<char>>, area: nat) -> Seq<Seq<char>> {
    let end = used_lines(s);
    let start = if end > area {
        end - area
    } else {
        0
    };
    s.subrange(start as int, end as int)
}

proof fn lemma_used_lines(s: Seq<Seq<char>>, n: int)
    requires
        0 <= n <= s.len(),
        forall|j: int| n <= j < s.len() ==> trimmed(#[trigger] s[j]).len() == 0,
        n > 0 ==> trimmed(s[n - 1]).len() > 0,
    ensures
        used_lines(s) == n,
    decreases s.len() - n,
{
    if n < s.len() {
        assert(trimmed(s[s.len() - 1]).len() == 0);
        let front = s.drop_last();
        assert forall|j: int| n <= j < front.len() implies trimmed(#[trigger] front[j]).len()
            == 0 by {
            assert(front[j] == s[j]);
        }
        lemma_used_lines(front, n);
    }
}

impl State {
    pub fn toggle_preview(&mut self)
        ensures
            final(self)@ == old(self)@.toggle_preview(),
    {
        if self.nav.preview.is_some() {
            self.close_preview();
            return ;
        }
        self.nav.preview = Some(PreviewState { pane: None, opening: false, target: None });
        self.refresh_preview();
    }

    pub fn refresh_preview(&mut self)
        ensures
            final(self)@ == old(self)@.refresh_preview(),
    {
        if self.nav.preview.is_none() || self.nav.jump.is_some() {
            return ;
        }
        self.open_preview_pane();
        if let Some(preview) = self.nav.preview {
            if !preview.opening {
                self.follow_preview();
            }
        }
    }

    fn follow_preview(&mut self)
        ensures
            final(self)@ == old(self)@.follow_preview(),
    {
        let preview = match self.nav.preview {
            Some(preview) => preview,
            None => {
                return ;
            },
        };
        if let Some(target) = self.highlighted_pane() {
            let shown = match preview.target {
                Some(shown) => shown == target,
                None => false,
            };
            if shown {
                return ;
            }
            let title = self.preview_title(target);
            self.nav.preview = Some(
                PreviewState {
                    pane: preview.pane,
                    opening: preview.opening,
                    target: Some(target),
                },
            );
            if let Some(pane) = preview.pane {
                self.ask(HostCall::SendSnapshot(target, pane, title));
            }
        }
    }

    pub fn close_preview(&mut self)
        ensures
            final(self)@ == old(self)@.close_preview(),
    {
        if let Some(preview) = self.nav.preview {
            self.nav.preview = None;
            if let Some(id) = preview.pane {
                self.ask(HostCall::ClosePluginPane(id));
            }
        }
    }

    fn open_preview_pane(&mut self)
        ensures
            final(self)@ == old(self)@.open_preview_pane(),
    {
        let preview = match self.nav.preview {
            Some(preview) => preview,
            None => {
                return ;
            },
        };
        if preview.pane.is_some() || preview.opening {
            return ;
        }
        let url = match &self.me.own_plugin_url {
            Some(url) => url.clone(),
            None => {
                return ;
            },
        };
        let mut config: Vec<(&'static str, &'static str)> = Vec::new();
        config.push((PREVIEW_KEY, "true"));
        assert(entries(config@) =~= seq![(PREVIEW_KEY@, "true"@)]);
        self.nav.preview = Some(
            PreviewState { pane: preview.pane, opening: true, target: preview.target },
        );
        self.ask(HostCall::OpenFloating(url, config, preview_coordinates(), Opening::Preview));
    }

    pub fn mark_preview_read(&mut self)
        ensures
            final(self)@ == old(self)@.mark_preview_read(),
    {
        if self.nav.preview.is_none() {
            self.leave_nav_mode();
            return ;
        }
        if let Some(pane_id) = self.highlighted_pane() {
            self.read_pane(pane_id);
        }
    }

    fn read_pane(&mut self, pane_id: u32)
        ensures
            final(self)@ == old(self)@.read_pane(pane_id),
    {
        if self.mark_pane_read(pane_id, true) {
            let mut ids: Vec<u32> = Vec::new();
            ids.push(pane_id);
            assert(ids@ =~= seq![pane_id]);
            self.broadcast_read_clears(&ids);
        }
    }

    /// Takes the answer to the request for the preview's pane. The focus goes back to the
    /// sidebar, which holds it in nav mode.
    pub fn preview_opened(&mut self, opened: Option<PaneId>)
        ensures
            final(self)@ == old(self)@.preview_opened(opened),
    {
        let preview = match self.nav.preview {
            Some(preview) => preview,
            None => {
                if let Some(PaneId::Plugin(id)) = opened {
                    self.ask(HostCall::ClosePluginPane(id));
                }
                return ;
            },
        };
        match opened {
            Some(PaneId::Plugin(id)) => {
                self.nav.preview = Some(
                    PreviewState { pane: Some(id), opening: false, target: preview.target },
                );
                self.ask(HostCall::ChangeCoordinates(PaneId::Plugin(id), preview_coordinates()));
                if let Some(own) = self.me.own_plugin_id {
                    self.ask(HostCall::FocusPluginPane(own));
                }
            },
            _ => {
                self.nav.preview = Some(
                    PreviewState {
                        pane: preview.pane,
                        opening: false,
                        target: preview.target,
                    },
                );
            },
        }
        self.follow_preview();
    }

    /// The index of a pane in the list.
    pub fn index_of_pane(&self, pane_id: u32) -> (r: Option<usize>)
        ensures
            r == (if place_of(self@.list.selectable, pane_id) < self@.list.selectable.len() {
                Some(place_of(self@.list.selectable, pane_id) as usize)
            } else {
                None
            }),
            r is Some ==> r->0 < self.list.selectable.len()
                && self.list.selectable[r->0 as int].pane_id == pane_id,
    {
        let ghost v = self@.list.selectable;
        let mut i: usize = 0;
        while i < self.list.selectable.len()
            invariant
                i <= self.list.selectable.len(),
                v == self@.list.selectable,
                forall|j: int| 0 <= j < i ==> (#[trigger] v[j]).pane_id != pane_id,
            decreases self.list.selectable.len() - i,
        {
            assert(v[i as int] == self.list.selectable[i as int]@);
            if self.list.selectable[i].pane_id == pane_id {
                proof {
                    lemma_place_of_is(v, pane_id, i as int);
                }
                return Some(i);
            }
            i += 1;
        }
        proof {
            lemma_place_of_is(v, pane_id, v.len() as int);
        }
        None
    }

    pub fn title_fallback(&self, entry: &Selectable) -> (r: Option<&String>)
        ensures
            opt_view(r) == self@.title_fallback(entry@),
    {
        if is_blank(entry.title.as_str()) {
            self.list.pane_cwds.get(&entry.pane_id)
        } else {
            None
        }
    }

    pub fn display_title(&self, entry: &Selectable) -> (r: String)
        ensures
            r@ == self@.display_title(entry@),
    {
        match self.title_fallback(entry) {
            Some(cwd) => cwd.clone(),
            None => entry.title.clone(),
        }
    }

    fn preview_title(&self, target: u32) -> (r: String)
        ensures
            r@ == self@.preview_title(target),
    {
        match self.index_of_pane(target) {
            Some(i) => self.display_title(&self.list.selectable[i]),
            None => String::new(),
        }
    }

    pub fn is_preview_pane(&self, plugin_id: u32) -> (r: bool)
        ensures
            r == self@.is_preview_pane(plugin_id),
    {
        match self.nav.preview {
            Some(preview) => match preview.pane {
                Some(id) => id == plugin_id,
                None => false,
            },
            None => false,
        }
    }

    /// The receiving end of the preview pipe. Only an instance that draws a preview listens.
    pub fn handle_preview_pipe(&mut self, payload: Option<&str>) -> (r: bool)
        ensures
            r == (old(self)@.me.is_preview && payload is Some),
            final(self)@ == (if r {
                old(self)@.apply_preview_snapshot(payload->0@)
            } else {
                old(self)@
            }),
    {
        if !self.me.is_preview {
            return false;
        }
        match payload {
            Some(raw) => self.apply_preview_snapshot(raw),
            None => false,
        }
    }

    pub fn apply_preview_snapshot(&mut self, raw: &str) -> (r: bool)
        ensures
            final(self)@ == old(self)@.apply_preview_snapshot(raw@),
            r,
    {
        let chars = chars_of(raw);
        let n = first_index(&chars, '\n');
        if n < chars.len() {
            let title = slice_of(&chars, 0, n);
            let body = slice_of(&chars, n + 1, chars.len());
            assert(title@ =~= raw@.take(n as int));
            assert(body@ =~= raw@.skip(n as int + 1));
            self.screen.preview_content = PreviewContent { title, lines: lines(body.as_str()) };
        } else {
            self.screen.preview_content =
            PreviewContent { title: raw.to_owned(), lines: Vec::new() };
        }
        true
    }

    /// The range of snapshot lines that fit the height.
    pub fn preview_body(&self, area: usize) -> (r: (usize, usize))
        ensures
            r.0 <= r.1 <= self.screen.preview_content.lines.len(),
            self@.screen.preview_content.lines.subrange(r.0 as int, r.1 as int) == body_lines(
                self@.screen.preview_content.lines,
                area as nat,
            ),
    {
        let all = &self.screen.preview_content.lines;
        let ghost v = views(all@);
        let mut end: usize = all.len();
        while end > 0 && is_blank(all[end - 1].as_str())
            invariant
                end <= all.len(),
                v == views(all@),
                forall|j: int| end <= j < v.len() ==> trimmed(#[trigger] v[j]).len() == 0,
            decreases end,
        {
            assert(v[end - 1] == all[end - 1]@);
            end -= 1;
        }
        proof {
            if end > 0 {
                assert(v[end - 1] == all[end - 1]@);
            }
            lemma_used_lines(v, end as int);
        }
        let start: usize = if end > area {
            end - area
        } else {
            0
        };
        (start, end)
    }
}

/// The preview gets what was sent to it: the title and the rows of the snapshot, as long as
/// they are single lines. An empty last row is left out, as nothing of it is sent. Only a
/// carriage return at the end of a row before the last one would be lost on the way.
pub proof fn law_snapshot_round_trip(s: StateV, title: Seq<char>, rows: Seq<Seq<char>>)
    requires
        !title.contains('\n'),
        forall|i: int| 0 <= i < rows.len() ==> !(#[trigger] rows[i]).contains('\n'),
        forall|i: int| 0 <= i < rows.len() - 1 ==> !ends_in_cr(#[trigger] rows[i]),
    ensures
        s.apply_preview_snapshot(snapshot_text(title, Some(rows))).screen.preview_content == (
        PreviewContentV {
            title,
            lines: if rows.len() > 0 && rows.last().len() == 0 {
                rows.drop_last()
            } else {
                rows
            },
        }),
{
    let body = joined(rows, "\n"@);
    let raw = snapshot_text(title, Some(rows));
    lemma_until_prefix(title, '\n', body);
    assert(raw =~= title.push('\n') + body);
    assert(raw.take(title.len() as int) =~= title);
    assert(raw.skip(title.len() as int + 1) =~= body);
    if rows.len() > 0 {
        lemma_lines_of_joined(rows);
    } else {
        assert(lines_of(body) =~= rows);
    }
}

} // verus!
