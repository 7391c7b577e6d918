//! Following the real focus, and holding it while nav mode is on.

use vstd::prelude::*;

use crate::host::{HostCall, HostCallV, PaneId, PaneInfo, PaneInfoV, PaneManifest, PaneManifestV};
use crate::ids::{group_views, views};
use crate::state::{FocusV, State, StateV};
use crate::triage::{has_pane, place_of};

verus! {

broadcast use group_views;

/// The terminal pane that gets the focus back when nav mode ends.
#[derive(Debug, Clone, Copy, PartialEq, Eq, Structural)]
pub struct ParkedFocus {
    pub pane_id: u32,
    pub is_floating: bool,
    /// The focus was seen to have arrived at the sidebar. It moves asynchronously, so
    /// that it is elsewhere means nothing before.
    pub confirmed: bool,
}

/// The index of the first tab at this position; the length where there is none.
pub open spec fn tab_place(m: PaneManifestV, position: usize) -> nat
    decreases m.tabs.len(),
{
    if m.tabs.len() == 0 || m.tabs[0].position == position {
        0
    } else {
        1 + tab_place(PaneManifestV { tabs: m.tabs.drop_first() }, position)
    }
}

/// The panes of the tab at this position.
pub open spec fn panes_at(m: PaneManifestV, position: usize) -> Option<Seq<PaneInfoV>> {
    let n = tab_place(m, position);
    if n < m.tabs.len() {
        Some(m.tabs[n as int].panes)
    } else {
        None
    }
}

pub proof fn lemma_tab_place(m: PaneManifestV, position: usize, n: int)
    requires
        0 <= n <= m.tabs.len(),
        forall|j: int| 0 <= j < n ==> (#[trigger] m.tabs[j]).position != position,
        n < m.tabs.len() ==> m.tabs[n].position == position,
    ensures
        tab_place(m, position) == n,
    decreases n,
{
    if n > 0 {
        assert(m.tabs[0].position != position);
        let rest = PaneManifestV { tabs: m.tabs.drop_first() };
        assert forall|j: int| 0 <= j < n - 1 implies (#[trigger] rest.tabs[j]).position
            != position by {
            assert(rest.tabs[j] == m.tabs[j + 1]);
        }
        lemma_tab_place(rest, position, n - 1);
    }
}

impl PaneManifest {
    /// The index of the tab at this position.
    pub fn tab_index(&self, position: usize) -> (r: Option<usize>)
        ensures
            r == (if tab_place(self@, position) < self@.tabs.len() {
                Some(tab_place(self@, position) as usize)
            } else {
                None
            }),
            r is Some ==> r->0 < self.tabs.len() && views(self.tabs[r->0 as int].panes@)
                == panes_at(self@, position)->0,
            r is Some == panes_at(self@, position) is Some,
    {
        let ghost m = self@;
        let mut i: usize = 0;
        while i < self.tabs.len()
            invariant
                i <= self.tabs.len(),
                m == self@,
                forall|j: int| 0 <= j < i ==> (#[trigger] m.tabs[j]).position != position,
            decreases self.tabs.len() - i,
        {
            assert(m.tabs[i as int] == self.tabs[i as int]@);
            if self.tabs[i].position == position {
                proof {
                    lemma_tab_place(m, position, i as int);
                }
                return Some(i);
            }
            i += 1;
        }
        proof {
            lemma_tab_place(m, position, m.tabs.len() as int);
        }
        None
    }
}

/// A plugin pane with this id is among the panes.
pub open spec fn has_plugin(panes: Seq<PaneInfoV>, id: u32) -> bool {
    exists|i: int|
        0 <= i < panes.len() && (#[trigger] panes[i]).is_plugin && panes[i].id == id
}

/// The pane has the focus of its layer and is a terminal on show.
pub open spec fn focused_terminal(p: PaneInfoV) -> bool {
    !p.is_plugin && !p.is_suppressed && p.is_focused
}

/// The first focused terminal of the tiled layer.
pub open spec fn first_tiled(panes: Seq<PaneInfoV>) -> Option<u32>
    decreases panes.len(),
{
    if panes.len() == 0 {
        None
    } else if focused_terminal(panes[0]) && !panes[0].is_floating {
        Some(panes[0].id)
    } else {
        first_tiled(panes.drop_first())
    }
}

/// The last focused terminal of the floating layer.
pub open spec fn last_floating(panes: Seq<PaneInfoV>) -> Option<u32>
    decreases panes.len(),
{
    if panes.len() == 0 {
        None
    } else if focused_terminal(panes.last()) && panes.last().is_floating {
        Some(panes.last().id)
    } else {
        last_floating(panes.drop_last())
    }
}

impl StateV {
    pub open spec fn with_focus(self, focus: FocusV) -> StateV {
        StateV { focus, ..self }
    }

    /// This instance's pane is in the tab. An old report is good enough: a plugin pane
    /// does not change tabs.
    pub open spec fn owns_tab(self, position: usize) -> bool {
        &&& self.me.own_plugin_id is Some
        &&& self.list.panes is Some
        &&& panes_at(self.list.panes->0, position) is Some
        &&& has_plugin(panes_at(self.list.panes->0, position)->0, self.me.own_plugin_id->0)
    }

    /// Whether this is the one instance on screen, by the host's answer about the focus.
    pub open spec fn is_visible_instance(self, answer: Option<(usize, PaneId)>) -> bool {
        match answer {
            Some((tab, _)) => self.owns_tab(tab),
            None => self.me.visible,
        }
    }

    /// The working pane of a tab: the tiled layer goes before the floating one.
    pub open spec fn focused_terminal_in_tab(self, position: usize) -> Option<u32> {
        if self.list.panes is Some && panes_at(self.list.panes->0, position) is Some {
            let panes = panes_at(self.list.panes->0, position)->0;
            if first_tiled(panes) is Some {
                first_tiled(panes)
            } else {
                last_floating(panes)
            }
        } else {
            None
        }
    }

    /// The selection follows a focus that moved; in nav mode it belongs to the user.
    pub open spec fn focus_to_follow(self, focused: Option<u32>, force: bool) -> Option<u32> {
        if self.nav.nav_mode || (!force && focused == self.focus.focused_pane) {
            None
        } else {
            focused
        }
    }

    /// The user took the focus that the sidebar holds.
    pub open spec fn park_taken_over(self, own_pane_focused: bool) -> bool {
        self.focus.focus_parked is Some && self.focus.focus_parked->0.confirmed
            && !own_pane_focused
    }

    pub open spec fn pane_is_floating(self, pane_id: u32) -> bool {
        let n = place_of(self.list.selectable, pane_id);
        n < self.list.selectable.len() && self.list.selectable[n as int].is_floating
    }

    /// Takes the focus to the sidebar for nav mode, if a terminal pane has it.
    pub open spec fn park_focus(self) -> StateV {
        match (self.focus.focused_pane, self.me.own_plugin_id) {
            (Some(pane_id), Some(own)) => if self.me.summoned || self.focus.focus_parked is Some
                || !self.focus.focus_on_terminal {
                self
            } else {
                self.asks(HostCallV::SetSelectable(true)).asks(
                    HostCallV::FocusPluginPane(own),
                ).with_focus(
                    FocusV {
                        focus_parked: Some(
                            ParkedFocus {
                                pane_id,
                                is_floating: self.pane_is_floating(pane_id),
                                confirmed: false,
                            },
                        ),
                        ..self.focus
                    },
                )
            },
            _ => self,
        }
    }

    /// Where the focus goes back: the pane it came from, or the selected one if that closed.
    pub open spec fn refocus_target(self, parked: ParkedFocus) -> Option<(u32, bool)> {
        if has_pane(self.list.selectable, parked.pane_id) {
            Some((parked.pane_id, parked.is_floating))
        } else if self.list.selected < self.list.selectable.len() {
            let e = self.list.selectable[self.list.selected as int];
            Some((e.pane_id, e.is_floating))
        } else {
            None
        }
    }

    /// Lets go of the focus. It is handed back before the sidebar becomes unselectable.
    pub open spec fn release_parked_focus(self, refocus: bool) -> StateV {
        match self.focus.focus_parked {
            None => self,
            Some(parked) => {
                let s = self.with_focus(FocusV { focus_parked: None, ..self.focus });
                let t = match s.refocus_target(parked) {
                    Some((id, float)) => if refocus {
                        s.asks(HostCallV::FocusPane(id, float))
                    } else {
                        s
                    },
                    None => s,
                };
                t.asks(HostCallV::SetSelectable(false))
            },
        }
    }

    /// The focus is on the sidebar or on its preview.
    pub open spec fn own_pane_focused(self, pane: PaneId) -> bool {
        match (pane, self.me.own_plugin_id) {
            (PaneId::Plugin(id), Some(own)) => id == own || self.is_preview_pane(id),
            _ => false,
        }
    }

    /// The focus was seen to be on a terminal or not, and to have arrived at the sidebar.
    pub open spec fn observes_focus(self, pane: PaneId) -> StateV {
        self.with_focus(
            FocusV {
                focus_on_terminal: pane is Terminal,
                focus_parked: match self.focus.focus_parked {
                    Some(parked) => Some(
                        ParkedFocus {
                            confirmed: parked.confirmed || self.own_pane_focused(pane),
                            ..parked
                        },
                    ),
                    None => None,
                },
                ..self.focus
            },
        )
    }

    /// The terminal pane that the user works in, by the host's answer.
    pub open spec fn working_pane(self, tab: usize, pane: PaneId) -> Option<u32> {
        match pane {
            PaneId::Terminal(id) => Some(id),
            PaneId::Plugin(_) => if self.own_pane_focused(pane) && self.focus.focus_parked is Some {
                Some(self.focus.focus_parked->0.pane_id)
            } else {
                self.focused_terminal_in_tab(tab)
            },
        }
    }

    /// Takes in the host's answer about the focus. Only the instance in the focused tab
    /// acts on it: it follows the focus, or leaves nav mode when the user moved it.
    pub open spec fn refresh_focus(self, answer: Option<(usize, PaneId)>) -> StateV {
        match answer {
            None => self,
            Some((tab, pane)) => if !self.owns_tab(tab) {
                self
            } else {
                let seen = self.observes_focus(pane);
                let lost = seen.park_taken_over(self.own_pane_focused(pane));
                let held = if lost {
                    seen.release_parked_focus(false)
                } else {
                    seen
                };
                let focused = held.working_pane(tab, pane);
                let follow = held.focus_to_follow(focused, held.focus.pending_focus_resync);
                let interrupted = held.nav.nav_mode && (lost || (focused is Some && focused
                    != held.focus.focused_pane));
                let s = held.with_focus(
                    FocusV {
                        pending_focus_resync: false,
                        focused_pane: focused,
                        ..held.focus
                    },
                );
                if interrupted {
                    s.leave_nav_mode()
                } else if follow is Some {
                    s.follows(follow->0)
                } else {
                    s
                }
            },
        }
    }
}

impl State {
    pub fn owns_tab(&self, position: usize) -> (r: bool)
        ensures
            r == self@.owns_tab(position),
    {
        let own = match self.me.own_plugin_id {
            Some(own) => own,
            None => {
                return false;
            },
        };
        let manifest = match &self.list.panes {
            Some(manifest) => manifest,
            None => {
                return false;
            },
        };
        match manifest.tab_index(position) {
            Some(i) => has_plugin_pane(&manifest.tabs[i].panes, own),
            None => false,
        }
    }

    pub fn is_visible_instance(&self, answer: Option<(usize, PaneId)>) -> (r: bool)
        ensures
            r == self@.is_visible_instance(answer),
    {
        match answer {
            Some((tab, _)) => self.owns_tab(tab),
            None => self.me.visible,
        }
    }

    pub fn focus_to_follow(&self, focused: Option<u32>, force: bool) -> (r: Option<u32>)
        ensures
            r == self@.focus_to_follow(focused, force),
    {
        if self.nav.nav_mode || (!force && same_option(focused, self.focus.focused_pane)) {
            None
        } else {
            focused
        }
    }

    pub fn focused_terminal_in_tab(&self, position: usize) -> (r: Option<u32>)
        ensures
            r == self@.focused_terminal_in_tab(position),
    {
        let manifest = match &self.list.panes {
            Some(manifest) => manifest,
            None => {
                return None;
            },
        };
        let panes = match manifest.tab_index(position) {
            Some(i) => &manifest.tabs[i].panes,
            None => {
                return None;
            },
        };
        let ghost v = views(panes@);
        let mut floating: Option<u32> = None;
        let mut i: usize = 0;
        assert(v.skip(0) =~= v);
        assert(v.take(0) =~= Seq::empty());
        while i < panes.len()
            invariant
                i <= panes.len(),
                v == views(panes@),
                self@.focused_terminal_in_tab(position) == (if first_tiled(v) is Some {
                    first_tiled(v)
                } else {
                    last_floating(v)
                }),
                first_tiled(v) == first_tiled(v.skip(i as int)),
                floating == last_floating(v.take(i as int)),
            decreases panes.len() - i,
        {
            let pane = &panes[i];
            let ghost rest = v.skip(i as int);
            assert(rest[0] == pane@);
            assert(rest.drop_first() =~= v.skip(i + 1));
            assert(v.take(i + 1).drop_last() =~= v.take(i as int));
            assert(v.take(i + 1).last() == pane@);
            if !pane.is_plugin && !pane.is_suppressed && pane.is_focused {
                if !pane.is_floating {
                    return Some(pane.id);
                }
                floating = Some(pane.id);
            }
            i += 1;
        }
        assert(v.take(i as int) =~= v);
        assert(v.skip(i as int) =~= Seq::empty());
        floating
    }

    pub fn park_taken_over(&self, own_pane_focused: bool) -> (r: bool)
        ensures
            r == self@.park_taken_over(own_pane_focused),
    {
        match self.focus.focus_parked {
            Some(parked) => parked.confirmed && !own_pane_focused,
            None => false,
        }
    }

    pub fn pane_is_floating(&self, pane_id: u32) -> (r: bool)
        ensures
            r == self@.pane_is_floating(pane_id),
    {
        match self.index_of_pane(pane_id) {
            Some(i) => self.list.selectable[i].is_floating,
            None => false,
        }
    }

    pub fn park_focus(&mut self)
        ensures
            final(self)@ == old(self)@.park_focus(),
    {
        if self.me.summoned || self.focus.focus_parked.is_some() || !self.focus.focus_on_terminal {
            return ;
        }
        if let (Some(pane_id), Some(own)) = (self.focus.focused_pane, self.me.own_plugin_id) {
            let is_floating = self.pane_is_floating(pane_id);
            self.ask(HostCall::SetSelectable(true));
            self.ask(HostCall::FocusPluginPane(own));
            self.focus.focus_parked = Some(
                ParkedFocus { pane_id, is_floating, confirmed: false },
            );
        }
    }

    pub fn release_parked_focus(&mut self, refocus: bool)
        ensures
            final(self)@ == old(self)@.release_parked_focus(refocus),
    {
        if let Some(parked) = self.focus.focus_parked {
            self.focus.focus_parked = None;
            if refocus {
                if let Some((pane_id, is_floating)) = self.refocus_target(parked) {
                    self.ask(HostCall::FocusPane(pane_id, is_floating));
                }
            }
            self.ask(HostCall::SetSelectable(false));
        }
    }

    pub fn refocus_target(&self, parked: ParkedFocus) -> (r: Option<(u32, bool)>)
        ensures
            r == self@.refocus_target(parked),
    {
        if self.lists_pane(parked.pane_id) {
            return Some((parked.pane_id, parked.is_floating));
        }
        if self.list.selected < self.list.selectable.len() {
            let entry = &self.list.selectable[self.list.selected];
            Some((entry.pane_id, entry.is_floating))
        } else {
            None
        }
    }

    fn own_pane_focused(&self, pane: PaneId) -> (r: bool)
        ensures
            r == self@.own_pane_focused(pane),
    {
        match (pane, self.me.own_plugin_id) {
            (PaneId::Plugin(id), Some(own)) => id == own || self.is_preview_pane(id),
            _ => false,
        }
    }

    fn observe_focus(&mut self, pane: PaneId)
        ensures
            final(self)@ == old(self)@.observes_focus(pane),
    {
        let own = self.own_pane_focused(pane);
        self.focus.focus_on_terminal = matches!(pane, PaneId::Terminal(_));
        if let Some(parked) = self.focus.focus_parked {
            self.focus.focus_parked = Some(
                ParkedFocus {
                    pane_id: parked.pane_id,
                    is_floating: parked.is_floating,
                    confirmed: parked.confirmed || own,
                },
            );
        }
    }

    fn working_pane(&self, tab: usize, pane: PaneId) -> (r: Option<u32>)
        ensures
            r == self@.working_pane(tab, pane),
    {
        match pane {
            PaneId::Terminal(id) => Some(id),
            PaneId::Plugin(_) => {
                if self.own_pane_focused(pane) {
                    if let Some(parked) = self.focus.focus_parked {
                        return Some(parked.pane_id);
                    }
                }
                self.focused_terminal_in_tab(tab)
            },
        }
    }

    /// Takes in the host's answer about the focus: the focused tab and pane, if it was told.
    /// Returns whether this instance is the one to act on requests of the user.
    pub fn refresh_focus(&mut self, answer: Option<(usize, PaneId)>) -> (r: bool)
        ensures
            final(self)@ == old(self)@.refresh_focus(answer),
            r == old(self)@.is_visible_instance(answer),
    {
        let (tab, pane) = match answer {
            Some(answer) => answer,
            None => {
                return self.me.visible;
            },
        };
        if !self.owns_tab(tab) {
            return false;
        }
        let own_pane_focused = self.own_pane_focused(pane);
        self.observe_focus(pane);
        let lost = self.park_taken_over(own_pane_focused);
        if lost {
            self.release_parked_focus(false);
        }
        let focused = self.working_pane(tab, pane);
        let force = self.focus.pending_focus_resync;
        let follow = self.focus_to_follow(focused, force);
        let interrupted = self.nav.nav_mode && (lost || (focused.is_some() && !same_option(
            focused,
            self.focus.focused_pane,
        )));
        self.focus.pending_focus_resync = false;
        self.focus.focused_pane = focused;
        if interrupted {
            self.leave_nav_mode();
        } else if let Some(pane_id) = follow {
            self.follow_pane(pane_id);
        }
        true
    }
}

/// Whether two optional ids are the same.
pub fn same_option(a: Option<u32>, b: Option<u32>) -> (r: bool)
    ensures
        r == (a == b),
{
    match (a, b) {
        (Some(x), Some(y)) => x == y,
        (None, None) => true,
        _ => false,
    }
}

fn has_plugin_pane(panes: &Vec<PaneInfo>, id: u32) -> (r: bool)
    ensures
        r == has_plugin(views(panes@), id),
{
    let ghost v = views(panes@);
    let mut i: usize = 0;
    while i < panes.len()
        invariant
            i <= panes.len(),
            v == views(panes@),
            forall|j: int| 0 <= j < i ==> !((#[trigger] v[j]).is_plugin && v[j].id == id),
        decreases panes.len() - i,
    {
        assert(v[i as int] == panes[i as int]@);
        if panes[i].is_plugin && panes[i].id == id {
            return true;
        }
        i += 1;
    }
    false
}

} // verus!
