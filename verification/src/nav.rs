//! Nav mode: entering and leaving it, and moving the selection.

use vstd::prelude::*;

use crate::host::{BareKey, HostCall, HostCallV, Key, PaneId, TabInfoV};
use crate::ids::group_views;
use crate::state::{FocusV, ListingV, NavV, State, StateV};
use crate::triage::place_of;

verus! {

broadcast use group_views;

/// The name of the first tab at this position; empty where there is none.
pub open spec fn name_of_tab(tabs: Seq<TabInfoV>, position: usize) -> Seq<char>
    decreases tabs.len(),
{
    if tabs.len() == 0 {
        Seq::empty()
    } else if tabs[0].position == position {
        tabs[0].name
    } else {
        name_of_tab(tabs.drop_first(), position)
    }
}

impl ListingV {
    pub open spec fn tab_name(self, position: usize) -> Seq<char> {
        name_of_tab(self.tabs, position)
    }
}

impl StateV {
    pub open spec fn with_selected(self, selected: usize) -> StateV {
        StateV { list: ListingV { selected, ..self.list }, ..self }
    }

    /// The selection goes to a pane, if the list holds it.
    pub open spec fn select(self, pane_id: u32) -> StateV {
        let n = place_of(self.list.selectable, pane_id);
        if n < self.list.selectable.len() {
            self.with_selected(n as usize)
        } else {
            self
        }
    }

    /// The selection goes to a pane, and the siblings are told if that moved it.
    pub open spec fn follows(self, pane_id: u32) -> StateV {
        let s = self.select(pane_id);
        if s.list.selected != self.list.selected {
            s.broadcasts_selection()
        } else {
            s
        }
    }

    /// One row down, unless it is the last one.
    pub open spec fn select_next(self) -> StateV {
        if self.list.selected + 1 < self.list.selectable.len() {
            self.with_selected((self.list.selected + 1) as usize)
        } else {
            self
        }
    }

    /// One row up, unless it is the first one.
    pub open spec fn select_previous(self) -> StateV {
        if self.list.selected > 0 {
            self.with_selected((self.list.selected - 1) as usize)
        } else {
            self
        }
    }

    pub open spec fn select_first(self) -> StateV {
        self.with_selected(0)
    }

    pub open spec fn select_last(self) -> StateV {
        self.with_selected(
            if self.list.selectable.len() > 0 {
                (self.list.selectable.len() - 1) as usize
            } else {
                0
            },
        )
    }

    /// The host focuses the selected pane; a floating one brings up its layer.
    pub open spec fn focus_selected(self) -> StateV {
        if self.list.selected < self.list.selectable.len() {
            let e = self.list.selectable[self.list.selected as int];
            self.asks(HostCallV::FocusPane(e.pane_id, e.is_floating))
        } else {
            self
        }
    }

    /// Where browsing starts: at the focus, or where it was left if the focus did not move.
    pub open spec fn nav_entry_selection(self) -> Option<u32> {
        match self.focus.focused_pane {
            None => None,
            Some(focused) => if self.focus.focus_at_nav_exit == Some(focused)
                && self.focus.selection_at_nav_exit is Some {
                self.focus.selection_at_nav_exit
            } else {
                Some(focused)
            },
        }
    }

    pub open spec fn enter_nav_mode(self) -> StateV {
        let on = StateV { nav: NavV { nav_mode: true, ..self.nav }, ..self };
        let s = match self.nav_entry_selection() {
            Some(id) => on.select(id),
            None => on,
        };
        s.broadcasts_selection().park_focus().asks(HostCallV::InterceptKeyPresses)
    }

    /// Everything inside nav mode is closed with it; where it was left is remembered.
    pub open spec fn nav_closed(self) -> StateV {
        StateV {
            nav: NavV {
                nav_mode: false,
                help_overlay: false,
                search: None,
                triage: None,
                jump: None,
                termination: None,
                formation_prompt: None,
                ..self.nav
            },
            focus: FocusV {
                focus_at_nav_exit: self.focus.focused_pane,
                selection_at_nav_exit: self.selected_pane(),
                ..self.focus
            },
            ..self
        }
    }

    /// Leaves nav mode: the preview is closed, the focus handed back, the keys released. A
    /// summoned instance closes itself.
    pub open spec fn exit_nav_mode(self) -> StateV {
        let s = self.nav_closed().close_preview().release_parked_focus(true).asks(
            HostCallV::ClearKeyPressesIntercepts,
        );
        match self.me.own_plugin_id {
            Some(own) => if self.me.summoned {
                s.asks(HostCallV::ClosePluginPane(own))
            } else {
                s
            },
            None => s,
        }
    }

    /// Leaves nav mode without a jump: the selection goes back to the focus.
    pub open spec fn leave_nav_mode(self) -> StateV {
        let s = self.exit_nav_mode();
        match s.focus.focused_pane {
            Some(focused) => s.follows(focused),
            None => s,
        }
    }

    pub open spec fn with_help(self, on: bool) -> StateV {
        StateV { nav: NavV { help_overlay: on, ..self.nav }, ..self }
    }

    /// What a key means in the tree. A key without a meaning leaves nav mode.
    pub open spec fn nav_command(self, bare: BareKey) -> StateV {
        match bare {
            BareKey::Down | BareKey::Tab => self.select_next(),
            BareKey::Up => self.select_previous(),
            BareKey::Enter => self.exit_nav_mode().focus_selected(),
            BareKey::Char(c) => if c == '/' {
                self.enter_search()
            } else if c == 't' {
                self.enter_triage()
            } else if c == 'n' {
                self.enter_jump()
            } else if c == 'd' {
                self.enter_termination()
            } else if c == 'm' {
                self.toggle_mark()
            } else if c == 'M' {
                self.clear_marks()
            } else if c == 'p' {
                self.toggle_preview()
            } else if c == 'r' {
                self.mark_preview_read()
            } else if c == 'j' {
                self.select_next()
            } else if c == 'k' {
                self.select_previous()
            } else if c == 'g' {
                self.select_first()
            } else if c == 'G' {
                self.select_last()
            } else if c == ' ' || c == 'l' {
                self.exit_nav_mode().focus_selected()
            } else {
                self.leave_nav_mode()
            },
            _ => self.leave_nav_mode(),
        }
    }

    /// A key in nav mode: what becomes of the state, and whether to draw. An open help
    /// overlay takes the key to close itself; then the sub-mode that is on has it.
    pub open spec fn nav_key(self, key: Key) -> (StateV, bool) {
        if self.nav.help_overlay {
            (self.with_help(false), true)
        } else if key.bare == BareKey::Char('?') && !key.hard() && !self.search_is_editing() {
            (self.with_help(true), true)
        } else if self.nav.search is Some {
            self.search_key(key)
        } else if self.nav.triage is Some {
            (self.triage_key(key), true)
        } else if self.nav.jump is Some {
            (self.jump_key(key), true)
        } else if self.nav.termination is Some {
            (self.termination_key(key), true)
        } else if key.hard() {
            (self.leave_nav_mode(), true)
        } else {
            (self.nav_command(key.bare).broadcasts_selection().refresh_preview(), true)
        }
    }

    /// A step of the selection by a direct key, on the instance that has the focus.
    pub open spec fn nav_step(self, forward: bool, answer: Option<(usize, PaneId)>) -> (
        StateV,
        bool,
    ) {
        let s = self.refresh_focus(answer);
        let owner = self.is_visible_instance(answer);
        if owner {
            (
                (if forward {
                    s.select_next()
                } else {
                    s.select_previous()
                }).broadcasts_selection(),
                true,
            )
        } else {
            (s, false)
        }
    }

    /// A jump by a direct key, on the instance that has the focus.
    pub open spec fn nav_go(self, answer: Option<(usize, PaneId)>) -> StateV {
        let s = self.refresh_focus(answer);
        let owner = self.is_visible_instance(answer);
        if owner {
            s.focus_selected()
        } else {
            s
        }
    }

    /// The request for nav mode: the instance that has the focus enters it; any other looks
    /// whether the focused tab has a sidebar at all.
    pub open spec fn nav_request(self, answer: Option<(usize, PaneId)>) -> (StateV, bool) {
        let s = self.refresh_focus(answer);
        let owner = self.is_visible_instance(answer);
        if !owner {
            (s.asks(HostCallV::QuerySummon), false)
        } else if s.nav.nav_mode {
            (s, false)
        } else {
            (s.enter_nav_mode(), true)
        }
    }

    /// Leaves nav mode for the pane at `index`.
    pub open spec fn jump_to(self, index: usize) -> StateV {
        self.with_selected(index).exit_nav_mode().broadcasts_selection().focus_selected()
    }
}

impl State {
    pub fn tab_name(&self, position: usize) -> (r: &str)
        ensures
            r@ == self@.list.tab_name(position),
    {
        let ghost v = self@.list.tabs;
        let mut i: usize = 0;
        assert(v.skip(0) =~= v);
        while i < self.list.tabs.len()
            invariant
                i <= self.list.tabs.len(),
                v == self@.list.tabs,
                self@.list.tab_name(position) == name_of_tab(v.skip(i as int), position),
            decreases self.list.tabs.len() - i,
        {
            let ghost rest = v.skip(i as int);
            assert(rest[0] == self.list.tabs[i as int]@);
            assert(rest.drop_first() =~= v.skip(i + 1));
            if self.list.tabs[i].position == position {
                return self.list.tabs[i].name.as_str();
            }
            i += 1;
        }
        assert(v.skip(i as int) =~= Seq::empty());
        proof {
            reveal_strlit("");
        }
        assert(""@ =~= Seq::<char>::empty());
        ""
    }

    /// Moves the selection to a pane. Returns whether it moved.
    pub fn select_pane_id(&mut self, pane_id: u32) -> (r: bool)
        ensures
            final(self)@ == old(self)@.select(pane_id),
            r == (final(self)@.list.selected != old(self)@.list.selected),
    {
        match self.index_of_pane(pane_id) {
            Some(index) => {
                let changed = self.list.selected != index;
                self.list.selected = index;
                changed
            },
            None => false,
        }
    }

    pub fn follow_pane(&mut self, pane_id: u32)
        ensures
            final(self)@ == old(self)@.follows(pane_id),
    {
        if self.select_pane_id(pane_id) {
            self.broadcast_selection();
        }
    }

    pub fn select_next(&mut self)
        ensures
            final(self)@ == old(self)@.select_next(),
    {
        let len = self.list.selectable.len();
        if len > 0 && self.list.selected < len - 1 {
            self.list.selected = self.list.selected + 1;
        }
    }

    pub fn select_previous(&mut self)
        ensures
            final(self)@ == old(self)@.select_previous(),
    {
        if self.list.selected > 0 {
            self.list.selected = self.list.selected - 1;
        }
    }

    pub fn select_last(&mut self)
        ensures
            final(self)@ == old(self)@.select_last(),
    {
        let len = self.list.selectable.len();
        self.list.selected = if len > 0 {
            len - 1
        } else {
            0
        };
    }

    pub fn focus_selected(&mut self)
        ensures
            final(self)@ == old(self)@.focus_selected(),
    {
        if self.list.selected < self.list.selectable.len() {
            let entry = &self.list.selectable[self.list.selected];
            let call = HostCall::FocusPane(entry.pane_id, entry.is_floating);
            self.ask(call);
        }
    }

    fn nav_entry_selection(&self) -> (r: Option<u32>)
        ensures
            r == self@.nav_entry_selection(),
    {
        let focused = match self.focus.focused_pane {
            Some(focused) => focused,
            None => {
                return None;
            },
        };
        if let Some(at_exit) = self.focus.focus_at_nav_exit {
            if at_exit == focused && self.focus.selection_at_nav_exit.is_some() {
                return self.focus.selection_at_nav_exit;
            }
        }
        Some(focused)
    }

    pub fn enter_nav_mode(&mut self)
        ensures
            final(self)@ == old(self)@.enter_nav_mode(),
    {
        let start = self.nav_entry_selection();
        self.nav.nav_mode = true;
        if let Some(pane_id) = start {
            self.select_pane_id(pane_id);
        }
        self.broadcast_selection();
        self.park_focus();
        self.ask(HostCall::InterceptKeyPresses);
    }

    fn close_nav(&mut self)
        ensures
            final(self)@ == old(self)@.nav_closed(),
    {
        let selected = self.selected_pane_id();
        self.nav.nav_mode = false;
        self.nav.help_overlay = false;
        self.nav.search = None;
        self.nav.triage = None;
        self.nav.jump = None;
        self.nav.termination = None;
        self.nav.formation_prompt = None;
        self.focus.focus_at_nav_exit = self.focus.focused_pane;
        self.focus.selection_at_nav_exit = selected;
    }

    pub fn exit_nav_mode(&mut self)
        ensures
            final(self)@ == old(self)@.exit_nav_mode(),
    {
        self.close_nav();
        self.close_preview();
        self.release_parked_focus(true);
        self.ask(HostCall::ClearKeyPressesIntercepts);
        if self.me.summoned {
            if let Some(own) = self.me.own_plugin_id {
                self.ask(HostCall::ClosePluginPane(own));
            }
        }
    }

    pub fn leave_nav_mode(&mut self)
        ensures
            final(self)@ == old(self)@.leave_nav_mode(),
    {
        self.exit_nav_mode();
        if let Some(focused) = self.focus.focused_pane {
            self.follow_pane(focused);
        }
    }

    fn nav_command(&mut self, bare: BareKey)
        ensures
            final(self)@ == old(self)@.nav_command(bare),
    {
        match bare {
            BareKey::Down | BareKey::Tab => self.select_next(),
            BareKey::Up => self.select_previous(),
            BareKey::Enter => {
                self.exit_nav_mode();
                self.focus_selected();
            },
            BareKey::Char(c) => if c == '/' {
                self.enter_search()
            } else if c == 't' {
                self.enter_triage()
            } else if c == 'n' {
                self.enter_jump()
            } else if c == 'd' {
                self.enter_termination()
            } else if c == 'm' {
                self.toggle_mark()
            } else if c == 'M' {
                self.clear_marks()
            } else if c == 'p' {
                self.toggle_preview()
            } else if c == 'r' {
                self.mark_preview_read()
            } else if c == 'j' {
                self.select_next()
            } else if c == 'k' {
                self.select_previous()
            } else if c == 'g' {
                self.list.selected = 0;
            } else if c == 'G' {
                self.select_last()
            } else if c == ' ' || c == 'l' {
                self.exit_nav_mode();
                self.focus_selected();
            } else {
                self.leave_nav_mode()
            },
            _ => self.leave_nav_mode(),
        }
    }

    /// A key in nav mode. Returns whether to draw.
    pub fn handle_nav_key(&mut self, key: Key) -> (r: bool)
        ensures
            (final(self)@, r) == old(self)@.nav_key(key),
    {
        if self.nav.help_overlay {
            self.nav.help_overlay = false;
            return true;
        }
        let asks_help = match key.bare {
            BareKey::Char(c) => c == '?',
            _ => false,
        };
        if asks_help && !key.has_hard_modifier() && !self.search_is_editing() {
            self.nav.help_overlay = true;
            return true;
        }
        if self.nav.search.is_some() {
            return self.handle_search_key(key);
        }
        if self.nav.triage.is_some() {
            return self.handle_triage_key(key);
        }
        if self.nav.jump.is_some() {
            return self.handle_jump_key(key);
        }
        if self.nav.termination.is_some() {
            return self.handle_termination_key(key);
        }
        if key.has_hard_modifier() {
            self.leave_nav_mode();
            return true;
        }
        self.nav_command(key.bare);
        self.broadcast_selection();
        self.refresh_preview();
        true
    }

    /// The direct keys up and down. Returns whether to draw.
    pub fn handle_nav_step_pipe(&mut self, forward: bool, answer: Option<(usize, PaneId)>) -> (r:
        bool)
        ensures
            (final(self)@, r) == old(self)@.nav_step(forward, answer),
    {
        if !self.refresh_focus(answer) {
            return false;
        }
        if forward {
            self.select_next();
        } else {
            self.select_previous();
        }
        self.broadcast_selection();
        true
    }

    /// The direct key that jumps. Nothing is drawn.
    pub fn handle_nav_go_pipe(&mut self, answer: Option<(usize, PaneId)>) -> (r: bool)
        ensures
            final(self)@ == old(self)@.nav_go(answer),
            !r,
    {
        if self.refresh_focus(answer) {
            self.focus_selected();
        }
        false
    }

    /// The request for nav mode. Returns whether to draw.
    pub fn handle_nav_mode_pipe(&mut self, answer: Option<(usize, PaneId)>) -> (r: bool)
        ensures
            (final(self)@, r) == old(self)@.nav_request(answer),
    {
        if self.refresh_focus(answer) {
            if !self.nav.nav_mode {
                self.enter_nav_mode();
                return true;
            }
            return false;
        }
        self.ask(HostCall::QuerySummon);
        false
    }

    /// Leaves nav mode and focuses the pane at `index`.
    pub fn jump_to(&mut self, index: usize)
        ensures
            final(self)@ == old(self)@.jump_to(index),
    {
        self.list.selected = index;
        self.exit_nav_mode();
        self.broadcast_selection();
        self.focus_selected();
    }
}

} // verus!
