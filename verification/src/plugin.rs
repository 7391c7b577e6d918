//! The life of an instance: how it starts, what it does with the host's events and with
//! messages, and how it draws.
//!
//! What the host has to be asked for is asked before, and handed in with the event.

use vstd::prelude::*;

use crate::clock::{add_time, later};
use crate::config::{is_preview, pairs, setting_table, summoned, switched_on, ConfigV};
use crate::draw::line_views;
use crate::dump::command_line_count;
use crate::host::{
    HostCall, HostCallV, Key, PaneId, PaneManifest, PaneManifestV, Sender, TabInfo, TabInfoV,
};
use crate::ids::{group_views, opt_view, views};
use crate::line::Line;
use crate::mark::parsed_ids;
use crate::payload::{StatusPayload, StatusPayloadV};
use crate::preview::PREVIEW_KEY;
use crate::report::new_agent;
use crate::state::{
    ClockV, FocusV, InstanceV, ListingV, NavV, ScreenV, State, StateV,
};
use crate::summon::SUMMONED_KEY;
use crate::text::{lines_of, pieces, same};
use crate::wire::{
    COMMAND_STATE_PIPE, DISMISS_PIPE, MARK_PIPE, NAV_DOWN_PIPE, NAV_GO_PIPE, NAV_MODE_PIPE,
    NAV_UP_PIPE, PREVIEW_PIPE, READ_CLEAR_PIPE, SELECTION_PIPE, STATUS_PIPE, SYNC_STATE_PIPE,
    TOGGLE_CWD_PIPE, WIDTH_PIPE,
};

verus! {

broadcast use group_views;

/// What the host reports.
#[derive(Debug)]
pub enum Event {
    /// The user granted or refused the permissions.
    Permission(bool),
    /// This instance came on the screen or left it.
    Visible(bool),
    TabUpdate(Vec<TabInfo>),
    PaneUpdate(PaneManifest),
    BeforeClose,
    /// A timer went off after so many microseconds.
    Timer(u64),
    /// A click with the left button on this line of the pane.
    LeftClick(isize),
    InterceptedKeyPress(Key),
    PastedText(String),
    Other,
}

#[verifier::ext_equal]
pub enum EventV {
    Permission(bool),
    Visible(bool),
    TabUpdate(Seq<TabInfoV>),
    PaneUpdate(PaneManifestV),
    BeforeClose,
    Timer(u64),
    LeftClick(isize),
    InterceptedKeyPress(Key),
    PastedText(Seq<char>),
    Other,
}

impl View for Event {
    type V = EventV;

    open spec fn view(&self) -> EventV {
        match self {
            Event::Permission(granted) => EventV::Permission(*granted),
            Event::Visible(visible) => EventV::Visible(*visible),
            Event::TabUpdate(tabs) => EventV::TabUpdate(views(tabs@)),
            Event::PaneUpdate(manifest) => EventV::PaneUpdate(manifest@),
            Event::BeforeClose => EventV::BeforeClose,
            Event::Timer(elapsed) => EventV::Timer(*elapsed),
            Event::LeftClick(line) => EventV::LeftClick(*line),
            Event::InterceptedKeyPress(key) => EventV::InterceptedKeyPress(*key),
            Event::PastedText(text) => EventV::PastedText(text@),
            Event::Other => EventV::Other,
        }
    }
}

/// What the host answered.
#[derive(Debug)]
pub struct Answers {
    /// The focused tab and pane, if it is known.
    pub focus: Option<(usize, PaneId)>,
    /// The own pane floats.
    pub floating: bool,
    /// Where the own pane was loaded from, if it is known.
    pub plugin_url: Option<String>,
}

#[verifier::ext_equal]
pub struct AnswersV {
    pub focus: Option<(usize, PaneId)>,
    pub floating: bool,
    pub plugin_url: Option<Seq<char>>,
}

impl View for Answers {
    type V = AnswersV;

    open spec fn view(&self) -> AnswersV {
        AnswersV {
            focus: self.focus,
            floating: self.floating,
            plugin_url: opt_view(self.plugin_url),
        }
    }
}

/// The payload of a message.
pub open spec fn text_view(payload: Option<&str>) -> Option<Seq<char>> {
    match payload {
        Some(raw) => Some(raw@),
        None => None,
    }
}

// --- the start ---

impl StateV {
    /// The settings are read, and the host is asked for permissions and events. Until the
    /// user answered, the pane has to be selectable.
    pub open spec fn load(self, configuration: Seq<(Seq<char>, Seq<char>)>, own: u32) -> StateV {
        let s = self.apply_config(ConfigV::of(configuration, setting_table()));
        let floats = switched_on(configuration, SUMMONED_KEY@);
        s.with_me(
            InstanceV {
                is_preview: switched_on(configuration, PREVIEW_KEY@),
                summoned: floats,
                pending_nav_entry: floats,
                own_plugin_id: Some(own),
                ..s.me
            },
        ).asks(HostCallV::SetSelectable(true)).asks(HostCallV::RequestPermission).asks(
            HostCallV::Subscribe,
        )
    }
}

impl State {
    /// Starts the instance with the configuration of its pane.
    pub fn load(&mut self, configuration: &Vec<(String, String)>, own_plugin_id: u32)
        ensures
            final(self)@ == old(self)@.load(pairs(configuration@), own_plugin_id),
    {
        self.apply_config(configuration);
        self.me.is_preview = is_preview(configuration);
        self.me.summoned = summoned(configuration);
        self.me.pending_nav_entry = self.me.summoned;
        self.me.own_plugin_id = Some(own_plugin_id);
        self.ask(HostCall::SetSelectable(true));
        self.ask(HostCall::RequestPermission);
        self.ask(HostCall::Subscribe);
    }
}

// --- events ---

impl StateV {
    /// The own pane gets a name.
    pub open spec fn renames_own(self, name: Seq<char>) -> StateV {
        match self.me.own_plugin_id {
            Some(id) => self.asks(HostCallV::RenamePluginPane(id, name)),
            None => self,
        }
    }

    pub open spec fn with_permission(self, granted: bool) -> StateV {
        self.with_me(InstanceV { permissions_granted: granted, ..self.me })
    }

    /// The answer of the user. A sidebar takes part in the focus only where it floats.
    pub open spec fn on_permission(self, granted: bool, answers: AnswersV) -> StateV {
        let s = self.with_permission(granted);
        if !granted {
            s
        } else {
            let adopted = s.adopt_floating(answers.floating);
            let fixed = if adopted.me.summoned {
                adopted
            } else {
                adopted.asks(HostCallV::SetSelectable(false))
            };
            fixed.renames_own("fujin"@).learn_own_plugin_url(
                answers.plugin_url,
            ).enter_nav_mode_if_pending().arm_config_warning()
        }
    }

    /// A preview only draws.
    pub open spec fn update_as_preview(self, event: EventV) -> (StateV, bool) {
        match event {
            EventV::Permission(granted) => (
                if granted {
                    self.with_permission(granted).renames_own("▣ preview"@)
                } else {
                    self.with_permission(granted)
                },
                true,
            ),
            _ => (self, false),
        }
    }

    /// An instance that comes on the screen looks where the focus is.
    pub open spec fn on_visible(self, visible: bool, answers: AnswersV) -> StateV {
        let s = self.with_me(InstanceV { visible, ..self.me });
        if visible {
            s.with_focus(FocusV { pending_focus_resync: true, ..s.focus }).refresh_focus(
                answers.focus,
            )
        } else {
            s
        }
    }

    pub open spec fn on_tabs(self, tabs: Seq<TabInfoV>, answers: AnswersV) -> StateV {
        StateV { list: ListingV { tabs, ..self.list }, ..self }.rebuild_selectable().refresh_focus(
            answers.focus,
        ).enter_nav_mode_if_pending()
    }

    pub open spec fn on_panes(self, manifest: PaneManifestV, answers: AnswersV) -> StateV {
        let s = self.apply_command_states(manifest).apply_read_model(manifest);
        StateV {
            list: ListingV { panes: Some(manifest), ..s.list },
            ..s
        }.rebuild_selectable().prune_stale_agents().learn_own_plugin_url(
            answers.plugin_url,
        ).push_state_to_new_siblings().refresh_focus(answers.focus).enter_nav_mode_if_pending()
    }

    /// The pane is about to close: the keys and the focus are given back.
    pub open spec fn on_close(self) -> StateV {
        let s = if self.nav.nav_mode {
            StateV { nav: NavV { nav_mode: false, ..self.nav }, ..self }.asks(
                HostCallV::ClearKeyPressesIntercepts,
            )
        } else {
            self
        };
        s.close_preview().release_parked_focus(true)
    }

    /// The time goes on.
    pub open spec fn tick(self, by: u64) -> StateV {
        StateV {
            clock: ClockV {
                timer_armed: false,
                elapsed: later(self.clock.elapsed, by),
                ..self.clock
            },
            ..self
        }
    }

    /// Something still waits for the time.
    pub open spec fn awaits_timer(self) -> bool {
        self.clock.deployment is Some || !self.status.pending_reads.dom().is_empty()
            || self.config.config_warning_until is Some
    }

    /// A timer went off. The next one is set only where something waits for it.
    pub open spec fn on_timer(self, by: u64) -> (StateV, bool) {
        let s = self.tick(by);
        let a = s.advance_deployment();
        let b = a.apply_pending_reads();
        let c = b.expire_config_warning();
        (
            if c.awaits_timer() {
                c.arm_timer()
            } else {
                c
            },
            s.clock.deployment is Some || a.status.cleared(
                a.status.due(a.clock.elapsed),
                false,
            ).len() > 0 || b.config_warning_due(),
        )
    }

    /// What an event does, and whether to draw.
    pub open spec fn on_event(self, event: EventV, answers: AnswersV) -> (StateV, bool) {
        match event {
            EventV::Permission(granted) => (self.on_permission(granted, answers), true),
            EventV::Visible(visible) => (self.on_visible(visible, answers), visible),
            EventV::TabUpdate(tabs) => (self.on_tabs(tabs, answers), true),
            EventV::PaneUpdate(manifest) => (self.on_panes(manifest, answers), true),
            EventV::BeforeClose => (self.on_close(), false),
            EventV::Timer(elapsed) => self.on_timer(elapsed),
            EventV::LeftClick(line) => self.click(line as int),
            EventV::InterceptedKeyPress(key) => if self.nav.nav_mode {
                self.nav_key(key)
            } else {
                (self, false)
            },
            EventV::PastedText(text) => self.pasted_text(text),
            EventV::Other => (self, false),
        }
    }

    /// An event. While somebody types, only what they type draws.
    pub open spec fn update(self, event: EventV, answers: AnswersV) -> (StateV, bool) {
        if self.me.is_preview {
            self.update_as_preview(event)
        } else {
            let (s, draws) = self.on_event(event, answers);
            let t = s.sync_cursor();
            (t, draws && (event.typed() || !t.defers_render()))
        }
    }
}

impl EventV {
    /// The event comes from who is typing.
    pub open spec fn typed(self) -> bool {
        self is InterceptedKeyPress || self is PastedText
    }
}

impl State {
    fn rename_own(&mut self, name: &'static str)
        ensures
            final(self)@ == old(self)@.renames_own(name@),
    {
        if let Some(id) = self.me.own_plugin_id {
            self.ask(HostCall::RenamePluginPane(id, name));
        }
    }

    fn on_permission(&mut self, granted: bool, answers: Answers)
        ensures
            final(self)@ == old(self)@.on_permission(granted, answers@),
    {
        self.me.permissions_granted = granted;
        if !granted {
            return ;
        }
        self.adopt_floating_as_summoned(answers.floating);
        if !self.me.summoned {
            self.ask(HostCall::SetSelectable(false));
        }
        self.rename_own("fujin");
        self.learn_own_plugin_url(answers.plugin_url);
        self.enter_nav_mode_if_pending();
        self.arm_config_warning();
    }

    fn update_as_preview(&mut self, event: Event) -> (r: bool)
        ensures
            (final(self)@, r) == old(self)@.update_as_preview(event@),
    {
        match event {
            Event::Permission(granted) => {
                self.me.permissions_granted = granted;
                if granted {
                    self.rename_own("▣ preview");
                }
                true
            },
            _ => false,
        }
    }

    fn on_visible(&mut self, visible: bool, answers: &Answers)
        ensures
            final(self)@ == old(self)@.on_visible(visible, answers@),
    {
        self.me.visible = visible;
        if visible {
            self.focus.pending_focus_resync = true;
            self.refresh_focus(answers.focus);
        }
    }

    fn on_tabs(&mut self, tabs: Vec<TabInfo>, answers: &Answers)
        ensures
            final(self)@ == old(self)@.on_tabs(views(tabs@), answers@),
    {
        self.list.tabs = tabs;
        self.rebuild_selectable();
        self.refresh_focus(answers.focus);
        self.enter_nav_mode_if_pending();
    }

    #[verifier::rlimit(40)]
    fn on_panes(&mut self, manifest: PaneManifest, answers: Answers)
        ensures
            final(self)@ == old(self)@.on_panes(manifest@, answers@),
    {
        let focus = answers.focus;
        self.apply_command_states(&manifest);
        self.apply_read_model(&manifest);
        self.list.panes = Some(manifest);
        self.rebuild_selectable();
        self.prune_stale_agents();
        self.learn_own_plugin_url(answers.plugin_url);
        self.push_state_to_new_siblings();
        self.refresh_focus(focus);
        self.enter_nav_mode_if_pending();
    }

    fn on_close(&mut self)
        ensures
            final(self)@ == old(self)@.on_close(),
    {
        if self.nav.nav_mode {
            self.nav.nav_mode = false;
            self.ask(HostCall::ClearKeyPressesIntercepts);
        }
        self.close_preview();
        self.release_parked_focus(true);
    }

    fn on_timer(&mut self, elapsed: u64) -> (r: bool)
        ensures
            (final(self)@, r) == old(self)@.on_timer(elapsed),
    {
        self.clock.timer_armed = false;
        self.clock.elapsed = add_time(self.clock.elapsed, elapsed);
        let marched = self.advance_deployment();
        let read = self.apply_pending_reads();
        let expired = self.expire_config_warning();
        if self.clock.deployment.is_some() || !self.status.pending_reads.is_empty()
            || self.config.config_warning_until.is_some() {
            self.arm_timer();
        }
        marched || read || expired
    }

    #[verifier::rlimit(40)]
    fn on_event(&mut self, event: Event, answers: Answers) -> (r: bool)
        ensures
            (final(self)@, r) == old(self)@.on_event(event@, answers@),
    {
        match event {
            Event::Permission(granted) => {
                self.on_permission(granted, answers);
                true
            },
            Event::Visible(visible) => {
                self.on_visible(visible, &answers);
                visible
            },
            Event::TabUpdate(tabs) => {
                self.on_tabs(tabs, &answers);
                true
            },
            Event::PaneUpdate(manifest) => {
                self.on_panes(manifest, answers);
                true
            },
            Event::BeforeClose => {
                self.on_close();
                false
            },
            Event::Timer(elapsed) => self.on_timer(elapsed),
            Event::LeftClick(line) => self.handle_click(line),
            Event::InterceptedKeyPress(key) => if self.nav.nav_mode {
                self.handle_nav_key(key)
            } else {
                false
            },
            Event::PastedText(text) => self.handle_pasted_text(text.as_str()),
            Event::Other => false,
        }
    }

    /// Takes in an event. Returns whether to draw.
    #[verifier::rlimit(40)]
    pub fn update(&mut self, event: Event, answers: Answers) -> (r: bool)
        ensures
            (final(self)@, r) == old(self)@.update(event@, answers@),
    {
        if self.me.is_preview {
            return self.update_as_preview(event);
        }
        let typed = matches!(event, Event::InterceptedKeyPress(_) | Event::PastedText(_));
        let draws = self.on_event(event, answers);
        self.sync_input_cursor();
        draws && (typed || !self.defers_render_while_typing())
    }
}

// --- messages ---

/// The name is that of a pipe of this plugin.
pub open spec fn is_ours(name: Seq<char>) -> bool {
    name == STATUS_PIPE@ || name == NAV_UP_PIPE@ || name == NAV_DOWN_PIPE@ || name == NAV_GO_PIPE@
        || name == NAV_MODE_PIPE@ || name == TOGGLE_CWD_PIPE@ || name == SYNC_STATE_PIPE@ || name
        == READ_CLEAR_PIPE@ || name == COMMAND_STATE_PIPE@ || name == SELECTION_PIPE@ || name
        == MARK_PIPE@ || name == PREVIEW_PIPE@ || name == WIDTH_PIPE@ || name == DISMISS_PIPE@
}

impl StateV {
    /// A report of an agent. A new one is greeted by the instance on the screen.
    pub open spec fn status_message(
        self,
        payload: Option<Seq<char>>,
        focus: Option<(usize, PaneId)>,
    ) -> (StateV, bool) {
        match payload {
            Some(raw) => match StatusPayloadV::read(raw) {
                Some(report) => {
                    let s = self.apply_status(report);
                    (
                        if new_agent(report) && s.is_visible_instance(focus) {
                            s.begin_deployment(1)
                        } else {
                            s
                        },
                        true,
                    )
                },
                None => (self, false),
            },
            None => (self, false),
        }
    }

    pub open spec fn read_message(self, payload: Option<Seq<char>>) -> (StateV, bool) {
        match payload {
            Some(raw) => (
                self.apply_read_clears(raw),
                self.status.cleared(parsed_ids(pieces(raw, ',')), true).len() > 0,
            ),
            None => (self, false),
        }
    }

    pub open spec fn command_message(self, payload: Option<Seq<char>>) -> (StateV, bool) {
        match payload {
            Some(raw) => (
                self.apply_command_dump(raw),
                command_line_count(lines_of(raw)) > 0,
            ),
            None => (self, false),
        }
    }

    pub open spec fn mark_message(self, payload: Option<Seq<char>>) -> (StateV, bool) {
        match payload {
            Some(raw) => (
                self.apply_marks(raw),
                self.apply_marks(raw).list.marked != self.list.marked,
            ),
            None => (self, false),
        }
    }

    pub open spec fn preview_message(self, payload: Option<Seq<char>>) -> (StateV, bool) {
        match payload {
            Some(raw) => if self.me.is_preview {
                (self.apply_preview_snapshot(raw), true)
            } else {
                (self, false)
            },
            None => (self, false),
        }
    }

    /// What a message does, and whether to draw.
    #[verifier::opaque]
    pub open spec fn on_message(
        self,
        name: Seq<char>,
        payload: Option<Seq<char>>,
        sender: Sender,
        focus: Option<(usize, PaneId)>,
    ) -> (StateV, bool) {
        if name == STATUS_PIPE@ {
            self.status_message(payload, focus)
        } else if name == NAV_UP_PIPE@ {
            self.nav_step(false, focus)
        } else if name == NAV_DOWN_PIPE@ {
            self.nav_step(true, focus)
        } else if name == NAV_GO_PIPE@ {
            (self.nav_go(focus), false)
        } else if name == NAV_MODE_PIPE@ {
            self.nav_request(focus)
        } else if name == TOGGLE_CWD_PIPE@ {
            let s = self.toggle_cwd(payload);
            (s, s.config.show_cwd != self.config.show_cwd)
        } else if name == DISMISS_PIPE@ {
            (self.dismiss(), false)
        } else if name == SELECTION_PIPE@ {
            let s = self.selection_message(payload);
            (s, s.list.selected != self.list.selected)
        } else if name == PREVIEW_PIPE@ {
            self.preview_message(payload)
        } else if name == MARK_PIPE@ {
            self.mark_message(payload)
        } else if name == WIDTH_PIPE@ {
            self.width_message(payload, sender)
        } else if name == READ_CLEAR_PIPE@ {
            self.read_message(payload)
        } else if name == COMMAND_STATE_PIPE@ {
            self.command_message(payload)
        } else if name == SYNC_STATE_PIPE@ {
            self.sync_message(payload, sender)
        } else {
            (self, false)
        }
    }

    /// A message is taken in. A preview listens to nothing but the text to show, and while
    /// somebody types no message draws.
    pub open spec fn takes_message(
        self,
        name: Seq<char>,
        payload: Option<Seq<char>>,
        sender: Sender,
        focus: Option<(usize, PaneId)>,
    ) -> (StateV, bool) {
        if self.me.is_preview && name != PREVIEW_PIPE@ {
            (self, false)
        } else {
            let (s, draws) = self.on_message(name, payload, sender, focus);
            let t = s.sync_cursor();
            (t, draws && !t.defers_render())
        }
    }

    /// A message. The command line waits until it is let go, so that comes first.
    pub open spec fn pipe(
        self,
        name: Seq<char>,
        payload: Option<Seq<char>>,
        sender: Sender,
        focus: Option<(usize, PaneId)>,
    ) -> (StateV, bool) {
        (if is_ours(name) && sender == Sender::Cli {
            self.asks(HostCallV::UnblockCliPipeInput(name))
        } else {
            self
        }).takes_message(name, payload, sender, focus)
    }
}

fn is_our_pipe(name: &str) -> (r: bool)
    ensures
        r == is_ours(name@),
{
    same(name, STATUS_PIPE) || same(name, NAV_UP_PIPE) || same(name, NAV_DOWN_PIPE) || same(
        name,
        NAV_GO_PIPE,
    ) || same(name, NAV_MODE_PIPE) || same(name, TOGGLE_CWD_PIPE) || same(name, SYNC_STATE_PIPE)
        || same(name, READ_CLEAR_PIPE) || same(name, COMMAND_STATE_PIPE) || same(
        name,
        SELECTION_PIPE,
    ) || same(name, MARK_PIPE) || same(name, PREVIEW_PIPE) || same(name, WIDTH_PIPE) || same(
        name,
        DISMISS_PIPE,
    )
}

impl State {
    /// A report of an agent. Returns whether to draw.
    pub fn handle_status_pipe(
        &mut self,
        payload: Option<&str>,
        focus: Option<(usize, PaneId)>,
    ) -> (r: bool)
        ensures
            (final(self)@, r) == old(self)@.status_message(text_view(payload), focus),
    {
        let report = match payload {
            Some(raw) => StatusPayload::parse(raw),
            None => {
                return false;
            },
        };
        match report {
            Some(report) => {
                if self.apply_status(report) && self.is_visible_instance(focus) {
                    self.begin_deployment(1);
                }
                true
            },
            None => false,
        }
    }

    #[verifier::rlimit(40)]
    fn on_message(
        &mut self,
        name: &str,
        payload: Option<&str>,
        sender: Sender,
        focus: Option<(usize, PaneId)>,
    ) -> (r: bool)
        ensures
            (final(self)@, r) == old(self)@.on_message(name@, text_view(payload), sender, focus),
    {
        reveal(StateV::on_message);
        if same(name, STATUS_PIPE) {
            self.handle_status_pipe(payload, focus)
        } else if same(name, NAV_UP_PIPE) {
            self.handle_nav_step_pipe(false, focus)
        } else if same(name, NAV_DOWN_PIPE) {
            self.handle_nav_step_pipe(true, focus)
        } else if same(name, NAV_GO_PIPE) {
            self.handle_nav_go_pipe(focus)
        } else if same(name, NAV_MODE_PIPE) {
            self.handle_nav_mode_pipe(focus)
        } else if same(name, TOGGLE_CWD_PIPE) {
            self.handle_toggle_cwd_pipe(payload)
        } else if same(name, DISMISS_PIPE) {
            self.handle_dismiss_pipe()
        } else if same(name, SELECTION_PIPE) {
            self.handle_selection_pipe(payload)
        } else if same(name, PREVIEW_PIPE) {
            self.handle_preview_pipe(payload)
        } else if same(name, MARK_PIPE) {
            self.handle_mark_pipe(payload)
        } else if same(name, WIDTH_PIPE) {
            self.handle_width_pipe(payload, sender)
        } else if same(name, READ_CLEAR_PIPE) {
            self.handle_read_clear_pipe(payload)
        } else if same(name, COMMAND_STATE_PIPE) {
            self.handle_command_state_pipe(payload)
        } else if same(name, SYNC_STATE_PIPE) {
            self.handle_sync_state_pipe(payload, sender)
        } else {
            false
        }
    }

    /// Takes in a message. Returns whether to draw.
    #[verifier::rlimit(40)]
    pub fn pipe(
        &mut self,
        name: &str,
        payload: Option<&str>,
        sender: Sender,
        focus: Option<(usize, PaneId)>,
    ) -> (r: bool)
        ensures
            (final(self)@, r) == old(self)@.pipe(name@, text_view(payload), sender, focus),
    {
        if is_our_pipe(name) && sender == Sender::Cli {
            self.ask(HostCall::UnblockCliPipeInput(name.to_owned()));
        }
        if self.me.is_preview && !same(name, PREVIEW_PIPE) {
            return false;
        }
        let draws = self.on_message(name, payload, sender, focus);
        self.sync_input_cursor();
        draws && !self.defers_render_while_typing()
    }
}

// --- drawing ---

impl StateV {
    /// The state while a frame of this size is drawn.
    pub open spec fn laid_out(self, rows: usize, cols: usize) -> StateV {
        let s = self.reconcile_viewport(rows).reconcile_width(cols);
        StateV { screen: ScreenV { viewport_cols: cols, ..s.screen }, ..s }
    }
}

impl State {
    /// Lays out a frame of this size and returns its lines, from top to bottom.
    pub fn render(&mut self, rows: usize, cols: usize) -> (r: Vec<Option<Line>>)
        ensures
            final(self)@ == old(self)@.laid_out(rows, cols),
            line_views(r@) == final(self)@.ui(rows as nat, cols as nat),
    {
        self.reconcile_viewport(rows);
        self.reconcile_width(cols);
        self.screen.viewport_cols = cols;
        self.render_ui(rows, cols)
    }
}

// --- laws ---

/// While somebody types, an event that is not theirs never draws.
pub proof fn law_typing_is_not_disturbed(s: StateV, event: EventV, answers: AnswersV)
    requires
        !s.me.is_preview,
        !event.typed(),
        s.update(event, answers).0.defers_render(),
    ensures
        !s.update(event, answers).1,
{
}

/// The command line is let go before anything else is done with its message.
pub proof fn law_cli_is_unblocked(
    s: StateV,
    name: Seq<char>,
    payload: Option<Seq<char>>,
    focus: Option<(usize, PaneId)>,
)
    requires
        is_ours(name),
    ensures
        s.pipe(name, payload, Sender::Cli, focus) == s.asks(
            HostCallV::UnblockCliPipeInput(name),
        ).takes_message(name, payload, Sender::Cli, focus),
{
}

/// A preview takes part in nothing: an event other than the permission changes nothing.
pub proof fn law_preview_only_draws(s: StateV, event: EventV, answers: AnswersV)
    requires
        s.me.is_preview,
        !(event is Permission),
    ensures
        s.update(event, answers) == (s, false),
{
}

/// A message that is not for this plugin changes nothing but the text cursor.
pub proof fn law_foreign_messages(
    s: StateV,
    name: Seq<char>,
    payload: Option<Seq<char>>,
    sender: Sender,
    focus: Option<(usize, PaneId)>,
)
    requires
        !is_ours(name),
    ensures
        s.pipe(name, payload, sender, focus) == (
            if s.me.is_preview {
                s
            } else {
                s.sync_cursor()
            },
            false,
        ),
{
    reveal(StateV::on_message);
}

/// A timer is under way exactly as long as something waits for it.
pub proof fn law_quiet_without_work(s: StateV, by: u64)
    ensures
        !s.on_timer(by).0.awaits_timer() ==> !s.on_timer(by).0.clock.timer_armed,
        s.on_timer(by).0.awaits_timer() ==> s.on_timer(by).0.clock.timer_armed,
{
}

} // verus!
