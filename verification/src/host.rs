//! The host's side as plain values: what it reports and what the sidebar asks of it.
//!
//! The sidebar never calls the host itself. It appends each request to
//! `State::calls`, in order, and the plugin around it carries them out.

use vstd::prelude::*;

use crate::ids::{group_views, opt_view, views};

verus! {

broadcast use group_views;

#[derive(Debug, Clone, Copy, PartialEq, Eq, Structural)]
pub enum PaneId {
    Terminal(u32),
    Plugin(u32),
}

#[derive(Debug, Clone, Copy, PartialEq, Eq, Structural)]
pub enum Resize {
    Increase,
    Decrease,
}

#[derive(Debug, Clone, Copy, PartialEq, Eq, Structural)]
pub enum BareKey {
    PageDown,
    PageUp,
    Left,
    Down,
    Up,
    Right,
    Home,
    End,
    Backspace,
    Delete,
    Insert,
    F(u8),
    Char(char),
    Tab,
    Esc,
    Enter,
    CapsLock,
    ScrollLock,
    NumLock,
    PrintScreen,
    Pause,
    Menu,
}

/// Who sent a message.
#[derive(Debug, Clone, Copy, PartialEq, Eq, Structural)]
pub enum Sender {
    /// The command line.
    Cli,
    /// A plugin, by its id.
    Plugin(u32),
    /// A key binding.
    Keybind,
}

/// A key press with its modifiers.
#[derive(Debug, Clone, Copy, PartialEq, Eq, Structural)]
pub struct Key {
    pub bare: BareKey,
    pub ctrl: bool,
    pub alt: bool,
    pub shift: bool,
    pub command: bool,
}

impl Key {
    /// A modifier other than Shift is held.
    pub open spec fn hard(self) -> bool {
        self.ctrl || self.alt || self.command
    }

    /// Shift passes as part of a printable character; any other modifier is hard.
    pub fn has_hard_modifier(&self) -> (r: bool)
        ensures
            r == self.hard(),
    {
        self.ctrl || self.alt || self.command
    }

    /// The bare key without modifiers.
    pub fn plain(bare: BareKey) -> (r: Key)
        ensures
            r == (Key { bare, ctrl: false, alt: false, shift: false, command: false }),
    {
        Key { bare, ctrl: false, alt: false, shift: false, command: false }
    }
}

/// A pane as the host reports it.
#[derive(Debug)]
pub struct PaneInfo {
    pub id: u32,
    pub is_plugin: bool,
    pub is_focused: bool,
    pub is_floating: bool,
    pub is_suppressed: bool,
    pub title: String,
    pub exited: bool,
    pub exit_status: Option<i32>,
    pub terminal_command: Option<String>,
    pub plugin_url: Option<String>,
}

#[verifier::ext_equal]
pub struct PaneInfoV {
    pub id: u32,
    pub is_plugin: bool,
    pub is_focused: bool,
    pub is_floating: bool,
    pub is_suppressed: bool,
    pub title: Seq<char>,
    pub exited: bool,
    pub exit_status: Option<i32>,
    pub terminal_command: Option<Seq<char>>,
    pub plugin_url: Option<Seq<char>>,
}

impl View for PaneInfo {
    type V = PaneInfoV;

    open spec fn view(&self) -> PaneInfoV {
        PaneInfoV {
            id: self.id,
            is_plugin: self.is_plugin,
            is_focused: self.is_focused,
            is_floating: self.is_floating,
            is_suppressed: self.is_suppressed,
            title: self.title@,
            exited: self.exited,
            exit_status: self.exit_status,
            terminal_command: opt_view(self.terminal_command),
            plugin_url: opt_view(self.plugin_url),
        }
    }
}

/// The panes of the tab at one position, in the host's order.
#[derive(Debug)]
pub struct TabPanes {
    pub position: usize,
    pub panes: Vec<PaneInfo>,
}

#[verifier::ext_equal]
pub struct TabPanesV {
    pub position: usize,
    pub panes: Seq<PaneInfoV>,
}

impl View for TabPanes {
    type V = TabPanesV;

    open spec fn view(&self) -> TabPanesV {
        TabPanesV { position: self.position, panes: views(self.panes@) }
    }
}

/// The panes of all tabs. The host keeps no order between tabs.
#[derive(Debug)]
pub struct PaneManifest {
    pub tabs: Vec<TabPanes>,
}

#[verifier::ext_equal]
pub struct PaneManifestV {
    pub tabs: Seq<TabPanesV>,
}

impl View for PaneManifest {
    type V = PaneManifestV;

    open spec fn view(&self) -> PaneManifestV {
        PaneManifestV { tabs: views(self.tabs@) }
    }
}

/// The panes of all these tabs, tab after tab.
pub open spec fn flat_tabs(tabs: Seq<TabPanesV>) -> Seq<PaneInfoV>
    decreases tabs.len(),
{
    if tabs.len() == 0 {
        Seq::empty()
    } else {
        flat_tabs(tabs.drop_last()) + tabs.last().panes
    }
}

impl PaneManifestV {
    pub open spec fn flat(self) -> Seq<PaneInfoV> {
        flat_tabs(self.tabs)
    }
}

impl PaneManifest {
    /// The panes of all tabs, tab after tab.
    pub fn all_panes(&self) -> (r: Vec<&PaneInfo>)
        ensures
            views(r@) == self@.flat(),
    {
        let mut out: Vec<&PaneInfo> = Vec::new();
        let ghost tabs = self@.tabs;
        let mut i: usize = 0;
        assert(tabs.take(0) =~= Seq::empty());
        while i < self.tabs.len()
            invariant
                i <= self.tabs.len(),
                tabs == self@.tabs,
                views(out@) == flat_tabs(tabs.take(i as int)),
            decreases self.tabs.len() - i,
        {
            let tab = &self.tabs[i];
            let ghost before = views(out@);
            let ghost panes = tab@.panes;
            assert(tabs.take(i + 1).drop_last() =~= tabs.take(i as int));
            assert(tabs.take(i + 1).last() == tab@);
            let mut j: usize = 0;
            assert(before + panes.take(0) =~= before);
            while j < tab.panes.len()
                invariant
                    j <= tab.panes.len(),
                    panes == tab@.panes,
                    views(out@) == before + panes.take(j as int),
                decreases tab.panes.len() - j,
            {
                out.push(&tab.panes[j]);
                assert(panes[j as int] == tab.panes[j as int]@);
                assert(views(out@) =~= before + panes.take(j + 1));
                j += 1;
            }
            assert(panes.take(j as int) =~= panes);
            i += 1;
        }
        assert(tabs.take(i as int) =~= tabs);
        out
    }
}

#[derive(Debug)]
pub struct TabInfo {
    pub position: usize,
    pub name: String,
    pub active: bool,
    pub are_floating_panes_visible: bool,
}

#[verifier::ext_equal]
pub struct TabInfoV {
    pub position: usize,
    pub name: Seq<char>,
    pub active: bool,
    pub are_floating_panes_visible: bool,
}

impl View for TabInfo {
    type V = TabInfoV;

    open spec fn view(&self) -> TabInfoV {
        TabInfoV {
            position: self.position,
            name: self.name@,
            active: self.active,
            are_floating_panes_visible: self.are_floating_panes_visible,
        }
    }
}

/// A session of the host.
#[derive(Debug)]
pub struct SessionInfo {
    pub name: String,
    pub is_current_session: bool,
}

#[verifier::ext_equal]
pub struct SessionInfoV {
    pub name: Seq<char>,
    pub is_current_session: bool,
}

impl View for SessionInfo {
    type V = SessionInfoV;

    open spec fn view(&self) -> SessionInfoV {
        SessionInfoV { name: self.name@, is_current_session: self.is_current_session }
    }
}

/// The index of the first session that is the current one; the length where none is.
pub open spec fn current_place(sessions: Seq<SessionInfoV>) -> nat
    decreases sessions.len(),
{
    if sessions.len() == 0 || sessions[0].is_current_session {
        0
    } else {
        1 + current_place(sessions.drop_first())
    }
}

/// The index of the session that this instance is in.
pub fn current_session(sessions: &Vec<SessionInfo>) -> (r: Option<usize>)
    ensures
        r is Some == (current_place(views(sessions@)) < sessions.len()),
        r is Some ==> r->0 == current_place(views(sessions@)),
{
    let ghost v = views(sessions@);
    let mut i: usize = 0;
    assert(v.skip(0) =~= v);
    while i < sessions.len()
        invariant
            i <= sessions.len(),
            v == views(sessions@),
            current_place(v) == i + current_place(v.skip(i as int)),
        decreases sessions.len() - i,
    {
        let ghost rest = v.skip(i as int);
        assert(rest[0] == sessions[i as int]@);
        assert(rest.drop_first() =~= v.skip(i + 1));
        if sessions[i].is_current_session {
            return Some(i);
        }
        i += 1;
    }
    None
}

/// A length on the screen.
#[derive(Debug, Clone, Copy, PartialEq, Eq, Structural)]
pub enum Extent {
    Fixed(usize),
    Percent(usize),
}

/// Where a pinned floating pane goes: its left edge at the top of the screen, and its size.
#[derive(Debug, Clone, Copy, PartialEq, Eq, Structural)]
pub struct Coordinates {
    pub x: usize,
    pub y: usize,
    pub width: Extent,
    pub height: Extent,
    pub pinned: bool,
}

/// Why a floating instance is opened; the id it gets is reported back accordingly.
#[derive(Debug, Clone, Copy, PartialEq, Eq, Structural)]
pub enum Opening {
    /// A sidebar for the tab at this position.
    Summon(usize),
    Preview,
}

/// One request to the host.
#[derive(Debug)]
pub enum HostCall {
    Subscribe,
    RequestPermission,
    SetSelectable(bool),
    ShowCursor(Option<(usize, usize)>),
    /// Wake up after this many microseconds.
    SetTimeout(u64),
    ClosePluginPane(u32),
    FocusPluginPane(u32),
    RenamePluginPane(u32, &'static str),
    UnblockCliPipeInput(String),
    /// A message to one instance: its name, the receiver and the payload.
    PipeMessageToPlugin(&'static str, u32, String),
    ClosePane(PaneId),
    ResizePane(Resize, PaneId),
    /// Focus a terminal pane; the flag brings up a hidden floating layer.
    FocusPane(u32, bool),
    SendSigkill(PaneId),
    ChangeCoordinates(PaneId, Coordinates),
    InterceptKeyPresses,
    ClearKeyPressesIntercepts,
    /// Open an instance of the plugin at this location, with this configuration.
    OpenFloating(String, Vec<(&'static str, &'static str)>, Coordinates, Opening),
    /// Read the visible text of a terminal pane and send it, under this title, to the
    /// preview instance.
    SendSnapshot(u32, u32, String),
    ChangeHostFolder(Vec<String>),
    /// Look up the focused tab, the panes of the session and which of its instances are
    /// alive, and report them to `State::summon_floating_if_absent`.
    QuerySummon,
}

/// The configuration entries as texts.
pub open spec fn entries(config: Seq<(&'static str, &'static str)>) -> Seq<
    (Seq<char>, Seq<char>),
> {
    config.map_values(|e: (&'static str, &'static str)| (e.0@, e.1@))
}

#[verifier::ext_equal]
pub enum HostCallV {
    Subscribe,
    RequestPermission,
    SetSelectable(bool),
    ShowCursor(Option<(usize, usize)>),
    SetTimeout(u64),
    ClosePluginPane(u32),
    FocusPluginPane(u32),
    RenamePluginPane(u32, Seq<char>),
    UnblockCliPipeInput(Seq<char>),
    PipeMessageToPlugin(Seq<char>, u32, Seq<char>),
    ClosePane(PaneId),
    ResizePane(Resize, PaneId),
    FocusPane(u32, bool),
    SendSigkill(PaneId),
    ChangeCoordinates(PaneId, Coordinates),
    InterceptKeyPresses,
    ClearKeyPressesIntercepts,
    OpenFloating(Seq<char>, Seq<(Seq<char>, Seq<char>)>, Coordinates, Opening),
    SendSnapshot(u32, u32, Seq<char>),
    ChangeHostFolder(Seq<Seq<char>>),
    QuerySummon,
}

impl View for HostCall {
    type V = HostCallV;

    open spec fn view(&self) -> HostCallV {
        match self {
            HostCall::Subscribe => HostCallV::Subscribe,
            HostCall::RequestPermission => HostCallV::RequestPermission,
            HostCall::SetSelectable(b) => HostCallV::SetSelectable(*b),
            HostCall::ShowCursor(c) => HostCallV::ShowCursor(*c),
            HostCall::SetTimeout(t) => HostCallV::SetTimeout(*t),
            HostCall::ClosePluginPane(id) => HostCallV::ClosePluginPane(*id),
            HostCall::FocusPluginPane(id) => HostCallV::FocusPluginPane(*id),
            HostCall::RenamePluginPane(id, name) => HostCallV::RenamePluginPane(*id, name@),
            HostCall::UnblockCliPipeInput(name) => HostCallV::UnblockCliPipeInput(name@),
            HostCall::PipeMessageToPlugin(name, id, payload) => HostCallV::PipeMessageToPlugin(
                name@,
                *id,
                payload@,
            ),
            HostCall::ClosePane(id) => HostCallV::ClosePane(*id),
            HostCall::ResizePane(resize, id) => HostCallV::ResizePane(*resize, *id),
            HostCall::FocusPane(id, float) => HostCallV::FocusPane(*id, *float),
            HostCall::SendSigkill(id) => HostCallV::SendSigkill(*id),
            HostCall::ChangeCoordinates(id, c) => HostCallV::ChangeCoordinates(*id, *c),
            HostCall::InterceptKeyPresses => HostCallV::InterceptKeyPresses,
            HostCall::ClearKeyPressesIntercepts => HostCallV::ClearKeyPressesIntercepts,
            HostCall::OpenFloating(url, settings, c, opening) => HostCallV::OpenFloating(
                url@,
                entries(settings@),
                *c,
                *opening,
            ),
            HostCall::SendSnapshot(target, pane, title) => HostCallV::SendSnapshot(
                *target,
                *pane,
                title@,
            ),
            HostCall::ChangeHostFolder(path) => HostCallV::ChangeHostFolder(views(path@)),
            HostCall::QuerySummon => HostCallV::QuerySummon,
        }
    }
}

} // verus!
