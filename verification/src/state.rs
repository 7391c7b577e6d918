//! The state of one sidebar instance.

use std::collections::{BTreeMap, BTreeSet};

use vstd::prelude::*;

use crate::agent::{AgentInfo, AgentInfoV};
use crate::command::CommandInfo;
use crate::deploy::Deployment;
use crate::focus::ParkedFocus;
use crate::formation::{Formation, FormationPrompt, FormationPromptV, FormationV};
use crate::host::{HostCall, HostCallV, PaneManifest, PaneManifestV, Resize, TabInfo, TabInfoV};
use crate::ids::{group_views, map_views, opt_view, views};
use crate::jump::{JumpState, JumpStateV};
use crate::persistence::{Store, StoreV};
use crate::preview::{PreviewContent, PreviewContentV, PreviewState};
use crate::search::{SearchState, SearchStateV};
use crate::termination::{TerminationState, TerminationStateV};
use crate::triage::TriageState;

verus! {

broadcast use group_views;

/// One terminal pane of the list.
#[derive(Debug)]
pub struct Selectable {
    pub tab_position: usize,
    pub pane_id: u32,
    pub title: String,
    pub is_floating: bool,
}

#[verifier::ext_equal]
pub struct SelectableV {
    pub tab_position: usize,
    pub pane_id: u32,
    pub title: Seq<char>,
    pub is_floating: bool,
}

impl View for Selectable {
    type V = SelectableV;

    open spec fn view(&self) -> SelectableV {
        SelectableV {
            tab_position: self.tab_position,
            pane_id: self.pane_id,
            title: self.title@,
            is_floating: self.is_floating,
        }
    }
}

/// Fixed texts as sequences of characters.
pub open spec fn str_views(s: Seq<&'static str>) -> Seq<Seq<char>> {
    s.map_values(|x: &'static str| x@)
}

/// Settings and their spellings as sequences of characters.
pub open spec fn key_views(s: Seq<(&'static str, String)>) -> Seq<(Seq<char>, Seq<char>)> {
    s.map_values(|x: (&'static str, String)| (x.0@, x.1@))
}

/// What the list shows.
#[derive(Debug)]
pub struct Listing {
    /// The tabs as last reported.
    pub tabs: Vec<TabInfo>,
    /// The panes as last reported.
    pub panes: Option<PaneManifest>,
    /// The terminal panes in the order of the list.
    pub selectable: Vec<Selectable>,
    /// The index of the selected pane.
    pub selected: usize,
    /// The marked panes.
    pub marked: BTreeSet<u32>,
    /// The working directories that hooks reported.
    pub pane_cwds: BTreeMap<u32, String>,
}

pub struct ListingV {
    pub tabs: Seq<TabInfoV>,
    pub panes: Option<PaneManifestV>,
    pub selectable: Seq<SelectableV>,
    pub selected: usize,
    pub marked: Set<u32>,
    pub pane_cwds: Map<u32, Seq<char>>,
}

impl View for Listing {
    type V = ListingV;

    open spec fn view(&self) -> ListingV {
        ListingV {
            tabs: views(self.tabs@),
            panes: opt_view(self.panes),
            selectable: views(self.selectable@),
            selected: self.selected,
            marked: self.marked@,
            pane_cwds: map_views(self.pane_cwds@),
        }
    }
}

/// The states of agents and commands.
#[derive(Debug)]
pub struct Statuses {
    /// The agents, by terminal pane.
    pub agents: BTreeMap<u32, AgentInfo>,
    /// The commands, by terminal pane.
    pub commands: BTreeMap<u32, CommandInfo>,
    /// Counts the changes of state.
    pub state_seq: u64,
    /// The focused panes with something unread, and when they count as read.
    pub pending_reads: BTreeMap<u32, u64>,
}

pub struct StatusesV {
    pub agents: Map<u32, AgentInfoV>,
    pub commands: Map<u32, CommandInfo>,
    pub state_seq: u64,
    pub pending_reads: Map<u32, u64>,
}

impl View for Statuses {
    type V = StatusesV;

    open spec fn view(&self) -> StatusesV {
        StatusesV {
            agents: map_views(self.agents@),
            commands: self.commands@,
            state_seq: self.state_seq,
            pending_reads: self.pending_reads@,
        }
    }
}

/// What an instance knows of itself and of its siblings.
#[derive(Debug)]
pub struct Instance {
    /// This instance is on screen, as last reported.
    pub visible: bool,
    pub own_plugin_id: Option<u32>,
    /// Where this plugin was loaded from.
    pub own_plugin_url: Option<String>,
    pub permissions_granted: bool,
    /// This is a temporary floating instance.
    pub summoned: bool,
    /// Enter nav mode as soon as it is possible.
    pub pending_nav_entry: bool,
    /// This instance only draws a preview.
    pub is_preview: bool,
    /// The other instances of this plugin.
    pub known_siblings: BTreeSet<u32>,
    /// The siblings were asked for their state.
    pub state_requested: bool,
    /// The instances that this one summoned, by tab position.
    pub summoned_panes: BTreeMap<usize, u32>,
}

pub struct InstanceV {
    pub visible: bool,
    pub own_plugin_id: Option<u32>,
    pub own_plugin_url: Option<Seq<char>>,
    pub permissions_granted: bool,
    pub summoned: bool,
    pub pending_nav_entry: bool,
    pub is_preview: bool,
    pub known_siblings: Set<u32>,
    pub state_requested: bool,
    pub summoned_panes: Map<usize, u32>,
}

impl View for Instance {
    type V = InstanceV;

    open spec fn view(&self) -> InstanceV {
        InstanceV {
            visible: self.visible,
            own_plugin_id: self.own_plugin_id,
            own_plugin_url: opt_view(self.own_plugin_url),
            permissions_granted: self.permissions_granted,
            summoned: self.summoned,
            pending_nav_entry: self.pending_nav_entry,
            is_preview: self.is_preview,
            known_siblings: self.known_siblings@,
            state_requested: self.state_requested,
            summoned_panes: self.summoned_panes@,
        }
    }
}

/// The settings in effect.
#[derive(Debug)]
pub struct Settings {
    /// Show a working directory under each agent.
    pub show_cwd: bool,
    /// Shorten the home directory in it to `~`.
    pub show_cwd_tilde: bool,
    /// The home directory.
    pub home: Option<String>,
    pub show_deploy_animation: bool,
    /// The spelling of each key that has a footer hint.
    pub direct_keys: Vec<(&'static str, String)>,
    /// The settings whose value was not understood.
    pub config_warnings: Vec<&'static str>,
    /// Until when the footer says so.
    pub config_warning_until: Option<u64>,
}

pub struct SettingsV {
    pub show_cwd: bool,
    pub show_cwd_tilde: bool,
    pub home: Option<Seq<char>>,
    pub show_deploy_animation: bool,
    pub direct_keys: Seq<(Seq<char>, Seq<char>)>,
    pub config_warnings: Seq<Seq<char>>,
    pub config_warning_until: Option<u64>,
}

impl View for Settings {
    type V = SettingsV;

    open spec fn view(&self) -> SettingsV {
        SettingsV {
            show_cwd: self.show_cwd,
            show_cwd_tilde: self.show_cwd_tilde,
            home: opt_view(self.home),
            show_deploy_animation: self.show_deploy_animation,
            direct_keys: key_views(self.direct_keys@),
            config_warnings: str_views(self.config_warnings@),
            config_warning_until: self.config_warning_until,
        }
    }
}

/// Nav mode and what is open inside it.
#[derive(Debug)]
pub struct Nav {
    /// This instance intercepts the keys.
    pub nav_mode: bool,
    pub help_overlay: bool,
    pub search: Option<SearchState>,
    pub triage: Option<TriageState>,
    pub jump: Option<JumpState>,
    pub termination: Option<TerminationState>,
    pub preview: Option<PreviewState>,
    pub formation_prompt: Option<FormationPrompt>,
}

pub struct NavV {
    pub nav_mode: bool,
    pub help_overlay: bool,
    pub search: Option<SearchStateV>,
    pub triage: Option<TriageState>,
    pub jump: Option<JumpStateV>,
    pub termination: Option<TerminationStateV>,
    pub preview: Option<PreviewState>,
    pub formation_prompt: Option<FormationPromptV>,
}

impl View for Nav {
    type V = NavV;

    open spec fn view(&self) -> NavV {
        NavV {
            nav_mode: self.nav_mode,
            help_overlay: self.help_overlay,
            search: opt_view(self.search),
            triage: self.triage,
            jump: opt_view(self.jump),
            termination: opt_view(self.termination),
            preview: self.preview,
            formation_prompt: opt_view(self.formation_prompt),
        }
    }
}

/// The real focus as observed, and the one that is held.
#[derive(Debug)]
pub struct Focus {
    /// The terminal pane that has the focus.
    pub focused_pane: Option<u32>,
    /// The focus is on a terminal pane itself.
    pub focus_on_terminal: bool,
    /// The pane whose focus the sidebar holds in nav mode.
    pub focus_parked: Option<ParkedFocus>,
    /// The instance came on screen and has not looked at the focus since.
    pub pending_focus_resync: bool,
    /// The focus when nav mode was left.
    pub focus_at_nav_exit: Option<u32>,
    /// The selection when nav mode was left.
    pub selection_at_nav_exit: Option<u32>,
}

pub struct FocusV {
    pub focused_pane: Option<u32>,
    pub focus_on_terminal: bool,
    pub focus_parked: Option<ParkedFocus>,
    pub pending_focus_resync: bool,
    pub focus_at_nav_exit: Option<u32>,
    pub selection_at_nav_exit: Option<u32>,
}

impl View for Focus {
    type V = FocusV;

    open spec fn view(&self) -> FocusV {
        FocusV {
            focused_pane: self.focused_pane,
            focus_on_terminal: self.focus_on_terminal,
            focus_parked: self.focus_parked,
            pending_focus_resync: self.pending_focus_resync,
            focus_at_nav_exit: self.focus_at_nav_exit,
            selection_at_nav_exit: self.selection_at_nav_exit,
        }
    }
}

/// What is on the screen.
#[derive(Debug)]
pub struct Screen {
    /// The rows of the list hidden above the screen.
    pub scroll: usize,
    /// The height drawn last; 0 before the first frame.
    pub viewport_rows: usize,
    /// The width drawn last; 0 before the first frame.
    pub viewport_cols: usize,
    /// The text cursor as the host knows it.
    pub cursor_shown: Option<(usize, usize)>,
    pub preview_content: PreviewContent,
}

pub struct ScreenV {
    pub scroll: usize,
    pub viewport_rows: usize,
    pub viewport_cols: usize,
    pub cursor_shown: Option<(usize, usize)>,
    pub preview_content: PreviewContentV,
}

impl View for Screen {
    type V = ScreenV;

    open spec fn view(&self) -> ScreenV {
        ScreenV {
            scroll: self.scroll,
            viewport_rows: self.viewport_rows,
            viewport_cols: self.viewport_cols,
            cursor_shown: self.cursor_shown,
            preview_content: self.preview_content@,
        }
    }
}

/// The width shared between tabs.
#[derive(Debug)]
pub struct WidthSync {
    /// The width that the sidebars of all tabs should have.
    pub width_target: Option<usize>,
    /// The resizes asked for to reach it.
    pub width_attempts: usize,
    /// A resize that has not shown yet.
    pub width_adjusting: Option<Resize>,
    /// The target cannot be reached more closely.
    pub width_settled: bool,
}

pub struct WidthSyncV {
    pub width_target: Option<usize>,
    pub width_attempts: usize,
    pub width_adjusting: Option<Resize>,
    pub width_settled: bool,
}

impl View for WidthSync {
    type V = WidthSyncV;

    open spec fn view(&self) -> WidthSyncV {
        WidthSyncV {
            width_target: self.width_target,
            width_attempts: self.width_attempts,
            width_adjusting: self.width_adjusting,
            width_settled: self.width_settled,
        }
    }
}

/// Time, and what runs on it.
#[derive(Debug)]
pub struct Clock {
    /// The clock, in microseconds of timer time.
    pub elapsed: u64,
    /// A timer event is under way.
    pub timer_armed: bool,
    pub deployment: Option<Deployment>,
}

pub struct ClockV {
    pub elapsed: u64,
    pub timer_armed: bool,
    pub deployment: Option<Deployment>,
}

impl View for Clock {
    type V = ClockV;

    open spec fn view(&self) -> ClockV {
        ClockV {
            elapsed: self.elapsed,
            timer_armed: self.timer_armed,
            deployment: self.deployment,
        }
    }
}

/// The formations and their members.
#[derive(Debug)]
pub struct Formations {
    pub formations: Vec<Formation>,
    /// The formation of each pane that is in one.
    pub assignments: BTreeMap<u32, u32>,
    pub next_formation_id: u32,
}

pub struct FormationsV {
    pub formations: Seq<FormationV>,
    pub assignments: Map<u32, u32>,
    pub next_formation_id: u32,
}

impl View for Formations {
    type V = FormationsV;

    open spec fn view(&self) -> FormationsV {
        FormationsV {
            formations: views(self.formations@),
            assignments: self.assignments@,
            next_formation_id: self.next_formation_id,
        }
    }
}

/// The store on disk and the session's place in it.
#[derive(Debug)]
pub struct Persistence {
    pub store: Store,
    pub session_name: Option<String>,
    /// The session's directory name in the store.
    pub session_id: Option<String>,
}

pub struct PersistenceV {
    pub store: StoreV,
    pub session_name: Option<Seq<char>>,
    pub session_id: Option<Seq<char>>,
}

impl View for Persistence {
    type V = PersistenceV;

    open spec fn view(&self) -> PersistenceV {
        PersistenceV {
            store: self.store@,
            session_name: opt_view(self.session_name),
            session_id: opt_view(self.session_id),
        }
    }
}

/// The state of one sidebar. Every instance of the plugin has its own.
#[derive(Debug)]
pub struct State {
    pub list: Listing,
    pub status: Statuses,
    pub me: Instance,
    pub config: Settings,
    pub nav: Nav,
    pub focus: Focus,
    pub screen: Screen,
    pub width: WidthSync,
    pub clock: Clock,
    pub groups: Formations,
    pub disk: Persistence,
    /// The requests to the host that have not been carried out.
    pub calls: Vec<HostCall>,
}

/// The state as a mathematical value; the contracts of all operations speak of it.
pub struct StateV {
    pub list: ListingV,
    pub status: StatusesV,
    pub me: InstanceV,
    pub config: SettingsV,
    pub nav: NavV,
    pub focus: FocusV,
    pub screen: ScreenV,
    pub width: WidthSyncV,
    pub clock: ClockV,
    pub groups: FormationsV,
    pub disk: PersistenceV,
    pub calls: Seq<HostCallV>,
}

impl View for State {
    type V = StateV;

    open spec fn view(&self) -> StateV {
        StateV {
            list: self.list@,
            status: self.status@,
            me: self.me@,
            config: self.config@,
            nav: self.nav@,
            focus: self.focus@,
            screen: self.screen@,
            width: self.width@,
            clock: self.clock@,
            groups: self.groups@,
            disk: self.disk@,
            calls: views(self.calls@),
        }
    }
}

impl StateV {
    /// A sidebar that has not seen anything yet.
    pub open spec fn initial() -> StateV {
        StateV {
            list: ListingV {
                tabs: Seq::empty(),
                panes: None,
                selectable: Seq::empty(),
                selected: 0,
                marked: Set::empty(),
                pane_cwds: Map::empty(),
            },
            status: StatusesV {
                agents: Map::empty(),
                commands: Map::empty(),
                state_seq: 0,
                pending_reads: Map::empty(),
            },
            me: InstanceV {
                visible: false,
                own_plugin_id: None,
                own_plugin_url: None,
                permissions_granted: false,
                summoned: false,
                pending_nav_entry: false,
                is_preview: false,
                known_siblings: Set::empty(),
                state_requested: false,
                summoned_panes: Map::empty(),
            },
            config: SettingsV {
                show_cwd: false,
                show_cwd_tilde: false,
                home: None,
                show_deploy_animation: true,
                direct_keys: Seq::empty(),
                config_warnings: Seq::empty(),
                config_warning_until: None,
            },
            nav: NavV {
                nav_mode: false,
                help_overlay: false,
                search: None,
                triage: None,
                jump: None,
                termination: None,
                preview: None,
                formation_prompt: None,
            },
            focus: FocusV {
                focused_pane: None,
                focus_on_terminal: false,
                focus_parked: None,
                pending_focus_resync: false,
                focus_at_nav_exit: None,
                selection_at_nav_exit: None,
            },
            screen: ScreenV {
                scroll: 0,
                viewport_rows: 0,
                viewport_cols: 0,
                cursor_shown: None,
                preview_content: PreviewContentV { title: Seq::empty(), lines: Seq::empty() },
            },
            width: WidthSyncV {
                width_target: None,
                width_attempts: 0,
                width_adjusting: None,
                width_settled: false,
            },
            clock: ClockV {
                elapsed: 0,
                timer_armed: false,
                deployment: None,
            },
            groups: FormationsV {
                formations: Seq::empty(),
                assignments: Map::empty(),
                next_formation_id: 0,
            },
            disk: PersistenceV {
                store: StoreV::Idle,
                session_name: None,
                session_id: None,
            },
            calls: Seq::empty(),
        }
    }
}

impl Default for State {
    fn default() -> (r: State)
        ensures
            r@ == StateV::initial(),
    {
        let state = State {
            list: Listing {
                tabs: Vec::new(),
                panes: None,
                selectable: Vec::new(),
                selected: 0,
                marked: BTreeSet::new(),
                pane_cwds: BTreeMap::new(),
            },
            status: Statuses {
                agents: BTreeMap::new(),
                commands: BTreeMap::new(),
                state_seq: 0,
                pending_reads: BTreeMap::new(),
            },
            me: Instance {
                visible: false,
                own_plugin_id: None,
                own_plugin_url: None,
                permissions_granted: false,
                summoned: false,
                pending_nav_entry: false,
                is_preview: false,
                known_siblings: BTreeSet::new(),
                state_requested: false,
                summoned_panes: BTreeMap::new(),
            },
            config: Settings {
                show_cwd: false,
                show_cwd_tilde: false,
                home: None,
                show_deploy_animation: true,
                direct_keys: Vec::new(),
                config_warnings: Vec::new(),
                config_warning_until: None,
            },
            nav: Nav {
                nav_mode: false,
                help_overlay: false,
                search: None,
                triage: None,
                jump: None,
                termination: None,
                preview: None,
                formation_prompt: None,
            },
            focus: Focus {
                focused_pane: None,
                focus_on_terminal: false,
                focus_parked: None,
                pending_focus_resync: false,
                focus_at_nav_exit: None,
                selection_at_nav_exit: None,
            },
            screen: Screen {
                scroll: 0,
                viewport_rows: 0,
                viewport_cols: 0,
                cursor_shown: None,
                preview_content: PreviewContent { title: String::new(), lines: Vec::new() },
            },
            width: WidthSync {
                width_target: None,
                width_attempts: 0,
                width_adjusting: None,
                width_settled: false,
            },
            clock: Clock {
                elapsed: 0,
                timer_armed: false,
                deployment: None,
            },
            groups: Formations {
                formations: Vec::new(),
                assignments: BTreeMap::new(),
                next_formation_id: 0,
            },
            disk: Persistence {
                store: Store::Idle,
                session_name: None,
                session_id: None,
            },
            calls: Vec::new(),
        };
        assert(key_views(state.config.direct_keys@) =~= Seq::empty());
        assert(str_views(state.config.config_warnings@) =~= Seq::empty());
        state
    }
}

} // verus!
