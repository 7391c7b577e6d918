//! The names of the pipes: the protocol between hooks, key bindings and instances.

use vstd::prelude::*;

verus! {

/// State reports from the hooks of agents.
pub const STATUS_PIPE: &'static str = "fujin_status";

pub const NAV_UP_PIPE: &'static str = "fujin_up";

pub const NAV_DOWN_PIPE: &'static str = "fujin_down";

pub const NAV_GO_PIPE: &'static str = "fujin_go";

/// Enters nav mode.
pub const NAV_MODE_PIPE: &'static str = "fujin_mode";

/// Flips the cwd rows without a payload, or sets them with `true` / `false`.
pub const TOGGLE_CWD_PIPE: &'static str = "fujin_toggle_cwd";

/// Agent states, from one instance to another.
pub const SYNC_STATE_PIPE: &'static str = "fujin_sync_state";

/// Panes that were read.
pub const READ_CLEAR_PIPE: &'static str = "fujin_read";

/// Command states.
pub const COMMAND_STATE_PIPE: &'static str = "fujin_command";

/// The selected pane.
pub const SELECTION_PIPE: &'static str = "fujin_selection";

/// The whole set of marked panes.
pub const MARK_PIPE: &'static str = "fujin_mark";

/// The text of a pane for the preview: a title line, then the content.
pub const PREVIEW_PIPE: &'static str = "fujin_preview";

/// The width that the sidebars share.
pub const WIDTH_PIPE: &'static str = "fujin_width";

/// Closes summoned instances that were left behind.
pub const DISMISS_PIPE: &'static str = "fujin_dismiss";

/// All formations and their members.
pub const FORMATION_PIPE: &'static str = "fujin_formation";

} // verus!
