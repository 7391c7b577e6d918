//! A sidebar for a terminal multiplexer that lists the panes of all tabs, shows what the
//! agents and commands in them are doing, and jumps to them.
//!
//! One instance of the plugin runs per tab. `state::State` is everything that an instance
//! knows, and `state::StateV` is the same as a mathematical value: each operation states in
//! its contract which `StateV` it leads to. `plugin` takes in the host's events and messages,
//! `draw` turns the state into lines, and `host::HostCall` is what the sidebar asks of the
//! host. Proof functions named `law_..` state what holds across operations. Those that span
//! several modes stand in `laws`; what holds of a part of the sidebar as a whole, in terms of
//! what goes in and what comes out, stands in `turns` (agents), `attention` (reads, commands and
//! triage), `outline` (the tree), `keys`, `finding` (reports and queries), `page` (what is
//! drawn), `peers` (focus and instances), `traffic` (messages, events and settings) and
//! `records` (formations and the store).

pub mod agent;
pub mod attention;
pub mod clock;
pub mod command;
pub mod config;
pub mod deploy;
pub mod draw;
pub mod dump;
pub mod entry;
pub mod finding;
pub mod focus;
pub mod footer;
pub mod formation;
pub mod formation_sync;
pub mod header;
pub mod help;
pub mod host;
pub mod ids;
pub mod jump;
pub mod keys;
pub mod laws;
pub mod line;
pub mod listing;
pub mod mark;
pub mod matcher;
pub mod nav;
pub mod outline;
pub mod page;
pub mod pane_row;
pub mod payload;
pub mod peers;
pub mod persistence;
pub mod plugin;
pub mod preview;
pub mod questions;
pub mod read;
pub mod records;
pub mod report;
pub mod rows;
pub mod screen;
pub mod scroll;
pub mod search;
pub mod state;
pub mod store;
pub mod summon;
pub mod sync;
pub mod termination;
pub mod text;
pub mod traffic;
pub mod triage;
pub mod triage_row;
pub mod turns;
pub mod width;
pub mod width_sync;
pub mod wire;
