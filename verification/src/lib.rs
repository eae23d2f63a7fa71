//! A programmable terminal multiplexer core: workspaces, windows, tabs and
//! split panes, together with the command, input and protocol logic around
//! them.
pub mod api;
pub mod text;
pub mod tree;
pub mod mux_model;
pub mod mux;
pub mod dispatch;
pub mod keys;
pub mod palette;
pub mod platform;
pub mod selector;
pub mod script_queue;
pub mod session;
pub mod downloads;
pub mod transfer;
pub mod uploads;
pub mod variables;
pub mod notify;
pub mod icons;
pub mod object_model;
pub mod terminal_events;
pub mod pane_events;
pub mod scheduling;
pub mod upload_sessions;
pub mod mouse;
pub mod notification_tracker;
pub mod layout;
pub mod config;
pub mod pty;
pub mod cli;
pub mod laws;
pub mod command_laws;
pub mod visual;
