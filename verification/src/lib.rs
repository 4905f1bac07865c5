pub mod action;
pub mod appearance;
pub mod browser;
pub mod cli;
pub mod clipboard;
pub mod control;
pub mod controller;
pub mod controller_coverage;
pub mod controller_laws;
pub mod emulator;
pub mod engine;
pub mod grid;
pub mod ids;
pub mod ipc;
pub mod input;
pub mod messages;
pub mod model;
pub mod model_laws;
pub mod model_view;
pub mod notify;
pub mod operation_laws;
pub mod outcome_laws;
pub mod pty;
pub mod registry;
pub mod render;
pub mod search;
pub mod session;
pub mod session_store;
pub mod shell;
pub mod shortcuts;
pub mod target_laws;
pub mod terminal_events;
pub mod terminal_laws;
pub mod text;
pub mod snapshot;
pub mod startup_env;
pub mod stream_laws;
pub mod snapshot_laws;
pub mod snapshot_view;
pub mod ui_kit;
pub mod unread;
pub mod unread_laws;
