//! A queue of tasks for coding agents: workspaces are found and identified, tasks
//! are entered, stored as Markdown files, listed and launched.

pub mod attachment;
pub mod command;
pub mod creation;
pub mod creation_laws;
pub mod creation_listing;
pub mod creation_scope;
pub mod creation_success;
pub mod dialog;
pub mod dialog_laws;
pub mod dialog_state;
pub mod discovery;
pub mod disk;
pub mod front_matter;
pub mod image;
pub mod image_laws;
pub mod markdown;
pub mod numbers;
pub mod order;
pub mod outside;
pub mod panel;
pub mod panel_laws;
pub mod path;
pub mod queue;
pub mod round_trip;
pub mod store;
pub mod store_error;
pub mod task;
pub mod text;
pub mod views;
pub mod workspace;
