//! `jw`: a picker for jj workspaces. This crate holds the picker's logic:
//! parsing jj's list output, fuzzy ranking, key bindings, the picker's state
//! machine, shell integration text and release-asset naming.

pub mod text;
pub mod keymap;
pub mod fuzzy;
pub mod jj;
pub mod config;
pub mod app;
pub mod shell;
pub mod selfupdate;
pub mod ops;
pub mod cli;
pub mod ui;
