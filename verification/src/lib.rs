//! Verified core of a desktop dashboard for DDEV projects: parsing of the
//! `ddev` CLI's JSON output, project status normalisation, lifecycle command
//! handling, tray menu and tooltip contents, and user preferences.

pub mod text;
pub mod json;
pub mod ddev;
pub mod prefs;
pub mod commands;
pub mod tray;
