//! A verified core for managing local development secrets, organised by
//! project and environment.

pub mod cli;
pub mod entries;
pub mod collections;
pub mod model;
pub mod kinds;
pub mod text;
pub mod resolve;
pub mod envfile;
pub mod fuzzy;
pub mod clip;
pub mod meta;
pub mod errors;
pub mod commands;
pub mod paths;
pub mod editor;
pub mod tui;
