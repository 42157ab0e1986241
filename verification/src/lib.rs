//! Library core of the WaveBase audio library manager: filename metadata
//! parsing, the playback state machine, background-tagging decisions and the
//! small text formats the application stores.

pub mod calendar;
pub mod config;
pub mod error;
pub mod format;
pub mod library;
pub mod models;
pub mod parser;
pub mod paths;
pub mod playback;
pub mod scanner;
pub mod tagging;
pub mod text;
