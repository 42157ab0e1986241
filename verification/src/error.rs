use vstd::prelude::*;

verus! {

/// The errors of the application, each with its message.
#[derive(Clone, Debug)]
pub enum AppError {
    Database(String),
    Io(String),
    Scan(String),
    Playback(String),
    Analysis(String),
    NotImplemented(String),
}

} // verus!
