use vstd::prelude::*;

use crate::paths::{join, joined_path};

verus! {

/// The operating systems whose data directories differ.
#[derive(Clone, Copy, Debug, PartialEq, Eq)]
pub enum Platform {
    Windows,
    MacOs,
    /// Linux and the other Unixes.
    Other,
}

/// The data directory under `base`: `%APPDATA%` on Windows, `$HOME` elsewhere.
pub open spec fn data_dir_spec(base: Seq<char>, platform: Platform) -> Seq<char> {
    match platform {
        Platform::Windows => joined_path(base, "wavebase"@),
        Platform::MacOs => joined_path(
            joined_path(joined_path(base, "Library"@), "Application Support"@),
            "wavebase"@,
        ),
        Platform::Other => joined_path(joined_path(joined_path(base, ".local"@), "share"@), "wavebase"@),
    }
}

/// The application's data directory, given the value of `APPDATA` on Windows
/// or of `HOME` elsewhere.
pub fn data_dir_from(base: &str, platform: Platform) -> (dir: String)
    ensures
        dir@ == data_dir_spec(base@, platform),
        platform == Platform::Windows ==> dir@ == joined_path(base@, "wavebase"@),
        platform == Platform::MacOs ==> dir@ == joined_path(
            joined_path(joined_path(base@, "Library"@), "Application Support"@),
            "wavebase"@,
        ),
        platform == Platform::Other ==> dir@ == joined_path(
            joined_path(joined_path(base@, ".local"@), "share"@),
            "wavebase"@,
        ),
{
    match platform {
        Platform::Windows => join(base, "wavebase"),
        Platform::MacOs => {
            let lib = join(base, "Library");
            let support = join(lib.as_str(), "Application Support");
            join(support.as_str(), "wavebase")
        },
        Platform::Other => {
            let local = join(base, ".local");
            let share = join(local.as_str(), "share");
            join(share.as_str(), "wavebase")
        },
    }
}

/// The data directory is `wavebase` directly in `%APPDATA%` on Windows, in
/// `Library/Application Support` under the home folder on macOS, and in
/// `.local/share` under the home folder elsewhere.
pub proof fn law_data_dir_layout(base: Seq<char>)
    ensures
        data_dir_spec(base, Platform::Windows) == joined_path(base, "wavebase"@),
        data_dir_spec(base, Platform::MacOs) == joined_path(
            joined_path(joined_path(base, "Library"@), "Application Support"@),
            "wavebase"@,
        ),
        data_dir_spec(base, Platform::Other) == joined_path(
            joined_path(joined_path(base, ".local"@), "share"@),
            "wavebase"@,
        ),
{
}

/// The database file in the data directory.
pub fn db_path(data_dir: &str) -> (p: String)
    ensures
        p@ == joined_path(data_dir@, "wavebase.db"@),
{
    join(data_dir, "wavebase.db")
}

/// The settings file in the data directory.
pub fn settings_path(data_dir: &str) -> (p: String)
    ensures
        p@ == joined_path(data_dir@, "settings.toml"@),
{
    join(data_dir, "settings.toml")
}

} // verus!
