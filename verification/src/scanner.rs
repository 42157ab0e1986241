use vstd::prelude::*;

use crate::calendar::{civil_date, date_of_day, day_number, law_date_of_day, valid_date};
use crate::error::AppError;
use crate::format::{decimal, padded2, push_decimal, push_padded2};
use crate::paths::{extension, extension_of};
use crate::text::{chars_of, chars_equal, lowercased, string_of, to_lowercase};

verus! {

/// An audio file that a scan found.
#[derive(Clone, Debug)]
pub struct ScannedFile {
    pub path: String,
    pub filename: String,
    /// The extension, lower-cased (empty when there is none).
    pub extension: String,
    pub size_bytes: u64,
    /// The modification time as `YYYY-MM-DDThh:mm:ssZ` (empty when unknown).
    pub modified_at: String,
}

/// The extensions, lower-cased, of the files that the library takes in.
pub open spec fn audio_extensions() -> Seq<Seq<char>> {
    seq![
        seq!['w', 'a', 'v'],
        seq!['m', 'p', '3'],
        seq!['a', 'i', 'f', 'f'],
        seq!['a', 'i', 'f'],
        seq!['f', 'l', 'a', 'c'],
        seq!['o', 'g', 'g'],
        seq!['m', '4', 'a'],
        seq!['w', 'm', 'a'],
    ]
}

/// Whether the file at `path` is taken in: its extension, lower-cased, is
/// one of the audio extensions.
pub open spec fn is_audio_path(path: Seq<char>) -> bool {
    match extension_of(path) {
        Some(e) => audio_extensions().contains(lowercased(e)),
        None => false,
    }
}

/// Whether `path` names an audio file, by its extension, in any case.
pub fn is_audio_file(path: &str) -> (r: bool)
    ensures
        r == is_audio_path(path@),
{
    match extension(path) {
        Some(e) => {
            let lower = chars_of(to_lowercase(e.as_str()).as_str());
            let w0 = ['w', 'a', 'v'];
            let w1 = ['m', 'p', '3'];
            let w2 = ['a', 'i', 'f', 'f'];
            let w3 = ['a', 'i', 'f'];
            let w4 = ['f', 'l', 'a', 'c'];
            let w5 = ['o', 'g', 'g'];
            let w6 = ['m', '4', 'a'];
            let w7 = ['w', 'm', 'a'];
            let ghost all = audio_extensions();
            assert(all =~= seq![w0@, w1@, w2@, w3@, w4@, w5@, w6@, w7@]);
            let found = chars_equal(&lower, &w0) || chars_equal(&lower, &w1) || chars_equal(&lower, &w2)
                || chars_equal(&lower, &w3) || chars_equal(&lower, &w4) || chars_equal(&lower, &w5)
                || chars_equal(&lower, &w6) || chars_equal(&lower, &w7);
            proof {
                if found {
                    if lower@ == w0@ { assert(all[0] == lower@); }
                    else if lower@ == w1@ { assert(all[1] == lower@); }
                    else if lower@ == w2@ { assert(all[2] == lower@); }
                    else if lower@ == w3@ { assert(all[3] == lower@); }
                    else if lower@ == w4@ { assert(all[4] == lower@); }
                    else if lower@ == w5@ { assert(all[5] == lower@); }
                    else if lower@ == w6@ { assert(all[6] == lower@); }
                    else { assert(all[7] == lower@); }
                } else {
                    assert forall|k: int| 0 <= k < all.len() implies all[k] != lower@ by {
                        if k == 0 {} else if k == 1 {} else if k == 2 {} else if k == 3 {}
                        else if k == 4 {} else if k == 5 {} else if k == 6 {} else {}
                    }
                }
            }
            found
        },
        None => false,
    }
}

/// The modification time `secs` seconds after the Unix epoch, written as
/// `YYYY-MM-DDThh:mm:ssZ`: the Gregorian date of the day it falls on, then
/// the time of day in UTC.
pub open spec fn timestamp_text(secs: nat) -> Seq<char> {
    let date = date_of_day((secs / 86400) as int);
    decimal(date.0 as nat) + seq!['-'] + padded2(date.1) + seq!['-'] + padded2(date.2) + seq!['T']
        + padded2(((secs % 86400) / 3600) as int) + seq![':'] + padded2(((secs % 3600) / 60) as int)
        + seq![':'] + padded2((secs % 60) as int) + seq!['Z']
}

/// The modification time text for `secs` seconds after the epoch, `None`
/// when the time is unknown or before the epoch.
pub fn chrono_from_system_time(secs: Option<u64>) -> (r: Option<String>)
    ensures
        match secs {
            Some(s) => r matches Some(t) && t@ == timestamp_text(s as nat),
            None => r is None,
        },
{
    match secs {
        None => None,
        Some(s) => {
            let (y, m, d) = civil_date(s / 86400);
            let mut out: Vec<char> = Vec::new();
            push_decimal(&mut out, y);
            out.push('-');
            push_padded2(&mut out, m as i64);
            out.push('-');
            push_padded2(&mut out, d as i64);
            out.push('T');
            push_padded2(&mut out, ((s % 86400) / 3600) as i64);
            out.push(':');
            push_padded2(&mut out, ((s % 3600) / 60) as i64);
            out.push(':');
            push_padded2(&mut out, (s % 60) as i64);
            out.push('Z');
            assert(out@ =~= timestamp_text(s as nat));
            Some(string_of(&out))
        },
    }
}

impl ScannedFile {
    /// The record of a file found at `path`, with the extension as the path
    /// gave it (lower-cased here), its size, and its modification time in
    /// seconds after the epoch when known.
    pub fn from_entry(
        path: String,
        filename: String,
        raw_extension: Option<String>,
        size_bytes: u64,
        modified_secs: Option<u64>,
    ) -> (f: ScannedFile)
        ensures
            f.path == path,
            f.filename == filename,
            f.extension@ == lowercased(
                match raw_extension {
                    Some(e) => e@,
                    None => seq![],
                },
            ),
            f.size_bytes == size_bytes,
            f.modified_at@ == match modified_secs {
                Some(s) => timestamp_text(s as nat),
                None => seq![],
            },
    {
        let ext = match raw_extension {
            Some(e) => to_lowercase(e.as_str()),
            None => to_lowercase(String::new().as_str()),
        };
        let modified_at = match chrono_from_system_time(modified_secs) {
            Some(t) => t,
            None => String::new(),
        };
        ScannedFile { path, filename, extension: ext, size_bytes, modified_at }
    }
}

/// Watches a directory for changes; not yet active.
pub struct FileWatcher;

impl FileWatcher {
    /// A watcher; making one always succeeds.
    pub fn new() -> (r: Result<FileWatcher, AppError>)
        ensures
            r is Ok,
    {
        Ok(FileWatcher)
    }

    /// Starts watching `path`; watching always succeeds and as yet does nothing.
    pub fn watch(&self, path: &str) -> (r: Result<(), AppError>)
        ensures
            r is Ok,
    {
        Ok(())
    }
}

/// A modification time names a real calendar date and time of day that
/// together come to exactly `secs` seconds after 1970-01-01T00:00:00Z: month
/// 1..=12, a day that the month has (leap years counted), hour below 24,
/// minute and second below 60.
pub proof fn law_timestamp_is_calendar_time(secs: nat)
    ensures
        ({
            let date = date_of_day((secs / 86400) as int);
            let hour = (secs % 86400) / 3600;
            let minute = (secs % 3600) / 60;
            let second = secs % 60;
            &&& valid_date(date.0, date.1, date.2)
            &&& hour < 24 && minute < 60 && second < 60
            &&& day_number(date.0, date.1, date.2) * 86400 + hour * 3600 + minute * 60 + second == secs
        }),
{
    law_date_of_day((secs / 86400) as int);
    assert(secs == (secs / 86400) * 86400 + (secs % 86400) / 3600 * 3600 + (secs % 3600) / 60 * 60
        + secs % 60) by (nonlinear_arith);
}

} // verus!
