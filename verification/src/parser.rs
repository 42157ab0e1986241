use vstd::prelude::*;

use crate::format::{decimal, digit_char};
use crate::paths::{file_stem, file_stem_of};
use crate::text::{
    whitespace, stripped_by, trim_back, trim_front, parse_i32, parsed_i32, split_words, words_of,
    chars_equal, chars_of, lowercased, slice_chars, string_of, to_lowercase, trim_chars, trimmed,
    Strip, all_digits, digits_value, is_digit,
};

verus! {

/// The name of the mode that the lower-cased word `m` spells, if any.
pub open spec fn mode_name(m: Seq<char>) -> Option<Seq<char>> {
    if m.len() == 0 || m == seq!['m', 'a', 'j'] || m == seq!['m', 'a', 'j', 'o', 'r'] || m == seq![
        'd',
        'u',
        'r',
    ] {
        Some(seq!['M', 'a', 'j', 'o', 'r'])
    } else if m == seq!['m'] || m == seq!['m', 'i', 'n'] || m == seq!['m', 'i', 'n', 'o', 'r']
        || m == seq!['m', 'o', 'l', 'l'] {
        Some(seq!['M', 'i', 'n', 'o', 'r'])
    } else {
        None
    }
}

/// The key `root` in the mode that `rest` names, once trimmed and lower-cased.
pub open spec fn key_in_mode(root: Seq<char>, rest: Seq<char>) -> Option<Seq<char>> {
    match mode_name(lowercased(trimmed(rest, Strip::Whitespace))) {
        Some(m) => Some(root + seq![' '] + m),
        None => None,
    }
}

/// Whether `c` is a root note as written in a key: `A` to `G`.
pub open spec fn is_root_note(c: char) -> bool {
    'A' <= c && c <= 'G'
}

/// The root note that the letter `c` names, in upper case: `A` to `G` in
/// either case.
pub open spec fn root_note(c: char) -> Option<char> {
    if c == 'A' || c == 'a' {
        Some('A')
    } else if c == 'B' || c == 'b' {
        Some('B')
    } else if c == 'C' || c == 'c' {
        Some('C')
    } else if c == 'D' || c == 'd' {
        Some('D')
    } else if c == 'E' || c == 'e' {
        Some('E')
    } else if c == 'F' || c == 'f' {
        Some('F')
    } else if c == 'G' || c == 'g' {
        Some('G')
    } else {
        None
    }
}

/// Whether `c`, right after the root note, marks it sharp (`#`) or flat (`b`).
pub open spec fn is_accidental(c: char) -> bool {
    c == '#' || c == 'b'
}

/// The root note at the head of `t` (its letter in upper case, then the
/// accidental when one follows), with the number of characters it takes.
pub open spec fn root_of(t: Seq<char>) -> Option<(Seq<char>, int)> {
    if t.len() == 0 {
        None
    } else {
        match root_note(t[0]) {
            None => None,
            Some(r) => if t.len() >= 2 && is_accidental(t[1]) {
                Some((seq![r, t[1]], 2))
            } else {
                Some((seq![r], 1))
            },
        }
    }
}

/// The key that `s` names, written as root note, a space, and `Major` or
/// `Minor`: the trimmed text is a root note (`A` to `G` in either case, then
/// `#` or `b` if present) followed by a mode word or nothing, which reads
/// as major.
pub open spec fn normalized_key(s: Seq<char>) -> Option<Seq<char>> {
    let t = trimmed(s, Strip::Whitespace);
    match root_of(t) {
        Some((r, k)) => key_in_mode(r, t.skip(k)),
        None => None,
    }
}

/// The view of an optional character vector.
pub open spec fn opt_chars(o: Option<Vec<char>>) -> Option<Seq<char>> {
    match o {
        Some(v) => Some(v@),
        None => None,
    }
}

/// The view of an optional string.
pub open spec fn opt_string(o: Option<String>) -> Option<Seq<char>> {
    match o {
        Some(v) => Some(v@),
        None => None,
    }
}

/// Whether `v` is the word `w`.
fn is_word(v: &[char], w: &[char]) -> (r: bool)
    ensures
        r == (v@ == w@),
{
    chars_equal(v, w)
}

fn mode_of(m: &[char]) -> (r: Option<Vec<char>>)
    ensures
        opt_chars(r) == mode_name(m@),
{
    let major = ['M', 'a', 'j', 'o', 'r'];
    let minor = ['M', 'i', 'n', 'o', 'r'];
    assert(major@ =~= seq!['M', 'a', 'j', 'o', 'r']);
    assert(minor@ =~= seq!['M', 'i', 'n', 'o', 'r']);
    let a1 = ['m', 'a', 'j'];
    let a2 = ['m', 'a', 'j', 'o', 'r'];
    let a3 = ['d', 'u', 'r'];
    let b0 = ['m'];
    let b1 = ['m', 'i', 'n'];
    let b2 = ['m', 'i', 'n', 'o', 'r'];
    let b3 = ['m', 'o', 'l', 'l'];
    assert(a1@ =~= seq!['m', 'a', 'j']);
    assert(a2@ =~= seq!['m', 'a', 'j', 'o', 'r']);
    assert(a3@ =~= seq!['d', 'u', 'r']);
    assert(b0@ =~= seq!['m']);
    assert(b1@ =~= seq!['m', 'i', 'n']);
    assert(b2@ =~= seq!['m', 'i', 'n', 'o', 'r']);
    assert(b3@ =~= seq!['m', 'o', 'l', 'l']);
    if m.len() == 0 || is_word(m, &a1) || is_word(m, &a2) || is_word(m, &a3) {
        Some(slice_chars(&major, 0, 5))
    } else if is_word(m, &b0) || is_word(m, &b1) || is_word(m, &b2) || is_word(m, &b3) {
        Some(slice_chars(&minor, 0, 5))
    } else {
        None
    }
}

/// `root`, a space, then `mode`.
fn key_text_of(root: Vec<char>, mode: &[char]) -> (r: Vec<char>)
    ensures
        r@ == root@ + seq![' '] + mode@,
{
    let mut out = root;
    out.push(' ');
    let ghost base = out@;
    let mut i: usize = 0;
    while i < mode.len()
        invariant
            i <= mode.len(),
            out@ == base + mode@.take(i as int),
        decreases mode.len() - i,
    {
        out.push(mode[i]);
        i = i + 1;
        assert(out@ =~= base + mode@.take(i as int));
    }
    assert(mode@.take(mode.len() as int) =~= mode@);
    assert(out@ =~= root@ + seq![' '] + mode@);
    out
}

fn key_in_mode_exec(root: Vec<char>, rest: &[char]) -> (r: Option<Vec<char>>)
    ensures
        opt_chars(r) == key_in_mode(root@, rest@),
{
    let trimmed_rest = trim_chars(rest, Strip::Whitespace);
    let lower = chars_of(to_lowercase(string_of(&trimmed_rest).as_str()).as_str());
    match mode_of(&lower) {
        Some(m) => Some(key_text_of(root, &m)),
        None => None,
    }
}

fn root_note_of(c: char) -> (r: Option<char>)
    ensures
        r == root_note(c),
{
    if c == 'A' || c == 'a' {
        Some('A')
    } else if c == 'B' || c == 'b' {
        Some('B')
    } else if c == 'C' || c == 'c' {
        Some('C')
    } else if c == 'D' || c == 'd' {
        Some('D')
    } else if c == 'E' || c == 'e' {
        Some('E')
    } else if c == 'F' || c == 'f' {
        Some('F')
    } else if c == 'G' || c == 'g' {
        Some('G')
    } else {
        None
    }
}

/// The root note at the head of `t` and the number of characters it takes.
fn root_at_head(t: &[char]) -> (r: Option<(Vec<char>, usize)>)
    ensures
        match r {
            Some((v, k)) => root_of(t@) == Some((v@, k as int)) && k <= t.len(),
            None => root_of(t@) is None,
        },
{
    if t.len() == 0 {
        return None;
    }
    match root_note_of(t[0]) {
        None => None,
        Some(r) => {
            if t.len() >= 2 && (t[1] == '#' || t[1] == 'b') {
                let v = vec![r, t[1]];
                assert(v@ =~= seq![r, t@[1]]);
                Some((v, 2))
            } else {
                let v = vec![r];
                assert(v@ =~= seq![r]);
                Some((v, 1))
            }
        },
    }
}

/// Normalizes a key written in `s`; `None` when `s` names no key.
pub(crate) fn normalize_key_chars(s: &[char]) -> (r: Option<Vec<char>>)
    ensures
        opt_chars(r) == normalized_key(s@),
{
    let t = trim_chars(s, Strip::Whitespace);
    match root_at_head(&t) {
        Some((root, k)) => {
            let rest = slice_chars(&t, k, t.len());
            assert(rest@ =~= t@.skip(k as int));
            key_in_mode_exec(root, &rest)
        },
        None => None,
    }
}

/// Normalizes a musical key such as `Dm`, `c#maj`, `Bbm` or `A minor` to the
/// form `D Minor`, `C# Major`, `Bb Minor`, `A Minor`; `None` when `s` names
/// no key.
pub fn normalize_key(s: &str) -> (r: Option<String>)
    ensures
        opt_string(r) == normalized_key(s@),
{
    let v = chars_of(s);
    match normalize_key_chars(&v) {
        Some(k) => Some(string_of(&k)),
        None => None,
    }
}

/// Metadata read from a file name.
#[derive(Clone, Debug)]
pub struct ParsedMetadata {
    pub track_name: Option<String>,
    pub bpm: Option<i32>,
    pub key: Option<String>,
    /// The last `@name` of the file name.
    pub artist: Option<String>,
    /// Every `@name` of the file name, in order.
    pub artists: Vec<String>,
    pub track_type: Option<String>,
}

/// The mathematical content of a `ParsedMetadata`.
pub struct ParsedView {
    pub track_name: Option<Seq<char>>,
    pub bpm: Option<i32>,
    pub key: Option<Seq<char>>,
    pub artist: Option<Seq<char>>,
    pub artists: Seq<Seq<char>>,
    pub track_type: Option<Seq<char>>,
}

impl View for ParsedMetadata {
    type V = ParsedView;

    open spec fn view(&self) -> ParsedView {
        ParsedView {
            track_name: opt_string(self.track_name),
            bpm: self.bpm,
            key: opt_string(self.key),
            artist: opt_string(self.artist),
            artists: self.artists@.map_values(|a: String| a@),
            track_type: opt_string(self.track_type),
        }
    }
}

/// `s` with underscores and dashes turned into spaces.
pub open spec fn spaced(s: Seq<char>) -> Seq<char> {
    s.map_values(|c: char| if c == '_' || c == '-' { ' ' } else { c })
}

/// The file stem of `filename` (the whole name when it has none), with
/// underscores and dashes turned into spaces.
pub open spec fn filename_stem(filename: Seq<char>) -> Seq<char> {
    spaced(
        match file_stem_of(filename) {
            Some(st) => st,
            None => filename,
        },
    )
}

/// The lower-cased words of the stem of `filename`.
pub open spec fn filename_words(filename: Seq<char>) -> Seq<Seq<char>> {
    words_of(lowercased(filename_stem(filename)))
}

/// The track type that the word `w` names, if any.
pub open spec fn track_type_of_word(w: Seq<char>) -> Option<Seq<char>> {
    let c = trimmed(w, Strip::NonAlnum);
    if c == seq!['l', 'o', 'o', 'p'] || c == seq!['l', 'o', 'o', 'p', 's'] {
        Some(seq!['L', 'o', 'o', 'p'])
    } else if c == seq!['b', 'e', 'a', 't'] || c == seq!['b', 'e', 'a', 't', 's'] {
        Some(seq!['B', 'e', 'a', 't'])
    } else if c == seq!['s', 't', 'e', 'm'] || c == seq!['s', 't', 'e', 'm', 's'] {
        Some(seq!['S', 't', 'e', 'm'])
    } else if c == seq!['o', 'n', 'e', 's', 'h', 'o', 't'] || c == seq![
        'o',
        'n',
        'e',
        '_',
        's',
        'h',
        'o',
        't',
    ] || c == seq!['o', 'n', 'e', '-', 's', 'h', 'o', 't'] || c == seq!['s', 'h', 'o', 't'] {
        Some(seq!['O', 'n', 'e', 'S', 'h', 'o', 't'])
    } else {
        None
    }
}

/// The artist that the word `w` names: `@` followed by a name, trimmed of
/// characters other than letters, digits, dots and underscores.
/// (the length test counts bytes; with `@` first, that is two
/// or more characters.)
pub open spec fn artist_of_word(w: Seq<char>) -> Option<Seq<char>> {
    if w.len() >= 2 && w[0] == '@' {
        let name = trimmed(w.drop_first(), Strip::NonAlnumDotUnderscore);
        if name.len() > 0 {
            Some(name)
        } else {
            None
        }
    } else {
        None
    }
}

/// The letters `bpm`.
pub open spec fn bpm_word() -> Seq<char> {
    seq!['b', 'p', 'm']
}

/// Whether `o` is a tempo that the parser accepts.
pub open spec fn bpm_in_range(o: Option<i32>) -> bool {
    o matches Some(n) && 60 <= n <= 300
}

/// What the word at `i` says of the tempo.
#[derive(Clone, Copy, PartialEq, Eq, Debug)]
pub enum BpmHit {
    Miss,
    /// `120 bpm`: the number stands in the previous word.
    WithPrevious(i32),
    /// `bpm 120`: the number stands in the next word.
    WithNext(i32),
    /// `120bpm` or `bpm120`: the number stands in the same word.
    Alone(i32),
}

/// What the word at `i` of `ws` says of the tempo.
pub open spec fn bpm_hit(ws: Seq<Seq<char>>, i: int) -> BpmHit {
    let c = trimmed(ws[i], Strip::NonAlnum);
    if c == bpm_word() {
        if i > 0 && bpm_in_range(parsed_i32(ws[i - 1])) {
            BpmHit::WithPrevious(parsed_i32(ws[i - 1]).unwrap())
        } else if i + 1 < ws.len() && bpm_in_range(parsed_i32(ws[i + 1])) {
            BpmHit::WithNext(parsed_i32(ws[i + 1]).unwrap())
        } else {
            BpmHit::Miss
        }
    } else if c.len() >= 3 && c.skip(c.len() - 3) == bpm_word() {
        let num = c.take(c.len() - 3);
        if num.len() > 0 && bpm_in_range(parsed_i32(num)) {
            BpmHit::Alone(parsed_i32(num).unwrap())
        } else {
            BpmHit::Miss
        }
    } else if c.len() >= 3 && c.take(3) == bpm_word() {
        let num = c.skip(3);
        if num.len() > 0 && bpm_in_range(parsed_i32(num)) {
            BpmHit::Alone(parsed_i32(num).unwrap())
        } else {
            BpmHit::Miss
        }
    } else {
        BpmHit::Miss
    }
}

/// The tempo of a hit.
pub open spec fn hit_bpm(h: BpmHit) -> Option<i32> {
    match h {
        BpmHit::Miss => None,
        BpmHit::WithPrevious(n) => Some(n),
        BpmHit::WithNext(n) => Some(n),
        BpmHit::Alone(n) => Some(n),
    }
}

/// Whether the hit at `h` takes up the word at `j`.
pub open spec fn hit_covers(ws: Seq<Seq<char>>, h: int, j: int) -> bool {
    match bpm_hit(ws, h) {
        BpmHit::Miss => false,
        BpmHit::WithPrevious(_) => j == h - 1 || j == h,
        BpmHit::WithNext(_) => j == h || j == h + 1,
        BpmHit::Alone(_) => j == h,
    }
}

/// Whether a tempo hit among the first `k` words takes up the word at `j`.
pub open spec fn covered_upto(ws: Seq<Seq<char>>, k: int, j: int) -> bool
    decreases k,
{
    k > 0 && (covered_upto(ws, k - 1, j) || hit_covers(ws, k - 1, j))
}

/// A word as a key is read from it: trimmed of characters other than
/// letters, digits and `#`.
pub open spec fn key_text(w: Seq<char>) -> Seq<char> {
    trimmed(w, Strip::NonAlnumSharp)
}

/// The key that the word `w` names on its own.
pub open spec fn key_of_word(w: Seq<char>) -> Option<Seq<char>> {
    normalized_key(key_text(w))
}

/// The root note that the word `w` is, when it is a root note and nothing
/// more (no mode written after it).
pub open spec fn bare_root(w: Seq<char>) -> Option<Seq<char>> {
    let t = trimmed(key_text(w), Strip::Whitespace);
    match root_of(t) {
        Some((r, k)) => if k == t.len() {
            Some(r)
        } else {
            None
        },
        None => None,
    }
}

/// The mode that the word `w` names on its own (`minor`, `maj`, `m`, ...),
/// trimmed of characters other than letters and digits.
pub open spec fn mode_word(w: Seq<char>) -> Option<Seq<char>> {
    let c = trimmed(w, Strip::NonAlnum);
    if c.len() > 0 {
        mode_name(c)
    } else {
        None
    }
}

/// The key read at word `i` of `ws`, and whether it takes up the next word
/// too: a root note written alone and followed by a word that names a mode
/// (`C# minor`) is read in that mode.
pub open spec fn key_hit(ws: Seq<Seq<char>>, i: int) -> Option<(Seq<char>, bool)> {
    match key_of_word(ws[i]) {
        None => None,
        Some(k) => match bare_root(ws[i]) {
            Some(r) => if i + 1 < ws.len() && mode_word(ws[i + 1]) is Some {
                Some((r + seq![' '] + mode_word(ws[i + 1]).unwrap(), true))
            } else {
                Some((k, false))
            },
            None => Some((k, false)),
        },
    }
}

/// Whether the key read at word `h` takes up the word at `j`.
pub open spec fn key_covers(ws: Seq<Seq<char>>, h: int, j: int) -> bool {
    match key_hit(ws, h) {
        Some((_, next)) => j == h || (next && j == h + 1),
        None => false,
    }
}

/// Whether a key read among the first `k` words takes up the word at `j`.
pub open spec fn key_covered_upto(ws: Seq<Seq<char>>, k: int, j: int) -> bool
    decreases k,
{
    k > 0 && (key_covered_upto(ws, k - 1, j) || key_covers(ws, k - 1, j))
}

/// The last track type among the first `k` words.
pub open spec fn last_track_type(ws: Seq<Seq<char>>, k: int) -> Option<Seq<char>>
    decreases k,
{
    if k <= 0 {
        None
    } else {
        match track_type_of_word(ws[k - 1]) {
            Some(t) => Some(t),
            None => last_track_type(ws, k - 1),
        }
    }
}

/// The last artist among the first `k` words.
pub open spec fn last_artist(ws: Seq<Seq<char>>, k: int) -> Option<Seq<char>>
    decreases k,
{
    if k <= 0 {
        None
    } else {
        match artist_of_word(ws[k - 1]) {
            Some(a) => Some(a),
            None => last_artist(ws, k - 1),
        }
    }
}

/// Every artist among the first `k` words, in order.
pub open spec fn all_artists(ws: Seq<Seq<char>>, k: int) -> Seq<Seq<char>>
    decreases k,
{
    if k <= 0 {
        seq![]
    } else {
        all_artists(ws, k - 1) + match artist_of_word(ws[k - 1]) {
            Some(a) => seq![a],
            None => seq![],
        }
    }
}

/// The tempo of the last hit among the first `k` words.
pub open spec fn last_bpm(ws: Seq<Seq<char>>, k: int) -> Option<i32>
    decreases k,
{
    if k <= 0 {
        None
    } else {
        match hit_bpm(bpm_hit(ws, k - 1)) {
            Some(n) => Some(n),
            None => last_bpm(ws, k - 1),
        }
    }
}

/// The last key among the first `k` words.
pub open spec fn last_key(ws: Seq<Seq<char>>, k: int) -> Option<Seq<char>>
    decreases k,
{
    if k <= 0 {
        None
    } else {
        match key_hit(ws, k - 1) {
            Some((t, _)) => Some(t),
            None => last_key(ws, k - 1),
        }
    }
}

/// Whether the word at `j` is taken up by a track type, an artist, a tempo
/// or a key.
pub open spec fn word_used(ws: Seq<Seq<char>>, j: int) -> bool {
    track_type_of_word(ws[j]) is Some || artist_of_word(ws[j]) is Some || covered_upto(
        ws,
        ws.len() as int,
        j,
    ) || key_covered_upto(ws, ws.len() as int, j)
}

/// Whether any of the first `k` words is taken up.
pub open spec fn any_used_upto(ws: Seq<Seq<char>>, k: int) -> bool
    decreases k,
{
    k > 0 && (any_used_upto(ws, k - 1) || word_used(ws, k - 1))
}

/// The words among the first `k` that nothing takes up, in order.
pub open spec fn kept_upto(ws: Seq<Seq<char>>, k: int) -> Seq<Seq<char>>
    decreases k,
{
    if k <= 0 {
        seq![]
    } else {
        kept_upto(ws, k - 1) + if word_used(ws, k - 1) {
            seq![]
        } else {
            seq![ws[k - 1]]
        }
    }
}

/// The words of `l` joined by single spaces.
pub open spec fn join_words(l: Seq<Seq<char>>) -> Seq<char>
    decreases l.len(),
{
    if l.len() == 0 {
        seq![]
    } else if l.len() == 1 {
        l[0]
    } else {
        join_words(l.drop_last()) + seq![' '] + l.last()
    }
}

/// The track name: the trimmed stem when no word is taken up, else the words
/// that nothing takes up; `None` when that leaves nothing.
pub open spec fn track_name_of(stem: Seq<char>, ws: Seq<Seq<char>>) -> Option<Seq<char>> {
    let raw = if !any_used_upto(ws, ws.len() as int) {
        Some(trimmed(stem, Strip::Whitespace))
    } else if kept_upto(ws, ws.len() as int).len() == 0 {
        None
    } else {
        Some(join_words(kept_upto(ws, ws.len() as int)))
    };
    match raw {
        Some(r) => if trimmed(r, Strip::Whitespace).len() > 0 {
            Some(trimmed(r, Strip::Whitespace))
        } else {
            None
        },
        None => None,
    }
}

/// The metadata that `filename` yields.
pub open spec fn parsed_filename(filename: Seq<char>) -> ParsedView {
    let ws = filename_words(filename);
    let n = ws.len() as int;
    ParsedView {
        track_name: track_name_of(filename_stem(filename), ws),
        bpm: last_bpm(ws, n),
        key: last_key(ws, n),
        artist: last_artist(ws, n),
        artists: all_artists(ws, n),
        track_type: last_track_type(ws, n),
    }
}


/// Whether `k` reads root note, optional `#` or `b`, a space, then `Major`
/// or `Minor`.
pub open spec fn well_formed_key(k: Seq<char>) -> bool {
    exists|root: Seq<char>, mode: Seq<char>|
        {
            &&& k == root + seq![' '] + mode
            &&& (root.len() == 1 || (root.len() == 2 && is_accidental(root[1])))
            &&& is_root_note(root[0])
            &&& (mode == seq!['M', 'a', 'j', 'o', 'r'] || mode == seq!['M', 'i', 'n', 'o', 'r'])
        }
}

/// Whether `root` is a root note as a key writes it.
pub open spec fn root_form(root: Seq<char>) -> bool {
    &&& (root.len() == 1 || (root.len() == 2 && is_accidental(root[1])))
    &&& is_root_note(root[0])
}

proof fn lemma_root_of_form(t: Seq<char>)
    ensures
        root_of(t) matches Some((r, k)) ==> root_form(r) && k == r.len() && k <= t.len(),
{
}

proof fn lemma_mode_form(root: Seq<char>, m: Seq<char>)
    requires
        root_form(root),
        mode_name(m) is Some,
    ensures
        well_formed_key(root + seq![' '] + mode_name(m).unwrap()),
{
    let k = root + seq![' '] + mode_name(m).unwrap();
    assert(k == root + seq![' '] + mode_name(m).unwrap());
}

/// Every key that normalizing gives reads root note, optional accidental,
/// a space, then `Major` or `Minor`.
pub proof fn law_normalized_key_form(s: Seq<char>)
    ensures
        normalized_key(s) matches Some(k) ==> well_formed_key(k),
{
    let t = trimmed(s, Strip::Whitespace);
    lemma_root_of_form(t);
    if let Some((r, k)) = root_of(t) {
        let m = lowercased(trimmed(t.skip(k), Strip::Whitespace));
        if mode_name(m) is Some {
            lemma_mode_form(r, m);
        }
    }
}

/// A key is read only from text whose first character, once trimmed, is a
/// letter `A` to `G` in either case.
pub proof fn law_key_starts_with_root_letter(s: Seq<char>)
    ensures
        normalized_key(s) is Some ==> ({
            let t = trimmed(s, Strip::Whitespace);
            t.len() > 0 && (('A' <= t[0] && t[0] <= 'G') || ('a' <= t[0] && t[0] <= 'g'))
        }),
{
}

/// A root note written alone reads as major, unless the next word names a
/// mode (`C# minor`, `A min`, `D m`): then the two words together give the
/// key in that mode, and both are taken up.
pub proof fn law_root_then_mode_word(ws: Seq<Seq<char>>, i: int)
    requires
        0 <= i < ws.len(),
        bare_root(ws[i]) is Some,
    ensures
        ({
            let r = bare_root(ws[i]).unwrap();
            &&& key_of_word(ws[i]) == Some(r + seq![' ', 'M', 'a', 'j', 'o', 'r'])
            &&& if i + 1 < ws.len() && mode_word(ws[i + 1]) is Some {
                &&& key_hit(ws, i) == Some((r + seq![' '] + mode_word(ws[i + 1]).unwrap(), true))
                &&& key_covers(ws, i, i + 1)
            } else {
                key_hit(ws, i) == Some((r + seq![' ', 'M', 'a', 'j', 'o', 'r'], false))
            }
        }),
{
    let t = trimmed(key_text(ws[i]), Strip::Whitespace);
    let (r, k) = root_of(t).unwrap();
    let rest = t.skip(k);
    assert(rest.len() == 0);
    assert(trimmed(rest, Strip::Whitespace) =~= Seq::<char>::empty());
    assert(lowercased(Seq::<char>::empty()) =~= Seq::<char>::empty());
    assert(r + seq![' '] + seq!['M', 'a', 'j', 'o', 'r'] =~= r + seq![' ', 'M', 'a', 'j', 'o', 'r']);
}

/// The mode words, in any case and with or without a space before them:
/// nothing, maj, major or dur give `Major`; m, min, minor or moll give
/// `Minor`; any other text after the root note gives no key. The root note is
/// its letter `A` to `G` in upper case, with `#` or `b` kept.
pub proof fn law_key_mode_words(s: Seq<char>, letter: char, up: char, acc: Seq<char>, rest: Seq<char>)
    requires
        trimmed(s, Strip::Whitespace) == seq![letter] + acc + rest,
        'A' <= up && up <= 'G',
        letter == up || letter as u32 == up as u32 + 32,
        acc == seq!['#'] || acc == seq!['b'] || (acc.len() == 0 && (rest.len() == 0 || (rest[0]
            != '#' && rest[0] != 'b'))),
    ensures
        ({
            let m = lowercased(trimmed(rest, Strip::Whitespace));
            let major = m.len() == 0 || m == seq!['m', 'a', 'j'] || m == seq!['m', 'a', 'j', 'o', 'r']
                || m == seq!['d', 'u', 'r'];
            let minor = m == seq!['m'] || m == seq!['m', 'i', 'n'] || m == seq!['m', 'i', 'n', 'o', 'r']
                || m == seq!['m', 'o', 'l', 'l'];
            &&& major ==> normalized_key(s) == Some(seq![up] + acc + seq![' ', 'M', 'a', 'j', 'o', 'r'])
            &&& minor ==> normalized_key(s) == Some(seq![up] + acc + seq![' ', 'M', 'i', 'n', 'o', 'r'])
            &&& !major && !minor ==> normalized_key(s) is None
        }),
{
    let t = trimmed(s, Strip::Whitespace);
    assert(t[0] == letter);
    assert(root_note(letter) == Some(up));
    let k = acc.len() as int + 1;
    if acc.len() == 1 {
        assert(t[1] == acc[0]);
        assert(root_of(t) == Some((seq![up, acc[0]], 2int)));
        assert(seq![up, acc[0]] =~= seq![up] + acc);
    } else {
        if t.len() >= 2 {
            assert(t[1] == rest[0]);
        }
        assert(root_of(t) == Some((seq![up], 1int)));
        assert(seq![up] =~= seq![up] + acc);
    }
    assert(t.skip(k) =~= rest);
    let r = seq![up] + acc;
    assert(r + seq![' '] + seq!['M', 'a', 'j', 'o', 'r'] =~= r + seq![' ', 'M', 'a', 'j', 'o', 'r']);
    assert(r + seq![' '] + seq!['M', 'i', 'n', 'o', 'r'] =~= r + seq![' ', 'M', 'i', 'n', 'o', 'r']);
}

/// A word on its own names a mode when, trimmed of characters other than
/// letters and digits, it is maj, major or dur (`Major`) or m, min, minor or
/// moll (`Minor`); no other word does.
pub proof fn law_mode_word_literals(w: Seq<char>)
    ensures
        ({
            let c = trimmed(w, Strip::NonAlnum);
            &&& (c == seq!['m', 'a', 'j'] || c == seq!['m', 'a', 'j', 'o', 'r'] || c == seq!['d', 'u', 'r'])
                ==> mode_word(w) == Some(seq!['M', 'a', 'j', 'o', 'r'])
            &&& (c == seq!['m'] || c == seq!['m', 'i', 'n'] || c == seq!['m', 'i', 'n', 'o', 'r'] || c
                == seq!['m', 'o', 'l', 'l']) ==> mode_word(w) == Some(seq!['M', 'i', 'n', 'o', 'r'])
            &&& !(c == seq!['m', 'a', 'j'] || c == seq!['m', 'a', 'j', 'o', 'r'] || c == seq!['d', 'u', 'r']
                || c == seq!['m'] || c == seq!['m', 'i', 'n'] || c == seq!['m', 'i', 'n', 'o', 'r'] || c
                == seq!['m', 'o', 'l', 'l']) ==> mode_word(w) is None
        }),
{
}

proof fn lemma_key_hit_form(ws: Seq<Seq<char>>, i: int)
    requires
        0 <= i < ws.len(),
    ensures
        key_hit(ws, i) matches Some((k, next)) ==> well_formed_key(k) && (next ==> i + 1 < ws.len()),
{
    law_normalized_key_form(key_text(ws[i]));
    let t = trimmed(key_text(ws[i]), Strip::Whitespace);
    lemma_root_of_form(t);
    if let Some(r) = bare_root(ws[i]) {
        if i + 1 < ws.len() && mode_word(ws[i + 1]) is Some {
            lemma_mode_form(r, trimmed(ws[i + 1], Strip::NonAlnum));
        }
    }
}

proof fn lemma_last_bpm_in_range(ws: Seq<Seq<char>>, k: int)
    ensures
        last_bpm(ws, k) matches Some(n) ==> 60 <= n <= 300,
    decreases k,
{
    if k > 0 {
        lemma_last_bpm_in_range(ws, k - 1);
    }
}

proof fn lemma_last_key_form(ws: Seq<Seq<char>>, k: int)
    requires
        k <= ws.len(),
    ensures
        last_key(ws, k) matches Some(t) ==> well_formed_key(t),
    decreases k,
{
    if k > 0 {
        lemma_key_hit_form(ws, k - 1);
        lemma_last_key_form(ws, k - 1);
    }
}

/// Whether `t` names one of the track types.
pub open spec fn known_track_type(t: Seq<char>) -> bool {
    t == seq!['L', 'o', 'o', 'p'] || t == seq!['B', 'e', 'a', 't'] || t == seq!['S', 't', 'e', 'm']
        || t == seq!['O', 'n', 'e', 'S', 'h', 'o', 't']
}

proof fn lemma_last_track_type_known(ws: Seq<Seq<char>>, k: int)
    ensures
        last_track_type(ws, k) matches Some(t) ==> known_track_type(t),
    decreases k,
{
    if k > 0 {
        lemma_last_track_type_known(ws, k - 1);
    }
}

proof fn lemma_artists(ws: Seq<Seq<char>>, k: int)
    ensures
        last_artist(ws, k) == (if all_artists(ws, k).len() == 0 {
            None
        } else {
            Some(all_artists(ws, k).last())
        }),
        forall|i: int| 0 <= i < all_artists(ws, k).len() ==> (#[trigger] all_artists(ws, k)[i]).len() > 0,
    decreases k,
{
    if k > 0 {
        lemma_artists(ws, k - 1);
        let prev = all_artists(ws, k - 1);
        match artist_of_word(ws[k - 1]) {
            Some(a) => {
                assert(all_artists(ws, k) == prev + seq![a]);
                assert forall|i: int| 0 <= i < all_artists(ws, k).len() implies (
                #[trigger] all_artists(ws, k)[i]).len() > 0 by {
                    if i < prev.len() {
                        assert(all_artists(ws, k)[i] == prev[i]);
                    }
                }
            },
            None => {
                assert(all_artists(ws, k) =~= prev);
            },
        }
    }
}

/// The tempo read from a file name lies in 60..=300.
pub proof fn law_bpm_in_range(filename: Seq<char>)
    ensures
        parsed_filename(filename).bpm matches Some(n) ==> 60 <= n <= 300,
{
    let ws = filename_words(filename);
    lemma_last_bpm_in_range(ws, ws.len() as int);
}

/// The key read from a file name is in normal form.
pub proof fn law_key_well_formed(filename: Seq<char>)
    ensures
        parsed_filename(filename).key matches Some(k) ==> well_formed_key(k),
{
    let ws = filename_words(filename);
    lemma_last_key_form(ws, ws.len() as int);
}

/// Whether `c` is one of the words that name a track type: loop, loops,
/// beat, beats, stem, stems, oneshot, one_shot, one-shot, shot.
pub open spec fn is_track_type_word(c: Seq<char>) -> bool {
    c == seq!['l', 'o', 'o', 'p'] || c == seq!['l', 'o', 'o', 'p', 's'] || c == seq!['b', 'e', 'a', 't']
        || c == seq!['b', 'e', 'a', 't', 's'] || c == seq!['s', 't', 'e', 'm'] || c == seq![
        's',
        't',
        'e',
        'm',
        's',
    ] || c == seq!['o', 'n', 'e', 's', 'h', 'o', 't'] || c == seq!['o', 'n', 'e', '_', 's', 'h', 'o', 't']
        || c == seq!['o', 'n', 'e', '-', 's', 'h', 'o', 't'] || c == seq!['s', 'h', 'o', 't']
}

proof fn lemma_last_track_type_skips(ws: Seq<Seq<char>>, i: int, k: int)
    requires
        0 <= i < k <= ws.len(),
        forall|j: int| i < j < ws.len() ==> !is_track_type_word(#[trigger] trimmed(ws[j], Strip::NonAlnum)),
    ensures
        last_track_type(ws, k) == last_track_type(ws, i + 1),
    decreases k,
{
    if k > i + 1 {
        let c = trimmed(ws[k - 1], Strip::NonAlnum);
        assert(!is_track_type_word(c));
        assert(track_type_of_word(ws[k - 1]) is None);
        lemma_last_track_type_skips(ws, i, k - 1);
    }
}

/// The last word of a file name that names a track type decides it: loop or
/// loops give `Loop`, beat or beats `Beat`, stem or stems `Stem`, oneshot or
/// shot (and one_shot, one-shot) `OneShot`, whatever characters other than
/// letters and digits stand around the word; and that word is left out of
/// the track name.
pub proof fn law_track_type_words(filename: Seq<char>, i: int)
    requires
        0 <= i < filename_words(filename).len(),
        forall|j: int|
            i < j < filename_words(filename).len() ==> !is_track_type_word(
                #[trigger] trimmed(filename_words(filename)[j], Strip::NonAlnum),
            ),
    ensures
        ({
            let ws = filename_words(filename);
            let c = trimmed(ws[i], Strip::NonAlnum);
            let t = parsed_filename(filename).track_type;
            &&& (c == seq!['l', 'o', 'o', 'p'] || c == seq!['l', 'o', 'o', 'p', 's']) ==> t == Some(
                seq!['L', 'o', 'o', 'p'],
            )
            &&& (c == seq!['b', 'e', 'a', 't'] || c == seq!['b', 'e', 'a', 't', 's']) ==> t == Some(
                seq!['B', 'e', 'a', 't'],
            )
            &&& (c == seq!['s', 't', 'e', 'm'] || c == seq!['s', 't', 'e', 'm', 's']) ==> t == Some(
                seq!['S', 't', 'e', 'm'],
            )
            &&& (c == seq!['o', 'n', 'e', 's', 'h', 'o', 't'] || c == seq!['o', 'n', 'e', '_', 's', 'h', 'o', 't']
                || c == seq!['o', 'n', 'e', '-', 's', 'h', 'o', 't'] || c == seq!['s', 'h', 'o', 't']) ==> t
                == Some(seq!['O', 'n', 'e', 'S', 'h', 'o', 't'])
            &&& is_track_type_word(c) ==> word_used(ws, i)
        }),
{
    let ws = filename_words(filename);
    lemma_last_track_type_skips(ws, i, ws.len() as int);
}

proof fn lemma_decimal_digits(n: nat)
    ensures
        decimal(n).len() > 0,
        all_digits(decimal(n)),
        digits_value(decimal(n)) == n,
    decreases n,
{
    if n >= 10 {
        lemma_decimal_digits(n / 10);
        let d = decimal(n);
        assert(d.drop_last() =~= decimal(n / 10));
        assert(d.last() == digit_char((n % 10) as int));
        assert(crate::text::digit_value(digit_char((n % 10) as int)) == n % 10);
        assert(n == (n / 10) * 10 + n % 10);
        assert(digits_value(d) == digits_value(d.drop_last()) * 10 + crate::text::digit_value(d.last()));
        assert forall|i: int| 0 <= i < d.len() implies is_digit(#[trigger] d[i]) by {
            if i < d.len() - 1 {
                assert(d[i] == decimal(n / 10)[i]);
            }
        }
    } else {
        assert(decimal(n).drop_last() =~= Seq::<char>::empty());
        assert(crate::text::digit_value(digit_char(n as int)) == n);
        assert(digits_value(Seq::<char>::empty()) == 0);
        let d = decimal(n);
        assert(digits_value(d) == digits_value(d.drop_last()) * 10 + crate::text::digit_value(d.last()));
    }
}

/// A number written in decimal reads back as itself: parsing what `{}`
/// writes for any `n` in `0..=i32::MAX` gives `n`.
pub proof fn law_decimal_parses(n: int)
    requires
        0 <= n <= i32::MAX,
    ensures
        parsed_i32(decimal(n as nat)) == Some(n as i32),
{
    lemma_decimal_digits(n as nat);
    let d = decimal(n as nat);
    assert(is_digit(d[0]));
}

/// A word that reads `<n>bpm` or `bpm<n>` (once trimmed of characters other
/// than letters and digits) gives the tempo `n` when `n` lies in 60..=300,
/// and none outside it; the word `bpm` takes the number in the word before
/// it when that lies in 60..=300.
pub proof fn law_bpm_words(ws: Seq<Seq<char>>, i: int, n: int)
    requires
        0 <= i < ws.len(),
        0 <= n <= i32::MAX,
    ensures
        ({
            let c = trimmed(ws[i], Strip::NonAlnum);
            let d = decimal(n as nat);
            let in_range = 60 <= n <= 300;
            &&& c == d + seq!['b', 'p', 'm'] ==> bpm_hit(ws, i) == (if in_range {
                BpmHit::Alone(n as i32)
            } else {
                BpmHit::Miss
            })
            &&& c == seq!['b', 'p', 'm'] + d ==> bpm_hit(ws, i) == (if in_range {
                BpmHit::Alone(n as i32)
            } else {
                BpmHit::Miss
            })
            &&& (c == seq!['b', 'p', 'm'] && i > 0 && ws[i - 1] == d && in_range) ==> bpm_hit(ws, i)
                == BpmHit::WithPrevious(n as i32)
        }),
{
    law_decimal_parses(n);
    lemma_decimal_digits(n as nat);
    let c = trimmed(ws[i], Strip::NonAlnum);
    let d = decimal(n as nat);
    let b = seq!['b', 'p', 'm'];
    if c == d + b {
        assert(c != b) by {
            if c == b {
                assert(c.len() == 3);
                assert(d.len() == 0);
            }
        }
        assert(c.skip(c.len() - 3) =~= b);
        assert(c.take(c.len() - 3) =~= d);
    }
    if c == b + d {
        assert(c != b) by {
            if c == b {
                assert(d.len() == 0);
            }
        }
        assert(is_digit(d[d.len() - 1]));
        assert(c[c.len() - 1] == d[d.len() - 1]);
        assert(c.skip(c.len() - 3) != b) by {
            assert(c.skip(c.len() - 3)[2] == c[c.len() - 1]);
        }
        assert(c.take(3) =~= b);
        assert(c.skip(3) =~= d);
    }
}

proof fn lemma_last_bpm_skips(ws: Seq<Seq<char>>, i: int, k: int)
    requires
        0 <= i < k <= ws.len(),
        forall|j: int| i < j < ws.len() ==> #[trigger] bpm_hit(ws, j) == BpmHit::Miss,
    ensures
        last_bpm(ws, k) == last_bpm(ws, i + 1),
    decreases k,
{
    if k > i + 1 {
        assert(bpm_hit(ws, k - 1) == BpmHit::Miss);
        lemma_last_bpm_skips(ws, i, k - 1);
    }
}

/// The last tempo that a word of a file name gives is the file's tempo.
pub proof fn law_last_tempo_wins(filename: Seq<char>, i: int)
    requires
        0 <= i < filename_words(filename).len(),
        forall|j: int|
            i < j < filename_words(filename).len() ==> #[trigger] bpm_hit(filename_words(filename), j)
                == BpmHit::Miss,
        bpm_hit(filename_words(filename), i) != BpmHit::Miss,
    ensures
        parsed_filename(filename).bpm == match bpm_hit(filename_words(filename), i) {
            BpmHit::Alone(n) => Some(n),
            BpmHit::WithPrevious(n) => Some(n),
            BpmHit::WithNext(n) => Some(n),
            BpmHit::Miss => None,
        },
{
    let ws = filename_words(filename);
    lemma_last_bpm_skips(ws, i, ws.len() as int);
}

/// A word `@name`, whose name starts and ends with a letter, digit, dot or
/// underscore, names the artist `name`.
pub proof fn law_artist_word(name: Seq<char>)
    requires
        name.len() > 0,
        !stripped_by(name[0], Strip::NonAlnumDotUnderscore),
        !stripped_by(name.last(), Strip::NonAlnumDotUnderscore),
    ensures
        artist_of_word(seq!['@'] + name) == Some(name),
{
    let w = seq!['@'] + name;
    assert(w.drop_first() =~= name);
    assert(trim_front(name, Strip::NonAlnumDotUnderscore) == name);
    assert(trim_back(name, Strip::NonAlnumDotUnderscore) == name);
}

/// The track type read from a file name is `Loop`, `Beat`, `Stem` or `OneShot`.
pub proof fn law_track_type_known(filename: Seq<char>)
    ensures
        parsed_filename(filename).track_type matches Some(t) ==> known_track_type(t),
{
    let ws = filename_words(filename);
    lemma_last_track_type_known(ws, ws.len() as int);
}

/// The artist is the last of the artists, and no artist name is empty.
pub proof fn law_artist_is_last_of_artists(filename: Seq<char>)
    ensures
        ({
            let p = parsed_filename(filename);
            &&& p.artist == (if p.artists.len() == 0 {
                None
            } else {
                Some(p.artists.last())
            })
            &&& forall|i: int| 0 <= i < p.artists.len() ==> (#[trigger] p.artists[i]).len() > 0
        }),
{
    let ws = filename_words(filename);
    lemma_artists(ws, ws.len() as int);
}

proof fn lemma_trim_front_ends(s: Seq<char>, mode: Strip)
    ensures
        trim_front(s, mode).len() > 0 ==> !stripped_by(trim_front(s, mode)[0], mode),
        trim_front(s, mode).len() <= s.len(),
        trim_front(s, mode).len() > 0 ==> trim_front(s, mode).last() == s.last(),
    decreases s.len(),
{
    if s.len() > 0 && stripped_by(s[0], mode) {
        lemma_trim_front_ends(s.drop_first(), mode);
    }
}

proof fn lemma_trim_back_ends(s: Seq<char>, mode: Strip)
    ensures
        trim_back(s, mode).len() > 0 ==> !stripped_by(trim_back(s, mode).last(), mode),
        trim_back(s, mode).len() > 0 ==> trim_back(s, mode)[0] == s[0],
    decreases s.len(),
{
    if s.len() > 0 && stripped_by(s.last(), mode) {
        lemma_trim_back_ends(s.drop_last(), mode);
    }
}

/// A trimmed word keeps none of the removed characters at its ends.
pub proof fn law_trimmed_ends(s: Seq<char>, mode: Strip)
    ensures
        trimmed(s, mode).len() > 0 ==> !stripped_by(trimmed(s, mode)[0], mode) && !stripped_by(
            trimmed(s, mode).last(),
            mode,
        ),
{
    lemma_trim_front_ends(s, mode);
    lemma_trim_back_ends(trim_front(s, mode), mode);
}

/// A track name is never empty and never starts or ends with whitespace.
pub proof fn law_track_name_trimmed(filename: Seq<char>)
    ensures
        parsed_filename(filename).track_name matches Some(t) ==> t.len() > 0 && !whitespace(t[0])
            && !whitespace(t.last()),
{
    let ws = filename_words(filename);
    let stem = filename_stem(filename);
    let raw = if !any_used_upto(ws, ws.len() as int) {
        Some(trimmed(stem, Strip::Whitespace))
    } else if kept_upto(ws, ws.len() as int).len() == 0 {
        None
    } else {
        Some(join_words(kept_upto(ws, ws.len() as int)))
    };
    if let Some(r) = raw {
        law_trimmed_ends(r, Strip::Whitespace);
    }
}

/// With no tempo, key, artist or track type in it, a file name's track name
/// is its whole stem, trimmed, with its case kept.
pub proof fn law_plain_name_is_stem(filename: Seq<char>)
    requires
        !any_used_upto(filename_words(filename), filename_words(filename).len() as int),
    ensures
        parsed_filename(filename).track_name == (if trimmed(
            trimmed(filename_stem(filename), Strip::Whitespace),
            Strip::Whitespace,
        ).len() > 0 {
            Some(trimmed(trimmed(filename_stem(filename), Strip::Whitespace), Strip::Whitespace))
        } else {
            None
        }),
        parsed_filename(filename).bpm is None,
        parsed_filename(filename).key is None,
        parsed_filename(filename).artist is None,
        parsed_filename(filename).track_type is None,
{
    let ws = filename_words(filename);
    lemma_none_used(ws, ws.len() as int);
}

proof fn lemma_none_used(ws: Seq<Seq<char>>, k: int)
    requires
        k <= ws.len(),
        !any_used_upto(ws, k),
    ensures
        last_bpm(ws, k) is None,
        last_key(ws, k) is None,
        last_artist(ws, k) is None,
        last_track_type(ws, k) is None,
    decreases k,
{
    if k > 0 {
        lemma_none_used(ws, k - 1);
        assert(!word_used(ws, k - 1));
        let h = bpm_hit(ws, k - 1);
        if hit_bpm(h) is Some {
            assert(hit_covers(ws, k - 1, k - 1));
            lemma_covered_mono(ws, k, ws.len() as int, k - 1);
        }
        if key_hit(ws, k - 1) is Some {
            assert(key_covers(ws, k - 1, k - 1));
            lemma_key_covered_mono(ws, k, ws.len() as int, k - 1);
        }
    }
}

proof fn lemma_key_covered_mono(ws: Seq<Seq<char>>, k1: int, k2: int, j: int)
    requires
        k1 <= k2,
        k1 > 0,
        key_covers(ws, k1 - 1, j),
    ensures
        key_covered_upto(ws, k2, j),
    decreases k2,
{
    if k2 > k1 {
        lemma_key_covered_mono(ws, k1, k2 - 1, j);
    }
}

proof fn lemma_covered_mono(ws: Seq<Seq<char>>, k1: int, k2: int, j: int)
    requires
        k1 <= k2,
        k1 > 0,
        hit_covers(ws, k1 - 1, j),
    ensures
        covered_upto(ws, k2, j),
    decreases k2,
{
    if k2 > k1 {
        lemma_covered_mono(ws, k1, k2 - 1, j);
    }
}

/// Underscores and dashes separate words: the stem that is split holds none.
pub proof fn law_separators_are_spaces(filename: Seq<char>)
    ensures
        forall|i: int|
            0 <= i < filename_stem(filename).len() ==> #[trigger] filename_stem(filename)[i] != '_'
                && filename_stem(filename)[i] != '-',
{
}

/// Matching ignores case: two file names with the same lower-cased words
/// give the same tempo, key, artists and track type.
pub proof fn law_tokens_ignore_case(f1: Seq<char>, f2: Seq<char>)
    requires
        filename_words(f1) == filename_words(f2),
    ensures
        parsed_filename(f1).bpm == parsed_filename(f2).bpm,
        parsed_filename(f1).key == parsed_filename(f2).key,
        parsed_filename(f1).artist == parsed_filename(f2).artist,
        parsed_filename(f1).artists == parsed_filename(f2).artists,
        parsed_filename(f1).track_type == parsed_filename(f2).track_type,
{
}

/// The view of a vector of words.
pub open spec fn words_view(ws: Seq<Vec<char>>) -> Seq<Seq<char>> {
    ws.map_values(|w: Vec<char>| w@)
}

/// A copy of `a`.
fn copy_chars(a: &[char]) -> (v: Vec<char>)
    ensures
        v@ == a@,
{
    let v = slice_chars(a, 0, a.len());
    assert(a@.subrange(0, a@.len() as int) =~= a@);
    v
}

/// `v` with underscores and dashes turned into spaces.
fn spaced_chars(v: &[char]) -> (r: Vec<char>)
    ensures
        r@ == spaced(v@),
{
    let mut r: Vec<char> = Vec::new();
    let mut i: usize = 0;
    while i < v.len()
        invariant
            i <= v.len(),
            r@.len() == i,
            forall|k: int| 0 <= k < i ==> r@[k] == (if v@[k] == '_' || v@[k] == '-' { ' ' } else { v@[k] }),
        decreases v.len() - i,
    {
        let c = v[i];
        if c == '_' || c == '-' {
            r.push(' ');
        } else {
            r.push(c);
        }
        i = i + 1;
    }
    assert(r@ =~= spaced(v@));
    r
}

fn track_type_word(w: &[char]) -> (r: Option<Vec<char>>)
    ensures
        opt_chars(r) == track_type_of_word(w@),
{
    let c = trim_chars(w, Strip::NonAlnum);
    let l1 = ['l', 'o', 'o', 'p'];
    let l2 = ['l', 'o', 'o', 'p', 's'];
    let b1 = ['b', 'e', 'a', 't'];
    let b2 = ['b', 'e', 'a', 't', 's'];
    let s1 = ['s', 't', 'e', 'm'];
    let s2 = ['s', 't', 'e', 'm', 's'];
    let o1 = ['o', 'n', 'e', 's', 'h', 'o', 't'];
    let o2 = ['o', 'n', 'e', '_', 's', 'h', 'o', 't'];
    let o3 = ['o', 'n', 'e', '-', 's', 'h', 'o', 't'];
    let o4 = ['s', 'h', 'o', 't'];
    let out_loop = ['L', 'o', 'o', 'p'];
    let out_beat = ['B', 'e', 'a', 't'];
    let out_stem = ['S', 't', 'e', 'm'];
    let out_shot = ['O', 'n', 'e', 'S', 'h', 'o', 't'];
    assert(l1@ =~= seq!['l', 'o', 'o', 'p']);
    assert(l2@ =~= seq!['l', 'o', 'o', 'p', 's']);
    assert(b1@ =~= seq!['b', 'e', 'a', 't']);
    assert(b2@ =~= seq!['b', 'e', 'a', 't', 's']);
    assert(s1@ =~= seq!['s', 't', 'e', 'm']);
    assert(s2@ =~= seq!['s', 't', 'e', 'm', 's']);
    assert(o1@ =~= seq!['o', 'n', 'e', 's', 'h', 'o', 't']);
    assert(o2@ =~= seq!['o', 'n', 'e', '_', 's', 'h', 'o', 't']);
    assert(o3@ =~= seq!['o', 'n', 'e', '-', 's', 'h', 'o', 't']);
    assert(o4@ =~= seq!['s', 'h', 'o', 't']);
    assert(out_loop@ =~= seq!['L', 'o', 'o', 'p']);
    assert(out_beat@ =~= seq!['B', 'e', 'a', 't']);
    assert(out_stem@ =~= seq!['S', 't', 'e', 'm']);
    assert(out_shot@ =~= seq!['O', 'n', 'e', 'S', 'h', 'o', 't']);
    if is_word(&c, &l1) || is_word(&c, &l2) {
        Some(copy_chars(&out_loop))
    } else if is_word(&c, &b1) || is_word(&c, &b2) {
        Some(copy_chars(&out_beat))
    } else if is_word(&c, &s1) || is_word(&c, &s2) {
        Some(copy_chars(&out_stem))
    } else if is_word(&c, &o1) || is_word(&c, &o2) || is_word(&c, &o3) || is_word(&c, &o4) {
        Some(copy_chars(&out_shot))
    } else {
        None
    }
}

fn artist_word(w: &[char]) -> (r: Option<Vec<char>>)
    ensures
        opt_chars(r) == artist_of_word(w@),
{
    if w.len() >= 2 && w[0] == '@' {
        let rest = slice_chars(w, 1, w.len());
        assert(rest@ =~= w@.drop_first());
        let name = trim_chars(&rest, Strip::NonAlnumDotUnderscore);
        if name.len() > 0 {
            Some(name)
        } else {
            None
        }
    } else {
        None
    }
}

/// The tempo in `v`, when it parses and lies in 60..=300.
fn bpm_number(v: &[char]) -> (r: Option<i32>)
    ensures
        r == (if bpm_in_range(parsed_i32(v@)) { parsed_i32(v@) } else { None }),
{
    match parse_i32(v) {
        Some(n) => if 60 <= n && n <= 300 {
            Some(n)
        } else {
            None
        },
        None => None,
    }
}

fn bpm_hit_at(ws: &Vec<Vec<char>>, i: usize) -> (h: BpmHit)
    requires
        i < ws.len(),
    ensures
        h == bpm_hit(words_view(ws@), i as int),
{
    let ghost wsv = words_view(ws@);
    assert(wsv[i as int] == ws@[i as int]@);
    let c = trim_chars(&ws[i], Strip::NonAlnum);
    let bpm = ['b', 'p', 'm'];
    assert(bpm@ =~= bpm_word());
    if is_word(&c, &bpm) {
        if i > 0 {
            assert(wsv[i - 1] == ws@[i - 1]@);
            if let Some(n) = bpm_number(&ws[i - 1]) {
                return BpmHit::WithPrevious(n);
            }
        }
        if i + 1 < ws.len() {
            assert(wsv[i + 1] == ws@[i + 1]@);
            if let Some(n) = bpm_number(&ws[i + 1]) {
                return BpmHit::WithNext(n);
            }
        }
        BpmHit::Miss
    } else if c.len() >= 3 && is_word(&slice_chars(&c, c.len() - 3, c.len()), &bpm) {
        let num = slice_chars(&c, 0, c.len() - 3);
        assert(c@.skip(c@.len() - 3) =~= c@.subrange(c@.len() - 3, c@.len() as int));
        assert(num@ =~= c@.take(c@.len() - 3));
        if num.len() > 0 {
            if let Some(n) = bpm_number(&num) {
                return BpmHit::Alone(n);
            }
        }
        BpmHit::Miss
    } else if c.len() >= 3 && is_word(&slice_chars(&c, 0, 3), &bpm) {
        let num = slice_chars(&c, 3, c.len());
        assert(c@.take(3) =~= c@.subrange(0, 3));
        assert(num@ =~= c@.skip(3));
        if num.len() > 0 {
            if let Some(n) = bpm_number(&num) {
                return BpmHit::Alone(n);
            }
        }
        BpmHit::Miss
    } else {
        proof {
            if c@.len() >= 3 {
                assert(c@.skip(c@.len() - 3) =~= c@.subrange(c@.len() - 3, c@.len() as int));
                assert(c@.take(3) =~= c@.subrange(0, 3));
            }
        }
        BpmHit::Miss
    }
}


/// Appends the characters of `w` to `out`.
fn append_chars(out: &mut Vec<char>, w: &[char])
    ensures
        final(out)@ == old(out)@ + w@,
{
    let mut i: usize = 0;
    while i < w.len()
        invariant
            i <= w.len(),
            out@ == old(out)@ + w@.take(i as int),
        decreases w.len() - i,
    {
        out.push(w[i]);
        i = i + 1;
        assert(out@ =~= old(out)@ + w@.take(i as int));
    }
    assert(w@.take(w.len() as int) =~= w@);
}

/// The root note that the word `w` is, when it is nothing more.
fn bare_root_of(w: &[char]) -> (r: Option<Vec<char>>)
    ensures
        opt_chars(r) == bare_root(w@),
{
    let c = trim_chars(w, Strip::NonAlnumSharp);
    let t = trim_chars(&c, Strip::Whitespace);
    match root_at_head(&t) {
        Some((root, k)) => if k == t.len() {
            Some(root)
        } else {
            None
        },
        None => None,
    }
}

/// The mode that the word `w` names on its own.
fn mode_word_of(w: &[char]) -> (r: Option<Vec<char>>)
    ensures
        opt_chars(r) == mode_word(w@),
{
    let c = trim_chars(w, Strip::NonAlnum);
    if c.len() > 0 {
        mode_of(&c)
    } else {
        None
    }
}

/// The key read at word `i`, and whether it takes up the next word too.
fn key_hit_at(ws: &Vec<Vec<char>>, i: usize) -> (r: Option<(Vec<char>, bool)>)
    requires
        i < ws.len(),
    ensures
        match r {
            Some((k, next)) => key_hit(words_view(ws@), i as int) == Some((k@, next)),
            None => key_hit(words_view(ws@), i as int) is None,
        },
{
    let ghost wsv = words_view(ws@);
    assert(wsv[i as int] == ws@[i as int]@);
    let clean = trim_chars(&ws[i], Strip::NonAlnumSharp);
    match normalize_key_chars(&clean) {
        None => None,
        Some(k) => match bare_root_of(&ws[i]) {
            Some(root) => {
                if i + 1 < ws.len() {
                    assert(wsv[i + 1] == ws@[i + 1]@);
                    match mode_word_of(&ws[i + 1]) {
                        Some(m) => Some((key_text_of(root, &m), true)),
                        None => Some((k, false)),
                    }
                } else {
                    Some((k, false))
                }
            },
            None => Some((k, false)),
        },
    }
}

/// Reads tempo, key, track type, artists and track name from an audio file
/// name such as `Kick_Loop_140bpm_Dm_@user.wav`.
pub fn parse_filename(filename: &str) -> (r: ParsedMetadata)
    ensures
        r@ == parsed_filename(filename@),
{
    let stem_src: Vec<char> = match file_stem(filename) {
        Some(st) => chars_of(st.as_str()),
        None => chars_of(filename),
    };
    let stem = spaced_chars(&stem_src);
    assert(stem@ == filename_stem(filename@));
    let lower_string = to_lowercase(string_of(&stem).as_str());
    let lower = chars_of(lower_string.as_str());
    let ws = split_words(&lower);
    let ghost wsv = words_view(ws@);
    assert(wsv == filename_words(filename@));
    let n = ws.len();

    let mut used: Vec<bool> = Vec::new();
    while used.len() < n
        invariant
            used@.len() <= n,
            forall|j: int| 0 <= j < used@.len() ==> !used@[j],
        decreases n - used@.len(),
    {
        used.push(false);
    }

    // Track type (the last word that names one wins).
    let mut track_type: Option<String> = None;
    let mut i: usize = 0;
    while i < n
        invariant
            n == ws.len(),
            wsv == words_view(ws@),
            i <= n,
            used@.len() == n,
            forall|j: int| 0 <= j < n ==> #[trigger] used@[j] == (j < i && track_type_of_word(wsv[j]) is Some),
            opt_string(track_type) == last_track_type(wsv, i as int),
        decreases n - i,
    {
        assert(wsv[i as int] == ws@[i as int]@);
        match track_type_word(&ws[i]) {
            Some(t) => {
                track_type = Some(string_of(&t));
                used.set(i, true);
            },
            None => {},
        }
        i = i + 1;
    }

    // Artists: `@name`.
    let mut artist: Option<String> = None;
    let mut artists: Vec<String> = Vec::new();
    let mut i: usize = 0;
    while i < n
        invariant
            n == ws.len(),
            wsv == words_view(ws@),
            i <= n,
            used@.len() == n,
            forall|j: int| 0 <= j < n ==> #[trigger] used@[j] == (track_type_of_word(wsv[j]) is Some
                || (j < i && artist_of_word(wsv[j]) is Some)),
            opt_string(artist) == last_artist(wsv, i as int),
            artists@.map_values(|a: String| a@) == all_artists(wsv, i as int),
        decreases n - i,
    {
        assert(wsv[i as int] == ws@[i as int]@);
        let ghost before = artists@.map_values(|a: String| a@);
        match artist_word(&ws[i]) {
            Some(a) => {
                artist = Some(string_of(&a));
                artists.push(string_of(&a));
                used.set(i, true);
                assert(artists@.map_values(|a: String| a@) =~= before + seq![a@]);
            },
            None => {
                assert(before + Seq::<Seq<char>>::empty() =~= before);
            },
        }
        i = i + 1;
    }

    // Tempo.
    let mut bpm: Option<i32> = None;
    let mut i: usize = 0;
    while i < n
        invariant
            n == ws.len(),
            wsv == words_view(ws@),
            i <= n,
            used@.len() == n,
            forall|j: int| 0 <= j < n ==> #[trigger] used@[j] == (track_type_of_word(wsv[j]) is Some
                || artist_of_word(wsv[j]) is Some || covered_upto(wsv, i as int, j)),
            bpm == last_bpm(wsv, i as int),
        decreases n - i,
    {
        let h = bpm_hit_at(&ws, i);
        match h {
            BpmHit::WithPrevious(v) => {
                bpm = Some(v);
                used.set(i - 1, true);
                used.set(i, true);
            },
            BpmHit::WithNext(v) => {
                bpm = Some(v);
                used.set(i, true);
                used.set(i + 1, true);
            },
            BpmHit::Alone(v) => {
                bpm = Some(v);
                used.set(i, true);
            },
            BpmHit::Miss => {},
        }
        i = i + 1;
    }

    // Key (the last one read wins); a root note alone takes the mode named
    // by the next word.
    let mut key: Option<String> = None;
    let mut i: usize = 0;
    while i < n
        invariant
            n == ws.len(),
            wsv == words_view(ws@),
            wsv == filename_words(filename@),
            i <= n,
            used@.len() == n,
            forall|j: int| 0 <= j < n ==> #[trigger] used@[j] == (track_type_of_word(wsv[j]) is Some
                || artist_of_word(wsv[j]) is Some || covered_upto(wsv, n as int, j)
                || key_covered_upto(wsv, i as int, j)),
            opt_string(key) == last_key(wsv, i as int),
        decreases n - i,
    {
        match key_hit_at(&ws, i) {
            Some((k, next)) => {
                key = Some(string_of(&k));
                used.set(i, true);
                if next {
                    used.set(i + 1, true);
                }
            },
            None => {},
        }
        i = i + 1;
    }

    // Track name: what no pattern took up.
    let mut any = false;
    let mut out: Vec<char> = Vec::new();
    let mut kept: usize = 0;
    let mut i: usize = 0;
    while i < n
        invariant
            n == ws.len(),
            wsv == words_view(ws@),
            i <= n,
            used@.len() == n,
            forall|j: int| 0 <= j < n ==> #[trigger] used@[j] == word_used(wsv, j),
            any == any_used_upto(wsv, i as int),
            kept <= i,
            kept == kept_upto(wsv, i as int).len(),
            out@ == join_words(kept_upto(wsv, i as int)),
        decreases n - i,
    {
        assert(wsv[i as int] == ws@[i as int]@);
        let ghost before = kept_upto(wsv, i as int);
        if used[i] {
            any = true;
            assert(kept_upto(wsv, i + 1) =~= before);
        } else {
            assert(kept_upto(wsv, i + 1) =~= before.push(wsv[i as int]));
            if kept > 0 {
                out.push(' ');
                assert(before.push(wsv[i as int]).drop_last() =~= before);
            }
            append_chars(&mut out, &ws[i]);
            kept = kept + 1;
            assert(out@ =~= join_words(before.push(wsv[i as int])));
        }
        i = i + 1;
    }
    let raw: Option<Vec<char>> = if !any {
        Some(trim_chars(&stem, Strip::Whitespace))
    } else if kept == 0 {
        None
    } else {
        Some(out)
    };
    let track_name: Option<String> = match raw {
        Some(r) => {
            let t = trim_chars(&r, Strip::Whitespace);
            if t.len() > 0 {
                Some(string_of(&t))
            } else {
                None
            }
        },
        None => None,
    };
    let m = ParsedMetadata { track_name, bpm, key, artist, artists, track_type };
    assert(m@.artists == all_artists(wsv, n as int));
    m
}

} // verus!
