use vstd::prelude::*;

use crate::format::{padded2, push_all, push_padded2, push_signed, signed_decimal};
use crate::parser::{opt_string, ParsedMetadata, ParsedView};
use crate::text::{chars_of, string_of};

verus! {

/// The number of threads that tag scanned files in the background.
pub const WORKERS: usize = 4;

/// Which analyses of the audio a file needs.
#[derive(Clone, Copy, Debug, PartialEq, Eq)]
pub struct AnalysisNeeds {
    pub bpm: bool,
    pub key: bool,
}

/// Analysis runs only for a file not analyzed before, and only for what its
/// name did not give.
pub fn analysis_needs(already_analyzed: bool, parsed: &ParsedMetadata) -> (n: AnalysisNeeds)
    ensures
        n.bpm == (!already_analyzed && parsed.bpm is None),
        n.key == (!already_analyzed && parsed.key is None),
{
    AnalysisNeeds {
        bpm: !already_analyzed && parsed.bpm.is_none(),
        key: !already_analyzed && parsed.key.is_none(),
    }
}

/// What to write into a file's row after tagging it.
#[derive(Clone, Debug)]
pub struct MetadataUpdate {
    /// Whether to write the row at all (not for files analyzed before).
    pub write_row: bool,
    pub track_name: Option<String>,
    /// The tempo to store; `None` keeps what the row holds.
    pub bpm: Option<i32>,
    /// The key to store; `None` keeps what the row holds.
    pub key: Option<String>,
    /// The artists, separated by `, `.
    pub artist: Option<String>,
    /// Whether the tempo came from audio analysis rather than the name.
    pub bpm_analyzed: bool,
    /// Whether the key came from audio analysis rather than the name.
    pub key_analyzed: bool,
}

/// The names of `a` separated by `, `.
pub open spec fn comma_joined(a: Seq<Seq<char>>) -> Seq<char>
    decreases a.len(),
{
    if a.len() == 0 {
        seq![]
    } else if a.len() == 1 {
        a[0]
    } else {
        comma_joined(a.drop_last()) + seq![',', ' '] + a.last()
    }
}

/// The artist field for these artists: `None` when there is none.
pub open spec fn artist_field(a: Seq<Seq<char>>) -> Option<Seq<char>> {
    if a.len() == 0 {
        None
    } else {
        Some(comma_joined(a))
    }
}

fn clone_opt(o: &Option<String>) -> (r: Option<String>)
    ensures
        opt_string(r) == opt_string(*o),
{
    match o {
        Some(s) => Some(s.clone()),
        None => None,
    }
}

/// The artist field: the names separated by `, `, `None` for no names.
pub fn artist_text(artists: &Vec<String>) -> (r: Option<String>)
    ensures
        opt_string(r) == artist_field(artists@.map_values(|a: String| a@)),
{
    let ghost names = artists@.map_values(|a: String| a@);
    if artists.len() == 0 {
        return None;
    }
    let mut out: Vec<char> = Vec::new();
    let mut i: usize = 0;
    while i < artists.len()
        invariant
            i <= artists.len(),
            names == artists@.map_values(|a: String| a@),
            out@ == comma_joined(names.take(i as int)),
        decreases artists.len() - i,
    {
        let name = chars_of(artists[i].as_str());
        assert(names[i as int] == artists@[i as int]@);
        let ghost before = names.take(i as int);
        assert(names.take(i + 1) =~= before.push(names[i as int]));
        assert(before.push(names[i as int]).drop_last() =~= before);
        if i > 0 {
            out.push(',');
            out.push(' ');
        }
        push_all(&mut out, &name);
        i = i + 1;
        assert(out@ =~= comma_joined(names.take(i as int)));
    }
    assert(names.take(artists.len() as int) =~= names);
    Some(string_of(&out))
}

/// The row update of a file whose name gave `parsed`, with what analysis
/// found (`None` where it did not run or found nothing).
pub fn plan_metadata(
    already_analyzed: bool,
    parsed: &ParsedMetadata,
    analyzed_bpm: Option<i32>,
    analyzed_key: Option<String>,
) -> (u: MetadataUpdate)
    ensures
        u.write_row == !already_analyzed,
        opt_string(u.track_name) == opt_string(parsed.track_name),
        u.bpm == (if already_analyzed {
            None
        } else if parsed.bpm is Some {
            parsed.bpm
        } else {
            analyzed_bpm
        }),
        opt_string(u.key) == (if already_analyzed {
            None
        } else if parsed.key is Some {
            opt_string(parsed.key)
        } else {
            opt_string(analyzed_key)
        }),
        u.bpm_analyzed == (!already_analyzed && parsed.bpm is None && analyzed_bpm is Some),
        u.key_analyzed == (!already_analyzed && parsed.key is None && analyzed_key is Some),
        opt_string(u.artist) == artist_field(parsed.artists@.map_values(|a: String| a@)),
{
    let bpm = if already_analyzed {
        None
    } else if parsed.bpm.is_some() {
        parsed.bpm
    } else {
        analyzed_bpm
    };
    let bpm_analyzed = !already_analyzed && parsed.bpm.is_none() && analyzed_bpm.is_some();
    let key_analyzed = !already_analyzed && parsed.key.is_none() && analyzed_key.is_some();
    let key = if already_analyzed {
        None
    } else if parsed.key.is_some() {
        clone_opt(&parsed.key)
    } else {
        analyzed_key
    };
    MetadataUpdate {
        write_row: !already_analyzed,
        track_name: clone_opt(&parsed.track_name),
        bpm,
        key,
        artist: artist_text(&parsed.artists),
        bpm_analyzed,
        key_analyzed,
    }
}

/// A tag to link to a file.
#[derive(Clone, Debug)]
pub struct TagLink {
    pub name: String,
    /// Artist, tempo, key and time-code tags are metadata, hidden from the
    /// tags column.
    pub is_metadata: bool,
    /// Track-type tags are pinned when they are not yet.
    pub pin: bool,
}

/// The mathematical content of a `TagLink`.
pub struct TagLinkView {
    pub name: Seq<char>,
    pub is_metadata: bool,
    pub pin: bool,
}

impl View for TagLink {
    type V = TagLinkView;

    open spec fn view(&self) -> TagLinkView {
        TagLinkView { name: self.name@, is_metadata: self.is_metadata, pin: self.pin }
    }
}

/// The tag `@name` of an artist.
pub open spec fn artist_tag(name: Seq<char>) -> Seq<char> {
    seq!['@'] + name
}

/// The tag `<bpm> BPM` of a tempo.
pub open spec fn bpm_tag(bpm: i32) -> Seq<char> {
    signed_decimal(bpm as int) + seq![' ', 'B', 'P', 'M']
}

/// The artist links of the first `k` artists.
pub open spec fn artist_links(a: Seq<Seq<char>>) -> Seq<TagLinkView> {
    a.map_values(|n: Seq<char>| TagLinkView { name: artist_tag(n), is_metadata: true, pin: false })
}

/// The tags of a file, in the order they are created: one per artist, the
/// tempo and the key (metadata), the track type (pinned, not metadata), and
/// the time code `m:ss` of its length (metadata).
pub open spec fn tag_links_spec(
    p: ParsedView,
    bpm: Option<i32>,
    key: Option<Seq<char>>,
    duration: Option<(i32, i32)>,
) -> Seq<TagLinkView> {
    artist_links(p.artists) + match bpm {
        Some(b) => seq![TagLinkView { name: bpm_tag(b), is_metadata: true, pin: false }],
        None => seq![],
    } + match key {
        Some(k) => seq![TagLinkView { name: k, is_metadata: true, pin: false }],
        None => seq![],
    } + match p.track_type {
        Some(t) => seq![TagLinkView { name: t, is_metadata: false, pin: true }],
        None => seq![],
    } + match duration {
        Some((m, sec)) => seq![TagLinkView { name: duration_tag_spec(m, sec), is_metadata: true, pin: false }],
        None => seq![],
    }
}

/// The tags to link to a file whose name gave `parsed`, with its tempo and
/// key (as planned, or as stored for files analyzed before) and, for a file
/// of known positive length, its whole minutes and the seconds over them.
pub fn tag_links(
    parsed: &ParsedMetadata,
    bpm: Option<i32>,
    key: Option<String>,
    duration: Option<(i32, i32)>,
) -> (r: Vec<TagLink>)
    ensures
        r@.map_values(|l: TagLink| l@) == tag_links_spec(parsed@, bpm, opt_string(key), duration),
        r@.len() == parsed.artists@.len() + (if bpm is Some { 1int } else { 0int }) + (if key is Some {
            1int
        } else {
            0int
        }) + (if parsed.track_type is Some { 1int } else { 0int }) + (if duration is Some {
            1int
        } else {
            0int
        }),
        forall|i: int|
            0 <= i < parsed.artists@.len() ==> (#[trigger] r@[i]).name@ == seq!['@']
                + parsed.artists@[i]@ && r@[i].is_metadata && !r@[i].pin,
{
    let mut r: Vec<TagLink> = Vec::new();
    let ghost names = parsed.artists@.map_values(|a: String| a@);
    let mut i: usize = 0;
    while i < parsed.artists.len()
        invariant
            i <= parsed.artists.len(),
            names == parsed.artists@.map_values(|a: String| a@),
            r@.map_values(|l: TagLink| l@) == artist_links(names.take(i as int)),
        decreases parsed.artists.len() - i,
    {
        let mut name: Vec<char> = Vec::new();
        name.push('@');
        let a = chars_of(parsed.artists[i].as_str());
        push_all(&mut name, &a);
        assert(names[i as int] == parsed.artists@[i as int]@);
        let ghost before = r@.map_values(|l: TagLink| l@);
        assert(name@ =~= artist_tag(names[i as int]));
        let link = TagLink { name: string_of(&name), is_metadata: true, pin: false };
        r.push(link);
        assert(names.take(i + 1) =~= names.take(i as int).push(names[i as int]));
        assert(r@.map_values(|l: TagLink| l@) =~= before.push(
            TagLinkView { name: artist_tag(names[i as int]), is_metadata: true, pin: false },
        ));
        assert(r@.map_values(|l: TagLink| l@) =~= artist_links(names.take(i + 1)));
        i = i + 1;
    }
    assert(names.take(parsed.artists.len() as int) =~= names);
    let ghost after_artists = r@.map_values(|l: TagLink| l@);
    if let Some(b) = bpm {
        let mut name: Vec<char> = Vec::new();
        push_signed(&mut name, b as i64);
        let suffix = [' ', 'B', 'P', 'M'];
        push_all(&mut name, &suffix);
        assert(name@ =~= bpm_tag(b));
        r.push(TagLink { name: string_of(&name), is_metadata: true, pin: false });
    }
    let ghost after_bpm = r@.map_values(|l: TagLink| l@);
    assert(after_bpm =~= after_artists + match bpm {
        Some(b) => seq![TagLinkView { name: bpm_tag(b), is_metadata: true, pin: false }],
        None => seq![],
    });
    let ghost key_view = opt_string(key);
    if let Some(k) = key {
        r.push(TagLink { name: k, is_metadata: true, pin: false });
    }
    let ghost after_key = r@.map_values(|l: TagLink| l@);
    assert(after_key =~= after_bpm + match key_view {
        Some(k) => seq![TagLinkView { name: k, is_metadata: true, pin: false }],
        None => seq![],
    });
    if let Some(t) = &parsed.track_type {
        r.push(TagLink { name: t.clone(), is_metadata: false, pin: true });
    }
    let ghost after_type = r@.map_values(|l: TagLink| l@);
    assert(after_type =~= after_key + match parsed@.track_type {
        Some(t) => seq![TagLinkView { name: t, is_metadata: false, pin: true }],
        None => seq![],
    });
    if let Some((m, sec)) = duration {
        r.push(TagLink { name: duration_tag(m, sec), is_metadata: true, pin: false });
    }
    assert(r@.map_values(|l: TagLink| l@) =~= after_type + match duration {
        Some((m, sec)) => seq![TagLinkView { name: duration_tag_spec(m, sec), is_metadata: true, pin: false }],
        None => seq![],
    });
    proof {
        law_tag_links_layout(parsed@, bpm, opt_string(key), duration);
        let v = r@.map_values(|l: TagLink| l@);
        assert(v.len() == r@.len());
        assert forall|i: int| 0 <= i < parsed.artists@.len() implies (#[trigger] r@[i]).name@ == seq!['@']
            + parsed.artists@[i]@ && r@[i].is_metadata && !r@[i].pin by {
            assert(v[i] == r@[i]@);
            assert(parsed@.artists[i] == parsed.artists@[i]@);
        }
    }
    r
}

/// The links of a file come in a fixed order: one per artist, in the order
/// of the file name, named `@` and the artist (metadata); then the tempo as
/// `<bpm> BPM` and the key (metadata); then the track type (pinned, not
/// metadata); then the time code `m:ss` (metadata). Nothing else is linked.
pub proof fn law_tag_links_layout(
    p: ParsedView,
    bpm: Option<i32>,
    key: Option<Seq<char>>,
    duration: Option<(i32, i32)>,
)
    ensures
        ({
            let l = tag_links_spec(p, bpm, key, duration);
            let a = p.artists.len() as int;
            let nb: int = if bpm is Some { 1 } else { 0 };
            let nk: int = if key is Some { 1 } else { 0 };
            let nt: int = if p.track_type is Some { 1 } else { 0 };
            let nd: int = if duration is Some { 1 } else { 0 };
            &&& l.len() == a + nb + nk + nt + nd
            &&& forall|i: int|
                0 <= i < a ==> #[trigger] l[i] == (TagLinkView {
                    name: seq!['@'] + p.artists[i],
                    is_metadata: true,
                    pin: false,
                })
            &&& (bpm matches Some(b) ==> l[a] == (TagLinkView {
                name: signed_decimal(b as int) + seq![' ', 'B', 'P', 'M'],
                is_metadata: true,
                pin: false,
            }))
            &&& (key matches Some(k) ==> l[a + nb] == (TagLinkView { name: k, is_metadata: true, pin: false }))
            &&& (p.track_type matches Some(t) ==> l[a + nb + nk] == (TagLinkView {
                name: t,
                is_metadata: false,
                pin: true,
            }))
            &&& (duration matches Some((m, sec)) ==> l[a + nb + nk + nt] == (TagLinkView {
                name: signed_decimal(m as int) + seq![':'] + padded2(sec as int),
                is_metadata: true,
                pin: false,
            }))
        }),
{
    let l = tag_links_spec(p, bpm, key, duration);
    let a = p.artists.len() as int;
    let arts = artist_links(p.artists);
    assert(arts.len() == a);
    assert forall|i: int| 0 <= i < a implies #[trigger] l[i] == (TagLinkView {
        name: seq!['@'] + p.artists[i],
        is_metadata: true,
        pin: false,
    }) by {
        assert(l[i] == arts[i]);
    }
}

/// Whether linking `link` to a tag that is pinned as `tag_pinned` must pin it.
pub fn needs_pin(link: &TagLink, tag_pinned: bool) -> (r: bool)
    ensures
        r == (link.pin && !tag_pinned),
{
    link.pin && !tag_pinned
}

/// The time-code tag `m:ss` of a file that lasts `mins` minutes and
/// `secs` seconds over them.
pub open spec fn duration_tag_spec(mins: i32, secs: i32) -> Seq<char> {
    signed_decimal(mins as int) + seq![':'] + padded2(secs as int)
}

/// The time-code tag of a file, `m:ss`.
pub fn duration_tag(mins: i32, secs: i32) -> (r: String)
    ensures
        r@ == duration_tag_spec(mins, secs),
{
    let mut out: Vec<char> = Vec::new();
    push_signed(&mut out, mins as i64);
    out.push(':');
    push_padded2(&mut out, secs as i64);
    assert(out@ =~= duration_tag_spec(mins, secs));
    string_of(&out)
}

/// The number of files each worker tags: `n` shared out over the workers,
/// rounded up.
pub open spec fn chunk_size_spec(n: int) -> int {
    (n + WORKERS - 1) / (WORKERS as int)
}

/// The number of files each worker tags.
pub fn chunk_size(n: usize) -> (c: usize)
    ensures
        c == chunk_size_spec(n as int),
{
    n / WORKERS + if n % WORKERS != 0 { 1 } else { 0 }
}

/// The ranges of file indices that the workers take: consecutive chunks of
/// `chunk_size(n)` files (the last may be shorter).
pub fn worker_ranges(n: usize) -> (r: Vec<(usize, usize)>)
    ensures
        r@.len() <= WORKERS,
        n == 0 ==> r@.len() == 0,
        n > 0 ==> r@.len() > 0 && r@[0].0 == 0 && r@.last().1 == n,
        forall|k: int| 0 <= k < r@.len() ==> (#[trigger] r@[k]).0 < r@[k].1,
        forall|k: int|
            0 <= k < r@.len() ==> (#[trigger] r@[k]).1 - r@[k].0 <= chunk_size_spec(n as int),
        forall|k: int| 0 <= k < r@.len() - 1 ==> (#[trigger] r@[k]).1 == r@[k + 1].0,
        forall|k: int| 0 <= k < r@.len() - 1 ==> (#[trigger] r@[k]).1 - r@[k].0 == chunk_size_spec(n as int),
{
    let mut r: Vec<(usize, usize)> = Vec::new();
    if n == 0 {
        return r;
    }
    let c = chunk_size(n);
    let mut start: usize = 0;
    assert(start == r@.len() * c) by (nonlinear_arith)
        requires
            start == 0,
            r@.len() == 0,
    ;
    while start < n
        invariant
            0 < c,
            c == chunk_size_spec(n as int),
            start <= n,
            start == r@.len() * c,
            r@.len() <= WORKERS,
            r@.len() > 0 ==> r@[0].0 == 0 && r@.last().1 == start,
            forall|k: int| 0 <= k < r@.len() ==> (#[trigger] r@[k]).0 < r@[k].1,
            forall|k: int| 0 <= k < r@.len() ==> (#[trigger] r@[k]).1 - r@[k].0 == c,
            forall|k: int| 0 <= k < r@.len() - 1 ==> (#[trigger] r@[k]).1 == r@[k + 1].0,
        decreases n - start,
    {
        let end = if n - start > c { start + c } else { n };
        assert(r@.len() < WORKERS) by (nonlinear_arith)
            requires
                start == r@.len() * c,
                start < n,
                4 * c >= n,
                c > 0,
        ;
        let ghost prev = r@;
        if end < n {
            r.push((start, end));
            assert(r@.len() > 0 ==> r@[0] == (if prev.len() > 0 { prev[0] } else { (start, end) }));
            start = end;
            assert(start == r@.len() * c) by (nonlinear_arith)
                requires
                    start == (r@.len() - 1) * c + c,
            ;
        } else {
            r.push((start, end));
            assert(r@[r@.len() - 1].1 - r@[r@.len() - 1].0 <= c);
            assert(forall|k: int| 0 <= k < r@.len() - 1 ==> (#[trigger] r@[k]).1 - r@[k].0 == c);
            assert(r@.len() <= WORKERS);
            return r;
        }
    }
    r
}

} // verus!
