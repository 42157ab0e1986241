use vstd::prelude::*;

pub use crate::parser::ParsedMetadata;

verus! {

/// A tag that files can carry.
#[derive(Clone, Debug)]
pub struct Tag {
    pub id: i64,
    pub name: String,
    pub color: Option<String>,
    /// One of the built-in tags, which cannot be deleted.
    pub is_preset: bool,
    /// Shown as a filter pill in the toolbar.
    pub is_pinned: bool,
    /// Written by analysis (tempo, key); hidden from the tags column.
    pub is_metadata: bool,
}

impl Tag {
    /// The tag that a row of `tags` holds; the flags are stored as integers,
    /// any nonzero value meaning set.
    pub fn from_row(
        id: i64,
        name: String,
        color: Option<String>,
        is_preset: i32,
        is_pinned: i32,
        is_metadata: i32,
    ) -> (t: Tag)
        ensures
            t.id == id,
            t.name == name,
            t.color == color,
            t.is_preset == (is_preset != 0),
            t.is_pinned == (is_pinned != 0),
            t.is_metadata == (is_metadata != 0),
    {
        Tag {
            id,
            name,
            color,
            is_preset: is_preset != 0,
            is_pinned: is_pinned != 0,
            is_metadata: is_metadata != 0,
        }
    }

    /// The tag just inserted under `id`: no color, neither preset nor pinned.
    pub fn inserted(id: i64, name: String, is_metadata: bool) -> (t: Tag)
        ensures
            t.id == id,
            t.name == name,
            t.color is None,
            !t.is_preset,
            !t.is_pinned,
            t.is_metadata == is_metadata,
    {
        Tag { id, name, color: None, is_preset: false, is_pinned: false, is_metadata }
    }
}

/// Progress of the background tagging of scanned files.
#[derive(Clone, Debug)]
pub struct TagProgress {
    pub total: usize,
    pub processed: usize,
    /// `idle`, `scanning` or `complete`.
    pub status: String,
}

/// The word `idle`.
pub open spec fn status_idle() -> Seq<char> {
    seq!['i', 'd', 'l', 'e']
}

/// The word `scanning`.
pub open spec fn status_scanning() -> Seq<char> {
    seq!['s', 'c', 'a', 'n', 'n', 'i', 'n', 'g']
}

/// The word `complete`.
pub open spec fn status_complete() -> Seq<char> {
    seq!['c', 'o', 'm', 'p', 'l', 'e', 't', 'e']
}

fn word(cs: &[char]) -> (s: String)
    ensures
        s@ == cs@,
{
    crate::text::string_of(cs)
}

impl TagProgress {
    /// Before any scan.
    pub fn idle() -> (p: TagProgress)
        ensures
            p.total == 0,
            p.processed == 0,
            p.status@ == status_idle(),
    {
        let w = ['i', 'd', 'l', 'e'];
        assert(w@ =~= status_idle());
        TagProgress { total: 0, processed: 0, status: word(&w) }
    }

    /// A scan found `total` files to tag; none is tagged yet.
    pub fn scanning(total: usize) -> (p: TagProgress)
        ensures
            p.total == total,
            p.processed == 0,
            p.status@ == status_scanning(),
    {
        let w = ['s', 'c', 'a', 'n', 'n', 'i', 'n', 'g'];
        assert(w@ =~= status_scanning());
        TagProgress { total, processed: 0, status: word(&w) }
    }

    /// Records that `done` files are tagged so far.
    pub fn record_processed(&mut self, done: usize)
        ensures
            final(self).total == old(self).total,
            final(self).processed == done,
            final(self).status == old(self).status,
    {
        self.processed = done;
    }

    /// Marks the tagging complete, the counts as they are (a scan that found
    /// nothing).
    pub fn mark_complete(&mut self)
        ensures
            final(self).total == old(self).total,
            final(self).processed == old(self).processed,
            final(self).status@ == status_complete(),
    {
        let w = ['c', 'o', 'm', 'p', 'l', 'e', 't', 'e'];
        assert(w@ =~= status_complete());
        self.status = word(&w);
    }

    /// Marks the tagging complete with every file processed.
    pub fn finish(&mut self)
        ensures
            final(self).total == old(self).total,
            final(self).processed == old(self).total,
            final(self).status@ == status_complete(),
    {
        self.processed = self.total;
        self.mark_complete();
    }

    /// Whether the progress updater is done: every file is processed.
    pub fn all_done(done: usize, total: usize) -> (r: bool)
        ensures
            r == (done >= total),
    {
        done >= total
    }
}

/// A link between a file and a tag.
#[derive(Clone, Debug)]
pub struct FileTag {
    pub file_id: i64,
    pub tag_id: i64,
}

/// A directory that the library scans.
#[derive(Clone, Debug)]
pub struct ScanRoot {
    pub id: i64,
    pub path: String,
}

/// Progress of a scan.
#[derive(Clone, Debug)]
pub struct ScanProgress {
    pub total: usize,
    pub scanned: usize,
    pub new_files: usize,
    pub errors: Vec<String>,
}

/// A search over the library.
#[derive(Clone, Debug)]
pub struct SearchQuery {
    pub query: String,
    pub limit: Option<usize>,
    pub offset: Option<usize>,
}

} // verus!
