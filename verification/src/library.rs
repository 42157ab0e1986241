use vstd::prelude::*;

use crate::error::AppError;
use crate::format::{decimal, push_decimal};
use crate::models::ScanProgress;
use crate::paths::{is_separator, separator};
use crate::text::{chars_equal, chars_of, slice_chars, string_of};
use vstd::string::StringExecFns;

verus! {

/// The query text before the placeholders of a tag filter.
pub open spec fn filter_head() -> Seq<char> {
    "SELECT f.path FROM audio_files f\n         JOIN file_tags ft ON f.id = ft.file_id\n         JOIN tags t ON ft.tag_id = t.id\n         WHERE t.name IN ("@
}

/// The query text between the placeholders and the count parameter.
pub open spec fn filter_tail() -> Seq<char> {
    ")\n         GROUP BY f.id\n         HAVING COUNT(DISTINCT t.id) = ?"@
}

/// The placeholders `?1,?2,...,?k`.
pub open spec fn placeholders(k: nat) -> Seq<char>
    decreases k,
{
    if k == 0 {
        seq![]
    } else if k == 1 {
        seq!['?'] + decimal(1)
    } else {
        placeholders((k - 1) as nat) + seq![',', '?'] + decimal(k)
    }
}

/// The query for the files that carry all of `n` named tags: the names are
/// parameters 1..=n and the count `n` is parameter n + 1.
pub open spec fn tag_filter_query_spec(n: nat) -> Seq<char> {
    filter_head() + placeholders(n) + filter_tail() + decimal(n + 1)
}

/// The query for the files that carry every one of `n` tags, by name.
pub fn tag_filter_query(n: usize) -> (q: String)
    requires
        n < usize::MAX,
    ensures
        q@ == tag_filter_query_spec(n as nat),
{
    let mut ph: Vec<char> = Vec::new();
    let mut k: usize = 0;
    while k < n
        invariant
            k <= n < usize::MAX,
            ph@ == placeholders(k as nat),
        decreases n - k,
    {
        k = k + 1;
        if k > 1 {
            ph.push(',');
        }
        ph.push('?');
        push_decimal(&mut ph, k as u64);
        assert(ph@ =~= placeholders(k as nat));
    }
    let mut q = String::new();
    q.append("SELECT f.path FROM audio_files f\n         JOIN file_tags ft ON f.id = ft.file_id\n         JOIN tags t ON ft.tag_id = t.id\n         WHERE t.name IN (");
    q.append(string_of(&ph).as_str());
    q.append(")\n         GROUP BY f.id\n         HAVING COUNT(DISTINCT t.id) = ?");
    let mut count: Vec<char> = Vec::new();
    push_decimal(&mut count, (n + 1) as u64);
    q.append(string_of(&count).as_str());
    assert(q@ =~= tag_filter_query_spec(n as nat));
    q
}

/// The names of `names` without repeats, each where it first occurs.
pub open spec fn distinct(names: Seq<Seq<char>>) -> Seq<Seq<char>>
    decreases names.len(),
{
    if names.len() == 0 {
        seq![]
    } else if distinct(names.drop_last()).contains(names.last()) {
        distinct(names.drop_last())
    } else {
        distinct(names.drop_last()).push(names.last())
    }
}

/// The tag names to filter by, each once and in the order first given, so
/// that a name asked for twice is counted once.
pub fn distinct_names(names: &Vec<String>) -> (r: Vec<String>)
    ensures
        r@.map_values(|n: String| n@) == distinct(names@.map_values(|n: String| n@)),
{
    let ghost all = names@.map_values(|n: String| n@);
    let mut r: Vec<String> = Vec::new();
    let mut i: usize = 0;
    while i < names.len()
        invariant
            i <= names.len(),
            all == names@.map_values(|n: String| n@),
            r@.map_values(|n: String| n@) == distinct(all.take(i as int)),
        decreases names.len() - i,
    {
        let ghost seen = r@.map_values(|n: String| n@);
        let name = chars_of(names[i].as_str());
        assert(all[i as int] == names@[i as int]@);
        let mut found = false;
        let mut k: usize = 0;
        while k < r.len()
            invariant
                k <= r.len(),
                seen == r@.map_values(|n: String| n@),
                name@ == all[i as int],
                found == (exists|j: int| 0 <= j < k && seen[j] == name@),
            decreases r.len() - k,
        {
            let other = chars_of(r[k].as_str());
            assert(seen[k as int] == r@[k as int]@);
            if chars_equal(&other, &name) {
                found = true;
            }
            k = k + 1;
        }
        assert(all.take(i + 1).drop_last() =~= all.take(i as int));
        assert(all.take(i + 1).last() == all[i as int]);
        if found {
            assert(seen.contains(name@));
        } else {
            assert(!seen.contains(name@));
            r.push(names[i].clone());
            assert(r@.map_values(|n: String| n@) =~= seen.push(name@));
        }
        i = i + 1;
    }
    assert(all.take(names.len() as int) =~= all);
    r
}

/// Filtering by a list of names asks for each name once: the distinct names
/// hold no repeat, and a name is among them exactly when it was given.
pub proof fn law_distinct_names(names: Seq<Seq<char>>)
    ensures
        forall|i: int, j: int|
            0 <= i < j < distinct(names).len() ==> distinct(names)[i] != distinct(names)[j],
        forall|x: Seq<char>| distinct(names).contains(x) <==> names.contains(x),
    decreases names.len(),
{
    if names.len() > 0 {
        let rest = names.drop_last();
        law_distinct_names(rest);
        assert forall|x: Seq<char>| rest.contains(x) || x == names.last() <==> names.contains(x) by {
            if names.contains(x) {
                let k = choose|k: int| 0 <= k < names.len() && names[k] == x;
                if k < names.len() - 1 {
                    assert(rest[k] == x);
                }
            }
            if rest.contains(x) {
                let k = choose|k: int| 0 <= k < rest.len() && rest[k] == x;
                assert(names[k] == x);
            }
            if x == names.last() {
                assert(names[names.len() - 1] == x);
            }
        }
        if !distinct(rest).contains(names.last()) {
            let d = distinct(rest).push(names.last());
            assert forall|x: Seq<char>| d.contains(x) <==> distinct(rest).contains(x) || x == names.last() by {
                if d.contains(x) {
                    let k = choose|k: int| 0 <= k < d.len() && d[k] == x;
                    if k < d.len() - 1 {
                        assert(distinct(rest)[k] == x);
                    }
                }
                if distinct(rest).contains(x) {
                    let k = choose|k: int| 0 <= k < distinct(rest).len() && distinct(rest)[k] == x;
                    assert(d[k] == x);
                }
                if x == names.last() {
                    assert(d[d.len() - 1] == x);
                }
            }
        }
    }
}

/// What a character becomes in a `LIKE` pattern with `\` as its escape.
pub open spec fn escape_like_char(c: char) -> Seq<char> {
    if c == '\\' {
        seq!['\\', '\\']
    } else if c == '%' {
        seq!['\\', '%']
    } else if c == '_' {
        seq!['\\', '_']
    } else {
        seq![c]
    }
}

/// `s` with every `\`, `%` and `_` escaped by `\`.
pub open spec fn escape_like(s: Seq<char>) -> Seq<char>
    decreases s.len(),
{
    if s.len() == 0 {
        seq![]
    } else {
        escape_like(s.drop_last()) + escape_like_char(s.last())
    }
}

/// The `LIKE` pattern that picks the candidates for the files under the
/// folder `path`: `path` escaped, then `%`. It matches every path that begins
/// with the text of `path` (in SQLite, ignoring the case of ASCII letters),
/// siblings such as `path2` too; `is_under_root` decides among them.
pub fn like_prefix_pattern(path: &str) -> (p: String)
    ensures
        p@ == escape_like(path@) + seq!['%'],
{
    let v = chars_of(path);
    let mut out: Vec<char> = Vec::new();
    let mut i: usize = 0;
    while i < v.len()
        invariant
            i <= v.len(),
            out@ == escape_like(v@.take(i as int)),
        decreases v.len() - i,
    {
        let c = v[i];
        if c == '\\' {
            out.push('\\');
            out.push('\\');
        } else if c == '%' {
            out.push('\\');
            out.push('%');
        } else if c == '_' {
            out.push('\\');
            out.push('_');
        } else {
            out.push(c);
        }
        assert(v@.take(i + 1).drop_last() =~= v@.take(i as int));
        i = i + 1;
        assert(out@ =~= escape_like(v@.take(i as int)));
    }
    assert(v@.take(v.len() as int) =~= v@);
    out.push('%');
    string_of(&out)
}

/// The text that a `LIKE` pattern without wildcards matches, reading `\` as
/// its escape; `None` when a wildcard (`%`, `_`) stands unescaped or the
/// pattern ends in a lone `\`.
pub open spec fn like_literal(p: Seq<char>) -> Option<Seq<char>>
    decreases p.len(),
{
    if p.len() == 0 {
        Some(seq![])
    } else if p[0] == '\\' {
        if p.len() >= 2 {
            match like_literal(p.skip(2)) {
                Some(r) => Some(seq![p[1]] + r),
                None => None,
            }
        } else {
            None
        }
    } else if p[0] == '%' || p[0] == '_' {
        None
    } else {
        match like_literal(p.drop_first()) {
            Some(r) => Some(seq![p[0]] + r),
            None => None,
        }
    }
}

proof fn lemma_escape_prepend(c: char, s: Seq<char>)
    ensures
        escape_like(seq![c] + s) == escape_like_char(c) + escape_like(s),
    decreases s.len(),
{
    if s.len() == 0 {
        assert(seq![c] + s =~= seq![c]);
        assert((seq![c] + s).drop_last() =~= Seq::<char>::empty());
        assert(escape_like(seq![c]) =~= escape_like(Seq::<char>::empty()) + escape_like_char(c));
        assert(escape_like_char(c) + escape_like(s) =~= escape_like_char(c));
    } else {
        assert((seq![c] + s).drop_last() =~= seq![c] + s.drop_last());
        assert((seq![c] + s).last() == s.last());
        lemma_escape_prepend(c, s.drop_last());
        assert(escape_like_char(c) + escape_like(s.drop_last()) + escape_like_char(s.last())
            =~= escape_like_char(c) + escape_like(s));
    }
}

proof fn lemma_like_literal_of_escape(s: Seq<char>)
    ensures
        like_literal(escape_like(s)) == Some(s),
    decreases s.len(),
{
    if s.len() > 0 {
        let c = s[0];
        let rest = s.drop_first();
        assert(s =~= seq![c] + rest);
        lemma_escape_prepend(c, rest);
        lemma_like_literal_of_escape(rest);
        let e = escape_like(s);
        if c == '\\' || c == '%' || c == '_' {
            assert(e.skip(2) =~= escape_like(rest));
        } else {
            assert(e.drop_first() =~= escape_like(rest));
        }
        assert(seq![c] + rest =~= s);
    }
}

/// The escaped path holds no wildcard and reads back as the path itself, so
/// the prefix pattern asks for the path's own text, then anything.
pub proof fn law_like_pattern_matches_literal_prefix(path: Seq<char>)
    ensures
        like_literal(escape_like(path)) == Some(path),
{
    lemma_like_literal_of_escape(path);
}

/// Whether the file at `path` lies under the folder `root`: `path` begins
/// with `root`, and a separator stands right after it (or ends `root`), so
/// that `root` ends on a whole component. Letters must match in case.
pub open spec fn under_root(path: Seq<char>, root: Seq<char>) -> bool {
    &&& root.len() < path.len()
    &&& path.take(root.len() as int) == root
    &&& ((root.len() > 0 && separator(root.last())) || separator(path[root.len() as int]))
}

/// Whether the file at `path` lies under the folder `root`.
pub fn is_under_root(path: &str, root: &str) -> (r: bool)
    ensures
        r == under_root(path@, root@),
{
    let p = chars_of(path);
    let q = chars_of(root);
    if q.len() >= p.len() {
        return false;
    }
    let head = slice_chars(&p, 0, q.len());
    assert(head@ =~= p@.take(q@.len() as int));
    if !chars_equal(&head, &q) {
        return false;
    }
    (q.len() > 0 && is_separator(q[q.len() - 1])) || is_separator(p[q.len()])
}

/// A file in the folder `root`, or deeper, lies under it.
pub proof fn law_child_under_root(root: Seq<char>, rest: Seq<char>)
    ensures
        under_root(root + seq!['/'] + rest, root),
{
    assert((root + seq!['/'] + rest).take(root.len() as int) =~= root);
    assert((root + seq!['/'] + rest)[root.len() as int] == '/');
}

/// A sibling folder whose name only begins with that of `root` (such as
/// `/music2` beside `/music`) does not lie under it.
pub proof fn law_sibling_not_under_root(root: Seq<char>, c: char, rest: Seq<char>)
    requires
        root.len() > 0,
        !separator(root.last()),
        !separator(c),
    ensures
        !under_root(root + seq![c] + rest, root),
{
    assert((root + seq![c] + rest)[root.len() as int] == c);
}

/// Whether a tag may be deleted: not when it is a preset. `is_preset` is the
/// stored flag, `None` when the tag was not found.
pub fn check_tag_deletable(is_preset: Option<i32>) -> (r: Result<(), AppError>)
    ensures
        r is Err <==> (is_preset matches Some(v) && v != 0),
        r matches Err(e) ==> (e matches AppError::Database(m) && m@ == "Cannot delete preset tags"@),
{
    match is_preset {
        Some(v) => if v != 0 {
            let mut m = String::new();
            m.append("Cannot delete preset tags");
            Err(AppError::Database(m))
        } else {
            Ok(())
        },
        None => Ok(()),
    }
}

/// The error for a file path that is not in the library.
pub fn file_not_found(path: &str, detail: &str) -> (e: AppError)
    ensures
        e matches AppError::Database(m) && m@ == "File not found: "@ + path@ + " ("@ + detail@ + ")"@,
{
    let mut m = String::new();
    m.append("File not found: ");
    m.append(path);
    m.append(" (");
    m.append(detail);
    m.append(")");
    AppError::Database(m)
}

/// The page of the library listing: at most `limit` files (1000 by default)
/// after skipping `offset` (none by default).
pub fn page_window(limit: Option<usize>, offset: Option<usize>) -> (w: (usize, usize))
    ensures
        w.0 == match limit {
            Some(l) => l,
            None => 1000,
        },
        w.1 == match offset {
            Some(o) => o,
            None => 0,
        },
{
    let l = match limit {
        Some(l) => l,
        None => 1000,
    };
    let o = match offset {
        Some(o) => o,
        None => 0,
    };
    (l, o)
}

/// Scan progress reporting is not implemented: always the error saying so.
pub fn scan_status() -> (r: Result<ScanProgress, AppError>)
    ensures
        r matches Err(AppError::NotImplemented(m)) && m@ == "scan_status"@,
{
    let mut m = String::new();
    m.append("scan_status");
    Err(AppError::NotImplemented(m))
}

} // verus!
