use vstd::prelude::*;

verus! {

/// Whether `char::is_alphanumeric` holds of the non-ASCII `c` (Unicode
/// Alphabetic or Numeric).
pub uninterp spec fn char_alphanumeric(c: char) -> bool;

/// Whether `char::is_whitespace` holds of the non-ASCII `c` (Unicode
/// White_Space).
pub uninterp spec fn char_whitespace(c: char) -> bool;

/// What `str::to_lowercase` returns for a string with these characters, not
/// all of them ASCII.
pub uninterp spec fn lowercase_of(s: Seq<char>) -> Seq<char>;

/// Whether `c` is an ASCII character.
pub open spec fn ascii(c: char) -> bool {
    (c as u32) < 128
}

/// Whether every character of `s` is ASCII.
pub open spec fn all_ascii(s: Seq<char>) -> bool {
    forall|i: int| 0 <= i < s.len() ==> ascii(#[trigger] s[i])
}

/// Whether the ASCII `c` is a digit or a Latin letter.
pub open spec fn ascii_alphanumeric(c: char) -> bool {
    ('0' <= c && c <= '9') || ('a' <= c && c <= 'z') || ('A' <= c && c <= 'Z')
}

/// Whether the ASCII `c` is a space, a tab, a line feed, a vertical tab, a
/// form feed or a carriage return.
pub open spec fn ascii_whitespace(c: char) -> bool {
    c == ' ' || ('\t' <= c && c <= '\r')
}

/// The ASCII `c` with an upper-case Latin letter turned to lower case.
pub open spec fn ascii_lower(c: char) -> char {
    if 'A' <= c && c <= 'Z' {
        ((c as u32) + 32) as char
    } else {
        c
    }
}

/// Whether `c` is alphanumeric, as `char::is_alphanumeric` says.
pub open spec fn alphanumeric(c: char) -> bool {
    if ascii(c) {
        ascii_alphanumeric(c)
    } else {
        char_alphanumeric(c)
    }
}

/// Whether `c` is whitespace, as `char::is_whitespace` says.
pub open spec fn whitespace(c: char) -> bool {
    if ascii(c) {
        ascii_whitespace(c)
    } else {
        char_whitespace(c)
    }
}

/// `s` in lower case, as `str::to_lowercase` gives it.
pub open spec fn lowercased(s: Seq<char>) -> Seq<char> {
    if all_ascii(s) {
        s.map_values(|c: char| ascii_lower(c))
    } else {
        lowercase_of(s)
    }
}

/// Calls `char::is_alphanumeric`. Claimed: on ASCII the answer holds of the
/// digits and the Latin letters alone; elsewhere it is
/// `char_alphanumeric(c)`, so the same character always gets the same
/// answer; which non-ASCII characters are Alphabetic or Numeric is left
/// unstated.
#[verifier::external_body]
pub(crate) fn is_alphanumeric(c: char) -> (r: bool)
    ensures
        r == (if ascii(c) { ascii_alphanumeric(c) } else { char_alphanumeric(c) }),
{
    c.is_alphanumeric()
}

/// Calls `char::is_whitespace`. Claimed: on ASCII the answer holds of the
/// space and of U+0009..=U+000D alone; elsewhere it is `char_whitespace(c)`;
/// which non-ASCII characters are White_Space is left unstated.
#[verifier::external_body]
pub(crate) fn is_whitespace(c: char) -> (r: bool)
    ensures
        r == (if ascii(c) { ascii_whitespace(c) } else { char_whitespace(c) }),
{
    c.is_whitespace()
}

/// Calls `str::to_lowercase`. Claimed: an ASCII string comes back with each
/// upper-case Latin letter turned to lower case and nothing else changed;
/// any other string comes back as `lowercase_of(s@)`, a result of its
/// characters alone; the Unicode case mapping itself is left unstated.
#[verifier::external_body]
pub(crate) fn to_lowercase(s: &str) -> (r: String)
    ensures
        r@ == (if all_ascii(s@) {
            s@.map_values(|c: char| ascii_lower(c))
        } else {
            lowercase_of(s@)
        }),
{
    s.to_lowercase()
}

/// Calls `String::push`. Claimed: the string afterwards holds its old
/// characters followed by `c`.
#[verifier::external_body]
pub(crate) fn push_char(s: &mut String, c: char)
    ensures
        final(s)@ == old(s)@.push(c),
{
    s.push(c)
}

/// The characters of `s`, in order.
pub fn chars_of(s: &str) -> (v: Vec<char>)
    ensures
        v@ == s@,
{
    let mut v: Vec<char> = Vec::new();
    for c in it: s.chars()
        invariant
            v@ == it.seq().take(it.index()),
    {
        v.push(c);
    }
    v
}

/// A string holding exactly the characters of `v`.
pub fn string_of(v: &[char]) -> (s: String)
    ensures
        s@ == v@,
{
    let mut s = String::new();
    let mut i: usize = 0;
    while i < v.len()
        invariant
            i <= v.len(),
            s@ == v@.take(i as int),
        decreases v.len() - i,
    {
        push_char(&mut s, v[i]);
        i = i + 1;
        assert(v@.take(i as int) =~= v@.take((i - 1) as int).push(v@[i - 1]));
    }
    assert(v@.take(v.len() as int) =~= v@);
    s
}


/// Which characters a trim removes from both ends of a word.
#[derive(Clone, Copy, PartialEq, Eq, Debug)]
pub enum Strip {
    /// Characters for which `char::is_whitespace` holds (what `str::trim` removes).
    Whitespace,
    /// Characters that are not alphanumeric.
    NonAlnum,
    /// Characters that are not alphanumeric, a dot or an underscore.
    NonAlnumDotUnderscore,
    /// Characters that are not alphanumeric or `#`.
    NonAlnumSharp,
}

/// Whether a trim in `mode` removes `c` when it stands at an end.
pub open spec fn stripped_by(c: char, mode: Strip) -> bool {
    match mode {
        Strip::Whitespace => whitespace(c),
        Strip::NonAlnum => !alphanumeric(c),
        Strip::NonAlnumDotUnderscore => !alphanumeric(c) && c != '.' && c != '_',
        Strip::NonAlnumSharp => !alphanumeric(c) && c != '#',
    }
}

/// `s` without its leading characters that `mode` removes.
pub open spec fn trim_front(s: Seq<char>, mode: Strip) -> Seq<char>
    decreases s.len(),
{
    if s.len() > 0 && stripped_by(s[0], mode) {
        trim_front(s.drop_first(), mode)
    } else {
        s
    }
}

/// `s` without its trailing characters that `mode` removes.
pub open spec fn trim_back(s: Seq<char>, mode: Strip) -> Seq<char>
    decreases s.len(),
{
    if s.len() > 0 && stripped_by(s.last(), mode) {
        trim_back(s.drop_last(), mode)
    } else {
        s
    }
}

/// What `str::trim_matches` with the predicate of `mode` leaves of `s`.
pub open spec fn trimmed(s: Seq<char>, mode: Strip) -> Seq<char> {
    trim_back(trim_front(s, mode), mode)
}

/// Decides `stripped_by` at run time.
pub fn strips(c: char, mode: Strip) -> (r: bool)
    ensures
        r == stripped_by(c, mode),
{
    match mode {
        Strip::Whitespace => is_whitespace(c),
        Strip::NonAlnum => !is_alphanumeric(c),
        Strip::NonAlnumDotUnderscore => !is_alphanumeric(c) && c != '.' && c != '_',
        Strip::NonAlnumSharp => !is_alphanumeric(c) && c != '#',
    }
}

/// The characters of `v` from `lo` to `hi`.
pub fn slice_chars(v: &[char], lo: usize, hi: usize) -> (r: Vec<char>)
    requires
        lo <= hi <= v.len(),
    ensures
        r@ == v@.subrange(lo as int, hi as int),
{
    let mut r: Vec<char> = Vec::new();
    let mut i = lo;
    while i < hi
        invariant
            lo <= i <= hi <= v.len(),
            r@ == v@.subrange(lo as int, i as int),
        decreases hi - i,
    {
        r.push(v[i]);
        i = i + 1;
        assert(r@ =~= v@.subrange(lo as int, i as int));
    }
    r
}

/// `v` without the characters that `mode` removes at either end.
pub fn trim_chars(v: &[char], mode: Strip) -> (r: Vec<char>)
    ensures
        r@ == trimmed(v@, mode),
{
    let n = v.len();
    let mut i: usize = 0;
    assert(v@.subrange(0, n as int) =~= v@);
    while i < n && strips(v[i], mode)
        invariant
            i <= n == v.len(),
            trim_front(v@, mode) == trim_front(v@.subrange(i as int, n as int), mode),
        decreases n - i,
    {
        assert(v@.subrange(i as int, n as int).drop_first() =~= v@.subrange(i + 1, n as int));
        i = i + 1;
    }
    let mut j: usize = n;
    assert(trim_front(v@, mode) == v@.subrange(i as int, n as int));
    while j > i && strips(v[j - 1], mode)
        invariant
            i <= j <= n == v.len(),
            trimmed(v@, mode) == trim_back(v@.subrange(i as int, j as int), mode),
        decreases j - i,
    {
        assert(v@.subrange(i as int, j as int).drop_last() =~= v@.subrange(i as int, j - 1));
        j = j - 1;
    }
    slice_chars(v, i, j)
}

/// The words of `s` after the partial word `cur`: maximal runs of characters
/// that are not whitespace, in order (what `str::split_whitespace` yields).
pub open spec fn words_from(s: Seq<char>, cur: Seq<char>) -> Seq<Seq<char>>
    decreases s.len(),
{
    if s.len() == 0 {
        if cur.len() == 0 { seq![] } else { seq![cur] }
    } else if whitespace(s[0]) {
        (if cur.len() == 0 { seq![] } else { seq![cur] }) + words_from(s.drop_first(), seq![])
    } else {
        words_from(s.drop_first(), cur.push(s[0]))
    }
}

/// The whitespace-separated words of `s`.
pub open spec fn words_of(s: Seq<char>) -> Seq<Seq<char>> {
    words_from(s, seq![])
}

/// Splits `v` into its whitespace-separated words.
pub fn split_words(v: &[char]) -> (ws: Vec<Vec<char>>)
    ensures
        ws@.map_values(|w: Vec<char>| w@) == words_of(v@),
{
    let mut ws: Vec<Vec<char>> = Vec::new();
    let mut cur: Vec<char> = Vec::new();
    let mut i: usize = 0;
    let n = v.len();
    assert(v@.subrange(0, n as int) =~= v@);
    while i < n
        invariant
            i <= n == v.len(),
            ws@.map_values(|w: Vec<char>| w@) + words_from(v@.subrange(i as int, n as int), cur@)
                == words_of(v@),
        decreases n - i,
    {
        let ghost before = ws@.map_values(|w: Vec<char>| w@);
        let ghost rest = v@.subrange(i as int, n as int);
        assert(rest.drop_first() =~= v@.subrange(i + 1, n as int));
        let c = v[i];
        if is_whitespace(c) {
            if cur.len() > 0 {
                let ghost cw = cur@;
                ws.push(cur);
                assert(ws@.map_values(|w: Vec<char>| w@) =~= before.push(cw));
                assert(before + (seq![cw] + words_from(rest.drop_first(), seq![]))
                    =~= before.push(cw) + words_from(rest.drop_first(), seq![]));
                cur = Vec::new();
            } else {
                assert(seq![] + words_from(rest.drop_first(), seq![])
                    =~= words_from(rest.drop_first(), seq![]));
            }
            assert(cur@ =~= seq![]);
        } else {
            cur.push(c);
        }
        i = i + 1;
    }
    if cur.len() > 0 {
        let ghost before = ws@.map_values(|w: Vec<char>| w@);
        let ghost cw = cur@;
        ws.push(cur);
        assert(ws@.map_values(|w: Vec<char>| w@) =~= before.push(cw));
        assert(before + seq![cw] =~= before.push(cw));
    } else {
        assert(ws@.map_values(|w: Vec<char>| w@) + seq![] =~= ws@.map_values(|w: Vec<char>| w@));
    }
    ws
}


/// Whether `a` and `b` hold the same characters.
pub fn chars_equal(a: &[char], b: &[char]) -> (r: bool)
    ensures
        r == (a@ == b@),
{
    if a.len() != b.len() {
        return false;
    }
    let mut i: usize = 0;
    while i < a.len()
        invariant
            i <= a.len() == b.len(),
            forall|k: int| 0 <= k < i ==> a@[k] == b@[k],
        decreases a.len() - i,
    {
        if a[i] != b[i] {
            return false;
        }
        i = i + 1;
    }
    assert(a@ =~= b@);
    true
}

/// Whether `c` is an ASCII decimal digit.
pub open spec fn is_digit(c: char) -> bool {
    '0' <= c && c <= '9'
}

/// The value of the decimal digit `c`.
pub open spec fn digit_value(c: char) -> int {
    c as int - '0' as int
}

/// The number that the decimal digits `d` spell.
pub open spec fn digits_value(d: Seq<char>) -> int
    decreases d.len(),
{
    if d.len() == 0 {
        0
    } else {
        digits_value(d.drop_last()) * 10 + digit_value(d.last())
    }
}

/// Whether every character of `d` is a decimal digit.
pub open spec fn all_digits(d: Seq<char>) -> bool {
    forall|i: int| 0 <= i < d.len() ==> is_digit(#[trigger] d[i])
}

/// The digits of `s` after an optional leading sign.
pub open spec fn unsigned_part(s: Seq<char>) -> Seq<char> {
    if s.len() > 0 && (s[0] == '-' || s[0] == '+') {
        s.drop_first()
    } else {
        s
    }
}

/// What `s.parse::<i32>()` gives, `None` for its error: an optional `+` or
/// `-`, then one or more ASCII digits, with a value that fits in `i32`.
pub open spec fn parsed_i32(s: Seq<char>) -> Option<i32> {
    let body = unsigned_part(s);
    let v = if s.len() > 0 && s[0] == '-' { -digits_value(body) } else { digits_value(body) };
    if body.len() > 0 && all_digits(body) && i32::MIN <= v <= i32::MAX {
        Some(v as i32)
    } else {
        None
    }
}

proof fn lemma_digits_value_nonneg(d: Seq<char>)
    requires
        all_digits(d),
    ensures
        digits_value(d) >= 0,
    decreases d.len(),
{
    if d.len() > 0 {
        assert(all_digits(d.drop_last())) by {
            assert forall|i: int| 0 <= i < d.drop_last().len() implies is_digit(
                #[trigger] d.drop_last()[i],
            ) by {
                assert(d.drop_last()[i] == d[i]);
            }
        }
        lemma_digits_value_nonneg(d.drop_last());
        assert(is_digit(d[d.len() - 1]));
    }
}

/// Parses `v` as `str::parse::<i32>` does.
pub fn parse_i32(v: &[char]) -> (r: Option<i32>)
    ensures
        r == parsed_i32(v@),
{
    let n = v.len();
    let mut start: usize = 0;
    let mut neg = false;
    if n > 0 && (v[0] == '-' || v[0] == '+') {
        start = 1;
        neg = v[0] == '-';
    }
    let ghost body = unsigned_part(v@);
    assert(body =~= v@.subrange(start as int, n as int));
    if start == n {
        return None;
    }
    // Saturates at `cap`, above every magnitude that fits in `i32`.
    let cap: i64 = 2147483649;
    let mut acc: i64 = 0;
    let mut i = start;
    while i < n
        invariant
            start <= i <= n == v.len(),
            body == v@.subrange(start as int, n as int),
            body == unsigned_part(v@),
            cap == 2147483649,
            0 <= acc <= cap,
            all_digits(v@.subrange(start as int, i as int)),
            acc == (if digits_value(v@.subrange(start as int, i as int)) < cap {
                digits_value(v@.subrange(start as int, i as int))
            } else {
                cap as int
            }),
        decreases n - i,
    {
        let c = v[i];
        if !('0' <= c && c <= '9') {
            assert(body[i - start] == c);
            assert(!is_digit(body[i - start]));
            assert(!all_digits(body));
            return None;
        }
        let ghost pre = v@.subrange(start as int, i as int);
        let ghost next = v@.subrange(start as int, i + 1);
        assert(next.drop_last() =~= pre);
        assert(all_digits(next)) by {
            assert forall|k: int| 0 <= k < next.len() implies is_digit(#[trigger] next[k]) by {
                if k < pre.len() {
                    assert(next[k] == pre[k]);
                }
            }
        }
        proof {
            lemma_digits_value_nonneg(pre);
        }
        let d = (c as u32 - '0' as u32) as i64;
        assert(d == digit_value(c));
        if acc >= cap {
            acc = cap;
        } else {
            let t = acc * 10 + d;
            acc = if t < cap { t } else { cap };
        }
        i = i + 1;
    }
    assert(v@.subrange(start as int, n as int) == body);
    proof {
        lemma_digits_value_nonneg(body);
    }
    assert(neg == (v@.len() > 0 && v@[0] == '-'));
    if neg {
        if acc <= 2147483648 {
            Some((0 - acc) as i32)
        } else {
            None
        }
    } else {
        if acc <= 2147483647 {
            Some(acc as i32)
        } else {
            None
        }
    }
}

} // verus!
