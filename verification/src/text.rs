//! Character-level string model and the string operations the rest of the
//! library is built from. Strings are reasoned about through their character
//! sequences (`s@`); executable code works on `Vec<char>` and converts at the
//! edges.
use vstd::prelude::*;

verus! {

// ---------------------------------------------------------------------------
// Conversions between `&str`, `String` and `Vec<char>`
// ---------------------------------------------------------------------------

/// `String::push`: appends one character.
#[verifier::external_body]
pub(crate) fn push_char(s: &mut String, c: char)
    ensures
        final(s)@ == old(s)@.push(c),
{
    s.push(c);
}

/// The characters of a string slice, in order.
pub fn chars_of(s: &str) -> (out: Vec<char>)
    ensures
        out@ == s@,
{
    let mut out: Vec<char> = Vec::new();
    for c in it: s.chars()
        invariant
            out@ == it.seq().take(it.index()),
            it.seq() == s@,
    {
        out.push(c);
    }
    out
}

/// Builds a string from a sequence of characters.
pub fn string_of(v: &Vec<char>) -> (out: String)
    ensures
        out@ == v@,
{
    let mut out = String::new();
    let mut i: usize = 0;
    while i < v.len()
        invariant
            i <= v.len(),
            out@ == v@.take(i as int),
        decreases v.len() - i,
    {
        push_char(&mut out, v[i]);
        assert(v@.take(i as int).push(v@[i as int]) =~= v@.take(i + 1));
        i = i + 1;
    }
    assert(v@.take(v.len() as int) =~= v@);
    out
}

/// Appends all characters of `s` to `v`.
pub fn push_str(v: &mut Vec<char>, s: &str)
    ensures
        final(v)@ == old(v)@ + s@,
{
    let cs = chars_of(s);
    append_chars(v, &cs);
}

/// Appends all characters of `w` to `v`.
pub fn append_chars(v: &mut Vec<char>, w: &Vec<char>)
    ensures
        final(v)@ == old(v)@ + w@,
{
    let ghost start = v@;
    let mut i: usize = 0;
    while i < w.len()
        invariant
            i <= w.len(),
            v@ == start + w@.take(i as int),
        decreases w.len() - i,
    {
        v.push(w[i]);
        assert(start + w@.take(i as int) + seq![w@[i as int]] =~= start + w@.take(i + 1));
        i = i + 1;
    }
    assert(w@.take(w.len() as int) =~= w@);
}

/// Copies a sequence of characters.
pub fn copy_chars(w: &Vec<char>) -> (out: Vec<char>)
    ensures
        out@ == w@,
{
    let mut out: Vec<char> = Vec::new();
    append_chars(&mut out, w);
    assert(Seq::<char>::empty() + w@ =~= w@);
    out
}

/// The characters of a string literal or slice, as a fresh vector.
pub fn lit(s: &str) -> (out: Vec<char>)
    ensures
        out@ == s@,
{
    chars_of(s)
}

/// Character-wise equality of two sequences.
pub fn chars_eq(a: &Vec<char>, b: &Vec<char>) -> (r: bool)
    ensures
        r == (a@ == b@),
{
    if a.len() != b.len() {
        return false;
    }
    let mut i: usize = 0;
    while i < a.len()
        invariant
            a.len() == b.len(),
            i <= a.len(),
            forall|k: int| 0 <= k < i ==> a@[k] == b@[k],
        decreases a.len() - i,
    {
        if a[i] != b[i] {
            return false;
        }
        i = i + 1;
    }
    assert(a@ =~= b@);
    true
}

/// Equality of two strings by their characters.
pub fn str_eq(a: &str, b: &str) -> (r: bool)
    ensures
        r == (a@ == b@),
{
    let va = chars_of(a);
    let vb = chars_of(b);
    chars_eq(&va, &vb)
}

// ---------------------------------------------------------------------------
// ASCII case
// ---------------------------------------------------------------------------

pub open spec fn is_ascii_upper(c: char) -> bool {
    'A' <= c && c <= 'Z'
}

pub open spec fn is_ascii_lower(c: char) -> bool {
    'a' <= c && c <= 'z'
}

pub open spec fn is_ascii_alpha(c: char) -> bool {
    is_ascii_upper(c) || is_ascii_lower(c)
}

/// `char::to_ascii_lowercase`.
pub open spec fn ascii_lower(c: char) -> char {
    if is_ascii_upper(c) {
        ((c as u32) + 32) as char
    } else {
        c
    }
}

/// `char::to_ascii_uppercase`.
pub open spec fn ascii_upper(c: char) -> char {
    if is_ascii_lower(c) {
        ((c as u32) - 32) as char
    } else {
        c
    }
}

/// `str::to_ascii_lowercase`.
pub open spec fn ascii_lower_seq(s: Seq<char>) -> Seq<char> {
    s.map_values(|c: char| ascii_lower(c))
}

/// `str::to_ascii_uppercase`.
pub open spec fn ascii_upper_seq(s: Seq<char>) -> Seq<char> {
    s.map_values(|c: char| ascii_upper(c))
}

pub fn ascii_lower_char(c: char) -> (r: char)
    ensures
        r == ascii_lower(c),
{
    if 'A' <= c && c <= 'Z' {
        ((c as u8) + 32) as char
    } else {
        c
    }
}

pub fn ascii_upper_char(c: char) -> (r: char)
    ensures
        r == ascii_upper(c),
{
    if 'a' <= c && c <= 'z' {
        ((c as u8) - 32) as char
    } else {
        c
    }
}

pub fn ascii_lower_chars(s: &Vec<char>) -> (out: Vec<char>)
    ensures
        out@ == ascii_lower_seq(s@),
{
    let mut out: Vec<char> = Vec::new();
    let mut i: usize = 0;
    while i < s.len()
        invariant
            i <= s.len(),
            out@ == ascii_lower_seq(s@.take(i as int)),
        decreases s.len() - i,
    {
        let c = ascii_lower_char(s[i]);
        out.push(c);
        assert(ascii_lower_seq(s@.take(i + 1)) =~= ascii_lower_seq(s@.take(i as int)).push(c));
        i = i + 1;
    }
    assert(s@.take(s.len() as int) =~= s@);
    out
}

pub fn ascii_upper_chars(s: &Vec<char>) -> (out: Vec<char>)
    ensures
        out@ == ascii_upper_seq(s@),
{
    let mut out: Vec<char> = Vec::new();
    let mut i: usize = 0;
    while i < s.len()
        invariant
            i <= s.len(),
            out@ == ascii_upper_seq(s@.take(i as int)),
        decreases s.len() - i,
    {
        let c = ascii_upper_char(s[i]);
        out.push(c);
        assert(ascii_upper_seq(s@.take(i + 1)) =~= ascii_upper_seq(s@.take(i as int)).push(c));
        i = i + 1;
    }
    assert(s@.take(s.len() as int) =~= s@);
    out
}

// ---------------------------------------------------------------------------
// Unicode case mapping (std)
// ---------------------------------------------------------------------------

/// What `str::to_lowercase` returns for a string with these characters.
pub uninterp spec fn lowercase_of(s: Seq<char>) -> Seq<char>;

/// What `str::to_uppercase` returns for a string with these characters.
pub uninterp spec fn uppercase_of(s: Seq<char>) -> Seq<char>;

/// `str::to_lowercase`: the Unicode lowercase mapping of the whole string.
/// The contract names the result `lowercase_of(s@)`; the Unicode tables that
/// define it are not restated.
#[verifier::external_body]
pub(crate) fn to_lowercase(s: &str) -> (r: String)
    ensures
        r@ == lowercase_of(s@),
{
    s.to_lowercase()
}

/// `str::to_uppercase`: the Unicode uppercase mapping of the whole string.
/// The contract names the result `uppercase_of(s@)`; the Unicode tables that
/// define it are not restated.
#[verifier::external_body]
pub(crate) fn to_uppercase(s: &str) -> (r: String)
    ensures
        r@ == uppercase_of(s@),
{
    s.to_uppercase()
}

/// Unicode lowercase of a character sequence.
pub fn lower_chars(s: &Vec<char>) -> (out: Vec<char>)
    ensures
        out@ == lowercase_of(s@),
{
    let st = string_of(s);
    let l = to_lowercase(st.as_str());
    chars_of(l.as_str())
}

/// Unicode uppercase of a character sequence.
pub fn upper_chars(s: &Vec<char>) -> (out: Vec<char>)
    ensures
        out@ == uppercase_of(s@),
{
    let st = string_of(s);
    let u = to_uppercase(st.as_str());
    chars_of(u.as_str())
}

// ---------------------------------------------------------------------------
// Prefixes, suffixes and occurrences
// ---------------------------------------------------------------------------

pub open spec fn has_prefix(s: Seq<char>, p: Seq<char>) -> bool {
    p.len() <= s.len() && s.take(p.len() as int) == p
}

pub open spec fn has_suffix(s: Seq<char>, p: Seq<char>) -> bool {
    p.len() <= s.len() && s.skip(s.len() - p.len()) == p
}

/// `q` occurs in `s` starting at index `i`.
pub open spec fn occurs_at(s: Seq<char>, q: Seq<char>, i: int) -> bool {
    0 <= i && i + q.len() <= s.len() && s.subrange(i, i + q.len()) == q
}

/// `str::contains` with a string pattern.
pub open spec fn contains_seq(s: Seq<char>, q: Seq<char>) -> bool {
    exists|i: int| occurs_at(s, q, i)
}

/// The first index at or after `i` where `q` occurs in `s`.
pub open spec fn find_from(s: Seq<char>, q: Seq<char>, i: int) -> Option<int>
    decreases s.len() - i,
{
    if i < 0 || i + q.len() > s.len() {
        None
    } else if occurs_at(s, q, i) {
        Some(i)
    } else if i >= s.len() {
        None
    } else {
        find_from(s, q, i + 1)
    }
}

/// `str::find` with a string pattern, counted in characters.
pub open spec fn find_seq(s: Seq<char>, q: Seq<char>) -> Option<int> {
    find_from(s, q, 0)
}

/// The first index at or after `i` where the character `c` occurs.
pub open spec fn find_char_from(s: Seq<char>, c: char, i: int) -> Option<int>
    decreases s.len() - i,
{
    if i < 0 || i >= s.len() {
        None
    } else if s[i] == c {
        Some(i)
    } else {
        find_char_from(s, c, i + 1)
    }
}

/// The result of `find_from` is the first occurrence at or after `i`.
pub proof fn lemma_find_from(s: Seq<char>, q: Seq<char>, i: int)
    requires
        0 <= i,
    ensures
        find_from(s, q, i) matches Some(k) ==> i <= k && occurs_at(s, q, k) && forall|j: int|
            i <= j < k ==> !occurs_at(s, q, j),
        find_from(s, q, i) is None ==> forall|j: int| i <= j ==> !occurs_at(s, q, j),
    decreases s.len() - i,
{
    if i + q.len() > s.len() {
    } else if occurs_at(s, q, i) {
    } else if i >= s.len() {
        assert(q.len() == 0);
        assert(s.subrange(i, i + q.len()) =~= q);
    } else {
        lemma_find_from(s, q, i + 1);
    }
}

/// `str::find` finds an occurrence exactly when `str::contains` holds.
pub proof fn lemma_find_iff_contains(s: Seq<char>, q: Seq<char>)
    ensures
        find_seq(s, q) is Some <==> contains_seq(s, q),
{
    lemma_find_from(s, q, 0);
    if find_seq(s, q) is Some {
        let k = find_seq(s, q)->0;
        assert(occurs_at(s, q, k));
    }
}

/// Whether `q` occurs in `s` at index `i`.
pub fn occurs_at_exec(s: &Vec<char>, q: &Vec<char>, i: usize) -> (r: bool)
    ensures
        r == occurs_at(s@, q@, i as int),
{
    if i > s.len() || q.len() > s.len() - i {
        return false;
    }
    let mut k: usize = 0;
    while k < q.len()
        invariant
            i + q.len() <= s.len(),
            k <= q.len(),
            forall|j: int| 0 <= j < k ==> s@[i + j] == q@[j],
        decreases q.len() - k,
    {
        if s[i + k] != q[k] {
            assert(s@.subrange(i as int, i + q.len())[k as int] != q@[k as int]);
            return false;
        }
        k = k + 1;
    }
    assert(s@.subrange(i as int, i + q.len()) =~= q@);
    true
}

/// The first occurrence of `q` in `s` at or after `start`.
pub fn find_from_exec(s: &Vec<char>, q: &Vec<char>, start: usize) -> (r: Option<usize>)
    ensures
        r matches Some(k) ==> find_from(s@, q@, start as int) == Some(k as int),
        r is None ==> find_from(s@, q@, start as int) is None,
{
    if q.len() == 0 {
        if start <= s.len() {
            assert(s@.subrange(start as int, start as int) =~= q@);
            return Some(start);
        } else {
            return None;
        }
    }
    let mut i = start;
    while i <= s.len() && q.len() <= s.len() - i
        invariant
            start <= i,
            q.len() > 0,
            find_from(s@, q@, start as int) == find_from(s@, q@, i as int),
        decreases s.len() + 1 - i,
    {
        if occurs_at_exec(s, q, i) {
            return Some(i);
        }
        i = i + 1;
    }
    None
}

/// `str::find` on character sequences.
pub fn find_exec(s: &Vec<char>, q: &Vec<char>) -> (r: Option<usize>)
    ensures
        r matches Some(k) ==> find_seq(s@, q@) == Some(k as int),
        r is None ==> find_seq(s@, q@) is None,
{
    find_from_exec(s, q, 0)
}

/// `str::contains` on character sequences.
pub fn contains_exec(s: &Vec<char>, q: &Vec<char>) -> (r: bool)
    ensures
        r == contains_seq(s@, q@),
{
    proof {
        lemma_find_iff_contains(s@, q@);
    }
    find_exec(s, q).is_some()
}

/// `str::contains` with a string pattern.
pub fn str_contains(s: &str, q: &str) -> (r: bool)
    ensures
        r == contains_seq(s@, q@),
{
    let vs = chars_of(s);
    let vq = chars_of(q);
    contains_exec(&vs, &vq)
}

/// First occurrence of the character `c` at or after `start`.
pub fn find_char_from_exec(s: &Vec<char>, c: char, start: usize) -> (r: Option<usize>)
    ensures
        r matches Some(k) ==> find_char_from(s@, c, start as int) == Some(k as int) && start <= k < s@.len() && s@[k as int] == c,
        r is None ==> find_char_from(s@, c, start as int) is None,
{
    let mut i = start;
    while i < s.len()
        invariant
            start <= i,
            find_char_from(s@, c, start as int) == find_char_from(s@, c, i as int),
        decreases s.len() - i,
    {
        if s[i] == c {
            return Some(i);
        }
        i = i + 1;
    }
    None
}

pub fn has_prefix_exec(s: &Vec<char>, p: &Vec<char>) -> (r: bool)
    ensures
        r == has_prefix(s@, p@),
{
    let r = occurs_at_exec(s, p, 0);
    assert(s@.subrange(0, p@.len() as int) =~= s@.take(p@.len() as int));
    r
}

pub fn has_suffix_exec(s: &Vec<char>, p: &Vec<char>) -> (r: bool)
    ensures
        r == has_suffix(s@, p@),
{
    if p.len() > s.len() {
        return false;
    }
    let r = occurs_at_exec(s, p, s.len() - p.len());
    assert(s@.subrange(s@.len() - p@.len(), s@.len() as int) =~= s@.skip(s@.len() - p@.len()));
    r
}

/// `str::starts_with` with a string pattern.
pub fn str_starts_with(s: &str, p: &str) -> (r: bool)
    ensures
        r == has_prefix(s@, p@),
{
    let vs = chars_of(s);
    let vp = chars_of(p);
    has_prefix_exec(&vs, &vp)
}

/// The subsequence `s[from..to]`.
pub fn slice_chars(s: &Vec<char>, from: usize, to: usize) -> (out: Vec<char>)
    requires
        from <= to <= s.len(),
    ensures
        out@ == s@.subrange(from as int, to as int),
{
    let mut out: Vec<char> = Vec::new();
    let mut i = from;
    while i < to
        invariant
            from <= i <= to <= s.len(),
            out@ == s@.subrange(from as int, i as int),
        decreases to - i,
    {
        out.push(s[i]);
        assert(s@.subrange(from as int, i + 1) =~= s@.subrange(from as int, i as int).push(
            s@[i as int],
        ));
        i = i + 1;
    }
    out
}

// ---------------------------------------------------------------------------
// Whitespace and trimming
// ---------------------------------------------------------------------------

/// `char::is_whitespace`: the Unicode `White_Space` property.
pub open spec fn is_whitespace(c: char) -> bool {
    ||| ('\u{9}' <= c && c <= '\u{d}')
    ||| c == ' '
    ||| c == '\u{85}'
    ||| c == '\u{a0}'
    ||| c == '\u{1680}'
    ||| ('\u{2000}' <= c && c <= '\u{200a}')
    ||| c == '\u{2028}'
    ||| c == '\u{2029}'
    ||| c == '\u{202f}'
    ||| c == '\u{205f}'
    ||| c == '\u{3000}'
}

pub fn is_whitespace_exec(c: char) -> (r: bool)
    ensures
        r == is_whitespace(c),
{
    ('\u{9}' <= c && c <= '\u{d}') || c == ' ' || c == '\u{85}' || c == '\u{a0}' || c
        == '\u{1680}' || ('\u{2000}' <= c && c <= '\u{200a}') || c == '\u{2028}' || c
        == '\u{2029}' || c == '\u{202f}' || c == '\u{205f}' || c == '\u{3000}'
}

/// `str::trim_start`.
pub open spec fn trim_start_seq(s: Seq<char>) -> Seq<char>
    decreases s.len(),
{
    if s.len() > 0 && is_whitespace(s[0]) {
        trim_start_seq(s.drop_first())
    } else {
        s
    }
}

/// `str::trim_end`.
pub open spec fn trim_end_seq(s: Seq<char>) -> Seq<char>
    decreases s.len(),
{
    if s.len() > 0 && is_whitespace(s.last()) {
        trim_end_seq(s.drop_last())
    } else {
        s
    }
}

/// `str::trim`.
pub open spec fn trim_seq(s: Seq<char>) -> Seq<char> {
    trim_end_seq(trim_start_seq(s))
}

pub fn trim_start_chars(s: &Vec<char>) -> (out: Vec<char>)
    ensures
        out@ == trim_start_seq(s@),
{
    let mut i: usize = 0;
    assert(s@.skip(0) =~= s@);
    while i < s.len() && is_whitespace_exec(s[i])
        invariant
            i <= s.len(),
            trim_start_seq(s@) == trim_start_seq(s@.skip(i as int)),
        decreases s.len() - i,
    {
        assert(s@.skip(i as int).drop_first() =~= s@.skip(i + 1));
        i = i + 1;
    }
    slice_chars(s, i, s.len())
}

pub fn trim_end_chars(s: &Vec<char>) -> (out: Vec<char>)
    ensures
        out@ == trim_end_seq(s@),
{
    let mut j: usize = s.len();
    assert(s@.take(s@.len() as int) =~= s@);
    while j > 0 && is_whitespace_exec(s[j - 1])
        invariant
            j <= s.len(),
            trim_end_seq(s@) == trim_end_seq(s@.take(j as int)),
        decreases j,
    {
        assert(s@.take(j as int).drop_last() =~= s@.take(j - 1));
        j = j - 1;
    }
    let out = slice_chars(s, 0, j);
    assert(s@.subrange(0, j as int) =~= s@.take(j as int));
    out
}

pub fn trim_chars(s: &Vec<char>) -> (out: Vec<char>)
    ensures
        out@ == trim_seq(s@),
{
    let a = trim_start_chars(s);
    trim_end_chars(&a)
}

/// `str::trim` on a string slice.
pub fn trim_str(s: &str) -> (out: Vec<char>)
    ensures
        out@ == trim_seq(s@),
{
    let v = chars_of(s);
    trim_chars(&v)
}

/// Strips every leading and trailing occurrence of `c` (`str::trim_matches`
/// with a character pattern).
pub open spec fn trim_matches_seq(s: Seq<char>, c: char) -> Seq<char> {
    trim_end_matches_seq(trim_start_matches_seq(s, c), c)
}

pub open spec fn trim_start_matches_seq(s: Seq<char>, c: char) -> Seq<char>
    decreases s.len(),
{
    if s.len() > 0 && s[0] == c {
        trim_start_matches_seq(s.drop_first(), c)
    } else {
        s
    }
}

pub open spec fn trim_end_matches_seq(s: Seq<char>, c: char) -> Seq<char>
    decreases s.len(),
{
    if s.len() > 0 && s.last() == c {
        trim_end_matches_seq(s.drop_last(), c)
    } else {
        s
    }
}

pub fn trim_start_matches_chars(s: &Vec<char>, c: char) -> (out: Vec<char>)
    ensures
        out@ == trim_start_matches_seq(s@, c),
{
    let mut i: usize = 0;
    assert(s@.skip(0) =~= s@);
    while i < s.len() && s[i] == c
        invariant
            i <= s.len(),
            trim_start_matches_seq(s@, c) == trim_start_matches_seq(s@.skip(i as int), c),
        decreases s.len() - i,
    {
        assert(s@.skip(i as int).drop_first() =~= s@.skip(i + 1));
        i = i + 1;
    }
    slice_chars(s, i, s.len())
}

pub fn trim_matches_chars(s: &Vec<char>, c: char) -> (out: Vec<char>)
    ensures
        out@ == trim_matches_seq(s@, c),
{
    let a = trim_start_matches_chars(s, c);
    let mut j: usize = a.len();
    assert(a@.take(a@.len() as int) =~= a@);
    while j > 0 && a[j - 1] == c
        invariant
            j <= a.len(),
            trim_end_matches_seq(a@, c) == trim_end_matches_seq(a@.take(j as int), c),
        decreases j,
    {
        assert(a@.take(j as int).drop_last() =~= a@.take(j - 1));
        j = j - 1;
    }
    let out = slice_chars(&a, 0, j);
    assert(a@.subrange(0, j as int) =~= a@.take(j as int));
    out
}

// ---------------------------------------------------------------------------
// Splitting and joining
// ---------------------------------------------------------------------------

/// `str::split` with a character separator: the pieces between separators,
/// always at least one.
pub open spec fn split_char_seq(s: Seq<char>, d: char) -> Seq<Seq<char>>
    decreases s.len(),
{
    if s.len() == 0 {
        seq![Seq::<char>::empty()]
    } else {
        let prev = split_char_seq(s.drop_last(), d);
        if s.last() == d {
            prev.push(Seq::<char>::empty())
        } else {
            prev.update(prev.len() - 1, prev.last().push(s.last()))
        }
    }
}

pub proof fn lemma_split_nonempty(s: Seq<char>, d: char)
    ensures
        split_char_seq(s, d).len() >= 1,
    decreases s.len(),
{
    if s.len() > 0 {
        lemma_split_nonempty(s.drop_last(), d);
    }
}

/// The views of a vector of character vectors.
pub open spec fn views(v: Seq<Vec<char>>) -> Seq<Seq<char>> {
    v.map_values(|x: Vec<char>| x@)
}

/// The views of a vector of strings.
pub open spec fn string_views(v: Seq<String>) -> Seq<Seq<char>> {
    v.map_values(|x: String| x@)
}

/// `str::split` with a character separator.
pub fn split_char(s: &Vec<char>, d: char) -> (out: Vec<Vec<char>>)
    ensures
        views(out@) == split_char_seq(s@, d),
{
    let mut out: Vec<Vec<char>> = Vec::new();
    let mut cur: Vec<char> = Vec::new();
    let mut i: usize = 0;
    proof {
        assert(s@.take(0).len() == 0);
    }
    while i < s.len()
        invariant
            i <= s.len(),
            views(out@).push(cur@) == split_char_seq(s@.take(i as int), d),
        decreases s.len() - i,
    {
        let ghost before = split_char_seq(s@.take(i as int), d);
        assert(s@.take(i + 1).drop_last() =~= s@.take(i as int));
        assert(s@.take(i + 1).last() == s@[i as int]);
        if s[i] == d {
            let finished = cur;
            out.push(finished);
            cur = Vec::new();
            assert(views(out@) =~= before);
            assert(views(out@).push(cur@) =~= before.push(Seq::<char>::empty()));
        } else {
            let ghost old_out = views(out@);
            cur.push(s[i]);
            assert(views(out@).push(cur@) =~= before.update(
                before.len() - 1,
                before.last().push(s@[i as int]),
            ));
        }
        i = i + 1;
    }
    assert(s@.take(s.len() as int) =~= s@);
    out.push(cur);
    out
}

/// Copies of the first `n` character sequences.
pub fn copy_prefix(v: &Vec<Vec<char>>, n: usize) -> (out: Vec<Vec<char>>)
    requires
        n <= v@.len(),
    ensures
        views(out@) == views(v@).take(n as int),
{
    let mut out: Vec<Vec<char>> = Vec::new();
    let mut i: usize = 0;
    while i < n
        invariant
            i <= n,
            n <= v@.len(),
            out@.len() == i,
            forall|k: int| 0 <= k < i ==> #[trigger] out@[k]@ == v@[k]@,
        decreases n - i,
    {
        out.push(copy_chars(&v[i]));
        i = i + 1;
    }
    assert(views(out@) =~= views(v@).take(n as int));
    out
}

/// The pieces joined with `sep` between consecutive pieces (`[T]::join`).
pub open spec fn join_seq(parts: Seq<Seq<char>>, sep: Seq<char>) -> Seq<char>
    decreases parts.len(),
{
    if parts.len() == 0 {
        Seq::<char>::empty()
    } else if parts.len() == 1 {
        parts[0]
    } else {
        join_seq(parts.drop_last(), sep) + sep + parts.last()
    }
}

/// Joins character sequences with a separator.
pub fn join_chars(parts: &Vec<Vec<char>>, sep: &Vec<char>) -> (out: Vec<char>)
    ensures
        out@ == join_seq(views(parts@), sep@),
{
    let mut out: Vec<char> = Vec::new();
    let mut i: usize = 0;
    while i < parts.len()
        invariant
            i <= parts.len(),
            out@ == join_seq(views(parts@).take(i as int), sep@),
        decreases parts.len() - i,
    {
        let ghost prev = out@;
        assert(views(parts@).take(i + 1).drop_last() =~= views(parts@).take(i as int));
        if i > 0 {
            append_chars(&mut out, sep);
        }
        append_chars(&mut out, &parts[i]);
        proof {
            if i == 0 {
                assert(out@ =~= views(parts@).take(1)[0]);
            }
        }
        i = i + 1;
    }
    assert(views(parts@).take(parts.len() as int) =~= views(parts@));
    out
}

/// `str::lines`: split at `\n`, drop a `\r` that ends a terminated line, and
/// drop the empty piece after a final line ending.
pub open spec fn lines_seq(s: Seq<char>) -> Seq<Seq<char>> {
    let parts = split_char_seq(s, '\n');
    let n = parts.len();
    parts.take(n - 1).map_values(|p: Seq<char>| strip_cr(p)) + if parts[n - 1].len() > 0 {
        seq![parts[n - 1]]
    } else {
        Seq::<Seq<char>>::empty()
    }
}

pub open spec fn strip_cr(p: Seq<char>) -> Seq<char> {
    if p.len() > 0 && p.last() == '\r' {
        p.drop_last()
    } else {
        p
    }
}

/// `str::lines` on a string slice.
pub fn lines_of(s: &str) -> (out: Vec<Vec<char>>)
    ensures
        views(out@) == lines_seq(s@),
{
    let cs = chars_of(s);
    let parts = split_char(&cs, '\n');
    proof {
        lemma_split_nonempty(s@, '\n');
    }
    let n = parts.len();
    let mut out: Vec<Vec<char>> = Vec::new();
    let mut i: usize = 0;
    while i + 1 < n
        invariant
            n == parts.len(),
            n >= 1,
            i + 1 <= n,
            views(parts@) == split_char_seq(s@, '\n'),
            views(out@) == views(parts@).take(i as int).map_values(|p: Seq<char>| strip_cr(p)),
        decreases n - i,
    {
        let p = &parts[i];
        let piece = if p.len() > 0 && p[p.len() - 1] == '\r' {
            slice_chars(p, 0, p.len() - 1)
        } else {
            copy_chars(p)
        };
        proof {
            if p@.len() > 0 && p@.last() == '\r' {
                assert(p@.subrange(0, p@.len() - 1) =~= p@.drop_last());
            }
        }
        out.push(piece);
        assert(views(parts@).take(i + 1).map_values(|p: Seq<char>| strip_cr(p)) =~= views(
            parts@,
        ).take(i as int).map_values(|p: Seq<char>| strip_cr(p)).push(strip_cr(parts@[i as int]@)));
        assert(views(out@) =~= views(parts@).take(i + 1).map_values(|p: Seq<char>| strip_cr(p)));
        i = i + 1;
    }
    let last = &parts[n - 1];
    if last.len() > 0 {
        let piece = copy_chars(last);
        out.push(piece);
    }
    assert(views(out@) =~= lines_seq(s@));
    out
}

// ---------------------------------------------------------------------------
// Decimal numbers
// ---------------------------------------------------------------------------

pub open spec fn digit_char(d: nat) -> char {
    ((d % 10) + 48) as char
}

/// The decimal digits of `n`, most significant first, without leading zeros
/// (`"0"` for zero).
pub open spec fn decimal(n: nat) -> Seq<char>
    decreases n,
{
    if n < 10 {
        seq![digit_char(n)]
    } else {
        decimal(n / 10).push(digit_char(n % 10))
    }
}

/// The `Display` text of a signed integer.
pub open spec fn decimal_int(i: int) -> Seq<char> {
    if i < 0 {
        seq!['-'] + decimal((-i) as nat)
    } else {
        decimal(i as nat)
    }
}

/// The `Display` text of an unsigned integer.
pub fn u64_text(n: u64) -> (out: Vec<char>)
    ensures
        out@ == decimal(n as nat),
    decreases n,
{
    if n < 10 {
        let mut v: Vec<char> = Vec::new();
        v.push(((n as u8) + 48) as char);
        v
    } else {
        let mut v = u64_text(n / 10);
        let d = ((n % 10) as u8 + 48) as char;
        v.push(d);
        v
    }
}

/// The `Display` text of a signed integer.
pub fn i64_text(n: i64) -> (out: Vec<char>)
    ensures
        out@ == decimal_int(n as int),
{
    if n < 0 {
        let m: u64 = if n == i64::MIN {
            9223372036854775808u64
        } else {
            (-n) as u64
        };
        let mut v: Vec<char> = Vec::new();
        v.push('-');
        let digits = u64_text(m);
        append_chars(&mut v, &digits);
        v
    } else {
        u64_text(n as u64)
    }
}

} // verus!

verus! {

/// Whether the characters of `v` are exactly those of `s`.
pub fn eq_lit(v: &Vec<char>, s: &str) -> (r: bool)
    ensures
        r == (v@ == s@),
{
    let w = chars_of(s);
    chars_eq(v, &w)
}

/// Whether an optional character sequence is present and equal to `s`.
pub fn opt_eq_lit(v: &Option<Vec<char>>, s: &str) -> (r: bool)
    ensures
        r == (v matches Some(x) && x@ == s@),
{
    match v {
        Some(x) => eq_lit(x, s),
        None => false,
    }
}

/// Whether an optional string is present and equal to `s`.
pub fn opt_string_eq_lit(v: &Option<String>, s: &str) -> (r: bool)
    ensures
        r == (v matches Some(x) && x@ == s@),
{
    match v {
        Some(x) => str_eq(x.as_str(), s),
        None => false,
    }
}

} // verus!
