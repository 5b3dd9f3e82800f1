//! What is dragged and dropped between the panes: collections onto
//! collections, images onto collections, tags onto the collection list and
//! files onto the queue.
use vstd::prelude::*;
use crate::text::{
    chars_of, contains_exec, contains_seq, copy_chars, decimal, has_prefix, has_prefix_exec, i64_text, decimal_int, lines_of,
    lines_seq, lit, push_str, slice_chars, string_of, trim_chars, trim_seq, views,
};

verus! {

// ---------------------------------------------------------------------------
// Whole numbers written in text
// ---------------------------------------------------------------------------

/// Whether every character is an ASCII digit.
pub open spec fn all_digits(ds: Seq<char>) -> bool {
    forall|i: int| 0 <= i < ds.len() ==> '0' <= #[trigger] ds[i] <= '9'
}

/// The number the digits write.
pub open spec fn digits_value(ds: Seq<char>) -> int
    decreases ds.len(),
{
    if ds.len() == 0 {
        0
    } else {
        10 * digits_value(ds.drop_last()) + (ds.last() as int - '0' as int)
    }
}

/// `str::parse::<i64>`: an optional `+` or `-`, then one or more ASCII
/// digits, for a value that fits.
pub open spec fn parse_i64_spec(s: Seq<char>) -> Option<i64> {
    let neg = s.len() > 0 && s[0] == '-';
    let ds = if s.len() > 0 && (s[0] == '+' || s[0] == '-') {
        s.skip(1)
    } else {
        s
    };
    if ds.len() == 0 || !all_digits(ds) {
        None
    } else {
        let v = if neg {
            -digits_value(ds)
        } else {
            digits_value(ds)
        };
        if i64::MIN <= v <= i64::MAX {
            Some(v as i64)
        } else {
            None
        }
    }
}

proof fn lemma_digits_grow(ds: Seq<char>, k: int)
    requires
        all_digits(ds),
        0 <= k <= ds.len(),
    ensures
        digits_value(ds.take(k)) <= digits_value(ds),
        0 <= digits_value(ds.take(k)),
    decreases ds.len() - k,
{
    if k < ds.len() {
        lemma_digits_grow(ds, k + 1);
        assert(ds.take(k + 1).drop_last() =~= ds.take(k));
        assert(ds.take(k + 1).last() == ds[k]);
    } else {
        assert(ds.take(k) =~= ds);
        lemma_digits_nonneg(ds);
    }
}

proof fn lemma_digits_nonneg(ds: Seq<char>)
    requires
        all_digits(ds),
    ensures
        0 <= digits_value(ds),
    decreases ds.len(),
{
    if ds.len() > 0 {
        lemma_digits_nonneg(ds.drop_last());
    }
}

/// A whole number written in text, as `str::parse::<i64>` reads it.
pub fn parse_i64(s: &Vec<char>) -> (r: Option<i64>)
    ensures
        r == parse_i64_spec(s@),
{
    let n = s.len();
    let neg = n > 0 && s[0] == '-';
    let start: usize = if n > 0 && (s[0] == '+' || s[0] == '-') {
        1
    } else {
        0
    };
    let ghost ds = if s@.len() > 0 && (s@[0] == '+' || s@[0] == '-') {
        s@.skip(1)
    } else {
        s@
    };
    assert(ds =~= s@.skip(start as int));
    if start >= n {
        return None;
    }
    let limit: u64 = 9223372036854775808;
    let mut acc: u64 = 0;
    let mut i: usize = start;
    while i < n
        invariant
            start <= i <= n,
            n == s@.len(),
            ds =~= s@.skip(start as int),
            ds == (if s@.len() > 0 && (s@[0] == '+' || s@[0] == '-') {
                s@.skip(1)
            } else {
                s@
            }),
            neg == (s@.len() > 0 && s@[0] == '-'),
            limit == 9223372036854775808,
            acc <= limit,
            all_digits(ds.take(i - start)),
            acc == digits_value(ds.take(i - start)),
        decreases n - i,
    {
        let c = s[i];
        if c < '0' || c > '9' {
            assert(ds[i - start] == c);
            return None;
        }
        let d = (c as u32 - '0' as u32) as u64;
        assert(ds.take(i - start + 1).drop_last() =~= ds.take(i - start));
        assert(ds.take(i - start + 1).last() == c);
        if acc > (limit - d) / 10 {
            proof {
                assert(10 * acc + d > limit);
                assert(digits_value(ds.take(i - start + 1)) == 10 * acc + d);
                if all_digits(ds) {
                    lemma_digits_grow(ds, i + 1 - start);
                }
            }
            return None;
        }
        acc = 10 * acc + d;
        i = i + 1;
    }
    assert(ds.take(n - start) =~= ds);
    if neg {
        Some((0 - (acc as i128)) as i64)
    } else if acc <= 9223372036854775807 {
        Some(acc as i64)
    } else {
        None
    }
}

// ---------------------------------------------------------------------------
// Drops onto a collection
// ---------------------------------------------------------------------------

/// The drag payload of a collection row.
pub open spec fn collection_payload_spec(id: i64) -> Seq<char> {
    "collection:"@ + decimal_int(id as int)
}

/// The drag payload of a collection row.
pub fn collection_drag_payload(id: i64) -> (r: String)
    ensures
        r@ == collection_payload_spec(id),
{
    let mut v = lit("collection:");
    crate::text::append_chars(&mut v, &i64_text(id));
    string_of(&v)
}

/// What a text dropped onto a collection asks for.
#[derive(Debug)]
pub enum CollectionDrop {
    /// Make the dragged collection a child of the target.
    Reparent { source_id: i64 },
    /// Add these images to the target.
    AddPaths(Vec<String>),
    /// Refuse the drop.
    Refuse,
}

/// The nonempty lines of a text.
pub open spec fn nonempty_lines(text: Seq<char>) -> Seq<Seq<char>> {
    lines_seq(text).filter(|l: Seq<char>| l.len() > 0)
}

/// What a text dropped onto the collection `target` asks for: a collection
/// payload reparents that collection (refused onto itself); otherwise each
/// nonempty line is an image path, and no line refuses the drop.
pub open spec fn collection_drop_spec(text: Seq<char>, target: i64) -> (bool, Option<i64>, Seq<Seq<char>>) {
    let id = if has_prefix(text, "collection:"@) {
        parse_i64_spec(text.skip(11))
    } else {
        None
    };
    match id {
        Some(source) => if source == target {
            (false, None, Seq::empty())
        } else {
            (true, Some(source), Seq::empty())
        },
        None => (nonempty_lines(text).len() > 0, None, nonempty_lines(text)),
    }
}

/// What a text dropped onto the collection `target` asks for.
pub fn collection_drop(text: &str, target: i64) -> (r: CollectionDrop)
    ensures
        match r {
            CollectionDrop::Reparent { source_id } => collection_drop_spec(text@, target) == (true, Some(source_id), Seq::<Seq<char>>::empty()),
            CollectionDrop::AddPaths(paths) => collection_drop_spec(text@, target) == (true, None::<i64>, crate::text::string_views(paths@)),
            CollectionDrop::Refuse => !collection_drop_spec(text@, target).0,
        },
{
    let t = chars_of(text);
    let prefix = lit("collection:");
    proof {
        reveal_strlit("collection:");
    }
    let id = if has_prefix_exec(&t, &prefix) {
        let rest = slice_chars(&t, 11, t.len());
        assert(rest@ =~= t@.skip(11));
        parse_i64(&rest)
    } else {
        None
    };
    match id {
        Some(source) => {
            if source == target {
                CollectionDrop::Refuse
            } else {
                CollectionDrop::Reparent { source_id: source }
            }
        },
        None => {
            let lines = lines_of(text);
            let ghost lv = views(lines@);
            let mut out: Vec<String> = Vec::new();
            let mut i: usize = 0;
            while i < lines.len()
                invariant
                    i <= lines@.len(),
                    lv == views(lines@),
                    crate::text::string_views(out@) == lv.take(i as int).filter(|l: Seq<char>| l.len() > 0),
                decreases lines@.len() - i,
            {
                proof {
                    crate::sort::lemma_filter_take_step(lv, |l: Seq<char>| l.len() > 0, i as int);
                }
                if lines[i].len() > 0 {
                    out.push(string_of(&lines[i]));
                    assert(crate::text::string_views(out@) =~= lv.take(i as int).filter(|l: Seq<char>| l.len() > 0).push(lv[i as int]));
                }
                i = i + 1;
            }
            assert(lv.take(lines@.len() as int) =~= lv);
            if out.len() == 0 {
                CollectionDrop::Refuse
            } else {
                CollectionDrop::AddPaths(out)
            }
        },
    }
}

/// The tag a text dropped onto the collection list promotes to a collection.
pub fn tag_drop(text: &str) -> (r: Option<String>)
    ensures
        match r {
            Some(tag) => has_prefix(text@, "tag:"@) && tag@ == text@.skip(4),
            None => !has_prefix(text@, "tag:"@),
        },
{
    let t = chars_of(text);
    proof {
        reveal_strlit("tag:");
    }
    if has_prefix_exec(&t, &lit("tag:")) {
        let rest = slice_chars(&t, 4, t.len());
        assert(rest@ =~= t@.skip(4));
        Some(string_of(&rest))
    } else {
        None
    }
}

// ---------------------------------------------------------------------------
// Files dropped onto the queue
// ---------------------------------------------------------------------------

/// One entry of a dropped URI list.
#[derive(Debug)]
pub enum DroppedEntry {
    /// An address with a scheme, to be resolved to a local path.
    Uri(String),
    /// A plain path.
    Path(String),
}

/// Whether a trimmed line of a URI list names something: not blank and not
/// a `#` comment.
pub open spec fn names_entry(l: Seq<char>) -> bool {
    l.len() > 0 && l[0] != '#'
}

/// The entries of a dropped URI list: each line trimmed, blank lines and
/// comments skipped; lines with `://` are addresses, the rest paths.
pub open spec fn uri_entries_spec(text: Seq<char>) -> Seq<(bool, Seq<char>)> {
    lines_seq(text).map_values(|l: Seq<char>| trim_seq(l)).filter(|l: Seq<char>| names_entry(l)).map_values(
        |l: Seq<char>| (contains_seq(l, "://"@), l),
    )
}

/// The entries of a dropped URI list.
pub fn uri_list_entries(text: &str) -> (r: Vec<DroppedEntry>)
    ensures
        r@.map_values(|e: DroppedEntry| match e {
            DroppedEntry::Uri(u) => (true, u@),
            DroppedEntry::Path(p) => (false, p@),
        }) == uri_entries_spec(text@),
{
    let lines = lines_of(text);
    let ghost trimmed = views(lines@).map_values(|l: Seq<char>| trim_seq(l));
    let ghost kept = trimmed.filter(|l: Seq<char>| names_entry(l));
    let sep = lit("://");
    let mut out: Vec<DroppedEntry> = Vec::new();
    let mut i: usize = 0;
    while i < lines.len()
        invariant
            i <= lines@.len(),
            trimmed == views(lines@).map_values(|l: Seq<char>| trim_seq(l)),
            sep@ == "://"@,
            out@.map_values(|e: DroppedEntry| match e {
                DroppedEntry::Uri(u) => (true, u@),
                DroppedEntry::Path(p) => (false, p@),
            }) == trimmed.take(i as int).filter(|l: Seq<char>| names_entry(l)).map_values(
                |l: Seq<char>| (contains_seq(l, "://"@), l),
            ),
        decreases lines@.len() - i,
    {
        let t = trim_chars(&lines[i]);
        assert(t@ == trimmed[i as int]);
        proof {
            crate::sort::lemma_filter_take_step(trimmed, |l: Seq<char>| names_entry(l), i as int);
        }
        let ghost before = out@;
        if t.len() > 0 && t[0] != '#' {
            let is_uri = contains_exec(&t, &sep);
            if is_uri {
                out.push(DroppedEntry::Uri(string_of(&t)));
            } else {
                out.push(DroppedEntry::Path(string_of(&t)));
            }
            proof {
                let f = |e: DroppedEntry| match e {
                    DroppedEntry::Uri(u) => (true, u@),
                    DroppedEntry::Path(p) => (false, p@),
                };
                let g = |l: Seq<char>| (contains_seq(l, "://"@), l);
                assert(out@.map_values(f) =~= before.map_values(f).push((is_uri, t@)));
                let kept_i = trimmed.take(i as int).filter(|l: Seq<char>| names_entry(l));
                assert(kept_i.push(t@).map_values(g) =~= kept_i.map_values(g).push((contains_seq(t@, "://"@), t@)));
            }
        }
        i = i + 1;
    }
    assert(trimmed.take(lines@.len() as int) =~= trimmed);
    assert(trimmed =~= lines_seq(text@).map_values(|l: Seq<char>| trim_seq(l)));
    out
}

// ---------------------------------------------------------------------------
// What a drop gives back of a drag
// ---------------------------------------------------------------------------

/// The decimal text of a number is digits only, nonempty, and reads back
/// as the number.
pub proof fn lemma_decimal_digits(n: nat)
    ensures
        decimal(n).len() > 0,
        all_digits(decimal(n)),
        digits_value(decimal(n)) == n,
    decreases n,
{
    assert('0' as int == 48);
    if n < 10 {
        let d = decimal(n);
        assert(d.drop_last() =~= Seq::<char>::empty());
        assert(digits_value(Seq::<char>::empty()) == 0);
        assert(d.last() as int == n + 48);
    } else {
        lemma_decimal_digits(n / 10);
        let d = decimal(n);
        assert(d.drop_last() =~= decimal(n / 10));
        assert(d.last() as int == n % 10 + 48);
        assert forall|i: int| 0 <= i < d.len() implies '0' <= #[trigger] d[i] <= '9' by {
            if i < d.len() - 1 {
                assert(d[i] == decimal(n / 10)[i]);
            }
        }
    }
}

/// Reading back the text of a whole number gives the number.
pub proof fn lemma_parse_printed_i64(id: i64)
    ensures
        parse_i64_spec(decimal_int(id as int)) == Some(id),
{
    if id < 0 {
        lemma_decimal_digits((-id) as nat);
        let s = decimal_int(id as int);
        assert(s.skip(1) =~= decimal((-id) as nat));
    } else {
        lemma_decimal_digits(id as nat);
        let s = decimal(id as nat);
        assert('0' <= s[0] <= '9');
    }
}

/// Dropping a dragged collection row onto another collection asks to make
/// it that collection's child; onto itself, the drop is refused.
pub proof fn lemma_collection_drag_then_drop(id: i64, target: i64)
    ensures
        collection_drop_spec(collection_payload_spec(id), target) == if id == target {
            (false, None::<i64>, Seq::<Seq<char>>::empty())
        } else {
            (true, Some(id), Seq::<Seq<char>>::empty())
        },
{
    reveal_strlit("collection:");
    let text = collection_payload_spec(id);
    assert(text.take(11) =~= "collection:"@);
    assert(text.skip(11) =~= decimal_int(id as int));
    lemma_parse_printed_i64(id);
}

/// Whether a character occurs in a sequence.
pub open spec fn has_char(s: Seq<char>, c: char) -> bool {
    exists|i: int| 0 <= i < s.len() && s[i] == c
}

proof fn lemma_split_single(p: Seq<char>, d: char)
    requires
        !has_char(p, d),
    ensures
        crate::text::split_char_seq(p, d) == seq![p],
    decreases p.len(),
{
    if p.len() > 0 {
        assert(!has_char(p.drop_last(), d)) by {
            if has_char(p.drop_last(), d) {
                let i = choose|i: int| 0 <= i < p.drop_last().len() && p.drop_last()[i] == d;
                assert(p[i] == d);
            }
        }
        lemma_split_single(p.drop_last(), d);
        assert(p.last() != d) by {
            assert(p[p.len() - 1] == p.last());
        }
        assert(p.drop_last().push(p.last()) =~= p);
        assert(seq![p.drop_last()].update(0, p.drop_last().push(p.last())) =~= seq![p]);
    } else {
        assert(p =~= Seq::<char>::empty());
    }
}

proof fn lemma_split_append(s: Seq<char>, p: Seq<char>, d: char)
    requires
        !has_char(p, d),
    ensures
        crate::text::split_char_seq(s + seq![d] + p, d) == crate::text::split_char_seq(s, d).push(p),
    decreases p.len(),
{
    let t = s + seq![d] + p;
    if p.len() == 0 {
        assert(p =~= Seq::<char>::empty());
        assert(t.drop_last() =~= s);
        assert(t.last() == d);
    } else {
        assert(!has_char(p.drop_last(), d)) by {
            if has_char(p.drop_last(), d) {
                let i = choose|i: int| 0 <= i < p.drop_last().len() && p.drop_last()[i] == d;
                assert(p[i] == d);
            }
        }
        lemma_split_append(s, p.drop_last(), d);
        assert(t.drop_last() =~= s + seq![d] + p.drop_last());
        assert(t.last() == p.last());
        assert(p.last() != d) by {
            assert(p[p.len() - 1] == p.last());
        }
        let prev = crate::text::split_char_seq(s, d).push(p.drop_last());
        assert(p.drop_last().push(p.last()) =~= p);
        assert(prev.last() == p.drop_last());
        assert(prev.update(prev.len() - 1, prev.last().push(p.last())) =~= crate::text::split_char_seq(s, d).push(p));
    }
}

proof fn lemma_split_join(ps: Seq<Seq<char>>, d: char)
    requires
        ps.len() >= 1,
        forall|i: int| 0 <= i < ps.len() ==> !has_char(#[trigger] ps[i], d),
    ensures
        crate::text::split_char_seq(crate::text::join_seq(ps, seq![d]), d) == ps,
    decreases ps.len(),
{
    if ps.len() == 1 {
        lemma_split_single(ps[0], d);
        assert(seq![ps[0]] =~= ps);
    } else {
        let front = ps.drop_last();
        assert forall|i: int| 0 <= i < front.len() implies !has_char(#[trigger] front[i], d) by {
            assert(front[i] == ps[i]);
        }
        lemma_split_join(front, d);
        assert(!has_char(ps.last(), d)) by {
            assert(ps[ps.len() - 1] == ps.last());
        }
        lemma_split_append(crate::text::join_seq(front, seq![d]), ps.last(), d);
        assert(front.push(ps.last()) =~= ps);
    }
}

proof fn lemma_join_starts_with_first(ps: Seq<Seq<char>>, d: char)
    requires
        ps.len() >= 1,
    ensures
        crate::text::join_seq(ps, seq![d]).len() >= ps[0].len(),
        crate::text::join_seq(ps, seq![d]).take(ps[0].len() as int) == ps[0],
        ps.len() >= 2 ==> crate::text::join_seq(ps, seq![d]).len() > ps[0].len()
            && crate::text::join_seq(ps, seq![d])[ps[0].len() as int] == d,
    decreases ps.len(),
{
    if ps.len() >= 2 {
        let front = ps.drop_last();
        lemma_join_starts_with_first(front, d);
        assert(front[0] == ps[0]);
        let j = crate::text::join_seq(front, seq![d]);
        let all = j + seq![d] + ps.last();
        assert(all.take(ps[0].len() as int) =~= j.take(ps[0].len() as int));
        if front.len() >= 2 {
            assert(all[ps[0].len() as int] == j[ps[0].len() as int]);
        } else {
            assert(j =~= front[0]);
            assert(all[ps[0].len() as int] == d);
        }
    } else {
        assert(crate::text::join_seq(ps, seq![d]) =~= ps[0]);
        assert(ps[0].take(ps[0].len() as int) =~= ps[0]);
    }
}

proof fn lemma_filter_nonempty_keeps(ps: Seq<Seq<char>>)
    requires
        forall|i: int| 0 <= i < ps.len() ==> (#[trigger] ps[i]).len() > 0,
    ensures
        ps.filter(|l: Seq<char>| l.len() > 0) == ps,
    decreases ps.len(),
{
    reveal(Seq::filter);
    if ps.len() > 0 {
        let front = ps.drop_last();
        assert forall|i: int| 0 <= i < front.len() implies (#[trigger] front[i]).len() > 0 by {
            assert(front[i] == ps[i]);
        }
        lemma_filter_nonempty_keeps(front);
        assert(ps.last().len() > 0) by {
            assert(ps[ps.len() - 1] == ps.last());
        }
        assert(front.push(ps.last()) =~= ps);
    } else {
        assert(ps.filter(|l: Seq<char>| l.len() > 0) =~= ps);
    }
}

/// Dropping images dragged from the filmstrip onto a collection adds
/// exactly the dragged images. This holds for paths that are nonempty, hold
/// no line break, do not end in a carriage return, and when the first does
/// not start as a collection payload does.
pub proof fn lemma_paths_drag_then_drop(paths: Seq<Seq<char>>, target: i64)
    requires
        paths.len() >= 1,
        forall|i: int|
            0 <= i < paths.len() ==> (#[trigger] paths[i]).len() > 0 && !has_char(paths[i], '\n') && paths[i].last() != '\r',
        !has_prefix(paths[0], "collection:"@),
    ensures
        collection_drop_spec(crate::text::join_seq(paths, seq!['\n']), target) == (true, None::<i64>, paths),
{
    reveal_strlit("collection:");
    let text = crate::text::join_seq(paths, seq!['\n']);
    lemma_split_join(paths, '\n');
    let parts = crate::text::split_char_seq(text, '\n');
    let n = parts.len();
    assert(parts.take(n - 1).map_values(|p: Seq<char>| crate::text::strip_cr(p)) =~= paths.take(n - 1)) by {
        assert forall|i: int| 0 <= i < n - 1 implies crate::text::strip_cr(#[trigger] paths[i]) == paths[i] by {
            assert(paths[i].last() != '\r');
        }
    }
    assert(parts[n - 1].len() > 0);
    assert(lines_seq(text) =~= paths);
    assert(nonempty_lines(text) =~= paths) by {
        lemma_filter_nonempty_keeps(paths);
    }
    lemma_join_starts_with_first(paths, '\n');
    assert(!has_prefix(text, "collection:"@)) by {
        if has_prefix(text, "collection:"@) {
            let k = paths[0].len();
            if k >= 11 {
                assert(paths[0].take(11) =~= text.take(11));
            } else if paths.len() >= 2 {
                assert(text[k as int] == '\n');
                assert(text.take(11)[k as int] == "collection:"@[k as int]);
            } else {
                assert(text =~= paths[0]);
            }
        }
    }
}

} // verus!
