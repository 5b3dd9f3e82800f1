//! Unix path operations on paths held as strings: the final component, its
//! stem and extension, component-wise prefixes, and joining.
use vstd::prelude::*;
use crate::text::{
    chars_eq, chars_of, copy_chars, append_chars, lemma_split_nonempty, slice_chars, split_char,
    split_char_seq, views,
};

verus! {

/// A piece between separators that contributes no component.
pub open spec fn is_skipped_piece(p: Seq<char>) -> bool {
    p.len() == 0 || p == seq!['.']
}

/// The last piece (between `/` separators) that is neither empty nor `.`.
pub open spec fn last_kept(pieces: Seq<Seq<char>>) -> Option<Seq<char>>
    decreases pieces.len(),
{
    if pieces.len() == 0 {
        None
    } else if !is_skipped_piece(pieces.last()) {
        Some(pieces.last())
    } else {
        last_kept(pieces.drop_last())
    }
}

/// `Path::file_name`: the final component, unless the path ends in `..`, a
/// root, or has no component at all.
pub open spec fn file_name_of(p: Seq<char>) -> Option<Seq<char>> {
    match last_kept(split_char_seq(p, '/')) {
        Some(name) => if name == seq!['.', '.'] {
            None
        } else {
            Some(name)
        },
        None => None,
    }
}

/// The index of the last `.` in `name`.
pub open spec fn last_dot(name: Seq<char>) -> Option<int>
    decreases name.len(),
{
    if name.len() == 0 {
        None
    } else if name.last() == '.' {
        Some(name.len() - 1)
    } else {
        last_dot(name.drop_last())
    }
}

/// The last dot is a dot inside the name.
pub proof fn lemma_last_dot_char(name: Seq<char>)
    ensures
        last_dot(name) matches Some(k) ==> 0 <= k < name.len() && name[k] == '.',
    decreases name.len(),
{
    if name.len() > 0 && name.last() != '.' {
        lemma_last_dot_char(name.drop_last());
    }
}

/// `s` holds no `d`.
pub open spec fn free_of(s: Seq<char>, d: char) -> bool {
    forall|i: int| 0 <= i < s.len() ==> s[i] != d
}

/// Splitting `a + b`, where `b` holds no separator, extends the last piece of
/// `a` by `b`.
proof fn lemma_split_append(a: Seq<char>, b: Seq<char>, d: char)
    requires
        free_of(b, d),
    ensures
        split_char_seq(a + b, d) == split_char_seq(a, d).drop_last().push(split_char_seq(a, d).last() + b),
    decreases b.len(),
{
    lemma_split_nonempty(a, d);
    let sa = split_char_seq(a, d);
    if b.len() == 0 {
        assert(a + b =~= a);
        assert(sa.last() + b =~= sa.last());
        assert(sa.drop_last().push(sa.last()) =~= sa);
    } else {
        let b0 = b.drop_last();
        assert(free_of(b0, d));
        lemma_split_append(a, b0, d);
        assert((a + b).drop_last() =~= a + b0);
        assert((a + b).last() == b.last());
        assert(b[b.len() - 1] != d);
        let prev = split_char_seq(a + b0, d);
        assert(prev.last() == sa.last() + b0);
        assert((sa.last() + b0).push(b.last()) =~= sa.last() + b);
        assert(split_char_seq(a + b, d) == prev.update(prev.len() - 1, prev.last().push(b.last())));
        assert(prev.update(prev.len() - 1, prev.last().push(b.last())) =~= sa.drop_last().push(
            sa.last() + b,
        ));
    }
}

/// No piece of a split holds the separator.
proof fn lemma_split_pieces_free(s: Seq<char>, d: char)
    ensures
        forall|i: int| 0 <= i < split_char_seq(s, d).len() ==> free_of(#[trigger] split_char_seq(s, d)[i], d),
    decreases s.len(),
{
    if s.len() > 0 {
        lemma_split_pieces_free(s.drop_last(), d);
        lemma_split_nonempty(s.drop_last(), d);
        let prev = split_char_seq(s.drop_last(), d);
        if s.last() != d {
            assert(free_of(prev.last(), d));
            assert(free_of(prev.last().push(s.last()), d));
            let now = prev.update(prev.len() - 1, prev.last().push(s.last()));
            assert forall|i: int| 0 <= i < now.len() implies free_of(#[trigger] now[i], d) by {
                if i < prev.len() - 1 {
                    assert(now[i] == prev[i]);
                }
            }
        } else {
            let now = prev.push(Seq::<char>::empty());
            assert forall|i: int| 0 <= i < now.len() implies free_of(#[trigger] now[i], d) by {
                if i < prev.len() {
                    assert(now[i] == prev[i]);
                }
            }
        }
    }
}

/// The last kept piece is one of the pieces.
proof fn lemma_last_kept_in(pieces: Seq<Seq<char>>)
    ensures
        last_kept(pieces) matches Some(x) ==> exists|i: int| 0 <= i < pieces.len() && pieces[i] == x,
    decreases pieces.len(),
{
    if pieces.len() > 0 {
        if !is_skipped_piece(pieces.last()) {
            assert(pieces[pieces.len() - 1] == pieces.last());
        } else {
            lemma_last_kept_in(pieces.drop_last());
            if let Some(x) = last_kept(pieces.drop_last()) {
                let i = choose|i: int| 0 <= i < pieces.drop_last().len() && pieces.drop_last()[i] == x;
                assert(pieces[i] == x);
            }
        }
    }
}

/// A file name holds no `/`.
pub proof fn lemma_file_name_free(p: Seq<char>)
    ensures
        file_name_of(p) matches Some(n) ==> free_of(n, '/'),
{
    lemma_last_kept_in(split_char_seq(p, '/'));
    lemma_split_pieces_free(p, '/');
    if let Some(n) = file_name_of(p) {
        let ps = split_char_seq(p, '/');
        let i = choose|i: int| 0 <= i < ps.len() && ps[i] == n;
        assert(free_of(ps[i], '/'));
    }
}

/// Joining a plain name (no `/`, not `.` or `..`) onto a folder gives a path
/// whose file name is that name.
pub proof fn lemma_file_name_join(folder: Seq<char>, name: Seq<char>)
    requires
        name.len() > 2,
        free_of(name, '/'),
    ensures
        file_name_of(join_of(folder, name)) == Some(name),
{
    let d = '/';
    assert(name[0] != '/');
    lemma_split_append(folder, name, d);
    lemma_split_nonempty(folder, d);
    let sf = split_char_seq(folder, d);
    if folder.len() > 0 && folder.last() != '/' {
        let a = folder + seq!['/'];
        assert(a.drop_last() =~= folder);
        assert(a.last() == '/');
        assert(split_char_seq(a, d) == sf.push(Seq::<char>::empty()));
        lemma_split_append(a, name, d);
        assert(join_of(folder, name) == a + name);
        let pieces = split_char_seq(a + name, d);
        assert(pieces =~= sf.push(Seq::<char>::empty() + name));
        assert(Seq::<char>::empty() + name =~= name);
        assert(pieces.last() == name);
    } else {
        if folder.len() > 0 {
            assert(folder.last() == '/');
            assert(sf == split_char_seq(folder.drop_last(), d).push(Seq::<char>::empty()));
        } else {
            assert(sf == seq![Seq::<char>::empty()]);
        }
        assert(sf.last() =~= Seq::<char>::empty());
        assert(join_of(folder, name) == folder + name);
        let pieces = split_char_seq(folder + name, d);
        assert(sf.last() + name =~= name);
        assert(pieces.last() == name);
    }
    assert(!is_skipped_piece(name));
    assert(name != seq!['.', '.']);
}

/// The extension of a file name: the text after the last `.`, unless there
/// is no `.` or the only `.` is the first character.
pub open spec fn name_extension(name: Seq<char>) -> Option<Seq<char>> {
    match last_dot(name) {
        Some(k) => if k == 0 {
            None
        } else {
            Some(name.skip(k + 1))
        },
        None => None,
    }
}

/// The stem of a file name: the text before the last `.`, or the whole name.
pub open spec fn name_stem(name: Seq<char>) -> Seq<char> {
    match last_dot(name) {
        Some(k) => if k == 0 {
            name
        } else {
            name.take(k)
        },
        None => name,
    }
}

/// `Path::extension`.
pub open spec fn extension_of(p: Seq<char>) -> Option<Seq<char>> {
    match file_name_of(p) {
        Some(name) => name_extension(name),
        None => None,
    }
}

/// `Path::file_stem`.
pub open spec fn file_stem_of(p: Seq<char>) -> Option<Seq<char>> {
    match file_name_of(p) {
        Some(name) => Some(name_stem(name)),
        None => None,
    }
}

/// The view of an optional character vector.
pub open spec fn opt_view(o: Option<Vec<char>>) -> Option<Seq<char>> {
    match o {
        Some(v) => Some(v@),
        None => None,
    }
}

/// The view of an optional string.
pub open spec fn opt_string_view(o: Option<String>) -> Option<Seq<char>> {
    match o {
        Some(v) => Some(v@),
        None => None,
    }
}

fn is_skipped_exec(p: &Vec<char>) -> (r: bool)
    ensures
        r == is_skipped_piece(p@),
{
    if p.len() == 0 {
        return true;
    }
    if p.len() == 1 && p[0] == '.' {
        assert(p@ =~= seq!['.']);
        return true;
    }
    false
}

/// `Path::file_name` on a path held as characters.
pub fn file_name(p: &Vec<char>) -> (r: Option<Vec<char>>)
    ensures
        opt_view(r) == file_name_of(p@),
{
    let pieces = split_char(p, '/');
    let mut i = pieces.len();
    assert(views(pieces@).take(pieces.len() as int) =~= views(pieces@));
    while i > 0
        invariant
            i <= pieces.len(),
            views(pieces@) == split_char_seq(p@, '/'),
            last_kept(views(pieces@)) == last_kept(views(pieces@).take(i as int)),
        decreases i,
    {
        let piece = &pieces[i - 1];
        assert(views(pieces@).take(i as int).last() == piece@);
        assert(views(pieces@).take(i as int).drop_last() =~= views(pieces@).take(i - 1));
        if !is_skipped_exec(piece) {
            if piece.len() == 2 && piece[0] == '.' && piece[1] == '.' {
                assert(piece@ =~= seq!['.', '.']);
                return None;
            }
            assert(piece@ != seq!['.', '.']);
            return Some(copy_chars(piece));
        }
        i = i - 1;
    }
    None
}

/// The index of the last `.` in `name`.
pub fn last_dot_exec(name: &Vec<char>) -> (r: Option<usize>)
    ensures
        r matches Some(k) ==> last_dot(name@) == Some(k as int) && k < name@.len(),
        r is None ==> last_dot(name@) is None,
{
    let mut i = name.len();
    assert(name@.take(name@.len() as int) =~= name@);
    while i > 0
        invariant
            i <= name.len(),
            last_dot(name@) == last_dot(name@.take(i as int)),
        decreases i,
    {
        assert(name@.take(i as int).drop_last() =~= name@.take(i - 1));
        if name[i - 1] == '.' {
            return Some(i - 1);
        }
        i = i - 1;
    }
    None
}

/// `Path::extension` on a path held as characters.
pub fn extension(p: &Vec<char>) -> (r: Option<Vec<char>>)
    ensures
        opt_view(r) == extension_of(p@),
{
    match file_name(p) {
        None => None,
        Some(name) => match last_dot_exec(&name) {
            None => None,
            Some(k) => if k == 0 {
                None
            } else {
                Some(slice_chars(&name, k + 1, name.len()))
            },
        },
    }
}

/// `Path::file_stem` on a path held as characters.
pub fn file_stem(p: &Vec<char>) -> (r: Option<Vec<char>>)
    ensures
        opt_view(r) == file_stem_of(p@),
{
    match file_name(p) {
        None => None,
        Some(name) => match last_dot_exec(&name) {
            None => Some(name),
            Some(k) => if k == 0 {
                Some(name)
            } else {
                let s = slice_chars(&name, 0, k);
                assert(name@.subrange(0, k as int) =~= name@.take(k as int));
                Some(s)
            },
        },
    }
}

// ---------------------------------------------------------------------------
// Components and prefixes
// ---------------------------------------------------------------------------

/// The pieces of a path that are components (neither empty nor `.`), in order.
pub open spec fn kept_pieces(pieces: Seq<Seq<char>>) -> Seq<Seq<char>>
    decreases pieces.len(),
{
    if pieces.len() == 0 {
        Seq::<Seq<char>>::empty()
    } else if is_skipped_piece(pieces.last()) {
        kept_pieces(pieces.drop_last())
    } else {
        kept_pieces(pieces.drop_last()).push(pieces.last())
    }
}

/// `Path::components` on Unix, each component by its text: a root is `/`, a
/// leading current-directory component is `.`.
pub open spec fn components_of(p: Seq<char>) -> Seq<Seq<char>> {
    let pieces = split_char_seq(p, '/');
    let lead = if p.len() > 0 && p[0] == '/' {
        seq![seq!['/']]
    } else if pieces[0] == seq!['.'] {
        seq![seq!['.']]
    } else {
        Seq::<Seq<char>>::empty()
    };
    lead + kept_pieces(pieces)
}

/// `Path::starts_with`: the components of `base` are a prefix of those of `p`.
pub open spec fn path_starts_with(p: Seq<char>, base: Seq<char>) -> bool {
    let a = components_of(p);
    let b = components_of(base);
    b.len() <= a.len() && a.take(b.len() as int) == b
}

fn kept_pieces_exec(pieces: &Vec<Vec<char>>) -> (out: Vec<Vec<char>>)
    ensures
        views(out@) == kept_pieces(views(pieces@)),
{
    let mut out: Vec<Vec<char>> = Vec::new();
    let mut i: usize = 0;
    while i < pieces.len()
        invariant
            i <= pieces.len(),
            views(out@) == kept_pieces(views(pieces@).take(i as int)),
        decreases pieces.len() - i,
    {
        assert(views(pieces@).take(i + 1).drop_last() =~= views(pieces@).take(i as int));
        assert(views(pieces@).take(i + 1).last() == pieces@[i as int]@);
        if !is_skipped_exec(&pieces[i]) {
            let c = copy_chars(&pieces[i]);
            out.push(c);
            assert(views(out@) =~= kept_pieces(views(pieces@).take(i as int)).push(
                pieces@[i as int]@,
            ));
        }
        i = i + 1;
    }
    assert(views(pieces@).take(pieces.len() as int) =~= views(pieces@));
    out
}

/// `Path::components` on a path held as characters.
pub fn components(p: &Vec<char>) -> (out: Vec<Vec<char>>)
    ensures
        views(out@) == components_of(p@),
{
    let pieces = split_char(p, '/');
    proof {
        lemma_split_nonempty(p@, '/');
    }
    let mut out: Vec<Vec<char>> = Vec::new();
    if p.len() > 0 && p[0] == '/' {
        let mut root: Vec<char> = Vec::new();
        root.push('/');
        out.push(root);
        assert(views(out@) =~= seq![seq!['/']]);
    } else if pieces[0].len() == 1 && pieces[0][0] == '.' {
        let mut cur: Vec<char> = Vec::new();
        cur.push('.');
        out.push(cur);
        assert(pieces@[0]@ =~= seq!['.']);
        assert(views(out@) =~= seq![seq!['.']]);
    } else {
        assert(pieces@[0]@ != seq!['.']);
        assert(views(out@) =~= Seq::<Seq<char>>::empty());
    }
    let ghost lead = views(out@);
    let mut kept = kept_pieces_exec(&pieces);
    let ghost kv = views(kept@);
    let mut i: usize = 0;
    while i < kept.len()
        invariant
            i <= kept.len(),
            views(kept@) == kv,
            views(out@) == lead + kv.take(i as int),
        decreases kept.len() - i,
    {
        let c = copy_chars(&kept[i]);
        let ghost before = views(out@);
        out.push(c);
        assert(kv[i as int] == kept@[i as int]@);
        assert(views(out@) =~= before.push(c@));
        assert(kv.take(i + 1) =~= kv.take(i as int).push(kv[i as int]));
        assert(views(out@) =~= lead + kv.take(i + 1));
        i = i + 1;
    }
    assert(kv.take(kept.len() as int) =~= kv);
    out
}

/// `Path::starts_with` on paths held as strings.
pub fn starts_with_path(p: &str, base: &str) -> (r: bool)
    ensures
        r == path_starts_with(p@, base@),
{
    let pv = chars_of(p);
    let bv = chars_of(base);
    let a = components(&pv);
    let b = components(&bv);
    if b.len() > a.len() {
        return false;
    }
    let mut i: usize = 0;
    while i < b.len()
        invariant
            b.len() <= a.len(),
            i <= b.len(),
            forall|k: int| 0 <= k < i ==> views(a@)[k] == views(b@)[k],
            views(a@) == components_of(pv@),
            views(b@) == components_of(bv@),
            pv@ == p@,
            bv@ == base@,
        decreases b.len() - i,
    {
        if !chars_eq(&a[i], &b[i]) {
            assert(views(a@)[i as int] == a@[i as int]@);
            assert(views(b@)[i as int] == b@[i as int]@);
            assert(views(a@).take(b.len() as int)[i as int] == views(a@)[i as int]);
            assert(views(a@).take(b.len() as int) != views(b@));
            assert(views(b@).len() == b.len());
            assert(!path_starts_with(p@, base@));
            return false;
        }
        i = i + 1;
    }
    assert(views(a@).take(b.len() as int) =~= views(b@));
    true
}

// ---------------------------------------------------------------------------
// Parent, joining and renaming
// ---------------------------------------------------------------------------

/// What `Path::parent` returns for a path with this text.
pub uninterp spec fn parent_of(p: Seq<char>) -> Option<Seq<char>>;

/// What `Path::with_extension` returns for a path with this text and an
/// extension with this text.
pub uninterp spec fn with_extension_of(p: Seq<char>, ext: Seq<char>) -> Seq<char>;

/// `Path::parent`, the path without its final component, as text. The text of
/// the result is named `parent_of(p@)`; the trimming rules that decide it are
/// not restated.
#[verifier::external_body]
pub(crate) fn path_parent(p: &str) -> (r: Option<String>)
    ensures
        opt_string_view(r) == parent_of(p@),
{
    std::path::Path::new(p).parent().map(|q| q.to_string_lossy().into_owned())
}

/// `Path::with_extension`, as text. The result is named
/// `with_extension_of(p@, ext@)`; the rules by which it replaces or adds the
/// extension are not restated. The extension may not hold a `/`, on which
/// `Path::with_extension` panics.
#[verifier::external_body]
pub(crate) fn path_with_extension(p: &str, ext: &str) -> (r: String)
    requires
        free_of(ext@, '/'),
    ensures
        r@ == with_extension_of(p@, ext@),
{
    std::path::Path::new(p).with_extension(ext).to_string_lossy().into_owned()
}

/// `Path::join` on Unix: an absolute `rel` replaces `base`; otherwise `rel` is
/// appended, with a `/` between unless `base` is empty or already ends in one.
pub open spec fn join_of(base: Seq<char>, rel: Seq<char>) -> Seq<char> {
    if rel.len() > 0 && rel[0] == '/' {
        rel
    } else if base.len() > 0 && base.last() != '/' {
        base + seq!['/'] + rel
    } else {
        base + rel
    }
}

/// `Path::join` on paths held as characters.
pub fn join_path(base: &Vec<char>, rel: &Vec<char>) -> (out: Vec<char>)
    ensures
        out@ == join_of(base@, rel@),
{
    if rel.len() > 0 && rel[0] == '/' {
        return copy_chars(rel);
    }
    let mut out = copy_chars(base);
    if base.len() > 0 && base[base.len() - 1] != '/' {
        out.push('/');
    }
    append_chars(&mut out, rel);
    out
}

/// `Path::with_file_name`: the final component replaced by `name` (or `name`
/// appended when there is no final component).
pub open spec fn with_file_name_of(p: Seq<char>, name: Seq<char>) -> Seq<char> {
    if file_name_of(p) is Some && parent_of(p) is Some {
        join_of(parent_of(p)->0, name)
    } else {
        join_of(p, name)
    }
}

/// `Path::with_file_name` on paths held as strings.
pub fn with_file_name(p: &str, name: &Vec<char>) -> (out: Vec<char>)
    ensures
        out@ == with_file_name_of(p@, name@),
{
    let pv = chars_of(p);
    let has_name = file_name(&pv).is_some();
    if has_name {
        match path_parent(p) {
            Some(parent) => {
                let base = chars_of(parent.as_str());
                return join_path(&base, name);
            },
            None => {},
        }
    }
    join_path(&pv, name)
}

} // verus!
