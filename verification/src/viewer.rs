//! The image viewer: its zoom modes, the tag summary over the image, and the
//! names of the files an upscale writes before and after it is committed.
use vstd::prelude::*;
use crate::paths::{extension, extension_of, file_name, file_name_of, file_stem, file_stem_of, join_of, join_path, with_file_name, with_file_name_of};
use crate::queue::{source_folder, source_folder_spec};
use crate::strset::char_vecs_of;
use crate::text::{
    append_chars, chars_of, decimal, find_char_from, find_char_from_exec, find_exec, find_seq, join_chars, join_seq,
    lit, push_str, slice_chars, string_of, string_views, u64_text,
};

verus! {

// ---------------------------------------------------------------------------
// Zoom modes
// ---------------------------------------------------------------------------

/// How the image is sized: fitted to the window, or one image pixel per
/// screen pixel.
#[derive(Clone, Copy, Debug, PartialEq, Eq, Structural)]
pub enum ZoomMode {
    Fit,
    OneToOne,
}

impl ZoomMode {
    /// The other mode.
    pub fn toggled(self) -> (r: ZoomMode)
        ensures
            r == match self {
                ZoomMode::Fit => ZoomMode::OneToOne,
                ZoomMode::OneToOne => ZoomMode::Fit,
            },
    {
        match self {
            ZoomMode::Fit => ZoomMode::OneToOne,
            ZoomMode::OneToOne => ZoomMode::Fit,
        }
    }

    /// The icon and tooltip of the zoom button: it offers the other mode.
    pub fn button(self) -> (r: (&'static str, &'static str))
        ensures
            (r.0@, r.1@) == match self {
                ZoomMode::Fit => ("zoom-fit-best-symbolic"@, "1:1 Pixels (switch to actual size)"@),
                ZoomMode::OneToOne => ("zoom-original-symbolic"@, "Fit to Window (switch to fit)"@),
            },
    {
        match self {
            ZoomMode::Fit => ("zoom-fit-best-symbolic", "1:1 Pixels (switch to actual size)"),
            ZoomMode::OneToOne => ("zoom-original-symbolic", "Fit to Window (switch to fit)"),
        }
    }

    /// Whether a change to `target` takes a toggle: only when the mode
    /// differs.
    pub fn needs_toggle(self, target: ZoomMode) -> (r: bool)
        ensures
            r == (self != target),
    {
        self != target
    }
}

/// Toggling the zoom mode twice gives the mode back.
pub proof fn lemma_zoom_toggle_twice(m: ZoomMode)
    ensures
        match (match m {
            ZoomMode::Fit => ZoomMode::OneToOne,
            ZoomMode::OneToOne => ZoomMode::Fit,
        }) {
            ZoomMode::Fit => ZoomMode::OneToOne,
            ZoomMode::OneToOne => ZoomMode::Fit,
        } == m,
{
}

// ---------------------------------------------------------------------------
// Tag summary
// ---------------------------------------------------------------------------

/// The tag line over the image: `Add tag` without tags, up to three tags
/// joined, or the first three and how many more.
pub open spec fn tag_summary_spec(tags: Seq<Seq<char>>) -> Seq<char> {
    if tags.len() == 0 {
        "Add tag"@
    } else if tags.len() <= 3 {
        join_seq(tags, " · "@)
    } else {
        join_seq(tags.take(3), " · "@) + " +"@ + decimal((tags.len() - 3) as nat)
    }
}

/// The tooltip of the tag button: every tag, or an invitation.
pub open spec fn tag_tooltip_spec(tags: Seq<Seq<char>>) -> Seq<char> {
    if tags.len() == 0 {
        "Add tags"@
    } else {
        "Tags: "@ + join_seq(tags, ", "@)
    }
}

/// The tag line over the image and the tooltip of its button.
pub fn tag_summary(tags: &[String]) -> (r: (String, String))
    ensures
        r.0@ == tag_summary_spec(string_views(tags@)),
        r.1@ == tag_tooltip_spec(string_views(tags@)),
{
    let ghost tv = string_views(tags@);
    let all = char_vecs_of(tags);
    let n = tags.len();
    let summary = if n == 0 {
        lit("Add tag")
    } else if n <= 3 {
        join_chars(&all, &lit(" · "))
    } else {
        assert(crate::text::views(all@).len() == all@.len());
        let first = crate::text::copy_prefix(&all, 3);
        let mut v = join_chars(&first, &lit(" · "));
        push_str(&mut v, " +");
        let d = u64_text((n - 3) as u64);
        append_chars(&mut v, &d);
        v
    };
    let tooltip = if n == 0 {
        lit("Add tags")
    } else {
        let mut t = lit("Tags: ");
        let j = join_chars(&all, &lit(", "));
        append_chars(&mut t, &j);
        t
    };
    (string_of(&summary), string_of(&tooltip))
}

// ---------------------------------------------------------------------------
// Loading failures
// ---------------------------------------------------------------------------

/// Why an image could not be shown.
#[derive(Clone, Copy, Debug, PartialEq, Eq, Structural)]
pub enum LoadFailure {
    OpenFailed,
    FormatDetectFailed,
    Unsupported,
    InvalidDimensions,
    /// Any other decoding failure.
    Other,
}

/// The message shown in place of an image that could not be loaded.
pub fn load_error_message(f: LoadFailure) -> (r: &'static str)
    ensures
        r@ == match f {
            LoadFailure::OpenFailed => "Could not open file"@,
            LoadFailure::FormatDetectFailed | LoadFailure::Unsupported => "Unsupported image format"@,
            LoadFailure::InvalidDimensions => "Image has invalid dimensions"@,
            LoadFailure::Other => "Could not load image"@,
        },
{
    match f {
        LoadFailure::OpenFailed => "Could not open file",
        LoadFailure::FormatDetectFailed | LoadFailure::Unsupported => "Unsupported image format",
        LoadFailure::InvalidDimensions => "Image has invalid dimensions",
        LoadFailure::Other => "Could not load image",
    }
}

// ---------------------------------------------------------------------------
// Upscale output files
// ---------------------------------------------------------------------------

/// A path's file stem, or `upscaled` when it has none.
pub open spec fn stem_or_default(p: Seq<char>) -> Seq<char> {
    match file_stem_of(p) {
        Some(s) => s,
        None => "upscaled"@,
    }
}

fn stem_or_default_exec(p: &Vec<char>) -> (r: Vec<char>)
    ensures
        r@ == stem_or_default(p@),
{
    match file_stem(p) {
        Some(s) => s,
        None => lit("upscaled"),
    }
}

/// Where an upscale of `input` is written: an `upscaled` folder next to it,
/// named after its stem with the output format's extension.
pub open spec fn upscale_output_spec(input: Seq<char>, ext: Seq<char>) -> Seq<char> {
    join_of(join_of(source_folder_spec(input), "upscaled"@), stem_or_default(input) + "."@ + ext)
}

/// Where an upscale of `input` is written; `ext` is the output format's
/// extension.
pub fn upscale_output_path(input: &str, ext: &str) -> (r: String)
    ensures
        r@ == upscale_output_spec(input@, ext@),
{
    let dir = chars_of(source_folder(input).as_str());
    let sub = join_path(&dir, &lit("upscaled"));
    let p = chars_of(input);
    let mut name = stem_or_default_exec(&p);
    push_str(&mut name, ".");
    push_str(&mut name, ext);
    string_of(&join_path(&sub, &name))
}

/// The name an upscale is first written under: the final name with
/// `.pending-` and the process id after its stem.
pub open spec fn pending_name_spec(final_output: Seq<char>, pid: u32) -> Seq<char> {
    let suffix = stem_or_default(final_output) + ".pending-"@ + decimal(pid as nat);
    match extension_of(final_output) {
        Some(e) => if e.len() == 0 {
            suffix
        } else {
            suffix + "."@ + e
        },
        None => suffix,
    }
}

/// The file an upscale is first written to, next to its final place.
pub fn pending_output_path(final_output: &str, pid: u32) -> (r: String)
    ensures
        r@ == with_file_name_of(final_output@, pending_name_spec(final_output@, pid)),
{
    let p = chars_of(final_output);
    let mut name = stem_or_default_exec(&p);
    push_str(&mut name, ".pending-");
    let d = u64_text(pid as u64);
    append_chars(&mut name, &d);
    match extension(&p) {
        Some(e) => {
            if e.len() > 0 {
                push_str(&mut name, ".");
                append_chars(&mut name, &e);
            }
        },
        None => {},
    }
    string_of(&with_file_name(final_output, &name))
}

/// The file a conversion preview is written to: in the destination folder,
/// named after the source's stem (empty without one) with `.pending-`, the
/// process id and the format's extension.
pub open spec fn preview_pending_spec(destination: Seq<char>, source: Seq<char>, ext: Seq<char>, pid: u32) -> Seq<char> {
    let stem = match file_stem_of(source) {
        Some(s) => s,
        None => Seq::empty(),
    };
    join_of(destination, stem + ".pending-"@ + decimal(pid as nat) + "."@ + ext)
}

/// The file a conversion preview of `source` is written to.
pub fn preview_pending_path(destination: &str, source: &str, ext: &str, pid: u32) -> (r: String)
    ensures
        r@ == preview_pending_spec(destination@, source@, ext@, pid),
{
    let p = chars_of(source);
    let mut name = match file_stem(&p) {
        Some(s) => s,
        None => Vec::new(),
    };
    push_str(&mut name, ".pending-");
    let d = u64_text(pid as u64);
    append_chars(&mut name, &d);
    push_str(&mut name, ".");
    push_str(&mut name, ext);
    string_of(&join_path(&chars_of(destination), &name))
}

// ---------------------------------------------------------------------------
// Upscaling from the viewer
// ---------------------------------------------------------------------------

/// The failure reported when the folder of an upscale cannot be made.
pub fn output_dir_error_message(dir: &str, err: &str) -> (r: String)
    ensures
        r@ == "Failed to create output directory "@ + dir@ + ": "@ + err@,
{
    let mut v = lit("Failed to create output directory ");
    push_str(&mut v, dir);
    push_str(&mut v, ": ");
    push_str(&mut v, err);
    string_of(&v)
}

/// The source size an upscale from the viewer assumes: the library's record
/// of it, else the size read from the file when both sides are known.
pub fn upscale_source_dimensions(recorded: (u32, u32), read: (u32, u32)) -> (r: (u32, u32))
    ensures
        r == if recorded.0 == 0 && recorded.1 == 0 && read.0 > 0 && read.1 > 0 {
            read
        } else {
            recorded
        },
{
    if recorded.0 == 0 && recorded.1 == 0 && read.0 > 0 && read.1 > 0 {
        read
    } else {
        recorded
    }
}

/// The quality, tile size and GPU an upscale from the viewer runs with: the
/// quality setting held between 50 and 100, a tile size only when positive,
/// a GPU only when not negative.
pub fn upscale_job_options(quality: i32, tile_size: i32, gpu_id: i32) -> (r: (u8, Option<u32>, Option<u32>))
    ensures
        r.0 as int == if quality < 50 {
            50
        } else if quality > 100 {
            100
        } else {
            quality as int
        },
        r.1 == if tile_size > 0 {
            Some(tile_size as u32)
        } else {
            None::<u32>
        },
        r.2 == if gpu_id >= 0 {
            Some(gpu_id as u32)
        } else {
            None::<u32>
        },
{
    let q: u8 = if quality < 50 {
        50
    } else if quality > 100 {
        100
    } else {
        quality as u8
    };
    let tile = if tile_size > 0 {
        Some(tile_size as u32)
    } else {
        None
    };
    let gpu = if gpu_id >= 0 {
        Some(gpu_id as u32)
    } else {
        None
    };
    (q, tile, gpu)
}

/// The final name of a pending file: the `.pending-…` part taken out of it,
/// keeping what follows its first dot as the extension.
pub open spec fn committed_name_spec(name: Seq<char>) -> Seq<char> {
    match find_seq(name, ".pending-"@) {
        Some(k) => {
            let prefix = name.take(k);
            let rest = name.skip(k + 9);
            match find_char_from(rest, '.', 0) {
                Some(m) => prefix + "."@ + rest.skip(m + 1),
                None => prefix,
            }
        },
        None => name,
    }
}

/// The final name of a pending file.
pub fn committed_name(name: &Vec<char>) -> (r: Vec<char>)
    ensures
        r@ == committed_name_spec(name@),
{
    let marker = lit(".pending-");
    proof {
        reveal_strlit(".pending-");
    }
    proof {
        crate::text::lemma_find_from(name@, marker@, 0);
        assert(marker@.len() == 9);
    }
    match find_exec(name, &marker) {
        Some(k) => {
            assert(crate::text::occurs_at(name@, marker@, k as int));
            let nlen = name.len();
            let prefix = slice_chars(name, 0, k);
            let rest = slice_chars(name, k + 9, nlen);
            assert(prefix@ =~= name@.take(k as int));
            assert(rest@ =~= name@.skip(k + 9));
            match find_char_from_exec(&rest, '.', 0) {
                Some(m) => {
                    let mut out = prefix;
                    push_str(&mut out, ".");
                    let ext = slice_chars(&rest, m + 1, rest.len());
                    assert(ext@ =~= rest@.skip(m + 1));
                    append_chars(&mut out, &ext);
                    out
                },
                None => prefix,
            }
        },
        None => crate::text::copy_chars(name),
    }
}

/// The file name of a path, or nothing.
pub open spec fn name_or_empty(p: Seq<char>) -> Seq<char> {
    match file_name_of(p) {
        Some(n) => n,
        None => Seq::empty(),
    }
}

/// Where a pending upscale goes when committed, if no file is there.
pub open spec fn committed_base_spec(pending: Seq<char>) -> Seq<char> {
    with_file_name_of(pending, committed_name_spec(name_or_empty(pending)))
}

fn name_or_empty_exec(p: &Vec<char>) -> (r: Vec<char>)
    ensures
        r@ == name_or_empty(p@),
{
    match file_name(p) {
        Some(n) => n,
        None => Vec::new(),
    }
}

/// Where a pending upscale goes when committed, if no file is there.
pub fn committed_base_path(pending: &str) -> (r: String)
    ensures
        r@ == committed_base_spec(pending@),
{
    let p = chars_of(pending);
    let name = name_or_empty_exec(&p);
    let trimmed = committed_name(&name);
    string_of(&with_file_name(pending, &trimmed))
}

/// The `i`-th alternative when the committed name is taken: the stem with
/// `_i` added, in the pending file's folder.
pub open spec fn committed_candidate_spec(pending: Seq<char>, i: u32) -> Seq<char> {
    let trimmed = committed_name_spec(name_or_empty(pending));
    let numbered = stem_or_default(trimmed) + "_"@ + decimal(i as nat);
    join_of(source_folder_spec(pending), match extension_of(trimmed) {
        Some(e) => numbered + "."@ + e,
        None => numbered,
    })
}

/// The `i`-th alternative when the committed name is taken.
pub fn committed_candidate(pending: &str, i: u32) -> (r: String)
    ensures
        r@ == committed_candidate_spec(pending@, i),
{
    let p = chars_of(pending);
    let name = name_or_empty_exec(&p);
    let trimmed = committed_name(&name);
    let dir = chars_of(source_folder(pending).as_str());
    let mut numbered = stem_or_default_exec(&trimmed);
    push_str(&mut numbered, "_");
    let d = u64_text(i as u64);
    append_chars(&mut numbered, &d);
    match extension(&trimmed) {
        Some(e) => {
            push_str(&mut numbered, ".");
            append_chars(&mut numbered, &e);
        },
        None => {},
    }
    string_of(&join_path(&dir, &numbered))
}

/// The `i`-th place a pending upscale may be committed to: its name without
/// the pending marker first, then the numbered alternatives.
pub open spec fn commit_attempt_spec(pending: Seq<char>, i: int) -> Seq<char> {
    if i == 0 {
        committed_base_spec(pending)
    } else {
        committed_candidate_spec(pending, i as u32)
    }
}

/// The `i`-th place a pending upscale may be committed to.
pub fn commit_attempt_path(pending: &str, i: u32) -> (r: String)
    ensures
        r@ == commit_attempt_spec(pending@, i as int),
{
    if i == 0 {
        committed_base_path(pending)
    } else {
        committed_candidate(pending, i)
    }
}

/// Where a pending upscale is committed, given whether each place in turn
/// is taken (`taken[i]` for the `i`-th place): the first free place, or none
/// when every place asked about is taken.
pub fn first_free_commit_path(pending: &str, taken: &[bool]) -> (r: Option<String>)
    requires
        taken@.len() <= u32::MAX + 1,
    ensures
        match r {
            Some(p) => exists|i: int|
                0 <= i < taken@.len() && !taken@[i] && (forall|j: int| 0 <= j < i ==> taken@[j])
                    && p@ == commit_attempt_spec(pending@, i),
            None => forall|i: int| 0 <= i < taken@.len() ==> taken@[i],
        },
{
    let mut i: usize = 0;
    while i < taken.len()
        invariant
            i <= taken@.len(),
            taken@.len() <= u32::MAX + 1,
            forall|j: int| 0 <= j < i ==> taken@[j],
        decreases taken@.len() - i,
    {
        if !taken[i] {
            let p = commit_attempt_path(pending, i as u32);
            assert(0 <= i < taken@.len() && !taken@[i as int]);
            return Some(p);
        }
        i = i + 1;
    }
    None
}

// ---------------------------------------------------------------------------
// Committing gives back the final name
// ---------------------------------------------------------------------------

/// The first occurrence of `q` is found where it occurs with none before.
proof fn lemma_find_exact(s: Seq<char>, q: Seq<char>, k: int)
    requires
        crate::text::occurs_at(s, q, k),
        forall|j: int| 0 <= j < k ==> !crate::text::occurs_at(s, q, j),
    ensures
        find_seq(s, q) == Some(k),
{
    crate::text::lemma_find_from(s, q, 0);
    match find_seq(s, q) {
        Some(k2) => {
            if k2 < k {
                assert(crate::text::occurs_at(s, q, k2));
            } else if k2 > k {
                assert(!crate::text::occurs_at(s, q, k));
            }
        },
        None => {
            assert(!crate::text::occurs_at(s, q, k));
        },
    }
}

/// The first `c` at or after `i` is at `k` when it is there and not before.
proof fn lemma_find_char_exact(s: Seq<char>, c: char, i: int, k: int)
    requires
        0 <= i <= k,
        k < s.len() ==> s[k] == c,
        k <= s.len(),
        forall|j: int| i <= j < k ==> s[j] != c,
    ensures
        find_char_from(s, c, i) == if k < s.len() {
            Some(k)
        } else {
            None::<int>
        },
    decreases k - i,
{
    if i < k {
        lemma_find_char_exact(s, c, i + 1, k);
    }
}

/// Committing an upscale's pending file gives back the final file name.
/// This holds when the final name's stem does not itself hold `.pending-`
/// and the name does not end in a bare `.`.
pub proof fn lemma_commit_pending_name(final_output: Seq<char>, pid: u32)
    requires
        file_name_of(final_output) is Some,
        !crate::text::contains_seq(crate::paths::name_stem(file_name_of(final_output)->0), ".pending-"@),
        crate::paths::name_extension(file_name_of(final_output)->0) != Some(Seq::<char>::empty()),
    ensures
        committed_name_spec(pending_name_spec(final_output, pid)) == file_name_of(final_output)->0,
{
    reveal_strlit(".pending-");
    reveal_strlit(".");
    let n = file_name_of(final_output)->0;
    let st = crate::paths::name_stem(n);
    let marker = ".pending-"@;
    let dec = decimal(pid as nat);
    crate::drops::lemma_decimal_digits(pid as nat);
    let tail = match extension_of(final_output) {
        Some(e) => if e.len() == 0 {
            Seq::<char>::empty()
        } else {
            "."@ + e
        },
        None => Seq::<char>::empty(),
    };
    let rest = dec + tail;
    let text = pending_name_spec(final_output, pid);
    assert(stem_or_default(final_output) == st);
    assert(text =~= st + marker + rest);
    // The marker first occurs right after the stem.
    assert(crate::text::occurs_at(text, marker, st.len() as int)) by {
        assert(text.subrange(st.len() as int, st.len() as int + 9) =~= marker);
    }
    assert forall|j: int| 0 <= j < st.len() implies !crate::text::occurs_at(text, marker, j) by {
        if crate::text::occurs_at(text, marker, j) {
            if j + 9 <= st.len() {
                assert(st.subrange(j, j + 9) =~= text.subrange(j, j + 9));
                assert(crate::text::occurs_at(st, marker, j));
            } else {
                let t = st.len() - j;
                assert(text[st.len() as int] == '.');
                assert(text.subrange(j, j + 9)[t] == marker[t]);
            }
        }
    }
    lemma_find_exact(text, marker, st.len() as int);
    assert(text.take(st.len() as int) =~= st);
    assert(text.skip(st.len() as int + 9) =~= rest);
    // In what follows, the first `.` ends the process id.
    assert forall|j: int| 0 <= j < dec.len() implies rest[j] != '.' by {
        assert(rest[j] == dec[j]);
    }
    lemma_find_char_exact(rest, '.', 0, dec.len() as int);
    match crate::paths::last_dot(n) {
        Some(k) => {
            if k == 0 {
                assert(st == n);
                assert(rest =~= dec);
            } else {
                let e = n.skip(k + 1);
                assert(extension_of(final_output) == Some(e));
                if e.len() == 0 {
                    assert(e =~= Seq::<char>::empty());
                }
                assert(e.len() > 0);
                assert(rest[dec.len() as int] == '.');
                assert(rest.skip(dec.len() as int + 1) =~= e);
                assert(st =~= n.take(k));
                crate::paths::lemma_last_dot_char(n);
                assert(n =~= n.take(k) + "."@ + n.skip(k + 1));
            }
        },
        None => {
            assert(rest =~= dec);
        },
    }
}

/// Committing an upscale's pending file puts it back at the final path: the
/// pending file is written next to the final one, and its committed place is
/// the final path again. Beyond the conditions of the name-level law, this
/// needs a path that `Path::parent` reads as plain text: its parent is the
/// folder it is joined from, and the pending path's parent is that folder
/// too (so no doubled `/`, and no `.` or `..` components at the end).
pub proof fn lemma_commit_pending_path(final_output: Seq<char>, pid: u32, folder: Seq<char>)
    requires
        file_name_of(final_output) is Some,
        !crate::text::contains_seq(crate::paths::name_stem(file_name_of(final_output)->0), ".pending-"@),
        crate::paths::name_extension(file_name_of(final_output)->0) != Some(Seq::<char>::empty()),
        crate::paths::parent_of(final_output) == Some(folder),
        join_of(folder, file_name_of(final_output)->0) == final_output,
        crate::paths::parent_of(join_of(folder, pending_name_spec(final_output, pid))) == Some(folder),
    ensures
        committed_base_spec(with_file_name_of(final_output, pending_name_spec(final_output, pid)))
            == final_output,
{
    reveal_strlit(".pending-");
    reveal_strlit(".");
    let n = file_name_of(final_output)->0;
    let pn = pending_name_spec(final_output, pid);
    crate::paths::lemma_file_name_free(final_output);
    crate::paths::lemma_last_dot_char(n);
    crate::drops::lemma_decimal_digits(pid as nat);
    let st = stem_or_default(final_output);
    assert(st == crate::paths::name_stem(n));
    assert(crate::paths::free_of(st, '/')) by {
        if let Some(k) = crate::paths::last_dot(n) {
            if k != 0 {
                assert forall|i: int| 0 <= i < st.len() implies st[i] != '/' by {
                    assert(st[i] == n[i]);
                }
            }
        }
    }
    let dec = decimal(pid as nat);
    assert(crate::paths::free_of(dec, '/')) by {
        assert forall|i: int| 0 <= i < dec.len() implies dec[i] != '/' by {
            assert('0' <= dec[i] <= '9');
        }
    }
    let suffix = st + ".pending-"@ + dec;
    assert(crate::paths::free_of(suffix, '/')) by {
        assert forall|i: int| 0 <= i < suffix.len() implies suffix[i] != '/' by {
            if i < st.len() {
                assert(suffix[i] == st[i]);
            } else if i < st.len() + 9 {
                assert(suffix[i] == ".pending-"@[i - st.len()]);
            } else {
                assert(suffix[i] == dec[i - st.len() - 9]);
            }
        }
    }
    assert(crate::paths::free_of(pn, '/')) by {
        match extension_of(final_output) {
            Some(e) => if e.len() != 0 {
                let k = crate::paths::last_dot(n)->0;
                assert(e == n.skip(k + 1));
                assert forall|i: int| 0 <= i < pn.len() implies pn[i] != '/' by {
                    if i < suffix.len() {
                        assert(pn[i] == suffix[i]);
                    } else if i == suffix.len() {
                        assert(pn[i] == '.');
                    } else {
                        assert(pn[i] == e[i - suffix.len() - 1]);
                        assert(e[i - suffix.len() - 1] == n[i - suffix.len() - 1 + k + 1]);
                    }
                }
            },
            None => {},
        }
    }
    assert(pn.len() > 2);
    crate::paths::lemma_file_name_join(folder, pn);
    let pend = with_file_name_of(final_output, pn);
    assert(pend == join_of(folder, pn));
    assert(name_or_empty(pend) == pn);
    lemma_commit_pending_name(final_output, pid);
    assert(committed_name_spec(pn) == n);
}

} // verus!
