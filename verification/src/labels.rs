//! Small display rules: filters, the metadata chip, tag cards, library rows
//! and the service address check of the preferences.
use vstd::prelude::*;
use crate::text::{
    append_chars, chars_of, copy_chars, decimal, find_exec, find_seq, has_prefix, has_prefix_exec, join_chars, join_seq, lit,
    push_str, slice_chars, string_of, trim_seq, trim_str, u64_text, views,
};

verus! {

// ---------------------------------------------------------------------------
// Filters
// ---------------------------------------------------------------------------

/// How good an image looks, from best to worst.
#[derive(Clone, Copy, Debug, PartialEq, Eq, Structural, Hash)]
pub enum QualityClass {
    Excellent,
    Good,
    Fair,
    Poor,
    NeedsUpscale,
}

/// The filters set in the filter bar.
#[derive(Debug)]
pub struct ActiveFilters {
    pub quality: Option<QualityClass>,
    pub tag: Option<String>,
}

impl Default for ActiveFilters {
    fn default() -> (r: Self)
        ensures
            r.quality is None,
            r.tag is None,
    {
        ActiveFilters { quality: None, tag: None }
    }
}

impl ActiveFilters {
    /// Whether no filter is set.
    pub fn is_empty(&self) -> (r: bool)
        ensures
            r == (self.quality is None && self.tag is None),
    {
        self.quality.is_none() && self.tag.is_none()
    }
}

/// The first quality button (in bar order) that is pressed.
pub open spec fn first_pressed(buttons: Seq<(bool, QualityClass)>, from: int) -> Option<QualityClass>
    decreases buttons.len() - from,
{
    if from < 0 || from >= buttons.len() {
        None
    } else if buttons[from].0 {
        Some(buttons[from].1)
    } else {
        first_pressed(buttons, from + 1)
    }
}

fn first_pressed_exec(buttons: &[(bool, QualityClass)]) -> (r: Option<QualityClass>)
    ensures
        r == first_pressed(buttons@, 0),
{
    let mut i: usize = 0;
    while i < buttons.len()
        invariant
            i <= buttons@.len(),
            first_pressed(buttons@, 0) == first_pressed(buttons@, i as int),
        decreases buttons@.len() - i,
    {
        if buttons[i].0 {
            return Some(buttons[i].1);
        }
        i = i + 1;
    }
    None
}

/// The filters the bar shows: the first pressed quality button, and the tag
/// typed (trimmed; none when blank). `buttons` pairs each button's state with
/// its class.
pub fn current_filters(buttons: &[(bool, QualityClass)], tag_text: &str) -> (r: ActiveFilters)
    ensures
        r.quality == first_pressed(buttons@, 0),
        crate::paths::opt_string_view(r.tag) == if trim_seq(tag_text@).len() == 0 {
            None
        } else {
            Some(trim_seq(tag_text@))
        },
{
    let quality = first_pressed_exec(buttons);
    let t = trim_str(tag_text);
    let tag = if t.len() == 0 {
        None
    } else {
        Some(string_of(&t))
    };
    ActiveFilters { quality, tag }
}

// ---------------------------------------------------------------------------
// Metadata chip
// ---------------------------------------------------------------------------

/// The style of the quality label: good classes succeed, fair warns, the
/// rest are errors.
pub fn quality_style(c: QualityClass) -> (r: &'static str)
    ensures
        r@ == match c {
            QualityClass::Excellent | QualityClass::Good => "success"@,
            QualityClass::Fair => "warning"@,
            QualityClass::Poor | QualityClass::NeedsUpscale => "error"@,
        },
{
    match c {
        QualityClass::Excellent | QualityClass::Good => "success",
        QualityClass::Fair => "warning",
        QualityClass::Poor | QualityClass::NeedsUpscale => "error",
    }
}

/// The score label: `IQ n%`, or `IQ --` without a score.
pub open spec fn score_label_spec(score: Option<u32>) -> Seq<char> {
    match score {
        Some(s) => "IQ "@ + decimal(s as nat) + "%"@,
        None => "IQ --"@,
    }
}

/// The score label.
pub fn score_label(score: Option<u32>) -> (r: String)
    ensures
        r@ == score_label_spec(score),
{
    match score {
        Some(s) => {
            let mut v = lit("IQ ");
            append_chars(&mut v, &u64_text(s as u64));
            push_str(&mut v, "%");
            string_of(&v)
        },
        None => string_of(&lit("IQ --")),
    }
}

/// How many of the score bar's segments light up: one per 20 points, a
/// started segment counting.
pub fn active_segments(score: u32) -> (r: u32)
    ensures
        r == (score as int + 19) / 20,
{
    score / 20 + if score % 20 != 0 {
        1
    } else {
        0
    }
}

/// Whether the chip shows: when enabled and it has metadata or a score.
pub fn chip_visible(enabled: bool, has_metadata: bool, has_quality: bool) -> (r: bool)
    ensures
        r == (enabled && (has_metadata || has_quality)),
{
    enabled && (has_metadata || has_quality)
}

/// `s` with every occurrence of `pat` replaced by `with`, from left to right
/// (`str::replace`).
pub open spec fn replace_all(s: Seq<char>, pat: Seq<char>, with: Seq<char>) -> Seq<char>
    decreases s.len(),
{
    if pat.len() == 0 {
        s
    } else {
        match find_seq(s, pat) {
            Some(k) => if 0 <= k && k + pat.len() <= s.len() {
                s.take(k) + with + replace_all(s.skip(k + pat.len()), pat, with)
            } else {
                s
            },
            None => s,
        }
    }
}

/// `s` with every occurrence of a nonempty `pat` replaced by `with`.
pub fn replace_chars(s: &Vec<char>, pat: &Vec<char>, with: &Vec<char>) -> (r: Vec<char>)
    requires
        pat@.len() > 0,
    ensures
        r@ == replace_all(s@, pat@, with@),
{
    let mut out: Vec<char> = Vec::new();
    let mut rest = copy_chars(s);
    while rest.len() > 0
        invariant
            pat@.len() > 0,
            out@ + replace_all(rest@, pat@, with@) == replace_all(s@, pat@, with@),
        decreases rest@.len(),
    {
        proof {
            crate::text::lemma_find_from(rest@, pat@, 0);
        }
        match find_exec(&rest, pat) {
            Some(k) => {
                assert(crate::text::occurs_at(rest@, pat@, k as int));
                let n = rest.len();
                let before = slice_chars(&rest, 0, k);
                let after = slice_chars(&rest, k + pat.len(), n);
                assert(before@ =~= rest@.take(k as int));
                assert(after@ =~= rest@.skip(k + pat@.len()));
                let ghost old_out = out@;
                append_chars(&mut out, &before);
                append_chars(&mut out, with);
                assert(out@ + replace_all(after@, pat@, with@) =~= old_out + replace_all(rest@, pat@, with@));
                rest = after;
            },
            None => {
                append_chars(&mut out, &rest);
                rest = Vec::new();
                assert(replace_all(rest@, pat@, with@) =~= Seq::<char>::empty());
            },
        }
    }
    proof {
        crate::text::lemma_find_from(rest@, pat@, 0);
        assert(rest@ =~= Seq::<char>::empty());
        assert(out@ + Seq::<char>::empty() =~= out@);
    }
    out
}

/// The metadata line: the size in pixels (its ` × ` tightened to `×`), the
/// format and the file size, each when present, joined by ` · `.
pub open spec fn metadata_line_spec(dimensions: Option<Seq<char>>, format: Seq<char>, size: Seq<char>) -> Seq<char> {
    let parts = (match dimensions {
        Some(d) => seq![replace_all(d, " × "@, "×"@)],
        None => Seq::empty(),
    }) + (if format.len() > 0 {
        seq![format]
    } else {
        Seq::empty()
    }) + (if size.len() > 0 {
        seq![size]
    } else {
        Seq::empty()
    });
    join_seq(parts, " · "@)
}

/// The metadata line of the chip.
pub fn metadata_line(dimensions: Option<&str>, format: &str, size: &str) -> (r: String)
    ensures
        r@ == metadata_line_spec(
            match dimensions {
                Some(d) => Some(d@),
                None => None,
            },
            format@,
            size@,
        ),
{
    let mut parts: Vec<Vec<char>> = Vec::new();
    let ghost mut want: Seq<Seq<char>> = Seq::empty();
    match dimensions {
        Some(d) => {
            let pat = lit(" × ");
            proof {
                reveal_strlit(" × ");
            }
            let tight = replace_chars(&chars_of(d), &pat, &lit("×"));
            parts.push(tight);
            proof {
                want = seq![replace_all(d@, " × "@, "×"@)];
            }
        },
        None => {},
    }
    assert(views(parts@) =~= want);
    if !format.is_empty() {
        parts.push(chars_of(format));
        proof {
            want = want.push(format@);
        }
    }
    assert(views(parts@) =~= want);
    if !size.is_empty() {
        parts.push(chars_of(size));
        proof {
            want = want.push(size@);
        }
    }
    assert(views(parts@) =~= want);
    let ghost dv = match dimensions {
        Some(d) => Some(d@),
        None => None::<Seq<char>>,
    };
    assert(want =~= (match dv {
        Some(d) => seq![replace_all(d, " × "@, "×"@)],
        None => Seq::<Seq<char>>::empty(),
    }) + (if format@.len() > 0 {
        seq![format@]
    } else {
        Seq::<Seq<char>>::empty()
    }) + (if size@.len() > 0 {
        seq![size@]
    } else {
        Seq::<Seq<char>>::empty()
    }));
    string_of(&join_chars(&parts, &lit(" · ")))
}

// ---------------------------------------------------------------------------
// Tag cards
// ---------------------------------------------------------------------------

/// The count line of a tag card: `1 image`, `n images`.
pub open spec fn image_count_spec(count: nat) -> Seq<char> {
    decimal(count) + if count == 1 {
        " image"@
    } else {
        " images"@
    }
}

/// The count line of a tag card.
pub fn image_count_label(count: usize) -> (r: String)
    ensures
        r@ == image_count_spec(count as nat),
{
    let mut v = u64_text(count as u64);
    if count == 1 {
        push_str(&mut v, " image");
    } else {
        push_str(&mut v, " images");
    }
    string_of(&v)
}

// ---------------------------------------------------------------------------
// Collections typed as text
// ---------------------------------------------------------------------------

/// The tags of a collection from its normalized comma-separated pieces:
/// blank pieces dropped, each tag once, in first-seen order.
pub open spec fn collection_tags_spec(pieces: Seq<Seq<char>>) -> Seq<Seq<char>>
    decreases pieces.len(),
{
    if pieces.len() == 0 {
        Seq::empty()
    } else {
        let before = collection_tags_spec(pieces.drop_last());
        let t = pieces.last();
        if t.len() > 0 && !before.contains(t) {
            before.push(t)
        } else {
            before
        }
    }
}

/// The tags of a collection from its normalized pieces.
pub fn collection_tags(pieces: &[String]) -> (r: Vec<String>)
    ensures
        crate::text::string_views(r@) == collection_tags_spec(crate::text::string_views(pieces@)),
{
    let ghost pv = crate::text::string_views(pieces@);
    let mut out: Vec<String> = Vec::new();
    let mut i: usize = 0;
    while i < pieces.len()
        invariant
            i <= pieces@.len(),
            pv == crate::text::string_views(pieces@),
            crate::text::string_views(out@) == collection_tags_spec(pv.take(i as int)),
        decreases pieces@.len() - i,
    {
        let t = pieces[i].as_str();
        assert(pv.take(i + 1).drop_last() =~= pv.take(i as int));
        assert(pv.take(i + 1).last() == t@);
        let ghost before = crate::text::string_views(out@);
        let mut seen = false;
        let mut j: usize = 0;
        while j < out.len()
            invariant
                j <= out@.len(),
                before == crate::text::string_views(out@),
                seen == before.take(j as int).contains(t@),
            decreases out@.len() - j,
        {
            proof {
                assert(before.take(j + 1) =~= before.take(j as int).push(before[j as int]));
                if before.take(j as int).contains(t@) {
                    let w = choose|w: int| 0 <= w < j && before.take(j as int)[w] == t@;
                    assert(before.take(j + 1)[w] == t@);
                }
            }
            if crate::text::str_eq(out[j].as_str(), t) {
                seen = true;
                assert(before.take(j + 1)[j as int] == t@);
            }
            j = j + 1;
        }
        assert(before.take(out@.len() as int) =~= before);
        if !t.is_empty() && !seen {
            out.push(pieces[i].clone());
            assert(crate::text::string_views(out@) =~= before.push(t@));
        }
        i = i + 1;
    }
    assert(pv.take(pieces@.len() as int) =~= pv);
    out
}

// ---------------------------------------------------------------------------
// Libraries and services
// ---------------------------------------------------------------------------

/// How a library reads its folder.
#[derive(Clone, Copy, Debug, PartialEq, Eq, Structural)]
pub enum FolderMode {
    /// Only the images directly in the folder.
    TopLevel,
    /// The images in the folder and its subfolders.
    DrillDown,
}

/// The subtitle of a library row: its folder and how it is read.
pub open spec fn library_subtitle_spec(root: Seq<char>, mode: FolderMode) -> Seq<char> {
    root + "  •  "@ + match mode {
        FolderMode::TopLevel => "Top level only"@,
        FolderMode::DrillDown => "Drill into subfolders"@,
    }
}

/// The subtitle of a library row.
pub fn library_subtitle(root: &str, mode: FolderMode) -> (r: String)
    ensures
        r@ == library_subtitle_spec(root@, mode),
{
    let mut v = chars_of(root);
    push_str(&mut v, "  •  ");
    match mode {
        FolderMode::TopLevel => push_str(&mut v, "Top level only"),
        FolderMode::DrillDown => push_str(&mut v, "Drill into subfolders"),
    }
    string_of(&v)
}

/// The folder mode chosen in the new-library dialog.
pub fn chosen_folder_mode(drill_down: bool) -> (r: FolderMode)
    ensures
        r == if drill_down {
            FolderMode::DrillDown
        } else {
            FolderMode::TopLevel
        },
{
    if drill_down {
        FolderMode::DrillDown
    } else {
        FolderMode::TopLevel
    }
}

/// The title and confirm button of the library editor: editing an existing
/// library, or creating one.
pub fn library_editor_labels(editing: bool) -> (r: (&'static str, &'static str))
    ensures
        r.0@ == if editing {
            "Edit Library"@
        } else {
            "Create Library"@
        },
        r.1@ == if editing {
            "Save"@
        } else {
            "Create"@
        },
{
    if editing {
        ("Edit Library", "Save")
    } else {
        ("Create Library", "Create")
    }
}

/// What the new-library dialog reports: success, or the error met.
pub fn library_created_message(result: Result<(), String>) -> (r: String)
    ensures
        r@ == match result {
            Ok(_) => "Library created"@,
            Err(e) => e@,
        },
{
    match result {
        Ok(_) => string_of(&lit("Library created")),
        Err(e) => e,
    }
}

/// The body of the dialog confirming a collection's deletion.
pub fn delete_collection_message(name: &str) -> (r: String)
    ensures
        r@ == "\u{201c}"@ + name@
            + "\u{201d} and any child collections will be removed from the sidebar. Image tags are left unchanged."@,
{
    let mut v = lit("\u{201c}");
    push_str(&mut v, name);
    push_str(&mut v, "\u{201d} and any child collections will be removed from the sidebar. Image tags are left unchanged.");
    string_of(&v)
}

/// What the new-collection dialog reports: the created collection's name in
/// quotation marks, or the error met.
pub fn collection_created_message(result: Result<&str, &str>) -> (r: String)
    ensures
        r@ == match result {
            Ok(name) => "Collection \u{201c}"@ + name@ + "\u{201d} created"@,
            Err(e) => "Could not create collection: "@ + e@,
        },
{
    match result {
        Ok(name) => {
            let mut v = lit("Collection \u{201c}");
            push_str(&mut v, name);
            push_str(&mut v, "\u{201d} created");
            string_of(&v)
        },
        Err(e) => {
            let mut v = lit("Could not create collection: ");
            push_str(&mut v, e);
            string_of(&v)
        },
    }
}

/// Whether a service address points at this machine: blank, or (after an
/// `http://` or `https://`) starting with `localhost`, `127.0.0.1` or `::1`.
pub open spec fn is_local_url_spec(url: Seq<char>) -> bool {
    let t = trim_seq(url);
    let rest = if has_prefix(t, "http://"@) {
        t.skip(7)
    } else if has_prefix(t, "https://"@) {
        t.skip(8)
    } else {
        t
    };
    t.len() == 0 || has_prefix(rest, "localhost"@) || has_prefix(rest, "127.0.0.1"@) || has_prefix(rest, "::1"@)
}

/// Whether a service address points at this machine.
pub fn is_local_url(url: &str) -> (r: bool)
    ensures
        r == is_local_url_spec(url@),
{
    let t = trim_str(url);
    if t.len() == 0 {
        return true;
    }
    proof {
        reveal_strlit("http://");
        reveal_strlit("https://");
    }
    let n = t.len();
    let rest = if has_prefix_exec(&t, &lit("http://")) {
        slice_chars(&t, 7, n)
    } else if has_prefix_exec(&t, &lit("https://")) {
        slice_chars(&t, 8, n)
    } else {
        copy_chars(&t)
    };
    assert(has_prefix(t@, "http://"@) ==> rest@ =~= t@.skip(7));
    assert(!has_prefix(t@, "http://"@) && has_prefix(t@, "https://"@) ==> rest@ =~= t@.skip(8));
    has_prefix_exec(&rest, &lit("localhost")) || has_prefix_exec(&rest, &lit("127.0.0.1")) || has_prefix_exec(&rest, &lit("::1"))
}

/// The switch entries of the library menu: one per library when there are
/// several (the active one marked by two trailing spaces), none otherwise.
pub open spec fn library_menu_spec(names: Seq<Seq<char>>, active: Seq<bool>) -> Seq<Seq<char>> {
    if names.len() > 1 {
        Seq::new(names.len(), |i: int| "Switch to "@ + names[i] + if active[i] {
            "  "@
        } else {
            Seq::<char>::empty()
        })
    } else {
        Seq::empty()
    }
}

/// The switch entries of the library menu; `libraries` holds each library's
/// id and name, `active_id` the active library's id.
pub fn library_menu_labels(libraries: &[(String, String)], active_id: Option<&str>) -> (r: Vec<String>)
    ensures
        crate::text::string_views(r@) == library_menu_spec(
            libraries@.map_values(|l: (String, String)| l.1@),
            libraries@.map_values(|l: (String, String)| match active_id {
                Some(a) => l.0@ == a@,
                None => false,
            }),
        ),
{
    let ghost names = libraries@.map_values(|l: (String, String)| l.1@);
    let ghost act = libraries@.map_values(|l: (String, String)| match active_id {
        Some(a) => l.0@ == a@,
        None => false,
    });
    let mut out: Vec<String> = Vec::new();
    if libraries.len() > 1 {
        let mut i: usize = 0;
        while i < libraries.len()
            invariant
                i <= libraries@.len(),
                libraries@.len() > 1,
                names == libraries@.map_values(|l: (String, String)| l.1@),
                act == libraries@.map_values(|l: (String, String)| match active_id {
                    Some(a) => l.0@ == a@,
                    None => false,
                }),
                crate::text::string_views(out@) == library_menu_spec(names, act).take(i as int),
            decreases libraries@.len() - i,
        {
            let mut v = lit("Switch to ");
            push_str(&mut v, libraries[i].1.as_str());
            let is_active = match active_id {
                Some(a) => crate::text::str_eq(libraries[i].0.as_str(), a),
                None => false,
            };
            if is_active {
                push_str(&mut v, "  ");
            } else {
                assert(v@ + Seq::<char>::empty() =~= v@);
            }
            assert(names[i as int] == libraries@[i as int].1@);
            assert(act[i as int] == is_active);
            let ghost prev = out@;
            out.push(string_of(&v));
            assert(crate::text::string_views(out@) =~= crate::text::string_views(prev).push(v@));
            assert(library_menu_spec(names, act)[i as int] == v@);
            i = i + 1;
            assert(crate::text::string_views(out@) =~= library_menu_spec(names, act).take(i as int));
        }
        assert(library_menu_spec(names, act).take(libraries@.len() as int) =~= library_menu_spec(names, act));
    } else {
        assert(crate::text::string_views(out@) =~= library_menu_spec(names, act));
    }
    out
}

/// The name shown for the active library, `Library` without one.
pub fn active_library_name(name: Option<&str>) -> (r: String)
    ensures
        r@ == match name {
            Some(n) => n@,
            None => "Library"@,
        },
{
    match name {
        Some(n) => string_of(&chars_of(n)),
        None => string_of(&lit("Library")),
    }
}

/// A line typed into an entry (a new tag, the upscaler's program path):
/// trimmed, none when blank.
pub fn entered_text(text: &str) -> (r: Option<String>)
    ensures
        crate::paths::opt_string_view(r) == if trim_seq(text@).len() == 0 {
            None
        } else {
            Some(trim_seq(text@))
        },
{
    let t = trim_str(text);
    if t.len() == 0 {
        None
    } else {
        Some(string_of(&t))
    }
}

/// What the connection test reports: success, or the error met.
pub fn connection_test_message(result: Result<(), String>) -> (r: String)
    ensures
        r@ == match result {
            Ok(_) => "ComfyUI is reachable!"@,
            Err(e) => e@,
        },
{
    match result {
        Ok(_) => string_of(&lit("ComfyUI is reachable!")),
        Err(e) => e,
    }
}

} // verus!
