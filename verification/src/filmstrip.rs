//! The filmstrip of images: which thumbnails to make first as it scrolls,
//! and the set of images picked for a collection action.
use vstd::prelude::*;
use crate::strset::{lemma_lt_irreflexive, set_contains, set_insert, set_remove, sorted_strict, str_lt};
use crate::text::{copy_chars, copy_prefix, views};

verus! {

// ---------------------------------------------------------------------------
// Thumbnail scheduling
// ---------------------------------------------------------------------------

/// Rows kept loaded around the visible ones, above and below.
pub const BUFFER_ROWS: u32 = 2000;

/// Rows treated as visible while the view has no size yet.
pub const FALLBACK_VISIBLE_ROWS: u32 = 40;

/// The rows whose thumbnails are wanted: the visible ones first, then the
/// ones around them. `visible` says whether any row counts as visible.
#[derive(Clone, Copy, Debug, PartialEq, Eq, Structural)]
pub struct ThumbnailRanges {
    pub visible_start: u32,
    pub visible_end: u32,
    pub preload_start: u32,
    pub preload_end: u32,
    pub visible: bool,
}

/// `a + b`, or the largest `u32` when that overflows.
pub open spec fn sat_add(a: u32, b: u32) -> u32 {
    if a + b > u32::MAX {
        u32::MAX
    } else {
        (a + b) as u32
    }
}

/// `a - b`, or `0` when that is negative.
pub open spec fn sat_sub(a: u32, b: u32) -> u32 {
    if a < b {
        0
    } else {
        (a - b) as u32
    }
}

/// The smaller of two numbers.
pub open spec fn min_u32(a: u32, b: u32) -> u32 {
    if a <= b {
        a
    } else {
        b
    }
}

/// The rows wanted when the first visible row is `start`, `rows` rows show
/// and there are `count` images: the visible rows and `BUFFER_ROWS` more on
/// each side, capped at the count. When no row shows, or the visible rows
/// are past the end, the first `FALLBACK_VISIBLE_ROWS` rows stand in for
/// them (visible only when the view has rows).
pub open spec fn thumbnail_ranges_spec(start: u32, rows: u32, count: u32) -> ThumbnailRanges {
    let visible_end = min_u32(sat_add(start, rows), count);
    if rows == 0 || visible_end <= start {
        ThumbnailRanges {
            visible_start: 0,
            visible_end: min_u32(FALLBACK_VISIBLE_ROWS, count),
            preload_start: 0,
            preload_end: min_u32(sat_add(FALLBACK_VISIBLE_ROWS, BUFFER_ROWS), count),
            visible: rows > 0,
        }
    } else {
        ThumbnailRanges {
            visible_start: start,
            visible_end: visible_end,
            preload_start: sat_sub(start, BUFFER_ROWS),
            preload_end: min_u32(sat_add(sat_add(start, rows), BUFFER_ROWS), count),
            visible: true,
        }
    }
}

/// The rows whose thumbnails are wanted.
pub fn thumbnail_ranges(start: u32, rows: u32, count: u32) -> (r: ThumbnailRanges)
    ensures
        r == thumbnail_ranges_spec(start, rows, count),
{
    let visible_end = start.saturating_add(rows);
    let capped = if visible_end < count {
        visible_end
    } else {
        count
    };
    if rows == 0 || capped <= start {
        let fallback_end = if FALLBACK_VISIBLE_ROWS < count {
            FALLBACK_VISIBLE_ROWS
        } else {
            count
        };
        let preload = FALLBACK_VISIBLE_ROWS.saturating_add(BUFFER_ROWS);
        ThumbnailRanges {
            visible_start: 0,
            visible_end: fallback_end,
            preload_start: 0,
            preload_end: if preload < count {
                preload
            } else {
                count
            },
            visible: rows > 0,
        }
    } else {
        let preload = visible_end.saturating_add(BUFFER_ROWS);
        ThumbnailRanges {
            visible_start: start,
            visible_end: capped,
            preload_start: start.saturating_sub(BUFFER_ROWS),
            preload_end: if preload < count {
                preload
            } else {
                count
            },
            visible: true,
        }
    }
}

/// Whether row `i` counts as visible.
pub open spec fn row_visible(r: ThumbnailRanges, i: int) -> bool {
    r.visible && r.visible_start <= i < r.visible_end
}

/// The rows of `from..to` whose thumbnail is missing and that meet `vis`
/// (visible or not), in order.
pub open spec fn missing_rows(r: ThumbnailRanges, missing: Seq<bool>, from: int, to: int, vis: bool) -> Seq<u32>
    decreases to - from,
{
    if to <= from {
        Seq::empty()
    } else {
        let rest = missing_rows(r, missing, from, to - 1, vis);
        if missing[to - 1] && row_visible(r, to - 1) == vis {
            rest.push((to - 1) as u32)
        } else {
            rest
        }
    }
}

/// The rows to make thumbnails for, visible ones and the others, each in
/// order; `missing[i]` says whether row `i` lacks a thumbnail.
pub fn thumbnail_requests(r: ThumbnailRanges, missing: &[bool]) -> (out: (Vec<u32>, Vec<u32>))
    requires
        r.preload_end <= missing@.len(),
    ensures
        out.0@ == missing_rows(r, missing@, r.preload_start as int, r.preload_end as int, true),
        out.1@ == missing_rows(r, missing@, r.preload_start as int, r.preload_end as int, false),
{
    let mut vis: Vec<u32> = Vec::new();
    let mut pre: Vec<u32> = Vec::new();
    let mut i: u32 = r.preload_start;
    if r.preload_end <= r.preload_start {
        return (vis, pre);
    }
    while i < r.preload_end
        invariant
            r.preload_start <= i <= r.preload_end,
            r.preload_end <= missing@.len(),
            vis@ == missing_rows(r, missing@, r.preload_start as int, i as int, true),
            pre@ == missing_rows(r, missing@, r.preload_start as int, i as int, false),
        decreases r.preload_end - i,
    {
        if missing[i as usize] {
            let is_visible = r.visible && r.visible_start <= i && i < r.visible_end;
            if is_visible {
                vis.push(i);
            } else {
                pre.push(i);
            }
        }
        i = i + 1;
    }
    (vis, pre)
}

// ---------------------------------------------------------------------------
// Thumbnails waiting for a worker
// ---------------------------------------------------------------------------

/// The images whose thumbnails were handed to a worker and are not ready
/// yet, as a sorted set of paths. An image is handed out once until its
/// thumbnail is ready or its request is refused.
pub struct PendingThumbnails {
    pub paths: Vec<Vec<char>>,
}

impl PendingThumbnails {
    /// The paths are sorted and each is there once.
    pub open spec fn wf(&self) -> bool {
        sorted_strict(views(self.paths@))
    }

    /// The pending paths.
    pub open spec fn set_view(&self) -> Set<Seq<char>> {
        views(self.paths@).to_set()
    }

    /// Nothing pending.
    pub fn new() -> (r: Self)
        ensures
            r.wf(),
            r.set_view() == Set::<Seq<char>>::empty(),
    {
        let r = PendingThumbnails { paths: Vec::new() };
        assert(r.set_view() =~= Set::<Seq<char>>::empty());
        r
    }

    /// Claims `path` for a request: it becomes pending, and the request is
    /// to be sent only when it was not pending already.
    pub fn claim(&mut self, path: &Vec<char>) -> (send: bool)
        requires
            old(self).wf(),
        ensures
            final(self).wf(),
            final(self).set_view() == old(self).set_view().insert(path@),
            send == !old(self).set_view().contains(path@),
    {
        proof {
            assert(views(self.paths@).contains(path@) <==> self.set_view().contains(path@));
        }
        set_insert(&mut self.paths, copy_chars(path))
    }

    /// After the request for a claimed `path` was sent or refused: a refused
    /// request gives the claim back and ends the batch; the batch goes on
    /// after a sent one.
    pub fn after_send(&mut self, path: &Vec<char>, sent: bool) -> (go_on: bool)
        requires
            old(self).wf(),
        ensures
            final(self).wf(),
            final(self).set_view() == if sent {
                old(self).set_view()
            } else {
                old(self).set_view().remove(path@)
            },
            go_on == sent,
    {
        if !sent {
            set_remove(&mut self.paths, path);
        }
        sent
    }

    /// The thumbnail of `path` is ready: it is no longer pending.
    pub fn mark_ready(&mut self, path: &Vec<char>)
        requires
            old(self).wf(),
        ensures
            final(self).wf(),
            final(self).set_view() == old(self).set_view().remove(path@),
    {
        set_remove(&mut self.paths, path);
    }
}

/// A request claimed and then refused leaves the pending set as it was.
pub proof fn lemma_refused_claim_undone(s: Set<Seq<char>>, path: Seq<char>)
    requires
        !s.contains(path),
    ensures
        s.insert(path).remove(path) == s,
{
    assert(s.insert(path).remove(path) =~= s);
}

// ---------------------------------------------------------------------------
// Images picked for a collection action
// ---------------------------------------------------------------------------

/// The images picked for a collection action, as a sorted set of paths.
pub struct PathSelection {
    pub paths: Vec<Vec<char>>,
}

impl PathSelection {
    /// The paths are sorted and each is there once.
    pub open spec fn wf(&self) -> bool {
        sorted_strict(views(self.paths@))
    }

    /// The picked paths.
    pub open spec fn set_view(&self) -> Set<Seq<char>> {
        views(self.paths@).to_set()
    }

    /// Nothing picked.
    pub fn new() -> (r: Self)
        ensures
            r.wf(),
            r.set_view() == Set::<Seq<char>>::empty(),
    {
        let r = PathSelection { paths: Vec::new() };
        assert(r.set_view() =~= Set::<Seq<char>>::empty());
        r
    }

    /// Drops every pick.
    pub fn clear_multi_selection(&mut self)
        ensures
            final(self).wf(),
            final(self).set_view() == Set::<Seq<char>>::empty(),
    {
        self.paths = Vec::new();
        assert(self.set_view() =~= Set::<Seq<char>>::empty());
    }

    /// Whether a path is picked.
    pub fn contains(&self, path: &Vec<char>) -> (r: bool)
        ensures
            r == self.set_view().contains(path@),
    {
        set_contains(&self.paths, path)
    }

    /// Picks exactly `path`, or nothing when it is not in the library.
    pub fn set_action_selection_to_path(&mut self, path: &Vec<char>, in_library: bool)
        ensures
            final(self).wf(),
            final(self).set_view() == if in_library {
                Set::<Seq<char>>::empty().insert(path@)
            } else {
                Set::<Seq<char>>::empty()
            },
    {
        self.paths = Vec::new();
        assert(views(self.paths@) =~= Seq::<Seq<char>>::empty());
        if in_library {
            let _ = set_insert(&mut self.paths, copy_chars(path));
        }
        assert(self.set_view() =~= if in_library {
            Set::<Seq<char>>::empty().insert(path@)
        } else {
            Set::<Seq<char>>::empty()
        });
    }

    /// Toggles the pick of `path`. With nothing picked, the image shown
    /// (`current`) is picked first; a path outside the library is never
    /// added.
    pub fn toggle_action_selection_path(&mut self, path: &Vec<char>, current: Option<&Vec<char>>, in_library: bool)
        requires
            old(self).wf(),
        ensures
            final(self).wf(),
            final(self).set_view() == toggle_spec(
                old(self).set_view(),
                path@,
                match current {
                    Some(c) => Some(c@),
                    None => None,
                },
                in_library,
            ),
    {
        proof {
            if self.paths@.len() > 0 {
                assert(views(self.paths@).to_set().contains(views(self.paths@)[0]));
            }
        }
        if self.paths.len() == 0 {
            assert(self.set_view() =~= Set::<Seq<char>>::empty());
            match current {
                Some(c) => {
                    let _ = set_insert(&mut self.paths, copy_chars(c));
                },
                None => {},
            }
        }
        let ghost mid = self.set_view();
        if set_contains(&self.paths, path) {
            set_remove(&mut self.paths, path);
        } else if in_library {
            let _ = set_insert(&mut self.paths, copy_chars(path));
        }
    }

    /// The paths a collection action applies to: every picked path when the
    /// clicked one is among them, else just the clicked one.
    pub fn collection_action_paths(&self, clicked: &Vec<char>) -> (r: Vec<Vec<char>>)
        requires
            self.wf(),
        ensures
            self.set_view().contains(clicked@) ==> views(r@) == views(self.paths@),
            !self.set_view().contains(clicked@) ==> views(r@) == seq![clicked@],
    {
        if self.paths.len() > 0 && set_contains(&self.paths, clicked) {
            let out = copy_prefix(&self.paths, self.paths.len());
            assert(views(self.paths@).take(self.paths@.len() as int) =~= views(self.paths@));
            out
        } else {
            let mut out: Vec<Vec<char>> = Vec::new();
            out.push(copy_chars(clicked));
            assert(views(out@) =~= seq![clicked@]);
            out
        }
    }

    /// Whether picked images are marked: only when more than one is picked.
    pub fn show_multi(&self) -> (r: bool)
        requires
            self.wf(),
        ensures
            r == (self.set_view().len() > 1),
    {
        proof {
            let s = views(self.paths@);
            assert forall|i: int, j: int| 0 <= i < s.len() && 0 <= j < s.len() && i != j implies s[i] != s[j] by {
                if i < j {
                    lemma_lt_irreflexive(s[i]);
                } else {
                    lemma_lt_irreflexive(s[j]);
                }
            }
            s.unique_seq_to_set();
        }
        self.paths.len() > 1
    }

    /// Whether the item showing `path` is marked as picked.
    pub fn is_marked(&self, path: &Vec<char>) -> (r: bool)
        requires
            self.wf(),
        ensures
            r == (self.set_view().len() > 1 && self.set_view().contains(path@)),
    {
        self.show_multi() && self.contains(path)
    }
}

/// The picks after toggling `path`.
pub open spec fn toggle_spec(s: Set<Seq<char>>, path: Seq<char>, current: Option<Seq<char>>, in_library: bool) -> Set<Seq<char>> {
    let start = if s.is_empty() {
        match current {
            Some(c) => s.insert(c),
            None => s,
        }
    } else {
        s
    };
    if start.contains(path) {
        start.remove(path)
    } else if in_library {
        start.insert(path)
    } else {
        start
    }
}

/// Toggling a library image that is not picked, twice, while something is
/// picked, leaves the picks as they were.
pub proof fn lemma_toggle_twice(s: Set<Seq<char>>, path: Seq<char>, current: Option<Seq<char>>)
    requires
        !s.is_empty(),
        !s.contains(path),
    ensures
        toggle_spec(toggle_spec(s, path, current, true), path, current, true) == s,
{
    let once = toggle_spec(s, path, current, true);
    assert(once == s.insert(path));
    assert(once.contains(path));
    assert(!once.is_empty());
    assert(once.remove(path) =~= s);
}

/// The text dragged from the filmstrip: the paths, one per line.
pub fn drag_payload(paths: &Vec<Vec<char>>) -> (r: String)
    ensures
        r@ == crate::text::join_seq(views(paths@), seq!['\n']),
{
    let sep = vec!['\n'];
    assert(sep@ =~= seq!['\n']);
    crate::text::string_of(&crate::text::join_chars(paths, &sep))
}

/// The number shown on a filmstrip item: its position counted from one.
pub fn position_label(position: u32) -> (r: String)
    requires
        position < u32::MAX,
    ensures
        r@ == crate::text::decimal(position as nat + 1),
{
    crate::text::string_of(&crate::text::u64_text((position + 1) as u64))
}

/// The collection entries of an item's menu: adding needs a library index;
/// removing shows, and works, only inside a collection.
pub fn collection_menu_state(has_library_index: bool, in_collection: bool) -> (r: (bool, bool, bool))
    ensures
        r == (has_library_index, in_collection, in_collection),
{
    (has_library_index, in_collection, in_collection)
}

} // verus!
