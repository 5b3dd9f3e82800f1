//! The tag browser's model: tags grouped under their initial, filtered by a
//! search query, and a selection that follows plain, Ctrl and Shift clicks.
use vstd::prelude::*;
use crate::sort::{is_stable_sort_of, lemma_filter_take_step, stable_sort_positions, stable_sorted_by, usize_seq_as_int};
use crate::strset::{char_vecs_of, set_contains, set_extend, set_insert, set_of, set_remove, sorted_strict, strings_of};
use crate::text::{
    ascii_upper, ascii_upper_char, chars_of, contains_exec, contains_seq, copy_chars, is_ascii_alpha,
    lower_chars, lowercase_of, string_of, string_views, trim_seq, trim_str, views,
};

verus! {

/// One tag as the browser shows it.
#[derive(Debug, PartialEq, Eq)]
pub struct TagViewModel {
    pub name: String,
    pub count: usize,
    pub group_key: char,
    pub accent_color: Option<String>,
    pub preview_path: Option<String>,
    pub selected: bool,
}

/// Copies an optional string.
pub fn clone_opt_string(o: &Option<String>) -> (r: Option<String>)
    ensures
        r == *o,
{
    match o {
        Some(s) => Some(s.clone()),
        None => None,
    }
}

impl Clone for TagViewModel {
    fn clone(&self) -> (r: Self)
        ensures
            r == *self,
    {
        TagViewModel {
            name: self.name.clone(),
            count: self.count,
            group_key: self.group_key,
            accent_color: clone_opt_string(&self.accent_color),
            preview_path: clone_opt_string(&self.preview_path),
            selected: self.selected,
        }
    }
}

/// The tags that share one group key, in display order.
#[derive(Debug, PartialEq, Eq)]
pub struct TagGroup {
    pub key: char,
    pub tags: Vec<TagViewModel>,
}

/// Which modifier keys were held during a click.
#[derive(Clone, Copy, Debug, PartialEq, Eq)]
pub struct SelectionModifiers {
    pub ctrl: bool,
    pub shift: bool,
}

impl Default for SelectionModifiers {
    fn default() -> (r: Self)
        ensures
            !r.ctrl && !r.shift,
    {
        SelectionModifiers { ctrl: false, shift: false }
    }
}

/// What the browser reports after the selection changed.
#[derive(Debug, PartialEq, Eq)]
pub struct TagActivation {
    pub tags: Vec<String>,
    pub focus_viewer: bool,
}

/// The selection after a click: the selected tags in ascending order, and
/// the anchor of later Shift-clicks.
#[derive(Debug, PartialEq, Eq)]
pub struct SelectionUpdate {
    pub selected_tags: Vec<String>,
    pub anchor: Option<String>,
}

// ---------------------------------------------------------------------------
// Group keys
// ---------------------------------------------------------------------------

/// The group of a tag: its first character in ASCII uppercase when that is an
/// ASCII letter, `#` otherwise.
pub open spec fn group_key_spec(tag: Seq<char>) -> char {
    if tag.len() > 0 && is_ascii_alpha(ascii_upper(tag[0])) {
        ascii_upper(tag[0])
    } else {
        '#'
    }
}

/// The group key of a tag name.
pub fn group_key_for_tag(tag: &str) -> (r: char)
    ensures
        r == group_key_spec(tag@),
{
    let cs = chars_of(tag);
    if cs.len() == 0 {
        return '#';
    }
    let u = ascii_upper_char(cs[0]);
    if ('A' <= u && u <= 'Z') || ('a' <= u && u <= 'z') {
        u
    } else {
        '#'
    }
}

// ---------------------------------------------------------------------------
// Filtering and grouping
// ---------------------------------------------------------------------------

/// The search text as it is matched: trimmed and lowercased.
pub open spec fn query_key(query: Seq<char>) -> Seq<char> {
    lowercase_of(trim_seq(query))
}

/// A tag is shown for a query when the query is empty or its lowercased name
/// contains the query.
pub open spec fn tag_matches(t: TagViewModel, q: Seq<char>) -> bool {
    q.len() == 0 || contains_seq(lowercase_of(t.name@), q)
}

/// The tags shown for query key `q`, in their original order.
pub open spec fn matching_tags(tags: Seq<TagViewModel>, q: Seq<char>) -> Seq<TagViewModel> {
    tags.filter(|t: TagViewModel| tag_matches(t, q))
}

/// The tags with group key `k`, in order.
pub open spec fn tags_with_key(tags: Seq<TagViewModel>, k: char) -> Seq<TagViewModel> {
    tags.filter(|t: TagViewModel| t.group_key == k)
}

/// The sort keys of tags: their lowercased names.
pub open spec fn lower_names(tags: Seq<TagViewModel>) -> Seq<Seq<char>> {
    tags.map_values(|t: TagViewModel| lowercase_of(t.name@))
}

/// The groups for query key `q`: one per group key of the shown tags, keys
/// ascending; each holds the shown tags with its key, stably sorted by
/// lowercased name.
pub open spec fn groups_for(tags: Seq<TagViewModel>, q: Seq<char>, groups: Seq<TagGroup>) -> bool {
    let shown = matching_tags(tags, q);
    &&& forall|i: int, j: int| 0 <= i < j < groups.len() ==> groups[i].key < groups[j].key
    &&& forall|i: int|
        0 <= i < groups.len() ==> {
            let members = tags_with_key(shown, #[trigger] groups[i].key);
            &&& members.len() > 0
            &&& is_stable_sort_of(members, lower_names(members), groups[i].tags@)
        }
    &&& forall|t: int| 0 <= t < shown.len() ==> has_group(groups, #[trigger] shown[t].group_key)
}

/// Some group has key `k`.
pub open spec fn has_group(groups: Seq<TagGroup>, k: char) -> bool {
    exists|i: int| 0 <= i < groups.len() && #[trigger] groups[i].key == k
}

/// Inserts `c` into a strictly ascending character list.
fn char_set_insert(keys: &mut Vec<char>, c: char)
    requires
        forall|i: int, j: int| 0 <= i < j < old(keys)@.len() ==> old(keys)@[i] < old(keys)@[j],
    ensures
        forall|i: int, j: int| 0 <= i < j < final(keys)@.len() ==> final(keys)@[i] < final(keys)@[j],
        final(keys)@.to_set() == old(keys)@.to_set().insert(c),
{
    let ghost k0 = keys@;
    let mut p: usize = 0;
    while p < keys.len() && keys[p] < c
        invariant
            p <= keys.len(),
            keys@ == k0,
            forall|k: int| 0 <= k < p ==> k0[k] < c,
        decreases keys.len() - p,
    {
        p = p + 1;
    }
    if p < keys.len() && keys[p] == c {
        assert(k0.contains(c));
        assert(k0.to_set().insert(c) =~= k0.to_set());
        return;
    }
    keys.insert(p, c);
    proof {
        let k1 = keys@;
        assert(k1 =~= k0.insert(p as int, c));
        assert forall|i: int, j: int| 0 <= i < j < k1.len() implies k1[i] < k1[j] by {
            if j < p {
            } else if j == p {
            } else if i < p {
                assert(k1[j] == k0[j - 1]);
            } else if i == p {
                assert(k1[j] == k0[j - 1]);
            } else {
                assert(k1[i] == k0[i - 1]);
                assert(k1[j] == k0[j - 1]);
            }
        }
        assert(k1.to_set() =~= k0.to_set().insert(c)) by {
            assert forall|y: char| k1.to_set().contains(y) <==> k0.to_set().insert(c).contains(
                y,
            ) by {
                if k1.contains(y) {
                    let k = choose|k: int| 0 <= k < k1.len() && k1[k] == y;
                    if k < p {
                        assert(k0[k] == y);
                    } else if k > p {
                        assert(k0[k - 1] == y);
                    }
                }
                if k0.contains(y) {
                    let k = choose|k: int| 0 <= k < k0.len() && k0[k] == y;
                    if k < p {
                        assert(k1[k] == y);
                    } else {
                        assert(k1[k + 1] == y);
                    }
                }
                if y == c {
                    assert(k1[p as int] == y);
                }
            }
        }
    }
}

/// The tags of `shown` whose key is `k`, as copies.
fn members_with_key(shown: &Vec<TagViewModel>, k: char) -> (out: Vec<TagViewModel>)
    ensures
        out@ == tags_with_key(shown@, k),
{
    let mut out: Vec<TagViewModel> = Vec::new();
    let mut i: usize = 0;
    while i < shown.len()
        invariant
            i <= shown.len(),
            out@ == shown@.take(i as int).filter(|t: TagViewModel| t.group_key == k),
        decreases shown.len() - i,
    {
        proof {
            lemma_filter_take_step(shown@, |t: TagViewModel| t.group_key == k, i as int);
        }
        if shown[i].group_key == k {
            out.push(shown[i].clone());
        }
        i = i + 1;
    }
    assert(shown@.take(shown.len() as int) =~= shown@);
    out
}

/// The members arranged in a stable sort by lowercased name.
fn sorted_by_lower_name(members: &Vec<TagViewModel>) -> (out: Vec<TagViewModel>)
    ensures
        is_stable_sort_of(members@, lower_names(members@), out@),
{
    let mut keys: Vec<Vec<char>> = Vec::new();
    let mut i: usize = 0;
    while i < members.len()
        invariant
            i <= members.len(),
            views(keys@) == lower_names(members@).take(i as int),
        decreases members.len() - i,
    {
        let name = chars_of(members[i].name.as_str());
        let l = lower_chars(&name);
        let ghost before = views(keys@);
        keys.push(l);
        assert(views(keys@) =~= before.push(l@));
        assert(views(keys@) =~= lower_names(members@).take(i + 1));
        i = i + 1;
    }
    assert(lower_names(members@).take(members.len() as int) =~= lower_names(members@));
    let perm = stable_sort_positions(&keys);
    let ghost p = usize_seq_as_int(perm@);
    let mut out: Vec<TagViewModel> = Vec::new();
    let mut j: usize = 0;
    while j < perm.len()
        invariant
            j <= perm.len(),
            p == usize_seq_as_int(perm@),
            stable_sorted_by(lower_names(members@), p),
            out@ == p.take(j as int).map_values(|x: int| members@[x]),
        decreases perm.len() - j,
    {
        assert(p[j as int] == perm@[j as int] as int);
        let t = members[perm[j]].clone();
        out.push(t);
        assert(out@ =~= p.take(j + 1).map_values(|x: int| members@[x]));
        j = j + 1;
    }
    assert(p.take(perm.len() as int) =~= p);
    assert(out@ == p.map_values(|x: int| members@[x]));
    out
}

/// The tags shown for `query`, grouped by key in ascending key order, each
/// group stably sorted by lowercased name.
pub fn filter_and_group_tags(tags: &[TagViewModel], query: &str) -> (out: Vec<TagGroup>)
    ensures
        groups_for(tags@, query_key(query@), out@),
{
    let trimmed = trim_str(query);
    let q = lower_chars(&trimmed);
    let ghost qk = q@;
    // The shown tags, in order.
    let mut shown: Vec<TagViewModel> = Vec::new();
    let mut i: usize = 0;
    while i < tags.len()
        invariant
            i <= tags.len(),
            q@ == qk,
            shown@ == tags@.take(i as int).filter(|t: TagViewModel| tag_matches(t, qk)),
        decreases tags.len() - i,
    {
        proof {
            lemma_filter_take_step(tags@, |t: TagViewModel| tag_matches(t, qk), i as int);
        }
        let keep = if q.len() == 0 {
            true
        } else {
            let name = chars_of(tags[i].name.as_str());
            let lname = lower_chars(&name);
            contains_exec(&lname, &q)
        };
        if keep {
            shown.push(tags[i].clone());
        }
        i = i + 1;
    }
    assert(tags@.take(tags.len() as int) =~= tags@);
    let ghost sh = shown@;
    assert(sh == matching_tags(tags@, qk));
    assert(qk == query_key(query@));
    // The distinct group keys, ascending.
    let mut keys: Vec<char> = Vec::new();
    let mut k: usize = 0;
    while k < shown.len()
        invariant
            k <= shown.len(),
            shown@ == sh,
            forall|a: int, b: int| 0 <= a < b < keys@.len() ==> keys@[a] < keys@[b],
            keys@.to_set() == sh.take(k as int).map_values(|t: TagViewModel| t.group_key).to_set(),
        decreases shown.len() - k,
    {
        let ghost before = sh.take(k as int).map_values(|t: TagViewModel| t.group_key);
        char_set_insert(&mut keys, shown[k].group_key);
        proof {
            assert(sh.take(k + 1).map_values(|t: TagViewModel| t.group_key) =~= before.push(
                sh[k as int].group_key,
            ));
            before.lemma_push_to_set_commute(sh[k as int].group_key);
        }
        k = k + 1;
    }
    assert(sh.take(sh.len() as int) =~= sh);
    let ghost key_set = sh.map_values(|t: TagViewModel| t.group_key).to_set();
    // One group per key.
    let mut out: Vec<TagGroup> = Vec::new();
    let mut g: usize = 0;
    while g < keys.len()
        invariant
            g <= keys.len(),
            shown@ == sh,
            forall|a: int, b: int| 0 <= a < b < keys@.len() ==> keys@[a] < keys@[b],
            keys@.to_set() == key_set,
            key_set == sh.map_values(|t: TagViewModel| t.group_key).to_set(),
            sh == matching_tags(tags@, qk),
            qk == query_key(query@),
            out.len() == g,
            forall|a: int| 0 <= a < g ==> (#[trigger] out@[a]).key == keys@[a],
            forall|a: int|
                0 <= a < g ==> {
                    let members = tags_with_key(sh, (#[trigger] out@[a]).key);
                    &&& members.len() > 0
                    &&& is_stable_sort_of(members, lower_names(members), out@[a].tags@)
                },
        decreases keys.len() - g,
    {
        let key = keys[g];
        let members = members_with_key(&shown, key);
        proof {
            assert(keys@.to_set().contains(key));
            let km = sh.map_values(|t: TagViewModel| t.group_key);
            assert(km.to_set().contains(key));
            let t = choose|t: int| 0 <= t < km.len() && #[trigger] km[t] == key;
            assert(sh[t].group_key == key);
            sh.lemma_filter_contains(|t: TagViewModel| t.group_key == key, t);
            assert(sh.filter(|t: TagViewModel| t.group_key == key).contains(sh[t]));
        }
        let sorted = sorted_by_lower_name(&members);
        out.push(TagGroup { key, tags: sorted });
        g = g + 1;
    }
    proof {
        assert forall|i: int, j: int| 0 <= i < j < out@.len() implies out@[i].key < out@[j].key by {
            assert(out@[i].key == keys@[i]);
            assert(out@[j].key == keys@[j]);
        }
        assert forall|i: int| 0 <= i < out@.len() implies {
            let members = tags_with_key(sh, #[trigger] out@[i].key);
            &&& members.len() > 0
            &&& is_stable_sort_of(members, lower_names(members), out@[i].tags@)
        } by {
            assert(out@[i].key == keys@[i]);
        }
        assert forall|t: int| 0 <= t < sh.len() implies has_group(out@, #[trigger] sh[t].group_key) by {
            let c = sh[t].group_key;
            assert(sh.map_values(|t: TagViewModel| t.group_key)[t] == c);
            assert(key_set.contains(c));
            assert(keys@.contains(c));
            let i = choose|i: int| 0 <= i < keys@.len() && keys@[i] == c;
            assert(out@[i].key == c);
        }
        assert(groups_for(tags@, qk, out@));
    }
    out
}

// ---------------------------------------------------------------------------
// Selection
// ---------------------------------------------------------------------------

/// The first position of `x` in `s` at or after `i`.
pub open spec fn position_from(s: Seq<Seq<char>>, x: Seq<char>, i: int) -> Option<int>
    decreases s.len() - i,
{
    if i < 0 || i >= s.len() {
        None
    } else if s[i] == x {
        Some(i)
    } else {
        position_from(s, x, i + 1)
    }
}

/// The first position of `x` in `s`.
pub open spec fn position_of(s: Seq<Seq<char>>, x: Seq<char>) -> Option<int> {
    position_from(s, x, 0)
}

proof fn lemma_position_from(s: Seq<Seq<char>>, x: Seq<char>, i: int)
    requires
        0 <= i,
    ensures
        position_from(s, x, i) matches Some(k) ==> i <= k < s.len() && s[k] == x,
        position_from(s, x, i) is None ==> forall|j: int| i <= j < s.len() ==> s[j] != x,
    decreases s.len() - i,
{
    if i < s.len() && s[i] != x {
        lemma_position_from(s, x, i + 1);
    }
}

/// The anchor of a Shift-click: the previous anchor while it is still shown,
/// the clicked tag otherwise.
pub open spec fn shift_anchor(visible: Seq<Seq<char>>, anchor: Option<Seq<char>>, clicked: Seq<char>) -> Seq<char> {
    match anchor {
        Some(a) => if visible.contains(a) {
            a
        } else {
            clicked
        },
        None => clicked,
    }
}

/// The tags a Shift-click selects: every shown tag between the anchor and the
/// clicked tag, both included; only the clicked tag when either is not shown.
pub open spec fn shift_range(visible: Seq<Seq<char>>, anchor_tag: Seq<char>, clicked: Seq<char>) -> Set<Seq<char>> {
    match (position_of(visible, anchor_tag), position_of(visible, clicked)) {
        (Some(a), Some(b)) => if a <= b {
            visible.subrange(a, b + 1).to_set()
        } else {
            visible.subrange(b, a + 1).to_set()
        },
        _ => set![clicked],
    }
}

/// The selected set after a click.
pub open spec fn selection_after(
    current: Set<Seq<char>>,
    visible: Seq<Seq<char>>,
    anchor: Option<Seq<char>>,
    clicked: Seq<char>,
    mods: SelectionModifiers,
) -> Set<Seq<char>> {
    if mods.shift {
        let range = shift_range(visible, shift_anchor(visible, anchor, clicked), clicked);
        if mods.ctrl {
            current.union(range)
        } else {
            range
        }
    } else if mods.ctrl {
        if current.contains(clicked) {
            current.remove(clicked)
        } else {
            current.insert(clicked)
        }
    } else {
        set![clicked]
    }
}

/// The anchor after a click.
pub open spec fn anchor_after(
    visible: Seq<Seq<char>>,
    anchor: Option<Seq<char>>,
    clicked: Seq<char>,
    mods: SelectionModifiers,
) -> Seq<char> {
    if mods.shift {
        shift_anchor(visible, anchor, clicked)
    } else {
        clicked
    }
}

proof fn lemma_position_first(s: Seq<Seq<char>>, x: Seq<char>, i: int, t: int)
    requires
        0 <= i <= t < s.len(),
        s[t] == x,
        forall|j: int| i <= j < t ==> s[j] != x,
    ensures
        position_from(s, x, i) == Some(t),
    decreases t - i,
{
    if i < t {
        lemma_position_first(s, x, i + 1, t);
    }
}

/// A Shift-click without Ctrl selects exactly the shown tags between the
/// anchor and the clicked tag, both included, whichever of the two comes
/// first; the anchor stays. (`ia` and `ib` are where the anchor and the
/// clicked tag first show.)
pub proof fn lemma_shift_click_range(
    current: Set<Seq<char>>,
    visible: Seq<Seq<char>>,
    anchor: Seq<char>,
    clicked: Seq<char>,
    ia: int,
    ib: int,
)
    requires
        0 <= ia < visible.len(),
        0 <= ib < visible.len(),
        visible[ia] == anchor,
        visible[ib] == clicked,
        forall|j: int| 0 <= j < ia ==> visible[j] != anchor,
        forall|j: int| 0 <= j < ib ==> visible[j] != clicked,
    ensures
        ({
            let shift = SelectionModifiers { ctrl: false, shift: true };
            let sel = selection_after(current, visible, Some(anchor), clicked, shift);
            let lo = if ia <= ib { ia } else { ib };
            let hi = if ia <= ib { ib } else { ia };
            &&& forall|t: int| lo <= t <= hi ==> sel.contains(#[trigger] visible[t])
            &&& forall|x: Seq<char>| #[trigger] sel.contains(x) ==> exists|t: int| lo <= t <= hi && visible[t] == x
            &&& sel.contains(anchor) && sel.contains(clicked)
            &&& anchor_after(visible, Some(anchor), clicked, shift) == anchor
        }),
{
    lemma_position_first(visible, anchor, 0, ia);
    lemma_position_first(visible, clicked, 0, ib);
    assert(visible.contains(anchor));
    let shift = SelectionModifiers { ctrl: false, shift: true };
    let sel = selection_after(current, visible, Some(anchor), clicked, shift);
    let lo = if ia <= ib { ia } else { ib };
    let hi = if ia <= ib { ib } else { ia };
    assert(sel == visible.subrange(lo, hi + 1).to_set());
    assert forall|t: int| lo <= t <= hi implies sel.contains(#[trigger] visible[t]) by {
        assert(visible.subrange(lo, hi + 1)[t - lo] == visible[t]);
    }
    assert forall|x: Seq<char>| #[trigger] sel.contains(x) implies exists|t: int| lo <= t <= hi && visible[t] == x by {
        let u = choose|u: int| 0 <= u < hi + 1 - lo && #[trigger] visible.subrange(lo, hi + 1)[u] == x;
        assert(visible[lo + u] == x);
    }
    assert(sel.contains(visible[ia]));
    assert(sel.contains(visible[ib]));
}

/// Ctrl-clicking a tag twice leaves the selection as it was.
pub proof fn lemma_ctrl_click_twice(
    current: Set<Seq<char>>,
    visible: Seq<Seq<char>>,
    anchor: Option<Seq<char>>,
    clicked: Seq<char>,
)
    ensures
        ({
            let ctrl = SelectionModifiers { ctrl: true, shift: false };
            let once = selection_after(current, visible, anchor, clicked, ctrl);
            selection_after(once, visible, Some(anchor_after(visible, anchor, clicked, ctrl)), clicked, ctrl)
        }) == current,
{
    if current.contains(clicked) {
        assert(current.remove(clicked).insert(clicked) =~= current);
    } else {
        assert(current.insert(clicked).remove(clicked) =~= current);
    }
}

/// A Shift-click always selects the clicked tag, and never leaves anything
/// unselected that Ctrl keeps.
pub proof fn lemma_shift_click_selects_clicked(
    current: Set<Seq<char>>,
    visible: Seq<Seq<char>>,
    anchor: Option<Seq<char>>,
    clicked: Seq<char>,
    ctrl: bool,
)
    ensures
        selection_after(current, visible, anchor, clicked, SelectionModifiers { ctrl, shift: true }).contains(clicked),
        ctrl ==> current.subset_of(selection_after(current, visible, anchor, clicked, SelectionModifiers { ctrl, shift: true })),
{
    let a = shift_anchor(visible, anchor, clicked);
    lemma_position_from(visible, a, 0);
    lemma_position_from(visible, clicked, 0);
    match (position_of(visible, a), position_of(visible, clicked)) {
        (Some(x), Some(y)) => {
            if x <= y {
                assert(visible.subrange(x, y + 1)[y - x] == clicked);
            } else {
                assert(visible.subrange(y, x + 1)[0] == clicked);
            }
        },
        _ => {},
    }
}

/// A plain click selects exactly the clicked tag and makes it the anchor.
pub proof fn lemma_plain_click(
    current: Set<Seq<char>>,
    visible: Seq<Seq<char>>,
    anchor: Option<Seq<char>>,
    clicked: Seq<char>,
)
    ensures
        selection_after(current, visible, anchor, clicked, SelectionModifiers { ctrl: false, shift: false }) == set![clicked],
        anchor_after(visible, anchor, clicked, SelectionModifiers { ctrl: false, shift: false }) == clicked,
{
}

fn position_exec(s: &Vec<Vec<char>>, x: &Vec<char>) -> (r: Option<usize>)
    ensures
        r matches Some(k) ==> position_of(views(s@), x@) == Some(k as int) && k < s.len(),
        r is None ==> position_of(views(s@), x@) is None,
{
    let mut i: usize = 0;
    while i < s.len()
        invariant
            i <= s.len(),
            position_of(views(s@), x@) == position_from(views(s@), x@, i as int),
        decreases s.len() - i,
    {
        if crate::text::chars_eq(&s[i], x) {
            return Some(i);
        }
        i = i + 1;
    }
    None
}

/// The selection after a click on `clicked_tag` with the given modifiers.
/// `current` holds the selected tags in any order; `visible_order` the shown
/// tags in display order.
pub fn update_selection(
    current: Vec<String>,
    visible_order: &[String],
    anchor: Option<String>,
    clicked_tag: &str,
    modifiers: SelectionModifiers,
) -> (out: SelectionUpdate)
    ensures
        sorted_strict(string_views(out.selected_tags@)),
        string_views(out.selected_tags@).to_set() == selection_after(
            string_views(current@).to_set(),
            string_views(visible_order@),
            crate::paths::opt_string_view(anchor),
            clicked_tag@,
            modifiers,
        ),
        out.anchor matches Some(a) && a@ == anchor_after(
            string_views(visible_order@),
            crate::paths::opt_string_view(anchor),
            clicked_tag@,
            modifiers,
        ),
{
    let cur_v = char_vecs_of(current.as_slice());
    let mut cur = set_of(&cur_v);
    let visible = char_vecs_of(visible_order);
    let clicked = chars_of(clicked_tag);
    let ghost vis = views(visible@);
    if modifiers.shift {
        let anchor_tag: Vec<char> = match &anchor {
            Some(a) => {
                let av = chars_of(a.as_str());
                if set_contains(&visible, &av) {
                    av
                } else {
                    copy_chars(&clicked)
                }
            },
            None => copy_chars(&clicked),
        };
        let mut range: Vec<Vec<char>> = Vec::new();
        match (position_exec(&visible, &anchor_tag), position_exec(&visible, &clicked)) {
            (Some(a), Some(b)) => {
                let (start, end) = if a <= b {
                    (a, b)
                } else {
                    (b, a)
                };
                let mut items: Vec<Vec<char>> = Vec::new();
                let mut i = start;
                while i <= end
                    invariant
                        start <= i <= end + 1,
                        end < visible.len(),
                        views(items@) == views(visible@).subrange(start as int, i as int),
                    decreases end + 1 - i,
                {
                    let c = copy_chars(&visible[i]);
                    let ghost before = views(items@);
                    items.push(c);
                    assert(views(items@) =~= before.push(c@));
                    assert(views(visible@)[i as int] == visible@[i as int]@);
                    assert(views(items@) =~= views(visible@).subrange(start as int, i + 1));
                    i = i + 1;
                }
                range = set_of(&items);
            },
            _ => {
                let _ = set_insert(&mut range, copy_chars(&clicked));
                assert(views(range@).to_set() =~= set![clicked@]);
            },
        }
        if modifiers.ctrl {
            set_extend(&mut cur, &range);
        } else {
            cur = range;
        }
        let selected_tags = strings_of(&cur);
        let anchor_out = string_of(&anchor_tag);
        return SelectionUpdate { selected_tags, anchor: Some(anchor_out) };
    }
    if modifiers.ctrl {
        let was_absent = set_insert(&mut cur, copy_chars(&clicked));
        if !was_absent {
            set_remove(&mut cur, &clicked);
            proof {
                assert(string_views(current@).to_set() =~= views(cur_v@).to_set());
            }
        }
        let selected_tags = strings_of(&cur);
        return SelectionUpdate { selected_tags, anchor: Some(string_of(&clicked)) };
    }
    let mut only: Vec<Vec<char>> = Vec::new();
    let _ = set_insert(&mut only, copy_chars(&clicked));
    assert(views(only@).to_set() =~= set![clicked@]);
    let selected_tags = strings_of(&only);
    SelectionUpdate { selected_tags, anchor: Some(string_of(&clicked)) }
}

/// What the browser reports for the current selection: the selected tags in
/// order, and whether the viewer should take focus (a click without Ctrl or
/// Shift).
pub fn tag_activation(selected_tags: &Vec<String>, modifiers: SelectionModifiers) -> (r: TagActivation)
    ensures
        r.tags@ == selected_tags@,
        r.focus_viewer == (!modifiers.ctrl && !modifiers.shift),
{
    let mut tags: Vec<String> = Vec::new();
    let mut i: usize = 0;
    while i < selected_tags.len()
        invariant
            i <= selected_tags.len(),
            tags@ == selected_tags@.take(i as int),
        decreases selected_tags.len() - i,
    {
        tags.push(selected_tags[i].clone());
        assert(tags@ =~= selected_tags@.take(i + 1));
        i = i + 1;
    }
    assert(selected_tags@.take(selected_tags.len() as int) =~= selected_tags@);
    TagActivation { tags, focus_viewer: !modifiers.ctrl && !modifiers.shift }
}

// ---------------------------------------------------------------------------
// Building and pruning the browser's contents
// ---------------------------------------------------------------------------

/// The positions of the tags that are on at least one image.
pub open spec fn used_positions(all: Seq<(String, usize)>, n: int) -> Seq<int>
    decreases n,
{
    if n <= 0 {
        Seq::empty()
    } else if all[n - 1].1 >= 1 {
        used_positions(all, n - 1).push(n - 1)
    } else {
        used_positions(all, n - 1)
    }
}

/// Whether `m` shows the tag at position `j` of the database's tags: its
/// name and count, its group, the color of its collection, its preview
/// image and whether it is selected.
pub open spec fn shows_tag(
    m: TagViewModel,
    all: Seq<(String, usize)>,
    previews: Seq<Option<String>>,
    colors: Seq<(String, String)>,
    selected: Seq<Seq<char>>,
    j: int,
) -> bool {
    &&& m.name@ == all[j].0@
    &&& m.count == all[j].1
    &&& m.group_key == group_key_spec(all[j].0@)
    &&& crate::paths::opt_string_view(m.accent_color) == crate::collections::assoc_get(colors, all[j].0@)
    &&& crate::paths::opt_string_view(m.preview_path) == crate::paths::opt_string_view(previews[j])
    &&& m.selected == selected.contains(all[j].0@)
}

/// The tags the browser shows: each tag of the database that is on at
/// least one image, in the database's order. `previews[i]` is the first
/// image of `all[i]`, `colors` maps tags to their collection's color.
pub fn build_tag_view_models(
    all: &[(String, usize)],
    previews: &[Option<String>],
    colors: &Vec<(String, String)>,
    selected: &Vec<String>,
) -> (r: Vec<TagViewModel>)
    requires
        previews@.len() == all@.len(),
    ensures
        r@.len() == used_positions(all@, all@.len() as int).len(),
        forall|k: int|
            0 <= k < r@.len() ==> shows_tag(
                #[trigger] r@[k],
                all@,
                previews@,
                colors@,
                string_views(selected@),
                used_positions(all@, all@.len() as int)[k],
            ),
{
    let sel = char_vecs_of(selected.as_slice());
    let mut out: Vec<TagViewModel> = Vec::new();
    let mut i: usize = 0;
    while i < all.len()
        invariant
            i <= all@.len(),
            previews@.len() == all@.len(),
            views(sel@) == string_views(selected@),
            out@.len() == used_positions(all@, i as int).len(),
            forall|k: int|
                0 <= k < out@.len() ==> shows_tag(
                    #[trigger] out@[k],
                    all@,
                    previews@,
                    colors@,
                    string_views(selected@),
                    used_positions(all@, i as int)[k],
                ),
        decreases all@.len() - i,
    {
        if all[i].1 >= 1 {
            let name = &all[i].0;
            let name_chars = chars_of(name.as_str());
            let m = TagViewModel {
                name: name.clone(),
                count: all[i].1,
                group_key: group_key_for_tag(name.as_str()),
                accent_color: crate::collections::lookup_tag_color(colors, name.as_str()),
                preview_path: clone_opt_string(&previews[i]),
                selected: set_contains(&sel, &name_chars),
            };
            out.push(m);
        }
        i = i + 1;
    }
    out
}

/// Whether a tag is on at least one image.
pub open spec fn tag_in_use(all: Seq<(String, usize)>, t: Seq<char>) -> bool {
    exists|j: int| 0 <= j < all.len() && all[j].1 >= 1 && #[trigger] all[j].0@ == t
}

fn in_use_exec(all: &[(String, usize)], t: &str) -> (r: bool)
    ensures
        r == tag_in_use(all@, t@),
{
    let mut j: usize = 0;
    while j < all.len()
        invariant
            j <= all@.len(),
            forall|k: int| 0 <= k < j ==> !(all@[k].1 >= 1 && #[trigger] all@[k].0@ == t@),
        decreases all@.len() - j,
    {
        if all[j].1 >= 1 && crate::text::str_eq(all[j].0.as_str(), t) {
            return true;
        }
        j = j + 1;
    }
    false
}

/// The selection once tags that are no longer on any image are gone: the
/// selected tags still in use, in their order, and the anchor if it is still
/// in use.
pub fn prune_selection(selected: &Vec<String>, anchor: Option<String>, all: &[(String, usize)]) -> (r: (Vec<String>, Option<String>))
    ensures
        string_views(r.0@) == string_views(selected@).filter(|t: Seq<char>| tag_in_use(all@, t)),
        crate::paths::opt_string_view(r.1) == match crate::paths::opt_string_view(anchor) {
            Some(a) => if tag_in_use(all@, a) {
                Some(a)
            } else {
                None
            },
            None => None,
        },
{
    let ghost sv = string_views(selected@);
    let mut out: Vec<String> = Vec::new();
    let mut i: usize = 0;
    while i < selected.len()
        invariant
            i <= selected@.len(),
            sv == string_views(selected@),
            string_views(out@) == sv.take(i as int).filter(|t: Seq<char>| tag_in_use(all@, t)),
        decreases selected@.len() - i,
    {
        let keep = in_use_exec(all, selected[i].as_str());
        proof {
            lemma_filter_take_step(sv, |t: Seq<char>| tag_in_use(all@, t), i as int);
        }
        if keep {
            out.push(selected[i].clone());
            assert(string_views(out@) =~= sv.take(i as int).filter(|t: Seq<char>| tag_in_use(all@, t)).push(sv[i as int]));
        }
        i = i + 1;
    }
    assert(sv.take(selected@.len() as int) =~= sv);
    let kept_anchor = match anchor {
        Some(a) => if in_use_exec(all, a.as_str()) {
            Some(a)
        } else {
            None
        },
        None => None,
    };
    (out, kept_anchor)
}

/// The selection once `tag` is deleted everywhere: the other selected tags,
/// in their order, and the anchor unless it was that tag.
pub fn after_tag_deleted(selected: &Vec<String>, anchor: Option<String>, tag: &str) -> (r: (Vec<String>, Option<String>))
    ensures
        string_views(r.0@) == string_views(selected@).filter(|t: Seq<char>| t != tag@),
        crate::paths::opt_string_view(r.1) == match crate::paths::opt_string_view(anchor) {
            Some(a) => if a == tag@ {
                None
            } else {
                Some(a)
            },
            None => None,
        },
{
    let ghost sv = string_views(selected@);
    let mut out: Vec<String> = Vec::new();
    let mut i: usize = 0;
    while i < selected.len()
        invariant
            i <= selected@.len(),
            sv == string_views(selected@),
            string_views(out@) == sv.take(i as int).filter(|t: Seq<char>| t != tag@),
        decreases selected@.len() - i,
    {
        let keep = !crate::text::str_eq(selected[i].as_str(), tag);
        proof {
            lemma_filter_take_step(sv, |t: Seq<char>| t != tag@, i as int);
        }
        if keep {
            out.push(selected[i].clone());
            assert(string_views(out@) =~= sv.take(i as int).filter(|t: Seq<char>| t != tag@).push(sv[i as int]));
        }
        i = i + 1;
    }
    assert(sv.take(selected@.len() as int) =~= sv);
    let kept_anchor = match anchor {
        Some(a) => if crate::text::str_eq(a.as_str(), tag) {
            None
        } else {
            Some(a)
        },
        None => None,
    };
    (out, kept_anchor)
}

/// How the browser lays out its tags.
#[derive(Clone, Copy, Debug, PartialEq, Eq, Structural)]
pub enum BrowserMode {
    Grid,
    List,
}

/// The toolbar: the clear button shows while tags are selected, and the
/// grid or list button is pressed as the layout is.
pub fn toolbar_state(has_selection: bool, mode: BrowserMode) -> (r: (bool, bool, bool))
    ensures
        r == (has_selection, mode == BrowserMode::Grid, mode == BrowserMode::List),
{
    let grid = match mode {
        BrowserMode::Grid => true,
        BrowserMode::List => false,
    };
    (has_selection, grid, !grid)
}

/// The cards to give a newly loaded preview: those whose preview image is
/// `path`, by position.
pub fn cards_showing(previews: &[Option<String>], path: &str) -> (r: Vec<usize>)
    ensures
        usize_seq_as_int(r@) == Seq::new(previews@.len(), |i: int| i).filter(
            |i: int| crate::paths::opt_string_view(previews@[i]) == Some(path@),
        ),
{
    let ghost base = Seq::new(previews@.len(), |i: int| i);
    let ghost pred = |i: int| crate::paths::opt_string_view(previews@[i]) == Some(path@);
    let mut out: Vec<usize> = Vec::new();
    let mut i: usize = 0;
    while i < previews.len()
        invariant
            i <= previews@.len(),
            base == Seq::new(previews@.len(), |i: int| i),
            pred == (|i: int| crate::paths::opt_string_view(previews@[i]) == Some(path@)),
            usize_seq_as_int(out@) == base.take(i as int).filter(pred),
        decreases previews@.len() - i,
    {
        proof {
            lemma_filter_take_step(base, pred, i as int);
        }
        let hit = match &previews[i] {
            Some(p) => crate::text::str_eq(p.as_str(), path),
            None => false,
        };
        if hit {
            let ghost before = usize_seq_as_int(out@);
            out.push(i);
            assert(usize_seq_as_int(out@) =~= before.push(i as int));
        }
        i = i + 1;
    }
    assert(base.take(previews@.len() as int) =~= base);
    out
}

/// The names of the shown tags, group after group.
pub open spec fn group_names(groups: Seq<TagGroup>) -> Seq<Seq<char>>
    decreases groups.len(),
{
    if groups.len() == 0 {
        Seq::empty()
    } else {
        group_names(groups.drop_last()) + groups.last().tags@.map_values(|t: TagViewModel| t.name@)
    }
}

/// The order of the shown tags, which Shift-clicks select ranges of.
pub fn visible_order(groups: &[TagGroup]) -> (r: Vec<String>)
    ensures
        string_views(r@) == group_names(groups@),
{
    let mut out: Vec<String> = Vec::new();
    let mut g: usize = 0;
    while g < groups.len()
        invariant
            g <= groups@.len(),
            string_views(out@) == group_names(groups@.take(g as int)),
        decreases groups@.len() - g,
    {
        let ghost before = string_views(out@);
        let tags = &groups[g].tags;
        let mut k: usize = 0;
        while k < tags.len()
            invariant
                k <= tags@.len(),
                string_views(out@) == before + tags@.take(k as int).map_values(|t: TagViewModel| t.name@),
            decreases tags@.len() - k,
        {
            let ghost prev = out@;
            out.push(tags[k].name.clone());
            proof {
                assert(string_views(out@) =~= string_views(prev).push(tags@[k as int].name@));
                assert(tags@.take(k + 1).map_values(|t: TagViewModel| t.name@) =~= tags@.take(k as int).map_values(
                    |t: TagViewModel| t.name@,
                ).push(tags@[k as int].name@));
            }
            k = k + 1;
            assert(string_views(out@) =~= before + tags@.take(k as int).map_values(|t: TagViewModel| t.name@));
        }
        assert(tags@.take(tags@.len() as int) =~= tags@);
        assert(groups@.take(g + 1).drop_last() =~= groups@.take(g as int));
        g = g + 1;
    }
    assert(groups@.take(groups@.len() as int) =~= groups@);
    out
}

/// What the browser says instead of tags: without a tag database, without
/// tags, or when the search hides them all; nothing when tags show.
pub fn empty_state_message(has_database: bool, has_tags: bool, has_matches: bool) -> (r: Option<&'static str>)
    ensures
        match r {
            Some(m) => if !has_database {
                m@ == "Tags are unavailable."@
            } else if !has_tags {
                m@ == "No tags yet.\nSelect an image and press Ctrl+T to add tags."@
            } else {
                !has_matches && m@ == "No tags match this search."@
            },
            None => has_database && has_tags && has_matches,
        },
{
    if !has_database {
        Some("Tags are unavailable.")
    } else if !has_tags {
        Some("No tags yet.\nSelect an image and press Ctrl+T to add tags.")
    } else if !has_matches {
        Some("No tags match this search.")
    } else {
        None
    }
}

/// The drag payload of a tag.
pub fn tag_drag_payload(tag: &str) -> (r: String)
    ensures
        r@ == "tag:"@ + tag@,
{
    let mut v = crate::text::lit("tag:");
    crate::text::push_str(&mut v, tag);
    string_of(&v)
}

} // verus!
