//! Collections form a forest through their parent ids. This module answers
//! where a collection sits in it (root, depth, ancestors), which rows the
//! sidebar shows, and which color each collection and each tag is drawn in.
use vstd::prelude::*;
use crate::sort::{
    is_stable_sort_of, lemma_filter_take_step, lemma_is_stable_sort_spec, stable_sort_positions,
    stable_sort_spec, stable_sorted_by, usize_seq_as_int,
};
use crate::text::{chars_eq, chars_of, copy_chars, lower_chars, lowercase_of, string_of, string_views, views};

verus! {

/// A collection: a named, colored set of tags, possibly below a parent.
#[derive(Debug)]
pub struct Collection {
    pub id: i64,
    pub parent_id: Option<i64>,
    pub name: String,
    pub color: Option<String>,
    pub primary_tag: String,
    pub extra_tags: Vec<String>,
    pub item_count: i64,
}

/// Copies a vector of strings.
pub fn clone_strings(v: &Vec<String>) -> (r: Vec<String>)
    ensures
        r@ == v@,
{
    let mut r: Vec<String> = Vec::new();
    let mut i: usize = 0;
    while i < v.len()
        invariant
            i <= v.len(),
            r@ == v@.take(i as int),
        decreases v.len() - i,
    {
        r.push(v[i].clone());
        assert(r@ =~= v@.take(i + 1));
        i = i + 1;
    }
    assert(v@.take(v.len() as int) =~= v@);
    r
}

/// The value of a collection: its fields, each by its view.
pub open spec fn collection_value(c: Collection) -> (i64, Option<i64>, Seq<char>, Option<Seq<char>>, Seq<char>, Seq<Seq<char>>, i64) {
    (c.id, c.parent_id, c.name@, crate::paths::opt_string_view(c.color), c.primary_tag@, string_views(c.extra_tags@), c.item_count)
}

impl Clone for Collection {
    fn clone(&self) -> (r: Self)
        ensures
            collection_value(r) == collection_value(*self),
    {
        Collection {
            id: self.id,
            parent_id: self.parent_id,
            name: self.name.clone(),
            color: crate::tags::clone_opt_string(&self.color),
            primary_tag: self.primary_tag.clone(),
            extra_tags: clone_strings(&self.extra_tags),
            item_count: self.item_count,
        }
    }
}

// ---------------------------------------------------------------------------
// The parent relation
// ---------------------------------------------------------------------------

/// The last position `< n` of a collection with this id (a map built from the
/// list keeps the last entry of each id).
pub open spec fn last_index_before(cs: Seq<Collection>, id: i64, n: int) -> Option<int>
    decreases n,
{
    if n <= 0 {
        None
    } else if cs[n - 1].id == id {
        Some(n - 1)
    } else {
        last_index_before(cs, id, n - 1)
    }
}

/// The entry that stands for `id`: the last collection with that id.
pub open spec fn entry_of(cs: Seq<Collection>, id: i64) -> Option<int> {
    last_index_before(cs, id, cs.len() as int)
}

/// The parent of `id`, if `id` has an entry with a parent.
pub open spec fn next_parent(cs: Seq<Collection>, id: i64) -> Option<i64> {
    match entry_of(cs, id) {
        Some(i) => cs[i].parent_id,
        None => None,
    }
}

/// Following parents from `id` ends within `fuel` steps.
pub open spec fn chain_ends(cs: Seq<Collection>, id: i64, fuel: nat) -> bool
    decreases fuel,
{
    match next_parent(cs, id) {
        None => true,
        Some(p) => fuel > 0 && chain_ends(cs, p, (fuel - 1) as nat),
    }
}

/// The chain of parents above `id` ends (it reaches a collection without a
/// parent, or an id without an entry). A chain that ends has at most as many
/// steps as there are collections.
pub open spec fn parent_chain_ends(cs: Seq<Collection>, id: i64) -> bool {
    chain_ends(cs, id, cs.len())
}

/// The id where the chain of parents above `id` ends.
pub open spec fn root_of(cs: Seq<Collection>, id: i64, fuel: nat) -> i64
    decreases fuel,
{
    match next_parent(cs, id) {
        None => id,
        Some(p) => if fuel == 0 {
            id
        } else {
            root_of(cs, p, (fuel - 1) as nat)
        },
    }
}

/// The ids above `id`, nearest first.
pub open spec fn ancestors_of(cs: Seq<Collection>, id: i64, fuel: nat) -> Seq<i64>
    decreases fuel,
{
    match next_parent(cs, id) {
        None => Seq::<i64>::empty(),
        Some(p) => if fuel == 0 {
            Seq::<i64>::empty()
        } else {
            seq![p] + ancestors_of(cs, p, (fuel - 1) as nat)
        },
    }
}

/// The root collection id above `id`.
pub open spec fn collection_root(cs: Seq<Collection>, id: i64) -> i64 {
    root_of(cs, id, cs.len())
}

/// The ancestors of `id`, nearest first.
pub open spec fn collection_ancestors_spec(cs: Seq<Collection>, id: i64) -> Seq<i64> {
    ancestors_of(cs, id, cs.len())
}

/// The parent recorded for `id`.
pub fn parent_lookup(collections: &[Collection], id: i64) -> (r: Option<i64>)
    ensures
        r == next_parent(collections@, id),
{
    let mut n = collections.len();
    while n > 0
        invariant
            n <= collections.len(),
            entry_of(collections@, id) == last_index_before(collections@, id, n as int),
        decreases n,
    {
        if collections[n - 1].id == id {
            return collections[n - 1].parent_id;
        }
        n = n - 1;
    }
    None
}

/// The id at the top of the parent chain of `id`.
pub fn root_collection_id(id: i64, collections: &[Collection]) -> (r: i64)
    requires
        parent_chain_ends(collections@, id),
    ensures
        r == collection_root(collections@, id),
{
    let ghost cs = collections@;
    let mut root_id = id;
    let mut current = parent_lookup(collections, id);
    let ghost mut fuel: nat = cs.len();
    while current.is_some()
        invariant
            cs == collections@,
            current == next_parent(cs, root_id),
            chain_ends(cs, root_id, fuel),
            root_of(cs, id, cs.len()) == root_of(cs, root_id, fuel),
        decreases fuel,
    {
        let parent_id = current.unwrap();
        root_id = parent_id;
        current = parent_lookup(collections, parent_id);
        proof {
            fuel = (fuel - 1) as nat;
        }
    }
    root_id
}

/// How many parents are above `id`.
pub fn collection_depth(id: i64, collections: &[Collection]) -> (r: u32)
    requires
        parent_chain_ends(collections@, id),
        collections@.len() <= u32::MAX,
    ensures
        r == collection_ancestors_spec(collections@, id).len(),
{
    let ghost cs = collections@;
    let mut depth: u32 = 0;
    let mut node = id;
    let mut current = parent_lookup(collections, id);
    let ghost mut fuel: nat = cs.len();
    while current.is_some()
        invariant
            cs == collections@,
            cs.len() <= u32::MAX,
            current == next_parent(cs, node),
            chain_ends(cs, node, fuel),
            fuel <= cs.len(),
            depth + fuel <= cs.len(),
            ancestors_of(cs, id, cs.len()).len() == depth + ancestors_of(cs, node, fuel).len(),
        decreases fuel,
    {
        let parent_id = current.unwrap();
        depth = depth + 1;
        node = parent_id;
        current = parent_lookup(collections, parent_id);
        proof {
            fuel = (fuel - 1) as nat;
        }
    }
    depth
}

/// The ids above `id`, nearest first.
pub fn collection_ancestors(id: i64, collections: &[Collection]) -> (r: Vec<i64>)
    requires
        parent_chain_ends(collections@, id),
    ensures
        r@ == collection_ancestors_spec(collections@, id),
{
    let ghost cs = collections@;
    let mut out: Vec<i64> = Vec::new();
    let mut node = id;
    let mut current = parent_lookup(collections, id);
    let ghost mut fuel: nat = cs.len();
    while current.is_some()
        invariant
            cs == collections@,
            current == next_parent(cs, node),
            chain_ends(cs, node, fuel),
            ancestors_of(cs, id, cs.len()) == out@ + ancestors_of(cs, node, fuel),
        decreases fuel,
    {
        let parent_id = current.unwrap();
        out.push(parent_id);
        proof {
            assert(ancestors_of(cs, node, fuel) == seq![parent_id] + ancestors_of(
                cs,
                parent_id,
                (fuel - 1) as nat,
            ));
            assert(out@ + ancestors_of(cs, parent_id, (fuel - 1) as nat) =~= out@.drop_last() + (
            seq![parent_id] + ancestors_of(cs, parent_id, (fuel - 1) as nat)));
        }
        node = parent_id;
        current = parent_lookup(collections, parent_id);
        proof {
            fuel = (fuel - 1) as nat;
        }
    }
    assert(out@ + Seq::<i64>::empty() =~= out@);
    out
}

// ---------------------------------------------------------------------------
// Colors
// ---------------------------------------------------------------------------

/// The color palette for collections without a color of their own.
pub open spec fn palette(i: int) -> Seq<char> {
    if i == 0 {
        "#57e389"@
    } else if i == 1 {
        "#62a0ea"@
    } else if i == 2 {
        "#ff7800"@
    } else if i == 3 {
        "#f5c211"@
    } else if i == 4 {
        "#dc8add"@
    } else if i == 5 {
        "#5bc8af"@
    } else if i == 6 {
        "#e01b24"@
    } else {
        "#9141ac"@
    }
}

/// The palette color of a collection id: the id taken modulo the eight colors
/// of the palette, as the id's machine-word value is.
pub open spec fn fallback_color_spec(id: i64) -> Seq<char> {
    palette((id as int) % 8)
}

/// The palette color used for collection `collection_id` when it has none.
pub fn fallback_collection_color(collection_id: i64) -> (r: &'static str)
    ensures
        r@ == fallback_color_spec(collection_id),
{
    let m = ((collection_id % 8) + 8) % 8;
    assert(m == (collection_id as int) % 8);
    if m == 0 {
        "#57e389"
    } else if m == 1 {
        "#62a0ea"
    } else if m == 2 {
        "#ff7800"
    } else if m == 3 {
        "#f5c211"
    } else if m == 4 {
        "#dc8add"
    } else if m == 5 {
        "#5bc8af"
    } else if m == 6 {
        "#e01b24"
    } else {
        "#9141ac"
    }
}

/// The color the tags of a collection are drawn in: the color of the root
/// above it, or the root's palette color.
pub open spec fn resolved_color(cs: Seq<Collection>, id: i64) -> Seq<char> {
    let r = collection_root(cs, id);
    match entry_of(cs, r) {
        Some(i) => match cs[i].color {
            Some(c) => c@,
            None => fallback_color_spec(r),
        },
        None => fallback_color_spec(r),
    }
}

fn entry_lookup(collections: &[Collection], id: i64) -> (r: Option<usize>)
    ensures
        r matches Some(i) ==> entry_of(collections@, id) == Some(i as int) && i
            < collections.len(),
        r is None ==> entry_of(collections@, id) is None,
{
    let mut n = collections.len();
    while n > 0
        invariant
            n <= collections.len(),
            entry_of(collections@, id) == last_index_before(collections@, id, n as int),
        decreases n,
    {
        if collections[n - 1].id == id {
            return Some(n - 1);
        }
        n = n - 1;
    }
    None
}

/// The color the tags of collection `id` are drawn in.
pub fn resolved_collection_color(id: i64, collections: &[Collection]) -> (r: String)
    requires
        parent_chain_ends(collections@, id),
    ensures
        r@ == resolved_color(collections@, id),
{
    let root = root_collection_id(id, collections);
    match entry_lookup(collections, root) {
        Some(i) => match &collections[i].color {
            Some(c) => c.clone(),
            None => string_of(&chars_of(fallback_collection_color(root))),
        },
        None => string_of(&chars_of(fallback_collection_color(root))),
    }
}

/// The last position `< n` of a collection that names `tag`, as primary or
/// extra tag.
pub open spec fn last_naming_before(cs: Seq<Collection>, tag: Seq<char>, n: int) -> Option<int>
    decreases n,
{
    if n <= 0 {
        None
    } else if cs[n - 1].primary_tag@ == tag || string_views(cs[n - 1].extra_tags@).contains(tag) {
        Some(n - 1)
    } else {
        last_naming_before(cs, tag, n - 1)
    }
}

/// The color of `tag` among the first `n` collections: that of the last one
/// naming it.
pub open spec fn tag_color_before(cs: Seq<Collection>, tag: Seq<char>, n: int) -> Option<Seq<char>> {
    match last_naming_before(cs, tag, n) {
        Some(i) => Some(resolved_color(cs, cs[i].id)),
        None => None,
    }
}

/// The color of `tag`: that of the last collection naming it.
pub open spec fn tag_color_spec(cs: Seq<Collection>, tag: Seq<char>) -> Option<Seq<char>> {
    tag_color_before(cs, tag, cs.len() as int)
}

/// The value stored for `k` in an association list (its first entry).
pub open spec fn assoc_get(entries: Seq<(String, String)>, k: Seq<char>) -> Option<Seq<char>>
    decreases entries.len(),
{
    if entries.len() == 0 {
        None
    } else if entries[0].0@ == k {
        Some(entries[0].1@)
    } else {
        assoc_get(entries.drop_first(), k)
    }
}

/// No key occurs twice.
pub open spec fn keys_unique(entries: Seq<(String, String)>) -> bool {
    forall|i: int, j: int| 0 <= i < j < entries.len() ==> entries[i].0@ != entries[j].0@
}

proof fn lemma_assoc_get_index(entries: Seq<(String, String)>, k: Seq<char>)
    requires
        keys_unique(entries),
    ensures
        forall|i: int| 0 <= i < entries.len() && entries[i].0@ == k ==> assoc_get(entries, k) == Some(entries[i].1@),
        (forall|i: int| 0 <= i < entries.len() ==> entries[i].0@ != k) ==> assoc_get(entries, k) is None,
    decreases entries.len(),
{
    if entries.len() > 0 {
        let rest = entries.drop_first();
        assert forall|i: int, j: int| 0 <= i < j < rest.len() implies rest[i].0@ != rest[j].0@ by {
            assert(rest[i] == entries[i + 1]);
            assert(rest[j] == entries[j + 1]);
        }
        lemma_assoc_get_index(rest, k);
        assert forall|i: int| 0 <= i < entries.len() && entries[i].0@ == k implies assoc_get(entries, k) == Some(entries[i].1@) by {
            if i > 0 {
                assert(rest[i - 1] == entries[i]);
            }
        }
        if forall|i: int| 0 <= i < entries.len() ==> entries[i].0@ != k {
            assert forall|i: int| 0 <= i < rest.len() implies rest[i].0@ != k by {
                assert(rest[i] == entries[i + 1]);
            }
        }
    }
}

/// Sets `k` to `v` in an association list with unique keys.
fn assoc_set(entries: &mut Vec<(String, String)>, k: &String, v: &String)
    requires
        keys_unique(old(entries)@),
    ensures
        keys_unique(final(entries)@),
        forall|t: Seq<char>|
            assoc_get(final(entries)@, t) == if t == k@ {
                Some(v@)
            } else {
                assoc_get(old(entries)@, t)
            },
{
    let ghost e0 = entries@;
    proof {
        lemma_assoc_get_index(e0, k@);
    }
    let mut i: usize = 0;
    while i < entries.len()
        invariant
            i <= entries.len(),
            entries@ == e0,
            e0 == old(entries)@,
            keys_unique(e0),
            forall|j: int| 0 <= j < i ==> e0[j].0@ != k@,
        decreases entries.len() - i,
    {
        if crate::text::str_eq(entries[i].0.as_str(), k.as_str()) {
            let pair = (k.clone(), v.clone());
            let ghost gp = pair;
            entries.set(i, pair);
            proof {
                let e1 = entries@;
                assert(e1 =~= e0.update(i as int, gp));
                assert forall|a: int, b: int| 0 <= a < b < e1.len() implies e1[a].0@ != e1[b].0@ by {
                    if a == i {
                        assert(e1[a].0@ == e0[a].0@);
                    }
                    if b == i {
                        assert(e1[b].0@ == e0[b].0@);
                    }
                }
                assert forall|t: Seq<char>| assoc_get(e1, t) == if t == k@ {
                    Some(v@)
                } else {
                    assoc_get(e0, t)
                } by {
                    lemma_assoc_get_index(e1, t);
                    lemma_assoc_get_index(e0, t);
                    if t == k@ {
                        assert(e1[i as int].0@ == t);
                    } else {
                        if exists|j: int| 0 <= j < e0.len() && e0[j].0@ == t {
                            let j = choose|j: int| 0 <= j < e0.len() && e0[j].0@ == t;
                            assert(e1[j] == e0[j]);
                        } else {
                            assert forall|j: int| 0 <= j < e1.len() implies e1[j].0@ != t by {
                                if j != i {
                                    assert(e1[j] == e0[j]);
                                }
                            }
                        }
                    }
                }
            }
            return;
        }
        i = i + 1;
    }
    let pair = (k.clone(), v.clone());
    let ghost gp = pair;
    entries.push(pair);
    proof {
        let e1 = entries@;
        assert(e1 =~= e0.push(gp));
        assert forall|a: int, b: int| 0 <= a < b < e1.len() implies e1[a].0@ != e1[b].0@ by {
            if b == e0.len() {
                assert(e1[a] == e0[a]);
            } else {
                assert(e1[a] == e0[a]);
                assert(e1[b] == e0[b]);
            }
        }
        assert forall|t: Seq<char>| assoc_get(e1, t) == if t == k@ {
            Some(v@)
        } else {
            assoc_get(e0, t)
        } by {
            lemma_assoc_get_index(e1, t);
            lemma_assoc_get_index(e0, t);
            if t == k@ {
                assert(e1[e0.len() as int].0@ == t);
            } else {
                if exists|j: int| 0 <= j < e0.len() && e0[j].0@ == t {
                    let j = choose|j: int| 0 <= j < e0.len() && e0[j].0@ == t;
                    assert(e1[j] == e0[j]);
                } else {
                    assert forall|j: int| 0 <= j < e1.len() implies e1[j].0@ != t by {
                        if j < e0.len() {
                            assert(e1[j] == e0[j]);
                        }
                    }
                }
            }
        }
    }
}

/// The color of every tag named by some collection: the resolved color of the
/// last collection that names it. Keys are unique.
pub fn collection_tag_color_map(collections: &[Collection]) -> (out: Vec<(String, String)>)
    requires
        forall|i: int|
            0 <= i < collections@.len() ==> parent_chain_ends(collections@, #[trigger] collections@[i].id),
    ensures
        keys_unique(out@),
        forall|tag: Seq<char>| assoc_get(out@, tag) == tag_color_spec(collections@, tag),
{
    let ghost cs = collections@;
    let mut out: Vec<(String, String)> = Vec::new();
    let mut n: usize = 0;
    while n < collections.len()
        invariant
            n <= collections.len(),
            cs == collections@,
            forall|i: int| 0 <= i < cs.len() ==> parent_chain_ends(cs, #[trigger] cs[i].id),
            keys_unique(out@),
            forall|tag: Seq<char>| assoc_get(out@, tag) == tag_color_before(cs, tag, n as int),
        decreases collections.len() - n,
    {
        let c = &collections[n];
        assert(parent_chain_ends(cs, cs[n as int].id));
        let color = resolved_collection_color(c.id, collections);
        let ghost before = out@;
        assoc_set(&mut out, &c.primary_tag, &color);
        let mut e: usize = 0;
        while e < c.extra_tags.len()
            invariant
                e <= c.extra_tags.len(),
                c == collections@[n as int],
                keys_unique(out@),
                forall|tag: Seq<char>| assoc_get(out@, tag) == if tag == c.primary_tag@
                    || string_views(c.extra_tags@).take(e as int).contains(tag) {
                    Some(color@)
                } else {
                    assoc_get(before, tag)
                },
            decreases c.extra_tags.len() - e,
        {
            assoc_set(&mut out, &c.extra_tags[e], &color);
            proof {
                let ev = string_views(c.extra_tags@);
                assert(ev.take(e + 1) =~= ev.take(e as int).push(ev[e as int]));
                let a = ev.take(e as int);
                let b = ev.take(e + 1);
                assert forall|tag: Seq<char>| b.contains(tag) <==> (a.contains(tag) || tag == ev[e as int]) by {
                    if b.contains(tag) {
                        let k = choose|k: int| 0 <= k < b.len() && #[trigger] b[k] == tag;
                        if k < e {
                            assert(a[k] == tag);
                        }
                    }
                    if a.contains(tag) {
                        let k = choose|k: int| 0 <= k < a.len() && #[trigger] a[k] == tag;
                        assert(b[k] == tag);
                    }
                    if tag == ev[e as int] {
                        assert(b[e as int] == tag);
                    }
                }
            }
            e = e + 1;
        }
        proof {
            let ev = string_views(c.extra_tags@);
            assert(ev.take(c.extra_tags.len() as int) =~= ev);
            assert forall|tag: Seq<char>| assoc_get(out@, tag) == tag_color_before(cs, tag, n + 1) by {
                assert(last_naming_before(cs, tag, n + 1) == if cs[n as int].primary_tag@ == tag
                    || string_views(cs[n as int].extra_tags@).contains(tag) {
                    Some(n as int)
                } else {
                    last_naming_before(cs, tag, n as int)
                });
            }
        }
        n = n + 1;
    }
    out
}

/// The color stored for `tag`, if any.
pub fn lookup_tag_color(map: &Vec<(String, String)>, tag: &str) -> (r: Option<String>)
    ensures
        crate::paths::opt_string_view(r) == assoc_get(map@, tag@),
{
    let mut i: usize = 0;
    let ghost m = map@;
    assert(m.skip(0) =~= m);
    while i < map.len()
        invariant
            i <= map.len(),
            m == map@,
            assoc_get(m, tag@) == assoc_get(m.skip(i as int), tag@),
        decreases map.len() - i,
    {
        assert(m.skip(i as int)[0] == m[i as int]);
        if crate::text::str_eq(map[i].0.as_str(), tag) {
            return Some(map[i].1.clone());
        }
        assert(m.skip(i as int).drop_first() =~= m.skip(i + 1));
        i = i + 1;
    }
    None
}

/// The colors of root collections (those without a parent): their own color
/// or their palette color; later entries for one id replace earlier ones.
pub open spec fn root_color_spec(cs: Seq<Collection>, id: i64) -> Option<Seq<char>> {
    match last_root_index(cs, id, cs.len() as int) {
        Some(i) => Some(match cs[i].color {
            Some(c) => c@,
            None => fallback_color_spec(id),
        }),
        None => None,
    }
}

/// The last position `< n` of a root collection with this id.
pub open spec fn last_root_index(cs: Seq<Collection>, id: i64, n: int) -> Option<int>
    decreases n,
{
    if n <= 0 {
        None
    } else if cs[n - 1].id == id && cs[n - 1].parent_id is None {
        Some(n - 1)
    } else {
        last_root_index(cs, id, n - 1)
    }
}

/// The color of a root collection id, as the sidebar's root color map gives it.
pub fn collection_root_color(id: i64, collections: &[Collection]) -> (r: Option<String>)
    ensures
        crate::paths::opt_string_view(r) == root_color_spec(collections@, id),
{
    let mut n = collections.len();
    while n > 0
        invariant
            n <= collections.len(),
            last_root_index(collections@, id, collections@.len() as int) == last_root_index(
                collections@,
                id,
                n as int,
            ),
        decreases n,
    {
        let c = &collections[n - 1];
        if c.id == id && c.parent_id.is_none() {
            return match &c.color {
                Some(col) => Some(col.clone()),
                None => Some(string_of(&chars_of(fallback_collection_color(id)))),
            };
        }
        n = n - 1;
    }
    None
}

/// The color of a collection's sidebar row: the root color of its root, or
/// else the collection's own palette color.
pub open spec fn row_color_spec(cs: Seq<Collection>, id: i64) -> Seq<char> {
    match root_color_spec(cs, collection_root(cs, id)) {
        Some(c) => c,
        None => fallback_color_spec(id),
    }
}

/// The color of a collection's sidebar row.
pub fn collection_row_color(id: i64, collections: &[Collection]) -> (r: String)
    requires
        parent_chain_ends(collections@, id),
    ensures
        r@ == row_color_spec(collections@, id),
{
    let root = root_collection_id(id, collections);
    match collection_root_color(root, collections) {
        Some(c) => c,
        None => string_of(&chars_of(fallback_collection_color(id))),
    }
}

/// Whether some collection has `id` as its parent.
pub fn collection_has_children(id: i64, collections: &[Collection]) -> (r: bool)
    ensures
        r == exists|i: int| 0 <= i < collections@.len() && #[trigger] collections@[i].parent_id == Some(id),
{
    let mut i: usize = 0;
    while i < collections.len()
        invariant
            i <= collections.len(),
            forall|k: int| 0 <= k < i ==> collections@[k].parent_id != Some(id),
        decreases collections.len() - i,
    {
        if collections[i].parent_id == Some(id) {
            return true;
        }
        i = i + 1;
    }
    false
}

// ---------------------------------------------------------------------------
// The sidebar's visible rows
// ---------------------------------------------------------------------------

/// The positions of the collections directly below `parent` (or of the roots,
/// for `None`), in list order.
pub open spec fn child_positions(cs: Seq<Collection>, parent: Option<i64>) -> Seq<int> {
    Seq::new(cs.len(), |i: int| i).filter(|i: int| cs[i].parent_id == parent)
}

/// Sort keys of collection positions: the lowercased names.
pub open spec fn name_keys(cs: Seq<Collection>, ps: Seq<int>) -> Seq<Seq<char>> {
    ps.map_values(|i: int| lowercase_of(cs[i].name@))
}

/// The children of `parent`, as positions, stably sorted by lowercased name.
pub open spec fn sorted_children(cs: Seq<Collection>, parent: Option<i64>) -> Seq<int> {
    stable_sort_spec(child_positions(cs, parent), name_keys(cs, child_positions(cs, parent)))
}

/// The rows of the walk, as positions: each kid, followed by the rows below
/// it unless it is collapsed, descending at most `fuel` levels.
pub open spec fn visible_rows(cs: Seq<Collection>, collapsed: Set<i64>, kids: Seq<int>, fuel: nat) -> Seq<int>
    decreases fuel, kids.len(),
{
    if kids.len() == 0 {
        Seq::<int>::empty()
    } else {
        let c = cs[kids[0]];
        let below = if collapsed.contains(c.id) || fuel == 0 {
            Seq::<int>::empty()
        } else {
            visible_rows(cs, collapsed, sorted_children(cs, Some(c.id)), (fuel - 1) as nat)
        };
        seq![kids[0]] + below + visible_rows(cs, collapsed, kids.drop_first(), fuel)
    }
}

/// The positions of the sidebar's collection rows, in display order. The
/// walk descends at most as many levels as there are collections, a bound
/// that only a loop of parent links (possible with a repeated id) reaches.
pub open spec fn visible_positions(cs: Seq<Collection>, collapsed: Set<i64>) -> Seq<int> {
    visible_rows(cs, collapsed, sorted_children(cs, None), cs.len())
}

/// All positions are in range.
pub open spec fn positions_in(ps: Seq<int>, n: int) -> bool {
    forall|i: int| 0 <= i < ps.len() ==> 0 <= #[trigger] ps[i] < n
}

proof fn lemma_child_positions_prefix(cs: Seq<Collection>, parent: Option<i64>, k: int)
    requires
        0 <= k <= cs.len(),
    ensures
        ({
            let ps = Seq::new(cs.len(), |i: int| i).take(k).filter(|i: int| cs[i].parent_id == parent);
            &&& forall|i: int| 0 <= i < ps.len() ==> 0 <= #[trigger] ps[i] < k && cs[ps[i]].parent_id == parent
            &&& forall|i: int, j: int| 0 <= i < j < ps.len() ==> ps[i] < ps[j]
            &&& forall|v: int| 0 <= v < k && cs[v].parent_id == parent ==> #[trigger] ps.contains(v)
        }),
    decreases k,
{
    let base = Seq::new(cs.len(), |i: int| i);
    let pred = |i: int| cs[i].parent_id == parent;
    if k == 0 {
        assert(base.take(0) =~= Seq::<int>::empty());
        assert(base.take(0).filter(pred) =~= Seq::<int>::empty()) by {
            reveal(Seq::filter);
        }
    } else {
        lemma_child_positions_prefix(cs, parent, k - 1);
        lemma_filter_take_step(base, pred, k - 1);
        let prev = base.take(k - 1).filter(pred);
        let ps = base.take(k).filter(pred);
        if pred(k - 1) {
            assert(ps == prev.push(k - 1));
            assert forall|v: int| 0 <= v < k && cs[v].parent_id == parent implies #[trigger] ps.contains(v) by {
                if v == k - 1 {
                    assert(ps[ps.len() - 1] == v);
                } else {
                    assert(prev.contains(v));
                    let i = choose|i: int| 0 <= i < prev.len() && prev[i] == v;
                    assert(ps[i] == v);
                }
            }
            assert forall|i: int| 0 <= i < ps.len() implies 0 <= #[trigger] ps[i] < k && cs[ps[i]].parent_id == parent by {
                if i < prev.len() {
                    assert(ps[i] == prev[i]);
                }
            }
            assert forall|i: int, j: int| 0 <= i < j < ps.len() implies ps[i] < ps[j] by {
                assert(ps[i] == prev[i]);
                if j < prev.len() {
                    assert(ps[j] == prev[j]);
                }
            }
        } else {
            assert forall|v: int| 0 <= v < k && cs[v].parent_id == parent implies #[trigger] ps.contains(v) by {
                assert(v != k - 1);
                assert(prev.contains(v));
            }
        }
    }
}

/// The sidebar lists the children of a parent (or the roots, for `None`) in
/// order of their lowercased names: each child exactly once, nothing that is
/// not a child, names never decreasing, and children with the same name in
/// the order of the list.
pub proof fn lemma_children_sorted_by_name(cs: Seq<Collection>, parent: Option<i64>)
    ensures
        ({
            let o = sorted_children(cs, parent);
            &&& forall|i: int| 0 <= i < o.len() ==> 0 <= #[trigger] o[i] < cs.len() && cs[o[i]].parent_id == parent
            &&& forall|v: int| 0 <= v < cs.len() && cs[v].parent_id == parent ==> #[trigger] o.contains(v)
            &&& forall|i: int, j: int| 0 <= i < j < o.len() ==> o[i] != o[j]
            &&& forall|i: int, j: int|
                0 <= i < j < o.len() ==> crate::strset::str_le(lowercase_of(cs[o[i]].name@), lowercase_of(cs[o[j]].name@))
            &&& forall|i: int, j: int|
                0 <= i < j < o.len() && lowercase_of(cs[o[i]].name@) == lowercase_of(cs[o[j]].name@) ==> o[i] < o[j]
        }),
{
    let base = Seq::new(cs.len(), |i: int| i);
    let pred = |i: int| cs[i].parent_id == parent;
    lemma_child_positions_prefix(cs, parent, cs.len() as int);
    assert(base.take(cs.len() as int) =~= base);
    let ps = child_positions(cs, parent);
    let keys = name_keys(cs, ps);
    crate::sort::lemma_stable_sort_spec_sorts(ps, keys);
    let o = sorted_children(cs, parent);
    let perm = choose|perm: Seq<int>| stable_sorted_by(keys, perm) && o == perm.map_values(|i: int| ps[i]);
    assert forall|i: int| 0 <= i < o.len() implies 0 <= #[trigger] o[i] < cs.len() && cs[o[i]].parent_id == parent by {
        assert(o[i] == ps[perm[i]]);
    }
    assert forall|v: int| 0 <= v < cs.len() && cs[v].parent_id == parent implies #[trigger] o.contains(v) by {
        assert(ps.contains(v));
        let t = choose|t: int| 0 <= t < ps.len() && ps[t] == v;
        assert(perm.contains(t));
        let i = choose|i: int| 0 <= i < perm.len() && perm[i] == t;
        assert(o[i] == v);
    }
    assert forall|i: int, j: int| 0 <= i < j < o.len() implies o[i] != o[j] by {
        assert(o[i] == ps[perm[i]]);
        assert(o[j] == ps[perm[j]]);
        assert(perm[i] != perm[j]);
        if perm[i] < perm[j] {
        } else {
        }
    }
    assert forall|i: int, j: int| 0 <= i < j < o.len() implies crate::strset::str_le(
        lowercase_of(cs[o[i]].name@),
        lowercase_of(cs[o[j]].name@),
    ) by {
        assert(o[i] == ps[perm[i]]);
        assert(o[j] == ps[perm[j]]);
        assert(keys[perm[i]] == lowercase_of(cs[ps[perm[i]]].name@));
        assert(keys[perm[j]] == lowercase_of(cs[ps[perm[j]]].name@));
    }
    assert forall|i: int, j: int|
        0 <= i < j < o.len() && lowercase_of(cs[o[i]].name@) == lowercase_of(cs[o[j]].name@) implies o[i] < o[j] by {
        assert(o[i] == ps[perm[i]]);
        assert(o[j] == ps[perm[j]]);
        assert(keys[perm[i]] == lowercase_of(cs[ps[perm[i]]].name@));
        assert(keys[perm[j]] == lowercase_of(cs[ps[perm[j]]].name@));
    }
}

/// The positions of the collections below `parent`, stably sorted by
/// lowercased name.
pub fn child_positions_sorted(collections: &[Collection], parent: Option<i64>) -> (out: Vec<usize>)
    ensures
        usize_seq_as_int(out@) == sorted_children(collections@, parent),
        positions_in(usize_seq_as_int(out@), collections@.len() as int),
{
    let ghost cs = collections@;
    let ghost base = Seq::new(cs.len(), |i: int| i);
    let mut members: Vec<usize> = Vec::new();
    let mut i: usize = 0;
    while i < collections.len()
        invariant
            i <= collections.len(),
            cs == collections@,
            base == Seq::new(cs.len(), |i: int| i),
            usize_seq_as_int(members@) == base.take(i as int).filter(|i: int| cs[i].parent_id == parent),
            forall|k: int| 0 <= k < members@.len() ==> (#[trigger] members@[k]) < i,
        decreases collections.len() - i,
    {
        proof {
            lemma_filter_take_step(base, |i: int| cs[i].parent_id == parent, i as int);
        }
        if collections[i].parent_id == parent {
            let ghost before = usize_seq_as_int(members@);
            members.push(i);
            assert(usize_seq_as_int(members@) =~= before.push(i as int));
        }
        i = i + 1;
    }
    assert(base.take(cs.len() as int) =~= base);
    let ghost ps = usize_seq_as_int(members@);
    assert(ps == child_positions(cs, parent));
    let mut keys: Vec<Vec<char>> = Vec::new();
    let mut k: usize = 0;
    while k < members.len()
        invariant
            k <= members.len(),
            cs == collections@,
            ps == usize_seq_as_int(members@),
            forall|q: int| 0 <= q < members@.len() ==> (#[trigger] members@[q]) < cs.len(),
            views(keys@) == name_keys(cs, ps).take(k as int),
        decreases members.len() - k,
    {
        let name = chars_of(collections[members[k]].name.as_str());
        let l = lower_chars(&name);
        let ghost before = views(keys@);
        keys.push(l);
        assert(views(keys@) =~= before.push(l@));
        assert(views(keys@) =~= name_keys(cs, ps).take(k + 1));
        k = k + 1;
    }
    assert(name_keys(cs, ps).take(members.len() as int) =~= name_keys(cs, ps));
    let perm = stable_sort_positions(&keys);
    let ghost p = usize_seq_as_int(perm@);
    let mut out: Vec<usize> = Vec::new();
    let mut j: usize = 0;
    while j < perm.len()
        invariant
            j <= perm.len(),
            p == usize_seq_as_int(perm@),
            ps == usize_seq_as_int(members@),
            stable_sorted_by(name_keys(cs, ps), p),
            usize_seq_as_int(out@) == p.take(j as int).map_values(|x: int| ps[x]),
            forall|q: int| 0 <= q < members@.len() ==> (#[trigger] members@[q]) < cs.len(),
            forall|q: int| 0 <= q < out@.len() ==> (#[trigger] out@[q]) < cs.len(),
            cs == collections@,
        decreases perm.len() - j,
    {
        assert(p[j as int] == perm@[j as int] as int);
        let t = members[perm[j]];
        let ghost before = usize_seq_as_int(out@);
        out.push(t);
        assert(usize_seq_as_int(out@) =~= before.push(t as int));
        assert(usize_seq_as_int(out@) =~= p.take(j + 1).map_values(|x: int| ps[x]));
        j = j + 1;
    }
    assert(p.take(perm.len() as int) =~= p);
    proof {
        assert(usize_seq_as_int(out@) == p.map_values(|x: int| ps[x]));
        assert(is_stable_sort_of(ps, name_keys(cs, ps), usize_seq_as_int(out@)));
        lemma_is_stable_sort_spec(ps, name_keys(cs, ps), usize_seq_as_int(out@));
        assert forall|q: int| 0 <= q < usize_seq_as_int(out@).len() implies 0 <= #[trigger] usize_seq_as_int(out@)[q] < cs.len() by {
            assert(usize_seq_as_int(out@)[q] == out@[q] as int);
        }
    }
    out
}

fn id_in(ids: &[i64], id: i64) -> (r: bool)
    ensures
        r == ids@.to_set().contains(id),
{
    let mut i: usize = 0;
    while i < ids.len()
        invariant
            i <= ids.len(),
            forall|k: int| 0 <= k < i ==> ids@[k] != id,
        decreases ids.len() - i,
    {
        if ids[i] == id {
            assert(ids@.contains(id));
            return true;
        }
        i = i + 1;
    }
    assert(!ids@.contains(id));
    false
}

fn append_visible(
    collections: &[Collection],
    collapsed_ids: &[i64],
    kids: &Vec<usize>,
    fuel: usize,
    out: &mut Vec<usize>,
)
    requires
        positions_in(usize_seq_as_int(kids@), collections@.len() as int),
        positions_in(usize_seq_as_int(old(out)@), collections@.len() as int),
    ensures
        positions_in(usize_seq_as_int(final(out)@), collections@.len() as int),
        usize_seq_as_int(final(out)@) == usize_seq_as_int(old(out)@) + visible_rows(
            collections@,
            collapsed_ids@.to_set(),
            usize_seq_as_int(kids@),
            fuel as nat,
        ),
    decreases fuel, kids@.len(),
{
    let ghost cs = collections@;
    let ghost col = collapsed_ids@.to_set();
    let ghost ks = usize_seq_as_int(kids@);
    let ghost start = usize_seq_as_int(out@);
    let mut i: usize = 0;
    assert(ks.skip(0) =~= ks);
    while i < kids.len()
        invariant
            i <= kids.len(),
            cs == collections@,
            col == collapsed_ids@.to_set(),
            ks == usize_seq_as_int(kids@),
            positions_in(ks, cs.len() as int),
            positions_in(usize_seq_as_int(out@), cs.len() as int),
            start + visible_rows(cs, col, ks, fuel as nat) == usize_seq_as_int(out@) + visible_rows(
                cs,
                col,
                ks.skip(i as int),
                fuel as nat,
            ),
        decreases kids.len() - i,
    {
        let ghost rest = ks.skip(i as int);
        assert(rest[0] == ks[i as int]);
        assert(rest.drop_first() =~= ks.skip(i + 1));
        let pos = kids[i];
        assert(ks[i as int] == pos as int);
        let ghost before = usize_seq_as_int(out@);
        out.push(pos);
        assert(usize_seq_as_int(out@) =~= before.push(pos as int));
        let cid = collections[pos].id;
        if !id_in(collapsed_ids, cid) && fuel > 0 {
            let below = child_positions_sorted(collections, Some(cid));
            let ghost mid = usize_seq_as_int(out@);
            append_visible(collections, collapsed_ids, &below, fuel - 1, out);
            assert(usize_seq_as_int(out@) == mid + visible_rows(cs, col, sorted_children(cs, Some(cid)), (fuel - 1) as nat));
        }
        proof {
            let c = cs[rest[0]];
            let below = if col.contains(c.id) || fuel == 0 {
                Seq::<int>::empty()
            } else {
                visible_rows(cs, col, sorted_children(cs, Some(c.id)), (fuel - 1) as nat)
            };
            assert(visible_rows(cs, col, rest, fuel as nat) == seq![rest[0]] + below + visible_rows(
                cs,
                col,
                rest.drop_first(),
                fuel as nat,
            ));
            assert(usize_seq_as_int(out@) =~= before + (seq![rest[0]] + below));
        }
        i = i + 1;
    }
    assert(ks.skip(kids.len() as int) =~= Seq::<int>::empty());
}

/// The positions of the sidebar's collection rows in display order: roots
/// sorted by name, each followed by its sorted children unless collapsed.
pub fn visible_collection_positions(collections: &[Collection], collapsed_ids: &[i64]) -> (out: Vec<usize>)
    ensures
        usize_seq_as_int(out@) == visible_positions(collections@, collapsed_ids@.to_set()),
        positions_in(usize_seq_as_int(out@), collections@.len() as int),
{
    let roots = child_positions_sorted(collections, None);
    let mut out: Vec<usize> = Vec::new();
    append_visible(collections, collapsed_ids, &roots, collections.len(), &mut out);
    assert(Seq::<int>::empty() + visible_positions(collections@, collapsed_ids@.to_set()) =~= usize_seq_as_int(out@));
    out
}

/// The sidebar's collection rows in display order: roots sorted by name, each
/// followed by its sorted children unless it is collapsed.
pub fn visible_collections(collections: &[Collection], collapsed_ids: &[i64]) -> (out: Vec<Collection>)
    ensures
        out@.len() == visible_positions(collections@, collapsed_ids@.to_set()).len(),
        forall|i: int| 0 <= i < out@.len() ==> collection_value(#[trigger] out@[i]) == collection_value(
            collections@[visible_positions(collections@, collapsed_ids@.to_set())[i]],
        ),
{
    let ps = visible_collection_positions(collections, collapsed_ids);
    let ghost vp = usize_seq_as_int(ps@);
    let mut out: Vec<Collection> = Vec::new();
    let mut i: usize = 0;
    while i < ps.len()
        invariant
            i <= ps.len(),
            vp == usize_seq_as_int(ps@),
            positions_in(vp, collections@.len() as int),
            out@.len() == i,
            forall|k: int| 0 <= k < i ==> collection_value(#[trigger] out@[k]) == collection_value(
                collections@[vp[k]],
            ),
        decreases ps.len() - i,
    {
        assert(vp[i as int] == ps@[i as int] as int);
        let c = collections[ps[i]].clone();
        out.push(c);
        i = i + 1;
    }
    out
}

/// Flips whether `id` is collapsed.
pub fn toggle_collapsed(collapsed_ids: &mut Vec<i64>, id: i64)
    ensures
        final(collapsed_ids)@.to_set() == if old(collapsed_ids)@.to_set().contains(id) {
            old(collapsed_ids)@.to_set().remove(id)
        } else {
            old(collapsed_ids)@.to_set().insert(id)
        },
{
    let ghost s0 = collapsed_ids@;
    let mut kept: Vec<i64> = Vec::new();
    let mut found = false;
    let mut i: usize = 0;
    while i < collapsed_ids.len()
        invariant
            i <= collapsed_ids.len(),
            collapsed_ids@ == s0,
            found == s0.take(i as int).contains(id),
            kept@.to_set() == s0.take(i as int).to_set().remove(id),
        decreases collapsed_ids.len() - i,
    {
        let x = collapsed_ids[i];
        let ghost before = kept@;
        assert(s0.take(i + 1) =~= s0.take(i as int).push(x));
        proof {
            let a = s0.take(i as int);
            let b = s0.take(i + 1);
            if b.contains(id) {
                let k = choose|k: int| 0 <= k < b.len() && #[trigger] b[k] == id;
                if k < i {
                    assert(a[k] == id);
                }
            }
            if a.contains(id) {
                let k = choose|k: int| 0 <= k < a.len() && #[trigger] a[k] == id;
                assert(b[k] == id);
            }
            if x == id {
                assert(b[i as int] == id);
            }
            assert(b.contains(id) == (a.contains(id) || x == id));
        }
        proof {
            s0.take(i as int).lemma_push_to_set_commute(x);
        }
        if x == id {
            found = true;
            assert(s0.take(i + 1).to_set().remove(id) =~= s0.take(i as int).to_set().remove(id));
        } else {
            kept.push(x);
            proof {
                before.lemma_push_to_set_commute(x);
            }
            assert(kept@.to_set() =~= s0.take(i + 1).to_set().remove(id));
        }
        i = i + 1;
    }
    assert(s0.take(s0.len() as int) =~= s0);
    if !found {
        let ghost before = kept@;
        kept.push(id);
        proof {
            before.lemma_push_to_set_commute(id);
        }
        assert(kept@.to_set() =~= s0.to_set().insert(id));
    }
    *collapsed_ids = kept;
}

/// Collapsing a row and collapsing it again leaves the collapsed rows as
/// they were.
pub proof fn lemma_toggle_collapsed_twice(collapsed: Set<i64>, id: i64)
    ensures
        ({
            let once = if collapsed.contains(id) {
                collapsed.remove(id)
            } else {
                collapsed.insert(id)
            };
            if once.contains(id) {
                once.remove(id)
            } else {
                once.insert(id)
            }
        }) == collapsed,
{
    if collapsed.contains(id) {
        assert(collapsed.remove(id).insert(id) =~= collapsed);
    } else {
        assert(collapsed.insert(id).remove(id) =~= collapsed);
    }
}

/// Opens every ancestor of a selected collection, so that it shows.
pub fn expand_ancestors(collapsed_ids: &mut Vec<i64>, ancestors: &Vec<i64>)
    ensures
        final(collapsed_ids)@.to_set() == old(collapsed_ids)@.to_set().difference(ancestors@.to_set()),
{
    let ghost s0 = collapsed_ids@;
    let mut kept: Vec<i64> = Vec::new();
    let mut i: usize = 0;
    while i < collapsed_ids.len()
        invariant
            i <= collapsed_ids@.len(),
            collapsed_ids@ == s0,
            kept@.to_set() == s0.take(i as int).to_set().difference(ancestors@.to_set()),
        decreases collapsed_ids@.len() - i,
    {
        let x = collapsed_ids[i];
        let mut is_ancestor = false;
        let mut j: usize = 0;
        while j < ancestors.len()
            invariant
                j <= ancestors@.len(),
                is_ancestor == ancestors@.take(j as int).contains(x),
            decreases ancestors@.len() - j,
        {
            proof {
                assert(ancestors@.take(j + 1) =~= ancestors@.take(j as int).push(ancestors@[j as int]));
                if ancestors@.take(j as int).contains(x) {
                    let w = choose|w: int| 0 <= w < j && ancestors@.take(j as int)[w] == x;
                    assert(ancestors@.take(j + 1)[w] == x);
                }
            }
            if ancestors[j] == x {
                is_ancestor = true;
                assert(ancestors@.take(j + 1)[j as int] == x);
            }
            j = j + 1;
        }
        assert(ancestors@.take(ancestors@.len() as int) =~= ancestors@);
        assert(s0.take(i + 1) =~= s0.take(i as int).push(x));
        proof {
            s0.take(i as int).lemma_push_to_set_commute(x);
        }
        let ghost before = kept@;
        if !is_ancestor {
            kept.push(x);
            proof {
                before.lemma_push_to_set_commute(x);
            }
        }
        assert(kept@.to_set() =~= s0.take(i + 1).to_set().difference(ancestors@.to_set()));
        i = i + 1;
    }
    assert(s0.take(s0.len() as int) =~= s0);
    *collapsed_ids = kept;
}

/// `itoa::Buffer::format`: the decimal text of an integer, with a `-` before
/// a negative one (the same text as its `Display`).
#[verifier::external_body]
fn itoa_text(n: i64) -> (r: String)
    ensures
        r@ == crate::text::decimal_int(n as int),
{
    let mut buf = itoa::Buffer::new();
    buf.format(n).to_string()
}

/// The count shown on a collection row, and its tooltip: `n tag-matched
/// image`, with an `s` unless there is exactly one.
pub fn collection_count_labels(item_count: i64) -> (r: (String, String))
    ensures
        r.0@ == crate::text::decimal_int(item_count as int),
        r.1@ == crate::text::decimal_int(item_count as int) + " tag-matched image"@ + if item_count == 1 {
            Seq::<char>::empty()
        } else {
            "s"@
        },
{
    let count = itoa_text(item_count);
    let mut tip = crate::text::i64_text(item_count);
    crate::text::push_str(&mut tip, " tag-matched image");
    if item_count != 1 {
        crate::text::push_str(&mut tip, "s");
    } else {
        assert(tip@ + Seq::<char>::empty() =~= tip@);
    }
    (count, string_of(&tip))
}

} // verus!
