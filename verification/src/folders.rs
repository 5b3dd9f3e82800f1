//! The sidebar's folder tree: which rows show, how they are labelled, which
//! are disabled, and how folders are recognised by name.
use vstd::prelude::*;
use crate::paths::{extension, extension_of, file_name, file_name_of, path_starts_with, starts_with_path};
use crate::sort::{stable_sort_positions, stable_sorted_by, usize_seq_as_int};
use crate::text::{chars_of, contains_exec, contains_seq, eq_lit, lit, lower_chars, lowercase_of, str_contains, string_of};

verus! {

/// A folder and the folders below it that hold images.
#[derive(Debug)]
pub struct FolderNode {
    pub path: String,
    pub children: Vec<FolderNode>,
}

/// One row of the folder list.
#[derive(Debug)]
pub struct FolderListEntry {
    pub path: String,
    pub label: String,
    pub depth: u32,
    pub has_children: bool,
}

/// The value of a row: its path, label, depth and whether it has children.
pub open spec fn entry_value(e: FolderListEntry) -> (Seq<char>, Seq<char>, int, bool) {
    (e.path@, e.label@, e.depth as int, e.has_children)
}

/// The label of a folder: its final component, or the whole path when it has
/// none.
pub open spec fn folder_label_spec(p: Seq<char>) -> Seq<char> {
    match file_name_of(p) {
        Some(n) => if n.len() > 0 {
            n
        } else {
            p
        },
        None => p,
    }
}

/// The label shown for a folder.
pub fn folder_label(path: &str) -> (r: String)
    ensures
        r@ == folder_label_spec(path@),
{
    let pv = chars_of(path);
    match file_name(&pv) {
        Some(n) => if n.len() > 0 {
            string_of(&n)
        } else {
            string_of(&pv)
        },
        None => string_of(&pv),
    }
}

/// The rows for `node` at `depth`: the node, then (unless it is collapsed)
/// the rows of its children one level deeper.
pub open spec fn node_rows(node: FolderNode, depth: int, collapsed: Set<Seq<char>>) -> Seq<(Seq<char>, Seq<char>, int, bool)>
    decreases node,
{
    seq![(node.path@, folder_label_spec(node.path@), depth, node.children@.len() > 0)] + if collapsed.contains(node.path@) {
        Seq::empty()
    } else {
        list_rows(node.children@, depth + 1, collapsed)
    }
}

/// The rows for a list of sibling nodes, in order.
pub open spec fn list_rows(nodes: Seq<FolderNode>, depth: int, collapsed: Set<Seq<char>>) -> Seq<(Seq<char>, Seq<char>, int, bool)>
    decreases nodes,
{
    if nodes.len() == 0 {
        Seq::empty()
    } else {
        node_rows(nodes[0], depth, collapsed) + list_rows(nodes.subrange(1, nodes.len() as int), depth, collapsed)
    }
}

/// The folders the rows show, in order: each node, then (unless it is
/// collapsed) the folders below it.
pub open spec fn node_nodes(node: FolderNode, collapsed: Set<Seq<char>>) -> Seq<FolderNode>
    decreases node,
{
    seq![node] + if collapsed.contains(node.path@) {
        Seq::empty()
    } else {
        list_nodes(node.children@, collapsed)
    }
}

/// The folders shown for a list of sibling nodes, in order.
pub open spec fn list_nodes(nodes: Seq<FolderNode>, collapsed: Set<Seq<char>>) -> Seq<FolderNode>
    decreases nodes,
{
    if nodes.len() == 0 {
        Seq::empty()
    } else {
        node_nodes(nodes[0], collapsed) + list_nodes(nodes.subrange(1, nodes.len() as int), collapsed)
    }
}

/// Each row of a node shows one folder: its path, its label, and whether it
/// has subfolders, which holds exactly when the folder has at least one.
pub proof fn lemma_node_rows_show_folders(node: FolderNode, depth: int, collapsed: Set<Seq<char>>)
    ensures
        node_rows(node, depth, collapsed).len() == node_nodes(node, collapsed).len(),
        forall|k: int| 0 <= k < node_rows(node, depth, collapsed).len() ==> {
            let r = #[trigger] node_rows(node, depth, collapsed)[k];
            let f = node_nodes(node, collapsed)[k];
            &&& r.0 == f.path@
            &&& r.1 == folder_label_spec(f.path@)
            &&& r.3 == (f.children@.len() > 0)
        },
    decreases node,
{
    if !collapsed.contains(node.path@) {
        lemma_list_rows_show_folders(node.children@, depth + 1, collapsed);
    }
    let rows = node_rows(node, depth, collapsed);
    let ns = node_nodes(node, collapsed);
    let rest_r = if collapsed.contains(node.path@) {
        Seq::empty()
    } else {
        list_rows(node.children@, depth + 1, collapsed)
    };
    let rest_n = if collapsed.contains(node.path@) {
        Seq::<FolderNode>::empty()
    } else {
        list_nodes(node.children@, collapsed)
    };
    assert forall|k: int| 0 <= k < rows.len() implies {
        let r = #[trigger] rows[k];
        let f = ns[k];
        &&& r.0 == f.path@
        &&& r.1 == folder_label_spec(f.path@)
        &&& r.3 == (f.children@.len() > 0)
    } by {
        if k > 0 {
            assert(rows[k] == rest_r[k - 1]);
            assert(ns[k] == rest_n[k - 1]);
        }
    }
}

/// Each row of a list of sibling nodes shows one folder: its path, its
/// label, and whether it has subfolders, which holds exactly when the folder
/// has at least one.
pub proof fn lemma_list_rows_show_folders(nodes: Seq<FolderNode>, depth: int, collapsed: Set<Seq<char>>)
    ensures
        list_rows(nodes, depth, collapsed).len() == list_nodes(nodes, collapsed).len(),
        forall|k: int| 0 <= k < list_rows(nodes, depth, collapsed).len() ==> {
            let r = #[trigger] list_rows(nodes, depth, collapsed)[k];
            let f = list_nodes(nodes, collapsed)[k];
            &&& r.0 == f.path@
            &&& r.1 == folder_label_spec(f.path@)
            &&& r.3 == (f.children@.len() > 0)
        },
    decreases nodes,
{
    if nodes.len() > 0 {
        let tail = nodes.subrange(1, nodes.len() as int);
        lemma_node_rows_show_folders(nodes[0], depth, collapsed);
        lemma_list_rows_show_folders(tail, depth, collapsed);
        let a = node_rows(nodes[0], depth, collapsed);
        let an = node_nodes(nodes[0], collapsed);
        let b = list_rows(tail, depth, collapsed);
        let bn = list_nodes(tail, collapsed);
        let rows = list_rows(nodes, depth, collapsed);
        let ns = list_nodes(nodes, collapsed);
        assert forall|k: int| 0 <= k < rows.len() implies {
            let r = #[trigger] rows[k];
            let f = ns[k];
            &&& r.0 == f.path@
            &&& r.1 == folder_label_spec(f.path@)
            &&& r.3 == (f.children@.len() > 0)
        } by {
            if k < a.len() {
                assert(rows[k] == a[k]);
                assert(ns[k] == an[k]);
            } else {
                assert(rows[k] == b[k - a.len()]);
                assert(ns[k] == bn[k - a.len()]);
            }
        }
    }
}

/// How many levels a node spans.
pub open spec fn node_height(node: FolderNode) -> nat
    decreases node,
{
    1 + list_height(node.children@)
}

/// How many levels a list of nodes spans.
pub open spec fn list_height(nodes: Seq<FolderNode>) -> nat
    decreases nodes,
{
    if nodes.len() == 0 {
        0
    } else {
        let a = node_height(nodes[0]);
        let b = list_height(nodes.subrange(1, nodes.len() as int));
        if a >= b {
            a
        } else {
            b
        }
    }
}

fn path_in(paths: &[String], p: &str) -> (r: bool)
    ensures
        r == crate::text::string_views(paths@).to_set().contains(p@),
{
    let mut i: usize = 0;
    while i < paths.len()
        invariant
            i <= paths.len(),
            forall|k: int| 0 <= k < i ==> paths@[k]@ != p@,
        decreases paths.len() - i,
    {
        if crate::text::str_eq(paths[i].as_str(), p) {
            assert(crate::text::string_views(paths@)[i as int] == p@);
            return true;
        }
        i = i + 1;
    }
    assert forall|k: int| 0 <= k < paths@.len() implies crate::text::string_views(paths@)[k] != p@ by {
        assert(crate::text::string_views(paths@)[k] == paths@[k]@);
    }
    false
}

proof fn lemma_list_height_split(nodes: Seq<FolderNode>, i: int)
    requires
        0 <= i < nodes.len(),
    ensures
        node_height(nodes[i]) <= list_height(nodes),
        list_height(nodes.subrange(i + 1, nodes.len() as int)) <= list_height(nodes),
    decreases nodes.len(),
{
    let rest = nodes.subrange(1, nodes.len() as int);
    if i > 0 {
        lemma_list_height_split(rest, i - 1);
        assert(rest[i - 1] == nodes[i]);
        assert(rest.subrange(i, rest.len() as int) =~= nodes.subrange(i + 1, nodes.len() as int));
    }
}

fn append_rows(nodes: &Vec<FolderNode>, depth: u32, collapsed: &[String], out: &mut Vec<FolderListEntry>)
    requires
        depth + list_height(nodes@) <= u32::MAX,
    ensures
        final(out)@.map_values(|e: FolderListEntry| entry_value(e)) == old(out)@.map_values(
            |e: FolderListEntry| entry_value(e),
        ) + list_rows(nodes@, depth as int, crate::text::string_views(collapsed@).to_set()),
    decreases nodes@,
{
    let ghost col = crate::text::string_views(collapsed@).to_set();
    let ghost start = old(out)@.map_values(|e: FolderListEntry| entry_value(e));
    let mut i: usize = 0;
    assert(nodes@.subrange(0, nodes@.len() as int) =~= nodes@);
    while i < nodes.len()
        invariant
            i <= nodes.len(),
            col == crate::text::string_views(collapsed@).to_set(),
            depth + list_height(nodes@) <= u32::MAX,
            start + list_rows(nodes@, depth as int, col) == out@.map_values(|e: FolderListEntry| entry_value(e))
                + list_rows(nodes@.subrange(i as int, nodes@.len() as int), depth as int, col),
        decreases nodes.len() - i,
    {
        let ghost rest = nodes@.subrange(i as int, nodes@.len() as int);
        assert(rest[0] == nodes@[i as int]);
        assert(rest.subrange(1, rest.len() as int) =~= nodes@.subrange(i + 1, nodes@.len() as int));
        let node = &nodes[i];
        proof {
            lemma_list_height_split(nodes@, i as int);
        }
        let label = folder_label(node.path.as_str());
        let entry = FolderListEntry {
            path: node.path.clone(),
            label,
            depth,
            has_children: node.children.len() > 0,
        };
        let ghost before = out@;
        out.push(entry);
        assert(out@.map_values(|e: FolderListEntry| entry_value(e)) =~= before.map_values(
            |e: FolderListEntry| entry_value(e),
        ).push(entry_value(entry)));
        let ghost mid = out@.map_values(|e: FolderListEntry| entry_value(e));
        if !path_in(collapsed, node.path.as_str()) {
            assert(node_height(*node) == 1 + list_height(node.children@));
            append_rows(&node.children, depth + 1, collapsed, out);
        }
        proof {
            let below = if col.contains(node.path@) {
                Seq::<(Seq<char>, Seq<char>, int, bool)>::empty()
            } else {
                list_rows(node.children@, depth + 1, col)
            };
            assert(node_rows(*node, depth as int, col) == seq![entry_value(entry)] + below);
            assert(out@.map_values(|e: FolderListEntry| entry_value(e)) =~= mid + below);
            assert(list_rows(rest, depth as int, col) == node_rows(*node, depth as int, col) + list_rows(
                nodes@.subrange(i + 1, nodes@.len() as int),
                depth as int,
                col,
            ));
        }
        i = i + 1;
    }
    assert(nodes@.subrange(nodes@.len() as int, nodes@.len() as int) =~= Seq::<FolderNode>::empty());
}

/// The folder rows in display order: each folder, then its children one
/// level deeper unless the folder is collapsed.
pub fn visible_folder_entries(tree: &Vec<FolderNode>, collapsed_paths: &[String]) -> (out: Vec<FolderListEntry>)
    requires
        list_height(tree@) <= u32::MAX,
    ensures
        out@.map_values(|e: FolderListEntry| entry_value(e)) == list_rows(
            tree@,
            0,
            crate::text::string_views(collapsed_paths@).to_set(),
        ),
{
    let mut out: Vec<FolderListEntry> = Vec::new();
    append_rows(tree, 0, collapsed_paths, &mut out);
    assert(Seq::<FolderListEntry>::empty().map_values(|e: FolderListEntry| entry_value(e)) =~= Seq::<
        (Seq<char>, Seq<char>, int, bool),
    >::empty());
    assert(Seq::<(Seq<char>, Seq<char>, int, bool)>::empty() + list_rows(
        tree@,
        0,
        crate::text::string_views(collapsed_paths@).to_set(),
    ) =~= list_rows(tree@, 0, crate::text::string_views(collapsed_paths@).to_set()));
    out
}

/// The paths of all nodes, each node before its children.
pub open spec fn node_paths(node: FolderNode) -> Seq<Seq<char>>
    decreases node,
{
    seq![node.path@] + list_paths(node.children@)
}

/// The paths of all nodes of a list, in order.
pub open spec fn list_paths(nodes: Seq<FolderNode>) -> Seq<Seq<char>>
    decreases nodes,
{
    if nodes.len() == 0 {
        Seq::empty()
    } else {
        node_paths(nodes[0]) + list_paths(nodes.subrange(1, nodes.len() as int))
    }
}

fn collect_into(nodes: &Vec<FolderNode>, out: &mut Vec<String>)
    ensures
        crate::text::string_views(final(out)@) == crate::text::string_views(old(out)@) + list_paths(nodes@),
    decreases nodes@,
{
    let ghost start = crate::text::string_views(old(out)@);
    let mut i: usize = 0;
    assert(nodes@.subrange(0, nodes@.len() as int) =~= nodes@);
    while i < nodes.len()
        invariant
            i <= nodes.len(),
            start + list_paths(nodes@) == crate::text::string_views(out@) + list_paths(
                nodes@.subrange(i as int, nodes@.len() as int),
            ),
        decreases nodes.len() - i,
    {
        let ghost rest = nodes@.subrange(i as int, nodes@.len() as int);
        assert(rest[0] == nodes@[i as int]);
        assert(rest.subrange(1, rest.len() as int) =~= nodes@.subrange(i + 1, nodes@.len() as int));
        let node = &nodes[i];
        let ghost before = crate::text::string_views(out@);
        out.push(node.path.clone());
        assert(crate::text::string_views(out@) =~= before.push(node.path@));
        let ghost mid = crate::text::string_views(out@);
        collect_into(&node.children, out);
        assert(crate::text::string_views(out@) =~= before + node_paths(*node));
        i = i + 1;
    }
    assert(nodes@.subrange(nodes@.len() as int, nodes@.len() as int) =~= Seq::<FolderNode>::empty());
}

/// The folders that start collapsed: when nothing is collapsed yet, every
/// folder of the tree; otherwise the current set is kept.
pub fn initial_collapsed_paths(collapsed_paths: &Vec<String>, tree: &Vec<FolderNode>) -> (out: Vec<String>)
    ensures
        crate::text::string_views(out@) == if collapsed_paths@.len() == 0 {
            list_paths(tree@)
        } else {
            crate::text::string_views(collapsed_paths@)
        },
{
    if collapsed_paths.len() == 0 {
        let mut out: Vec<String> = Vec::new();
        collect_into(tree, &mut out);
        assert(crate::text::string_views(Seq::<String>::empty()) + list_paths(tree@) =~= list_paths(tree@));
        out
    } else {
        crate::collections::clone_strings(collapsed_paths)
    }
}

// ---------------------------------------------------------------------------
// Disabled folders
// ---------------------------------------------------------------------------

/// A folder row is disabled when its path lies inside a disabled folder.
pub open spec fn row_ignored_spec(p: Seq<char>, ignored: Seq<Seq<char>>) -> bool {
    exists|i: int| 0 <= i < ignored.len() && path_starts_with(p, #[trigger] ignored[i])
}

/// Whether the folder at `path` lies inside one of the disabled folders.
pub fn row_is_ignored(path: &str, ignored_folders: &[String]) -> (r: bool)
    ensures
        r == row_ignored_spec(path@, crate::text::string_views(ignored_folders@)),
{
    let ghost iv = crate::text::string_views(ignored_folders@);
    let mut i: usize = 0;
    while i < ignored_folders.len()
        invariant
            i <= ignored_folders.len(),
            iv == crate::text::string_views(ignored_folders@),
            forall|k: int| 0 <= k < i ==> !path_starts_with(path@, #[trigger] iv[k]),
        decreases ignored_folders.len() - i,
    {
        assert(iv[i as int] == ignored_folders@[i as int]@);
        if starts_with_path(path, ignored_folders[i].as_str()) {
            return true;
        }
        i = i + 1;
    }
    false
}

/// The first row whose folder is not disabled.
pub fn first_enabled_folder(entries: &Vec<FolderListEntry>, ignored_folders: &[String]) -> (r: Option<String>)
    ensures
        r matches Some(p) ==> exists|i: int|
            0 <= i < entries@.len() && entries@[i].path@ == p@ && !row_ignored_spec(
                p@,
                crate::text::string_views(ignored_folders@),
            ) && forall|j: int|
                0 <= j < i ==> row_ignored_spec(
                    #[trigger] entries@[j].path@,
                    crate::text::string_views(ignored_folders@),
                ),
        r is None ==> forall|j: int|
            0 <= j < entries@.len() ==> row_ignored_spec(
                #[trigger] entries@[j].path@,
                crate::text::string_views(ignored_folders@),
            ),
{
    let mut i: usize = 0;
    while i < entries.len()
        invariant
            i <= entries.len(),
            forall|j: int|
                0 <= j < i ==> row_ignored_spec(
                    #[trigger] entries@[j].path@,
                    crate::text::string_views(ignored_folders@),
                ),
        decreases entries.len() - i,
    {
        if !row_is_ignored(entries[i].path.as_str(), ignored_folders) {
            return Some(entries[i].path.clone());
        }
        i = i + 1;
    }
    None
}

// ---------------------------------------------------------------------------
// Recognising folders and images by name
// ---------------------------------------------------------------------------

/// The extensions of files shown as images.
pub open spec fn is_image_extension(e: Seq<char>) -> bool {
    e == "jpg"@ || e == "jpeg"@ || e == "png"@ || e == "gif"@ || e == "webp"@ || e == "tiff"@
        || e == "tif"@ || e == "bmp"@ || e == "ico"@ || e == "avif"@ || e == "heic"@ || e == "heif"@
}

/// A file is an image when its lowercased extension is an image extension.
pub open spec fn is_image_file_spec(p: Seq<char>) -> bool {
    match extension_of(p) {
        Some(e) => is_image_extension(lowercase_of(e)),
        None => false,
    }
}

/// Whether `path` names an image file, by its extension.
pub fn is_image_file(path: &str) -> (r: bool)
    ensures
        r == is_image_file_spec(path@),
{
    let pv = chars_of(path);
    match extension(&pv) {
        Some(e) => {
            let l = lower_chars(&e);
            eq_lit(&l, "jpg") || eq_lit(&l, "jpeg") || eq_lit(&l, "png") || eq_lit(&l, "gif")
                || eq_lit(&l, "webp") || eq_lit(&l, "tiff") || eq_lit(&l, "tif") || eq_lit(&l, "bmp")
                || eq_lit(&l, "ico") || eq_lit(&l, "avif") || eq_lit(&l, "heic") || eq_lit(&l, "heif")
        },
        None => false,
    }
}

/// The icon of a folder, by well-known folder names in its path.
pub open spec fn folder_icon_spec(p: Seq<char>) -> Seq<char> {
    if contains_seq(p, "/Pictures"@) || contains_seq(p, "/photos"@) || contains_seq(p, "/Photos"@) {
        "folder-pictures-symbolic"@
    } else if contains_seq(p, "/Downloads"@) || contains_seq(p, "/downloads"@) {
        "folder-download-symbolic"@
    } else if contains_seq(p, "/Videos"@) || contains_seq(p, "/videos"@) {
        "folder-videos-symbolic"@
    } else if contains_seq(p, "/Music"@) || contains_seq(p, "/music"@) {
        "folder-music-symbolic"@
    } else if contains_seq(p, "/Documents"@) || contains_seq(p, "/documents"@) {
        "folder-documents-symbolic"@
    } else {
        "folder-symbolic"@
    }
}

/// The icon name of a folder row.
pub fn folder_icon_name(path: &str) -> (r: &'static str)
    ensures
        r@ == folder_icon_spec(path@),
{
    if str_contains(path, "/Pictures") || str_contains(path, "/photos") || str_contains(path, "/Photos") {
        "folder-pictures-symbolic"
    } else if str_contains(path, "/Downloads") || str_contains(path, "/downloads") {
        "folder-download-symbolic"
    } else if str_contains(path, "/Videos") || str_contains(path, "/videos") {
        "folder-videos-symbolic"
    } else if str_contains(path, "/Music") || str_contains(path, "/music") {
        "folder-music-symbolic"
    } else if str_contains(path, "/Documents") || str_contains(path, "/documents") {
        "folder-documents-symbolic"
    } else {
        "folder-symbolic"
    }
}

/// The color of a folder icon.
pub open spec fn folder_icon_color_spec(icon: Seq<char>) -> Option<Seq<char>> {
    if icon == "folder-pictures-symbolic"@ {
        Some("#62a0ea"@)
    } else if icon == "folder-download-symbolic"@ {
        Some("#e66100"@)
    } else if icon == "folder-videos-symbolic"@ {
        Some("#9141ac"@)
    } else if icon == "folder-music-symbolic"@ {
        Some("#57e389"@)
    } else if icon == "folder-documents-symbolic"@ {
        Some("#e5a50a"@)
    } else {
        None
    }
}

/// The color of a folder icon, for the well-known folder icons.
pub fn folder_icon_color(icon_name: &str) -> (r: Option<&'static str>)
    ensures
        match r {
            Some(c) => folder_icon_color_spec(icon_name@) == Some(c@),
            None => folder_icon_color_spec(icon_name@) is None,
        },
{
    let v = chars_of(icon_name);
    if eq_lit(&v, "folder-pictures-symbolic") {
        Some("#62a0ea")
    } else if eq_lit(&v, "folder-download-symbolic") {
        Some("#e66100")
    } else if eq_lit(&v, "folder-videos-symbolic") {
        Some("#9141ac")
    } else if eq_lit(&v, "folder-music-symbolic") {
        Some("#57e389")
    } else if eq_lit(&v, "folder-documents-symbolic") {
        Some("#e5a50a")
    } else {
        None
    }
}


// ---------------------------------------------------------------------------
// Building the tree
// ---------------------------------------------------------------------------

/// Sort keys of sibling folders: their lowercased paths.
pub open spec fn path_keys(paths: Seq<Seq<char>>) -> Seq<Seq<char>> {
    paths.map_values(|p: Seq<char>| lowercase_of(p))
}

/// The order in which sibling folders are listed: their positions, stably
/// sorted by lowercased path.
pub fn folder_order(paths: &[String]) -> (out: Vec<usize>)
    ensures
        stable_sorted_by(path_keys(crate::text::string_views(paths@)), usize_seq_as_int(out@)),
{
    let ghost ks = path_keys(crate::text::string_views(paths@));
    let mut keys: Vec<Vec<char>> = Vec::new();
    let mut i: usize = 0;
    while i < paths.len()
        invariant
            i <= paths@.len(),
            ks == path_keys(crate::text::string_views(paths@)),
            crate::text::views(keys@) == ks.take(i as int),
        decreases paths@.len() - i,
    {
        let l = lower_chars(&chars_of(paths[i].as_str()));
        let ghost before = crate::text::views(keys@);
        keys.push(l);
        assert(crate::text::views(keys@) =~= before.push(l@));
        assert(crate::text::views(keys@) =~= ks.take(i + 1));
        i = i + 1;
    }
    assert(ks.take(paths@.len() as int) =~= ks);
    stable_sort_positions(&keys)
}

/// A folder is part of the tree when it holds images itself or has a
/// subfolder in the tree.
pub fn folder_node_kept(has_images: bool, child_count: usize) -> (r: bool)
    ensures
        r == (has_images || child_count > 0),
{
    has_images || child_count > 0
}

} // verus!
