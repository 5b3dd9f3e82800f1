use sharpr::folders::{
    first_enabled_folder, folder_icon_color, folder_node_kept, folder_order, folder_icon_name, folder_label, initial_collapsed_paths,
    is_image_file, row_is_ignored, visible_folder_entries, FolderListEntry, FolderNode,
};

fn node(path: &str, children: Vec<FolderNode>) -> FolderNode {
    FolderNode { path: path.into(), children }
}

fn strings(v: &[&str]) -> Vec<String> {
    v.iter().map(|s| s.to_string()).collect()
}

#[test]
fn labels_and_icons() {
    assert_eq!(folder_label("/home/me/Pictures"), "Pictures");
    assert_eq!(folder_label("/"), "/");
    assert_eq!(folder_icon_name("/home/me/Pictures/2024"), "folder-pictures-symbolic");
    assert_eq!(folder_icon_name("/home/me/Downloads"), "folder-download-symbolic");
    assert_eq!(folder_icon_name("/srv/data"), "folder-symbolic");
    assert_eq!(folder_icon_color("folder-pictures-symbolic"), Some("#62a0ea"));
    assert_eq!(folder_icon_color("folder-symbolic"), None);
}

#[test]
fn image_files_by_extension() {
    assert!(is_image_file("/p/a.JPG"));
    assert!(is_image_file("/p/a.heic"));
    assert!(!is_image_file("/p/a.txt"));
    assert!(!is_image_file("/p/jpg"));
}

#[test]
fn visible_folders() {
    let tree = vec![node("/a", vec![node("/a/x", vec![]), node("/a/y", vec![])]), node("/b", vec![])];
    let all = visible_folder_entries(&tree, &[]);
    let paths: Vec<&str> = all.iter().map(|e| e.path.as_str()).collect();
    assert_eq!(paths, vec!["/a", "/a/x", "/a/y", "/b"]);
    assert_eq!(all[1].depth, 1);
    assert!(all[0].has_children);
    assert_eq!(all[0].label, "a");
    let folded = visible_folder_entries(&tree, &strings(&["/a"]));
    let paths: Vec<&str> = folded.iter().map(|e| e.path.as_str()).collect();
    assert_eq!(paths, vec!["/a", "/b"]);
}

#[test]
fn folders_start_collapsed() {
    let tree = vec![node("/a", vec![node("/a/x", vec![])])];
    let mut c = initial_collapsed_paths(&Vec::new(), &tree);
    c.sort();
    assert_eq!(c, strings(&["/a", "/a/x"]));
    let kept = initial_collapsed_paths(&strings(&["/z"]), &tree);
    assert_eq!(kept, strings(&["/z"]));
}

#[test]
fn ignored_folders() {
    let ignored = strings(&["/a"]);
    assert!(row_is_ignored("/a/x", &ignored));
    assert!(row_is_ignored("/a", &ignored));
    assert!(!row_is_ignored("/ab", &ignored));
    let entries = vec![
        FolderListEntry { path: "/a".into(), label: "a".into(), depth: 0, has_children: false },
        FolderListEntry { path: "/b".into(), label: "b".into(), depth: 0, has_children: false },
    ];
    assert_eq!(first_enabled_folder(&entries, &ignored), Some("/b".to_string()));
    assert_eq!(first_enabled_folder(&entries, &strings(&["/"])), None);
}

#[test]
fn sibling_folders_sort_by_lowercased_path() {
    let paths = vec![
        "/lib/beta".to_string(),
        "/lib/Alpha".to_string(),
        "/lib/alpha".to_string(),
        "/lib/Gamma".to_string(),
    ];
    assert_eq!(folder_order(&paths), vec![1, 2, 0, 3]);
    assert_eq!(folder_order(&[]), Vec::<usize>::new());
}

#[test]
fn folders_without_images_or_subfolders_are_dropped() {
    assert!(folder_node_kept(true, 0));
    assert!(folder_node_kept(false, 2));
    assert!(!folder_node_kept(false, 0));
}
