use idevice_lib::boundary::{convert_to_ffi, kind_to_ffi, FileTypeFFI};
use idevice_lib::file_tree::{child_path, listing_child_names, listing_tree, FSTree, FileType, PathInfo};

fn info(tag: &str, size: usize) -> PathInfo {
    PathInfo::from_parts(size, 8, "1".to_string(), 1700000000, 1700000500, &tag.to_string())
}

#[test]
fn known_tags_map_to_their_kind() {
    assert_eq!(FileType::from_tag(&"S_IFDIR".to_string()), FileType::Directory);
    assert_eq!(FileType::from_tag(&"S_IFREG".to_string()), FileType::File);
    assert_eq!(FileType::from_tag(&"S_IFLNK".to_string()), FileType::Symlink);
    assert_eq!(FileType::from_tag(&"S_IFCHR".to_string()), FileType::CharDevice);
    assert_eq!(FileType::from_tag(&"S_IFBLK".to_string()), FileType::BlockDevice);
    assert_eq!(FileType::from_tag(&"S_IFIFO".to_string()), FileType::NamedPipe);
    assert_eq!(FileType::from_tag(&"S_IFSOCK".to_string()), FileType::Socket);
}

#[test]
fn unknown_tags_map_to_unknown() {
    assert_eq!(FileType::from_tag(&"S_IFWHT".to_string()), FileType::Unknown);
    assert_eq!(FileType::from_tag(&"".to_string()), FileType::Unknown);
    assert_eq!(FileType::from_tag(&"s_ifdir".to_string()), FileType::Unknown);
    assert_eq!(FileType::from("S_IFDIR ".to_string()), FileType::Unknown);
    assert_eq!(FileType::from("S_IFREG".to_string()), FileType::File);
}

#[test]
fn labels_name_each_kind() {
    assert_eq!(FileType::File.label(), "file");
    assert_eq!(FileType::Directory.label(), "directory");
    assert_eq!(FileType::NamedPipe.label(), "named pipe(fifo)");
    assert_eq!(FileType::CharDevice.label(), "character device");
    assert_eq!(FileType::Unknown.label(), "unknown");
}

#[test]
fn path_info_kind_queries() {
    let d = info("S_IFDIR", 0);
    assert!(d.is_dir());
    assert!(!d.is_file());
    let f = info("S_IFREG", 10);
    assert!(f.is_file());
    assert!(!f.is_dir());
    assert_eq!(f.size, 10);
    assert_eq!(f.nlink, "1");
    assert_eq!(f.creation, 1700000000);
}

#[test]
fn new_tree_is_blank_and_childless() {
    let t = FSTree::new("/DCIM");
    assert_eq!(t.path, "/DCIM");
    assert!(t.children.is_empty());
    assert_eq!(t.info.size, 0);
    assert_eq!(t.info.file_type, FileType::Unknown);
    assert_eq!(t.info.creation, 0);
}

#[test]
fn add_child_keeps_order() {
    let mut t = FSTree::new("/");
    t.add_child(FSTree::new("a"));
    t.add_child(FSTree::new("b"));
    assert_eq!(t.children.len(), 2);
    assert_eq!(t.children[0].path, "a");
    assert_eq!(t.children[1].path, "b");
}

#[test]
fn listing_drops_self_and_parent_entries() {
    let names: Vec<String> = vec![".", "b", "..", "a", "..."].into_iter().map(String::from).collect();
    let kept = listing_child_names(&names);
    assert_eq!(kept, vec!["b".to_string(), "a".to_string(), "...".to_string()]);
}

#[test]
fn child_path_joins_with_slash() {
    assert_eq!(child_path(&"/DCIM".to_string(), &"100APPLE".to_string()), "/DCIM/100APPLE");
}

#[test]
fn listing_of_directory_has_one_level() {
    let names = vec!["sub".to_string(), "f.txt".to_string()];
    let infos = vec![info("S_IFDIR", 0), info("S_IFREG", 3)];
    let t = listing_tree("/root", info("S_IFDIR", 0), names, infos);
    assert_eq!(t.path, "/root");
    assert_eq!(t.children.len(), 2);
    assert_eq!(t.children[0].path, "sub");
    assert!(t.children[0].info.is_dir());
    assert!(t.children[0].children.is_empty());
    assert!(t.children[1].children.is_empty());
    assert_eq!(t.children[1].info.size, 3);
}

#[test]
fn listing_of_file_has_no_children() {
    let t = listing_tree("/f", info("S_IFREG", 4), vec!["x".to_string()], vec![info("S_IFREG", 1)]);
    assert!(t.children.is_empty());
    assert_eq!(t.info.size, 4);
}

#[test]
fn conversion_mirrors_every_node() {
    let mut root = FSTree::new("/r");
    root.info = info("S_IFDIR", 0);
    let mut sub = FSTree::new("sub");
    sub.info = info("S_IFDIR", 0);
    let mut leaf = FSTree::new("leaf");
    leaf.info = info("S_IFSOCK", 7);
    sub.add_child(leaf);
    root.add_child(sub);
    root.add_child(FSTree::new("odd"));
    let f = convert_to_ffi(root);
    assert_eq!(f.path, "/r");
    assert_eq!(f.children_count, 2);
    assert_eq!(f.info.file_type, FileTypeFFI::Directory);
    assert_eq!(f.children[0].children_count, 1);
    assert_eq!(f.children[0].children[0].path, "leaf");
    assert_eq!(f.children[0].children[0].info.size, 7);
    assert_eq!(f.children[0].children[0].info.file_type, FileTypeFFI::Socket);
    assert_eq!(f.children[0].children[0].info.modified, 1700000500);
    assert_eq!(f.children[1].children_count, 0);
    assert!(f.children[1].children.is_empty());
    assert_eq!(f.children[1].info.file_type, FileTypeFFI::Unknown);
}

#[test]
fn kinds_keep_their_boundary_code() {
    assert_eq!(kind_to_ffi(FileType::Unknown), FileTypeFFI::Unknown);
    assert_eq!(kind_to_ffi(FileType::BlockDevice), FileTypeFFI::BlockDevice);
}
