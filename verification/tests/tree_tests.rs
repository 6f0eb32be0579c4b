use wowsunpacker::idx::FileRecord;
use wowsunpacker::text::{join_names, split_path};
use wowsunpacker::tree::{DirectoryTree, TreeNode};

fn record(path: &str, id: u64) -> FileRecord {
    FileRecord {
        pkg_name: "p.pkg".to_string(),
        path: path.to_string(),
        id,
        offset: 0,
        size: 1,
        uncompressed_size: 1,
    }
}

fn sample_tree() -> DirectoryTree {
    let mut tree = DirectoryTree::new();
    tree.insert(&record("gui/4k/a.png", 1));
    tree.insert(&record("gui/4k/b.png", 2));
    tree.insert(&record("content/GameParams.data", 3));
    tree
}

fn strings(names: &[&str]) -> Vec<String> {
    names.iter().map(|name| name.to_string()).collect()
}

#[test]
fn split_skips_empty_segments() {
    assert_eq!(split_path("a/b/c.bin"), vec!["a", "b", "c.bin"]);
    assert_eq!(split_path("/a//b/"), vec!["a", "b"]);
    assert_eq!(split_path("gui/4k/"), vec!["gui", "4k"]);
    assert_eq!(split_path("single"), vec!["single"]);
    assert!(split_path("").is_empty());
    assert!(split_path("///").is_empty());
}

#[test]
fn join_puts_slashes_between_names() {
    assert_eq!(join_names(&strings(&["a", "b", "c.bin"])), "a/b/c.bin");
    assert_eq!(join_names(&strings(&["one"])), "one");
    assert_eq!(join_names(&strings(&[])), "");
}

#[test]
fn empty_tree_has_only_its_root() {
    let tree = DirectoryTree::new();
    assert_eq!(tree.root.name, "");
    assert!(tree.root.children.is_empty());
    assert!(tree.root.file.is_none());
    assert!(tree.find("").is_some());
    assert!(tree.find("/").is_some());
    assert!(tree.find("a").is_none());
    assert!(DirectoryTree::walk_from(&tree.root).is_empty());
}

#[test]
fn every_leaf_is_found_at_its_path() {
    let tree = sample_tree();
    for leaf in DirectoryTree::walk_from(&tree.root) {
        let node = tree.find(&leaf.path).unwrap();
        let held = node.file.as_ref().unwrap();
        assert_eq!(held.path, leaf.path);
        assert_eq!(held.id, leaf.id);
    }
}

#[test]
fn insert_creates_the_directories_on_the_way() {
    let tree = sample_tree();
    let gui = tree.find("gui").unwrap();
    assert!(gui.file.is_none());
    assert_eq!(gui.name, "gui");
    let four_k = tree.find("gui/4k").unwrap();
    assert!(four_k.file.is_none());
    assert_eq!(four_k.children.len(), 2);
    assert_eq!(tree.find("gui/4k/a.png").unwrap().file.as_ref().unwrap().id, 1);
    assert!(tree.find("gui/4k/c.png").is_none());
    assert!(tree.find("gui/8k").is_none());
}

#[test]
fn find_is_case_sensitive() {
    let tree = sample_tree();
    assert!(tree.find("content/GameParams.data").is_some());
    assert!(tree.find("content/gameparams.data").is_none());
    assert!(tree.find("GUI").is_none());
}

#[test]
fn find_skips_empty_segments() {
    let tree = sample_tree();
    assert_eq!(tree.find("/gui//4k/").unwrap().name, "4k");
}

#[test]
fn goto_takes_segments_as_they_are() {
    let tree = sample_tree();
    assert_eq!(tree.goto(&strings(&["gui", "4k"])).unwrap().name, "4k");
    assert!(tree.goto(&strings(&[])).is_some());
    assert!(tree.goto(&strings(&["gui/4k"])).is_none());
    assert!(tree.goto(&strings(&["gui", ""])).is_none());
}

#[test]
fn insert_replaces_the_record_at_the_same_path() {
    let mut tree = sample_tree();
    tree.insert(&record("gui/4k/a.png", 77));
    assert_eq!(tree.find("gui/4k/a.png").unwrap().file.as_ref().unwrap().id, 77);
    assert_eq!(tree.find("gui/4k/b.png").unwrap().file.as_ref().unwrap().id, 2);
    assert_eq!(DirectoryTree::walk_from(&tree.root).len(), 3);
}

#[test]
fn a_node_can_be_file_and_directory() {
    let mut tree = DirectoryTree::new();
    tree.insert(&record("a/b", 1));
    tree.insert(&record("a", 2));
    tree.insert(&record("a/b/c", 3));
    let a = tree.find("a").unwrap();
    assert_eq!(a.file.as_ref().unwrap().id, 2);
    assert_eq!(a.children.len(), 1);
    let b = tree.find("a/b").unwrap();
    assert_eq!(b.file.as_ref().unwrap().id, 1);
    assert_eq!(tree.find("a/b/c").unwrap().file.as_ref().unwrap().id, 3);
    let ids: Vec<u64> = DirectoryTree::walk_from(a).iter().map(|leaf| leaf.id).collect();
    assert_eq!(ids, vec![2, 1, 3]);
}

#[test]
fn a_record_without_a_path_lands_on_the_root() {
    let mut tree = DirectoryTree::new();
    tree.insert(&record("", 5));
    assert_eq!(tree.root.file.as_ref().unwrap().id, 5);
    assert_eq!(tree.find("").unwrap().file.as_ref().unwrap().id, 5);
}

#[test]
fn walk_yields_the_leaves_depth_first() {
    let tree = sample_tree();
    let paths: Vec<String> = DirectoryTree::walk_from(&tree.root)
        .into_iter()
        .map(|leaf| leaf.path)
        .collect();
    assert_eq!(paths, vec!["gui/4k/a.png", "gui/4k/b.png", "content/GameParams.data"]);
    let gui = tree.find("gui").unwrap();
    assert_eq!(DirectoryTree::walk_from(gui).len(), 2);
    let leaf = tree.find("gui/4k/b.png").unwrap();
    assert_eq!(DirectoryTree::walk_from(leaf).len(), 1);
}

#[test]
fn files_and_directories_split_the_children() {
    let mut tree = sample_tree();
    tree.insert(&record("gui/readme.txt", 9));
    tree.insert(&record("gui/4k", 10));
    let gui = tree.find("gui").unwrap();
    assert_eq!(gui.files(), vec!["4k", "readme.txt"]);
    assert!(gui.directories().is_empty());
    assert_eq!(tree.root.directories(), vec!["gui", "content"]);
    assert!(tree.root.files().is_empty());
}

#[test]
fn find_child_gives_the_position() {
    let tree = sample_tree();
    assert_eq!(tree.root.find_child(&"gui".to_string()), Some(0));
    assert_eq!(tree.root.find_child(&"content".to_string()), Some(1));
    assert_eq!(tree.root.find_child(&"none".to_string()), None);
    assert_eq!(TreeNode::named("x".to_string()).find_child(&"x".to_string()), None);
}
