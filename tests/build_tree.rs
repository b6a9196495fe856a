use file_tree::tree::{Entry, EntryKind, Node, NodeKind, TreeError};

fn named(name: &str, kind: NodeKind) -> Node {
    Node { name: Some(name.to_string()), kind }
}

fn file(name: &str) -> Node {
    named(name, NodeKind::File)
}

fn dir(name: &str, members: Vec<Node>) -> Node {
    named(name, NodeKind::Dir(members))
}

fn file_entry(name: &str) -> Entry {
    Entry { name: name.to_string(), kind: EntryKind::File }
}

fn folder_entry(name: &str, members: Vec<Entry>) -> Entry {
    Entry { name: name.to_string(), kind: EntryKind::Folder(members) }
}

fn sorted_names(e: &Entry) -> Vec<String> {
    match &e.kind {
        EntryKind::File => vec![],
        EntryKind::Folder(members) => {
            let mut names: Vec<String> = members.iter().map(|m| m.name.clone()).collect();
            names.sort();
            names
        }
    }
}

#[test]
fn folder_with_file_and_subfolder() {
    let root = dir("r", vec![file("a.txt"), dir("b", vec![file("c.txt")])]);
    let expected = folder_entry(
        "r",
        vec![file_entry("a.txt"), folder_entry("b", vec![file_entry("c.txt")])],
    );
    assert_eq!(Entry::from_node(&root), Ok(expected));
}

#[test]
fn symlink_in_root_is_reported_by_name() {
    let root = dir("r", vec![named("link", NodeKind::Symlink)]);
    assert_eq!(
        Entry::from_node(&root),
        Err(TreeError::SymlinkEncountered("link".to_string()))
    );
}

#[test]
fn single_file_is_a_leaf() {
    let e = Entry::from_node(&file("notes.md")).unwrap();
    assert_eq!(e, file_entry("notes.md"));
}

#[test]
fn empty_directory_is_an_empty_folder() {
    assert_eq!(Entry::from_node(&dir("empty", vec![])), Ok(folder_entry("empty", vec![])));
}

#[test]
fn nested_symlink_is_reported_by_name() {
    let root = dir(
        "r",
        vec![
            file("x"),
            dir("d1", vec![dir("d2", vec![file("y"), named("deep", NodeKind::Symlink)])]),
        ],
    );
    assert_eq!(
        Entry::from_node(&root),
        Err(TreeError::SymlinkEncountered("deep".to_string()))
    );
}

#[test]
fn symlink_itself_is_reported() {
    assert_eq!(
        Entry::from_node(&named("ln", NodeKind::Symlink)),
        Err(TreeError::SymlinkEncountered("ln".to_string()))
    );
}

#[test]
fn special_file_beside_regular_file_fails() {
    let root = dir("r", vec![file("plain.txt"), named("sock", NodeKind::Other)]);
    assert_eq!(Entry::from_node(&root), Err(TreeError::UnclassifiableEntry));
}

#[test]
fn missing_base_name_is_invalid_path() {
    let root = Node { name: None, kind: NodeKind::Dir(vec![file("a")]) };
    assert_eq!(Entry::from_node(&root), Err(TreeError::InvalidPath));
}

#[test]
fn member_without_text_name_is_invalid_path() {
    let root = dir("r", vec![Node { name: None, kind: NodeKind::File }]);
    assert_eq!(Entry::from_node(&root), Err(TreeError::InvalidPath));
}

#[test]
fn unreadable_object_gives_io_error() {
    let root = dir("r", vec![named("locked", NodeKind::Unreadable("permission denied".to_string()))]);
    assert_eq!(
        Entry::from_node(&root),
        Err(TreeError::Io("permission denied".to_string()))
    );
}

#[test]
fn first_failure_in_listing_order_wins() {
    let a = dir("r", vec![named("s", NodeKind::Symlink), named("f", NodeKind::Other)]);
    let b = dir("r", vec![named("f", NodeKind::Other), named("s", NodeKind::Symlink)]);
    assert_eq!(Entry::from_node(&a), Err(TreeError::SymlinkEncountered("s".to_string())));
    assert_eq!(Entry::from_node(&b), Err(TreeError::UnclassifiableEntry));
}

#[test]
fn failure_deep_in_one_branch_fails_the_whole_tree() {
    let root = dir(
        "r",
        vec![
            dir("ok", vec![file("1"), file("2")]),
            dir("bad", vec![dir("x", vec![named("fifo", NodeKind::Other)])]),
            file("later"),
        ],
    );
    assert_eq!(Entry::from_node(&root), Err(TreeError::UnclassifiableEntry));
}

#[test]
fn member_order_follows_listing_order() {
    let a = Entry::from_node(&dir("r", vec![file("z"), file("a"), file("m")])).unwrap();
    let names: Vec<String> = match &a.kind {
        EntryKind::Folder(members) => members.iter().map(|m| m.name.clone()).collect(),
        EntryKind::File => vec![],
    };
    assert_eq!(names, vec!["z".to_string(), "a".to_string(), "m".to_string()]);
}

#[test]
fn reordered_listing_builds_the_same_set_of_members() {
    let first = dir("r", vec![file("a.txt"), dir("b", vec![file("c.txt")]), file("d")]);
    let second = dir("r", vec![file("d"), dir("b", vec![file("c.txt")]), file("a.txt")]);
    let x = Entry::from_node(&first).unwrap();
    let y = Entry::from_node(&second).unwrap();
    assert_eq!(x.name, y.name);
    assert_eq!(sorted_names(&x), sorted_names(&y));
    assert_ne!(x, y);
}

#[test]
fn building_twice_gives_equal_trees() {
    let root = dir("r", vec![file("a"), dir("b", vec![file("c"), dir("e", vec![])])]);
    assert_eq!(Entry::from_node(&root), Entry::from_node(&root));
}

#[test]
fn symlink_message_carries_name() {
    let e = TreeError::SymlinkEncountered("link".to_string());
    assert_eq!(e.message(), "Symlink found link");
}

#[test]
fn other_messages() {
    assert_eq!(TreeError::UnclassifiableEntry.message(), "");
    assert_eq!(TreeError::InvalidPath.message(), "Failed to coerce &Path into String");
    assert_eq!(
        TreeError::Io("gone".to_string()).message(),
        "Failed to read entry: gone"
    );
}

#[test]
fn empty_base_name_is_invalid_path() {
    let root = dir("r", vec![named("", NodeKind::File)]);
    assert_eq!(Entry::from_node(&root), Err(TreeError::InvalidPath));
    assert_eq!(Entry::from_node(&named("", NodeKind::Dir(vec![]))), Err(TreeError::InvalidPath));
}
