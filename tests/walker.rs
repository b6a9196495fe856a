use file_tree::tree::{Entry, EntryKind, Node, NodeKind, TreeError};
use file_tree::walk::{Observation, ObservedKind, Step, Walker};

fn obs(name: &str, kind: ObservedKind) -> Observation {
    Observation { name: Some(name.to_string()), kind }
}

fn file_entry(name: &str) -> Entry {
    Entry { name: name.to_string(), kind: EntryKind::File }
}

fn folder_entry(name: &str, members: Vec<Entry>) -> Entry {
    Entry { name: name.to_string(), kind: EntryKind::Folder(members) }
}

fn observation_of(n: &Node) -> Observation {
    let kind = match &n.kind {
        NodeKind::File => ObservedKind::File,
        NodeKind::Dir(members) => ObservedKind::Dir(members.len()),
        NodeKind::Symlink => ObservedKind::Symlink,
        NodeKind::Other => ObservedKind::Other,
        NodeKind::Unreadable(c) => ObservedKind::Unreadable(c.clone()),
    };
    Observation { name: n.name.clone(), kind }
}

/// Drives a walker over an observed tree the way a filesystem caller would.
fn walk(root: &Node) -> Result<Entry, TreeError> {
    let mut walker = Walker::new();
    let mut open: Vec<&Node> = Vec::new();
    let mut current = root;
    loop {
        if let NodeKind::Dir(_) = current.kind {
            open.push(current);
        }
        match walker.step(observation_of(current)) {
            Step::Done(r) => return r,
            Step::Observe { depth, index } => {
                open.truncate(depth);
                current = match &open[depth - 1].kind {
                    NodeKind::Dir(members) => &members[index],
                    _ => panic!("an open object is not a directory"),
                };
            }
        }
    }
}

fn named(name: &str, kind: NodeKind) -> Node {
    Node { name: Some(name.to_string()), kind }
}

fn file(name: &str) -> Node {
    named(name, NodeKind::File)
}

fn dir(name: &str, members: Vec<Node>) -> Node {
    named(name, NodeKind::Dir(members))
}

#[test]
fn walker_steps_through_example_tree() {
    let mut w = Walker::new();
    assert_eq!(w.step(obs("r", ObservedKind::Dir(2))), Step::Observe { depth: 1, index: 0 });
    assert_eq!(w.step(obs("a.txt", ObservedKind::File)), Step::Observe { depth: 1, index: 1 });
    assert_eq!(w.step(obs("b", ObservedKind::Dir(1))), Step::Observe { depth: 2, index: 0 });
    let expected = folder_entry(
        "r",
        vec![file_entry("a.txt"), folder_entry("b", vec![file_entry("c.txt")])],
    );
    assert_eq!(w.step(obs("c.txt", ObservedKind::File)), Step::Done(Ok(expected)));
}

#[test]
fn walker_closes_finished_directories() {
    let mut w = Walker::new();
    assert_eq!(w.step(obs("r", ObservedKind::Dir(2))), Step::Observe { depth: 1, index: 0 });
    assert_eq!(w.step(obs("d", ObservedKind::Dir(1))), Step::Observe { depth: 2, index: 0 });
    assert_eq!(w.step(obs("x", ObservedKind::File)), Step::Observe { depth: 1, index: 1 });
    assert_eq!(w.step(obs("e", ObservedKind::Dir(0))), Step::Done(Ok(folder_entry(
        "r",
        vec![folder_entry("d", vec![file_entry("x")]), folder_entry("e", vec![])],
    ))));
}

#[test]
fn walker_stops_at_symlink() {
    let mut w = Walker::new();
    assert_eq!(w.step(obs("r", ObservedKind::Dir(3))), Step::Observe { depth: 1, index: 0 });
    assert_eq!(
        w.step(obs("link", ObservedKind::Symlink)),
        Step::Done(Err(TreeError::SymlinkEncountered("link".to_string())))
    );
}

#[test]
fn walker_single_file_and_empty_root() {
    let mut w = Walker::new();
    assert_eq!(w.step(obs("f", ObservedKind::File)), Step::Done(Ok(file_entry("f"))));
    let mut v = Walker::new();
    assert_eq!(v.step(obs("d", ObservedKind::Dir(0))), Step::Done(Ok(folder_entry("d", vec![]))));
}

#[test]
fn walker_reports_other_errors() {
    let mut w = Walker::new();
    assert_eq!(
        w.step(Observation { name: None, kind: ObservedKind::File }),
        Step::Done(Err(TreeError::InvalidPath))
    );
    let mut v = Walker::new();
    assert_eq!(v.step(obs("r", ObservedKind::Dir(2))), Step::Observe { depth: 1, index: 0 });
    let mut u = Walker::new();
    assert_eq!(u.step(obs("p", ObservedKind::Other)), Step::Done(Err(TreeError::UnclassifiableEntry)));
    assert_eq!(
        v.step(obs("q", ObservedKind::Unreadable("denied".to_string()))),
        Step::Done(Err(TreeError::Io("denied".to_string())))
    );
}

#[test]
fn walker_agrees_with_building_whole_tree() {
    let trees = vec![
        dir("r", vec![file("a.txt"), dir("b", vec![file("c.txt")])]),
        dir("r", vec![named("link", NodeKind::Symlink)]),
        dir("r", vec![dir("x", vec![dir("y", vec![])]), dir("z", vec![file("1"), file("2")])]),
        dir("r", vec![file("ok"), dir("d", vec![named("sock", NodeKind::Other)]), named("s", NodeKind::Symlink)]),
        dir("r", vec![Node { name: None, kind: NodeKind::File }]),
        file("only"),
    ];
    for t in &trees {
        assert_eq!(walk(t), Entry::from_node(t));
    }
}

#[test]
fn walker_rejects_empty_base_name() {
    let mut w = Walker::new();
    assert_eq!(w.step(obs("r", ObservedKind::Dir(1))), Step::Observe { depth: 1, index: 0 });
    assert_eq!(w.step(obs("", ObservedKind::File)), Step::Done(Err(TreeError::InvalidPath)));
}
