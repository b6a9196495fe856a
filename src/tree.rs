//! Observed filesystem objects, built entries, and the verified builder that
//! turns the first into the second.
use vstd::prelude::*;

use crate::model::{
    build, build_all, EntryKindModel, EntryModel, ErrorModel, NodeKindModel, NodeModel,
};

verus! {

/// What was observed of one filesystem object at a path.
#[derive(Debug, PartialEq, Eq)]
pub struct Node {
    /// The path's base name, or `None` where it has none or it is not text;
    /// an empty name counts as none.
    pub name: Option<String>,
    pub kind: NodeKind,
}

/// The type of an observed object, queried without following symlinks.
#[derive(Debug, PartialEq, Eq)]
pub enum NodeKind {
    File,
    /// A directory, with what was observed of each member in listing order.
    Dir(Vec<Node>),
    Symlink,
    /// A socket, FIFO, device, or any type that cannot be classified.
    Other,
    /// The object's type or listing could not be read; carries the cause.
    Unreadable(String),
}

/// Why a tree could not be built.
#[derive(Debug, PartialEq, Eq)]
pub enum TreeError {
    /// A symlink was found; carries its base name.
    SymlinkEncountered(String),
    /// An object that is neither file, directory nor symlink was found.
    UnclassifiableEntry,
    /// A path had no base name, or one that is empty or not text.
    InvalidPath,
    /// The type or the listing of an object could not be read.
    Io(String),
}

/// One classified filesystem object: a file, or a folder with its members.
#[derive(Debug, PartialEq, Eq)]
pub struct Entry {
    pub name: String,
    pub kind: EntryKind,
}

#[derive(Debug, PartialEq, Eq)]
pub enum EntryKind {
    File,
    Folder(Vec<Entry>),
}

pub open spec fn node_model(n: Node) -> NodeModel
    decreases n, 1int,
{
    NodeModel {
        name: match n.name {
            Some(s) => Some(s@),
            None => None,
        },
        kind: match n.kind {
            NodeKind::File => NodeKindModel::File,
            NodeKind::Dir(v) => NodeKindModel::Dir(nodes_model(v@)),
            NodeKind::Symlink => NodeKindModel::Symlink,
            NodeKind::Other => NodeKindModel::Other,
            NodeKind::Unreadable(c) => NodeKindModel::Unreadable(c@),
        },
    }
}

pub open spec fn nodes_model(s: Seq<Node>) -> Seq<NodeModel>
    decreases s, 0int,
{
    if s.len() == 0 {
        Seq::empty()
    } else {
        nodes_model(s.drop_last()).push(node_model(s.last()))
    }
}

pub open spec fn entry_model(e: Entry) -> EntryModel
    decreases e, 1int,
{
    EntryModel {
        name: e.name@,
        kind: match e.kind {
            EntryKind::File => EntryKindModel::File,
            EntryKind::Folder(v) => EntryKindModel::Folder(entries_model(v@)),
        },
    }
}

pub open spec fn entries_model(s: Seq<Entry>) -> Seq<EntryModel>
    decreases s, 0int,
{
    if s.len() == 0 {
        Seq::empty()
    } else {
        entries_model(s.drop_last()).push(entry_model(s.last()))
    }
}

impl View for Node {
    type V = NodeModel;

    open spec fn view(&self) -> NodeModel {
        node_model(*self)
    }
}

impl View for Entry {
    type V = EntryModel;

    open spec fn view(&self) -> EntryModel {
        entry_model(*self)
    }
}

impl View for TreeError {
    type V = ErrorModel;

    open spec fn view(&self) -> ErrorModel {
        match self {
            TreeError::SymlinkEncountered(s) => ErrorModel::SymlinkEncountered(s@),
            TreeError::UnclassifiableEntry => ErrorModel::UnclassifiableEntry,
            TreeError::InvalidPath => ErrorModel::InvalidPath,
            TreeError::Io(c) => ErrorModel::Io(c@),
        }
    }
}

/// The model of a build result.
pub open spec fn result_model(r: Result<Entry, TreeError>) -> Result<EntryModel, ErrorModel> {
    match r {
        Ok(e) => Ok(e@),
        Err(err) => Err(err@),
    }
}

/// The text that describes an error to a reader.
pub open spec fn message_of(e: ErrorModel) -> Seq<char> {
    match e {
        ErrorModel::SymlinkEncountered(name) => "Symlink found "@ + name,
        ErrorModel::UnclassifiableEntry => Seq::empty(),
        ErrorModel::InvalidPath => "Failed to coerce &Path into String"@,
        ErrorModel::Io(cause) => "Failed to read entry: "@ + cause,
    }
}

impl TreeError {
    /// Describes the error; a symlink's base name is part of the text.
    pub fn message(&self) -> (r: String)
        ensures
            r@ == message_of(self@),
    {
        match self {
            TreeError::SymlinkEncountered(name) => {
                let mut r = "Symlink found ".to_owned();
                r.append(name.as_str());
                r
            },
            TreeError::UnclassifiableEntry => String::new(),
            TreeError::InvalidPath => "Failed to coerce &Path into String".to_owned(),
            TreeError::Io(cause) => {
                let mut r = "Failed to read entry: ".to_owned();
                r.append(cause.as_str());
                r
            },
        }
    }
}

/// Where the members before `k` already fail, all members fail with that error.
proof fn lemma_prefix_failure(s: Seq<Node>, k: int)
    requires
        0 <= k <= s.len(),
        build_all(nodes_model(s.take(k))) is Err,
    ensures
        build_all(nodes_model(s)) == build_all(nodes_model(s.take(k))),
    decreases s.len(),
{
    if s.len() > k {
        let t = s.drop_last();
        assert(t.take(k) =~= s.take(k));
        assert(nodes_model(s).drop_last() =~= nodes_model(t));
        lemma_prefix_failure(t, k);
    } else {
        assert(s.take(k) =~= s);
    }
}

impl Entry {
    /// Builds the tree of an observed object: a file becomes a file entry, a
    /// directory a folder of its members' entries in listing order; the first
    /// failure met in depth-first order is returned instead.
    pub fn from_node(node: &Node) -> (r: Result<Entry, TreeError>)
        ensures
            result_model(r) == build(node@),
        decreases node,
    {
        let name = match &node.name {
            None => {
                return Err(TreeError::InvalidPath);
            },
            Some(s) => {
                if s.as_str().is_empty() {
                    return Err(TreeError::InvalidPath);
                }
                s.clone()
            },
        };
        match &node.kind {
            NodeKind::File => Ok(Entry { name, kind: EntryKind::File }),
            NodeKind::Dir(cs) => {
                let mut out: Vec<Entry> = Vec::new();
                let mut i: usize = 0;
                proof {
                    assert(cs@.take(0) =~= Seq::<Node>::empty());
                    assert(out@ =~= Seq::<Entry>::empty());
                }
                while i < cs.len()
                    invariant
                        0 <= i <= cs.len(),
                        node.kind == NodeKind::Dir(*cs),
                        node.name == Some(name),
                        name@.len() > 0,
                        build_all(nodes_model(cs@.take(i as int))) == Ok::<
                            Seq<EntryModel>,
                            ErrorModel,
                        >(entries_model(out@)),
                    decreases cs.len() - i,
                {
                    proof {
                        assert(cs@.take(i + 1).drop_last() =~= cs@.take(i as int));
                        let m = nodes_model(cs@.take(i + 1));
                        assert(m.drop_last() =~= nodes_model(cs@.take(i as int)));
                        assert(m.last() == node_model(cs@[i as int]));
                        assert(decreases_to!(node => cs[i as int]));
                    }
                    match Entry::from_node(&cs[i]) {
                        Err(e) => {
                            proof {
                                lemma_prefix_failure(cs@, i + 1);

                                assert(cs@.take(cs.len() as int) =~= cs@);
                            }
                            return Err(e);
                        },
                        Ok(e) => {
                            let ghost before = out@;
                            out.push(e);
                            proof {
                                assert(out@.drop_last() =~= before);
                            }
                        },
                    }
                    i = i + 1;
                }
                proof {
                    assert(cs@.take(cs.len() as int) =~= cs@);
                }
                Ok(Entry { name, kind: EntryKind::Folder(out) })
            },
            NodeKind::Symlink => Err(TreeError::SymlinkEncountered(name)),
            NodeKind::Other => Err(TreeError::UnclassifiableEntry),
            NodeKind::Unreadable(c) => Err(TreeError::Io(c.clone())),
        }
    }
}

} // verus!
