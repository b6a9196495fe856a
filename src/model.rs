//! Mathematical models of observed filesystem objects, of built entries and
//! of errors, and the specification of the tree builder over them.
use vstd::prelude::*;

verus! {

/// What was observed of one filesystem object, as a mathematical value.
pub struct NodeModel {
    /// The base name, or `None` where the path has none or it is not text;
    /// an empty name counts as none.
    pub name: Option<Seq<char>>,
    pub kind: NodeKindModel,
}

/// The type of a filesystem object, queried without following symlinks.
pub enum NodeKindModel {
    File,
    /// A directory with its members, in listing order.
    Dir(Seq<NodeModel>),
    Symlink,
    /// A socket, FIFO, device, or any type that cannot be classified.
    Other,
    /// The object's type or listing could not be read; carries the cause.
    Unreadable(Seq<char>),
}

/// A built entry, as a mathematical value.
pub struct EntryModel {
    pub name: Seq<char>,
    pub kind: EntryKindModel,
}

pub enum EntryKindModel {
    File,
    Folder(Seq<EntryModel>),
}

/// A build failure, as a mathematical value.
pub enum ErrorModel {
    SymlinkEncountered(Seq<char>),
    UnclassifiableEntry,
    InvalidPath,
    Io(Seq<char>),
}

/// The base name that an observed name gives: an empty name is none.
pub open spec fn base_name(name: Option<Seq<char>>) -> Option<Seq<char>> {
    match name {
        Some(s) => if s.len() > 0 {
            Some(s)
        } else {
            None
        },
        None => None,
    }
}

/// The tree built from one observed object: its base name and type decide,
/// and a directory is built from its members in order, stopping at the first
/// member that fails.
pub open spec fn build(n: NodeModel) -> Result<EntryModel, ErrorModel>
    decreases n, 1int,
{
    match base_name(n.name) {
        None => Err(ErrorModel::InvalidPath),
        Some(name) => match n.kind {
            NodeKindModel::File => Ok(EntryModel { name, kind: EntryKindModel::File }),
            NodeKindModel::Dir(cs) => match build_all(cs) {
                Ok(es) => Ok(EntryModel { name, kind: EntryKindModel::Folder(es) }),
                Err(e) => Err(e),
            },
            NodeKindModel::Symlink => Err(ErrorModel::SymlinkEncountered(name)),
            NodeKindModel::Other => Err(ErrorModel::UnclassifiableEntry),
            NodeKindModel::Unreadable(cause) => Err(ErrorModel::Io(cause)),
        },
    }
}

/// The entries built from a sequence of observed objects, in order, or the
/// error of the first one that fails.
pub open spec fn build_all(cs: Seq<NodeModel>) -> Result<Seq<EntryModel>, ErrorModel>
    decreases cs, 0int,
{
    if cs.len() == 0 {
        Ok(Seq::empty())
    } else {
        match build_all(cs.drop_last()) {
            Err(e) => Err(e),
            Ok(es) => match build(cs.last()) {
                Err(e) => Err(e),
                Ok(e) => Ok(es.push(e)),
            },
        }
    }
}

/// Every object in the tree has a non-empty textual base name and is a regular file or
/// a directory.
pub open spec fn plain(n: NodeModel) -> bool
    decreases n,
{
    base_name(n.name) is Some && match n.kind {
        NodeKindModel::File => true,
        NodeKindModel::Dir(cs) => forall|i: int| 0 <= i < cs.len() ==> plain(#[trigger] cs[i]),
        _ => false,
    }
}

/// The entry has the names and the file or folder classification of the
/// observed tree, at every level and in the same order.
pub open spec fn mirrors(e: EntryModel, n: NodeModel) -> bool
    decreases n,
{
    n.name == Some(e.name) && match (e.kind, n.kind) {
        (EntryKindModel::File, NodeKindModel::File) => true,
        (EntryKindModel::Folder(es), NodeKindModel::Dir(cs)) => es.len() == cs.len() && forall|
            i: int,
        |
            0 <= i < cs.len() ==> mirrors(#[trigger] es[i], cs[i]),
        _ => false,
    }
}

/// The error that the object itself gives, where it is not a file or a
/// directory with a non-empty textual base name.
pub open spec fn own_error(n: NodeModel) -> Option<ErrorModel> {
    match base_name(n.name) {
        None => Some(ErrorModel::InvalidPath),
        Some(name) => match n.kind {
            NodeKindModel::Symlink => Some(ErrorModel::SymlinkEncountered(name)),
            NodeKindModel::Other => Some(ErrorModel::UnclassifiableEntry),
            NodeKindModel::Unreadable(cause) => Some(ErrorModel::Io(cause)),
            _ => None,
        },
    }
}

/// Some object of the tree, at any depth, gives the error `e`.
pub open spec fn raises(n: NodeModel, e: ErrorModel) -> bool
    decreases n,
{
    own_error(n) == Some(e) || match n.kind {
        NodeKindModel::Dir(cs) => exists|i: int| 0 <= i < cs.len() && raises(#[trigger] cs[i], e),
        _ => false,
    }
}

/// `p` is a permutation of the indices below `len`.
pub open spec fn is_permutation(p: Seq<int>, len: int) -> bool {
    &&& p.len() == len
    &&& forall|i: int| 0 <= i < len ==> 0 <= #[trigger] p[i] < len
    &&& forall|i: int, k: int| 0 <= i < len && 0 <= k < len && i != k ==> p[i] != p[k]
    &&& forall|j: int| 0 <= j < len ==> #[trigger] p.contains(j)
}

/// Two observed trees that are the same but for the order of the members of
/// their directories.
pub open spec fn same_nodes(a: NodeModel, b: NodeModel) -> bool
    decreases a,
{
    a.name == b.name && match (a.kind, b.kind) {
        (NodeKindModel::Dir(cs), NodeKindModel::Dir(ds)) => cs.len() == ds.len() && exists|
            p: Seq<int>,
        |
            is_permutation(p, cs.len() as int) && forall|i: int|
                0 <= i < cs.len() ==> same_nodes(#[trigger] cs[i], ds[p[i]]),
        (NodeKindModel::Dir(_), _) => false,
        (_, NodeKindModel::Dir(_)) => false,
        (ka, kb) => ka == kb,
    }
}

/// Two entries that are the same but for the order of the members of their
/// folders.
pub open spec fn same_entries(a: EntryModel, b: EntryModel) -> bool
    decreases a,
{
    a.name == b.name && match (a.kind, b.kind) {
        (EntryKindModel::Folder(cs), EntryKindModel::Folder(ds)) => cs.len() == ds.len() && exists|
            p: Seq<int>,
        |
            is_permutation(p, cs.len() as int) && forall|i: int|
                0 <= i < cs.len() ==> same_entries(#[trigger] cs[i], ds[p[i]]),
        (EntryKindModel::File, EntryKindModel::File) => true,
        _ => false,
    }
}

} // verus!
