//! What the tree builder guarantees, stated over the models and proved.
use vstd::prelude::*;

use crate::model::{
    base_name, build, build_all, is_permutation, mirrors, own_error, plain, raises, same_entries, same_nodes,
    EntryKindModel, EntryModel, ErrorModel, NodeKindModel, NodeModel,
};

verus! {

proof fn lemma_build_node(n: NodeModel)
    ensures
        plain(n) ==> build(n) is Ok,
        build(n) is Ok ==> mirrors(build(n)->Ok_0, n),
        build(n) is Ok ==> forall|e: ErrorModel| !raises(n, e),
        build(n) is Err ==> raises(n, build(n)->Err_0),
    decreases n, 1int,
{
    if let NodeKindModel::Dir(cs) = n.kind {
        lemma_build_seq(cs);
        if base_name(n.name) is Some {
            if build(n) is Ok {
                assert forall|e: ErrorModel| !raises(n, e) by {
                    if raises(n, e) {
                        let i = choose|i: int| 0 <= i < cs.len() && raises(cs[i], e);
                        assert(!raises(cs[i], e));
                    }
                }
            }
        }
    }
}

proof fn lemma_build_seq(cs: Seq<NodeModel>)
    ensures
        (forall|i: int| 0 <= i < cs.len() ==> plain(#[trigger] cs[i])) ==> build_all(cs) is Ok,
        build_all(cs) is Ok ==> build_all(cs)->Ok_0.len() == cs.len(),
        build_all(cs) is Ok ==> forall|i: int|
            0 <= i < cs.len() ==> mirrors(#[trigger] build_all(cs)->Ok_0[i], cs[i]),
        build_all(cs) is Ok ==> forall|i: int, e: ErrorModel|
            0 <= i < cs.len() ==> !#[trigger] raises(cs[i], e),
        build_all(cs) is Err ==> exists|i: int|
            0 <= i < cs.len() && raises(cs[i], build_all(cs)->Err_0),
    decreases cs, 0int,
{
    if cs.len() > 0 {
        let t = cs.drop_last();
        lemma_build_seq(t);
        lemma_build_node(cs.last());
        assert forall|i: int| 0 <= i < t.len() implies t[i] == cs[i] by {}
        if build_all(cs) is Err {
            if build_all(t) is Err {
                let i = choose|i: int| 0 <= i < t.len() && raises(t[i], build_all(t)->Err_0);
                assert(raises(cs[i], build_all(cs)->Err_0));
            } else {
                assert(raises(cs[cs.len() - 1], build_all(cs)->Err_0));
            }
        }
    }
}

/// A tree of regular files and directories, all with non-empty textual base
/// names, is always built, and the result has the tree's names and
/// classification at every level, in listing order.
pub proof fn lemma_plain_tree_builds(n: NodeModel)
    requires
        plain(n),
    ensures
        build(n) is Ok,
        mirrors(build(n)->Ok_0, n),
{
    lemma_build_node(n);
}

/// A regular file with a non-empty textual base name is built as a file entry
/// of that name, with no members.
pub proof fn lemma_file_builds_leaf(n: NodeModel)
    requires
        base_name(n.name) is Some,
        n.kind is File,
    ensures
        build(n) == Ok::<EntryModel, ErrorModel>(
            EntryModel { name: n.name->Some_0, kind: EntryKindModel::File },
        ),
{
}

/// A build succeeds exactly when no object of the tree, at any depth, gives
/// an error; when it fails, its error is one that some object of the tree
/// gives, and no partial tree is returned.
pub proof fn lemma_failure_comes_from_tree(n: NodeModel)
    ensures
        build(n) is Ok <==> forall|e: ErrorModel| !raises(n, e),
        build(n) is Err ==> raises(n, build(n)->Err_0),
{
    lemma_build_node(n);
}

/// A tree that holds a symlink at any depth, and no other kind of fault, fails
/// with a symlink error that carries the base name of a symlink in the tree;
/// where all its symlinks have one name, the error carries that name.
pub proof fn lemma_symlink_reported(n: NodeModel, name: Seq<char>)
    requires
        raises(n, ErrorModel::SymlinkEncountered(name)),
        forall|e: ErrorModel| raises(n, e) ==> e is SymlinkEncountered,
    ensures
        build(n) is Err,
        build(n)->Err_0 is SymlinkEncountered,
        raises(n, build(n)->Err_0),
        (forall|e: ErrorModel| raises(n, e) ==> e == ErrorModel::SymlinkEncountered(name))
            ==> build(n) == Err::<EntryModel, ErrorModel>(ErrorModel::SymlinkEncountered(name)),
{
    lemma_build_node(n);
}

/// A tree that holds a socket, FIFO, device or other unclassifiable object,
/// and no other kind of fault, fails with the unclassifiable error, whatever
/// regular files stand beside it.
pub proof fn lemma_unclassifiable_reported(n: NodeModel)
    requires
        raises(n, ErrorModel::UnclassifiableEntry),
        forall|e: ErrorModel| raises(n, e) ==> e == ErrorModel::UnclassifiableEntry,
    ensures
        build(n) == Err::<EntryModel, ErrorModel>(ErrorModel::UnclassifiableEntry),
{
    lemma_build_node(n);
}

proof fn lemma_raises_same(a: NodeModel, b: NodeModel, e: ErrorModel)
    requires
        same_nodes(a, b),
    ensures
        raises(a, e) <==> raises(b, e),
    decreases a,
{
    assert(own_error(a) == own_error(b));
    if let NodeKindModel::Dir(cs) = a.kind {
        if let NodeKindModel::Dir(ds) = b.kind {
            let p = choose|p: Seq<int>|
                is_permutation(p, cs.len() as int) && forall|i: int|
                    0 <= i < cs.len() ==> same_nodes(#[trigger] cs[i], ds[p[i]]);
            if exists|i: int| 0 <= i < cs.len() && raises(#[trigger] cs[i], e) {
                let i = choose|i: int| 0 <= i < cs.len() && raises(#[trigger] cs[i], e);
                lemma_raises_same(cs[i], ds[p[i]], e);
                assert(raises(ds[p[i]], e));
            }
            if exists|j: int| 0 <= j < ds.len() && raises(#[trigger] ds[j], e) {
                let j = choose|j: int| 0 <= j < ds.len() && raises(#[trigger] ds[j], e);
                assert(p.contains(j));
                let i = choose|i: int| 0 <= i < p.len() && p[i] == j;
                lemma_raises_same(cs[i], ds[j], e);
                assert(raises(cs[i], e));
            }
        }
    }
}

proof fn lemma_mirrors_same(ea: EntryModel, eb: EntryModel, a: NodeModel, b: NodeModel)
    requires
        mirrors(ea, a),
        mirrors(eb, b),
        same_nodes(a, b),
    ensures
        same_entries(ea, eb),
    decreases a,
{
    if let NodeKindModel::Dir(cs) = a.kind {
        if let NodeKindModel::Dir(ds) = b.kind {
            if let EntryKindModel::Folder(fa) = ea.kind {
                if let EntryKindModel::Folder(fb) = eb.kind {
                    let p = choose|p: Seq<int>|
                        is_permutation(p, cs.len() as int) && forall|i: int|
                            0 <= i < cs.len() ==> same_nodes(#[trigger] cs[i], ds[p[i]]);
                    assert forall|i: int| 0 <= i < fa.len() implies same_entries(
                        #[trigger] fa[i],
                        fb[p[i]],
                    ) by {
                        lemma_mirrors_same(fa[i], fb[p[i]], cs[i], ds[p[i]]);
                    }
                }
            }
        }
    }
}

/// Observing one unchanged tree twice may list a directory's members in
/// another order; the two builds then both succeed or both fail, and when
/// they succeed the two trees are the same but for the order of members.
pub proof fn lemma_order_insensitive(a: NodeModel, b: NodeModel)
    requires
        same_nodes(a, b),
    ensures
        build(a) is Ok <==> build(b) is Ok,
        build(a) is Ok ==> same_entries(build(a)->Ok_0, build(b)->Ok_0),
{
    lemma_build_node(a);
    lemma_build_node(b);
    assert forall|e: ErrorModel| raises(a, e) <==> raises(b, e) by {
        lemma_raises_same(a, b, e);
    }
    if build(a) is Ok && build(b) is Ok {
        lemma_mirrors_same(build(a)->Ok_0, build(b)->Ok_0, a, b);
    }
}

} // verus!
