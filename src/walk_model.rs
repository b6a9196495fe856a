//! The model of a walk that builds a tree one observation at a time, and the
//! proof that it agrees with building from the whole observed tree.
use vstd::prelude::*;

use crate::model::{base_name, build, build_all, EntryKindModel, EntryModel, ErrorModel, NodeKindModel, NodeModel};

verus! {

/// What is observed of one object during a walk: a directory gives the number
/// of its members, not the members themselves.
pub struct ObservationModel {
    pub name: Option<Seq<char>>,
    pub kind: ObservedKindModel,
}

pub enum ObservedKindModel {
    File,
    Dir(nat),
    Symlink,
    Other,
    Unreadable(Seq<char>),
}

/// An open directory: its name, its number of members, and the entries of
/// the members built so far, in listing order.
pub struct FrameModel {
    pub name: Seq<char>,
    pub count: nat,
    pub built: Seq<EntryModel>,
}

/// Where a walk stands: waiting for the next observation with the open
/// directories, innermost last, or finished with its result.
pub enum Progress {
    Awaiting(Seq<FrameModel>),
    Finished(Result<EntryModel, ErrorModel>),
}

/// Hands a finished entry to the innermost open directory, closing each
/// directory whose members are then all built; with no directory open, the
/// entry is the result.
pub open spec fn deliver(s: Seq<FrameModel>, e: EntryModel) -> Progress
    decreases s.len(), 1int,
{
    if s.len() == 0 {
        Progress::Finished(Ok(e))
    } else {
        let top = s.last();
        settle(s.drop_last().push(FrameModel { built: top.built.push(e), ..top }))
    }
}

/// Waits for the next member of the innermost open directory, or closes it
/// when all its members are built.
pub open spec fn settle(s: Seq<FrameModel>) -> Progress
    decreases s.len(), 0int,
{
    if s.len() == 0 {
        Progress::Awaiting(s)
    } else {
        let top = s.last();
        if top.built.len() < top.count {
            Progress::Awaiting(s)
        } else {
            deliver(
                s.drop_last(),
                EntryModel { name: top.name, kind: EntryKindModel::Folder(top.built) },
            )
        }
    }
}

/// One step of a walk: what follows from observing the awaited object.
pub open spec fn walk_step(s: Seq<FrameModel>, o: ObservationModel) -> Progress {
    match base_name(o.name) {
        None => Progress::Finished(Err(ErrorModel::InvalidPath)),
        Some(name) => match o.kind {
            ObservedKindModel::File => deliver(s, EntryModel { name, kind: EntryKindModel::File }),
            ObservedKindModel::Dir(count) => settle(
                s.push(FrameModel { name, count, built: Seq::empty() }),
            ),
            ObservedKindModel::Symlink => Progress::Finished(
                Err(ErrorModel::SymlinkEncountered(name)),
            ),
            ObservedKindModel::Other => Progress::Finished(Err(ErrorModel::UnclassifiableEntry)),
            ObservedKindModel::Unreadable(cause) => Progress::Finished(Err(ErrorModel::Io(cause))),
        },
    }
}

/// A walk fed a sequence of observations, one step each, until it finishes.
pub open spec fn run(p: Progress, obs: Seq<ObservationModel>) -> Progress
    decreases obs.len(),
{
    match p {
        Progress::Finished(r) => Progress::Finished(r),
        Progress::Awaiting(s) => if obs.len() == 0 {
            p
        } else {
            run(walk_step(s, obs[0]), obs.drop_first())
        },
    }
}

/// What a walk observes of an object itself.
pub open spec fn observation_of(n: NodeModel) -> ObservationModel {
    ObservationModel {
        name: n.name,
        kind: match n.kind {
            NodeKindModel::File => ObservedKindModel::File,
            NodeKindModel::Dir(cs) => ObservedKindModel::Dir(cs.len()),
            NodeKindModel::Symlink => ObservedKindModel::Symlink,
            NodeKindModel::Other => ObservedKindModel::Other,
            NodeKindModel::Unreadable(c) => ObservedKindModel::Unreadable(c),
        },
    }
}

/// The observations of a whole tree in depth-first pre-order, members in
/// listing order.
pub open spec fn observations(n: NodeModel) -> Seq<ObservationModel>
    decreases n, 1int,
{
    seq![observation_of(n)] + match n.kind {
        NodeKindModel::Dir(cs) => observations_all(cs),
        _ => Seq::empty(),
    }
}

pub open spec fn observations_all(cs: Seq<NodeModel>) -> Seq<ObservationModel>
    decreases cs, 0int,
{
    if cs.len() == 0 {
        Seq::empty()
    } else {
        observations(cs[0]) + observations_all(cs.drop_first())
    }
}

/// Building a sequence, unfolded from its first element.
proof fn lemma_build_all_first(cs: Seq<NodeModel>)
    requires
        cs.len() > 0,
    ensures
        build_all(cs) == match build(cs[0]) {
            Err(x) => Err(x),
            Ok(e0) => match build_all(cs.drop_first()) {
                Err(x) => Err(x),
                Ok(es) => Ok(seq![e0] + es),
            },
        },
    decreases cs.len(),
{
    let t = cs.drop_last();
    let r = cs.drop_first();
    if cs.len() == 1 {
        assert(r =~= Seq::<NodeModel>::empty());
        assert(t =~= Seq::<NodeModel>::empty());
        if let Ok(e0) = build(cs[0]) {
            assert(Seq::<EntryModel>::empty().push(e0) =~= seq![e0] + Seq::<EntryModel>::empty());
        }
    } else {
        lemma_build_all_first(t);
        assert(t[0] == cs[0]);
        assert(r.drop_last() =~= t.drop_first());
        assert(r.last() == cs.last());
        if let Ok(e0) = build(cs[0]) {
            if let Ok(es) = build_all(t.drop_first()) {
                if let Ok(el) = build(cs.last()) {
                    assert((seq![e0] + es).push(el) =~= seq![e0] + es.push(el));
                }
            }
        }
    }
}

proof fn lemma_walk_node(n: NodeModel, s: Seq<FrameModel>, rest: Seq<ObservationModel>)
    ensures
        run(Progress::Awaiting(s), observations(n) + rest) == match build(n) {
            Err(x) => Progress::Finished(Err(x)),
            Ok(e) => run(deliver(s, e), rest),
        },
    decreases n, 1int,
{
    let obs = observations(n) + rest;
    assert(obs[0] == observation_of(n));
    assert(run(Progress::Awaiting(s), obs) == run(
        walk_step(s, observation_of(n)),
        obs.drop_first(),
    ));
    if let Some(name) = base_name(n.name) {
        if let NodeKindModel::Dir(cs) = n.kind {
            assert(obs.drop_first() =~= observations_all(cs) + rest);
            let f = FrameModel { name, count: cs.len(), built: Seq::empty() };
            assert(s.push(f).drop_last() =~= s);
            assert(run(Progress::Awaiting(s), obs) == run(settle(s.push(f)), obs.drop_first()));
            if cs.len() == 0 {
                assert(observations_all(cs) + rest =~= rest);
                assert(build_all(cs) == Ok::<Seq<EntryModel>, ErrorModel>(Seq::empty()));
            } else {
                lemma_walk_members(cs, s, name, Seq::empty(), rest);
                if let Ok(es) = build_all(cs) {
                    assert(Seq::<EntryModel>::empty() + es =~= es);
                }
            }
        } else {
            assert(obs.drop_first() =~= rest);
        }
    }
}

proof fn lemma_walk_members(
    cs: Seq<NodeModel>,
    s: Seq<FrameModel>,
    name: Seq<char>,
    done: Seq<EntryModel>,
    rest: Seq<ObservationModel>,
)
    requires
        cs.len() > 0,
    ensures
        run(
            Progress::Awaiting(
                s.push(FrameModel { name, count: done.len() + cs.len(), built: done }),
            ),
            observations_all(cs) + rest,
        ) == match build_all(cs) {
            Err(x) => Progress::Finished(Err(x)),
            Ok(es) => run(
                deliver(s, EntryModel { name, kind: EntryKindModel::Folder(done + es) }),
                rest,
            ),
        },
    decreases cs, 0int,
{
    let f = FrameModel { name, count: done.len() + cs.len(), built: done };
    let sf = s.push(f);
    let tail = cs.drop_first();
    lemma_build_all_first(cs);
    assert(observations_all(cs) + rest =~= observations(cs[0]) + (observations_all(tail)
        + rest));
    lemma_walk_node(cs[0], sf, observations_all(tail) + rest);
    if let Ok(e0) = build(cs[0]) {
        assert(sf.drop_last() =~= s);
        let f2 = FrameModel { name, count: done.len() + cs.len(), built: done.push(e0) };
        assert(deliver(sf, e0) == settle(s.push(f2)));
        if tail.len() == 0 {
            assert(observations_all(tail) + rest =~= rest);
            assert(s.push(f2).drop_last() =~= s);
            assert(build_all(tail) == Ok::<Seq<EntryModel>, ErrorModel>(Seq::empty()));
            assert(done + seq![e0] + Seq::<EntryModel>::empty() =~= done.push(e0));
            assert(done + (seq![e0] + Seq::<EntryModel>::empty()) =~= done.push(e0));
        } else {
            lemma_walk_members(tail, s, name, done.push(e0), rest);
            assert(done.push(e0).len() + tail.len() == done.len() + cs.len());
            if let Ok(es) = build_all(tail) {
                assert(done.push(e0) + es =~= done + (seq![e0] + es));
            }
        }
    }
}

/// A walk from no open directory, fed the observations of a tree in
/// depth-first pre-order, finishes with exactly the result of building that
/// tree: the same entry, or the same first failure.
pub proof fn lemma_walk_builds(n: NodeModel)
    ensures
        run(Progress::Awaiting(Seq::empty()), observations(n)) == Progress::Finished(build(n)),
{
    lemma_walk_node(n, Seq::empty(), Seq::empty());
    assert(observations(n) + Seq::<ObservationModel>::empty() =~= observations(n));
}

} // verus!
