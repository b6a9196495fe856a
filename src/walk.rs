//! A walker that builds a tree one observation at a time: it tells its
//! caller which object to observe next, and decides everything else.
use vstd::prelude::*;

use crate::model::EntryModel;
use crate::tree::{entries_model, entry_model, result_model, Entry, EntryKind, TreeError};
use crate::walk_model::{
    deliver, walk_step, FrameModel, ObservationModel, ObservedKindModel, Progress,
};

verus! {

/// What was observed of the awaited object.
#[derive(Debug, PartialEq, Eq)]
pub struct Observation {
    /// The base name of its path, or `None` where it has none or it is not
    /// text; an empty name counts as none.
    pub name: Option<String>,
    pub kind: ObservedKind,
}

/// The type of the awaited object, queried without following symlinks.
#[derive(Debug, PartialEq, Eq)]
pub enum ObservedKind {
    File,
    /// A directory with this many members.
    Dir(usize),
    Symlink,
    /// A socket, FIFO, device, or any type that cannot be classified.
    Other,
    /// The object's type or listing could not be read; carries the cause.
    Unreadable(String),
}

/// What the walker asks of its caller.
#[derive(Debug, PartialEq, Eq)]
pub enum Step {
    /// Keep the `depth` outermost directories open and close the others, then
    /// observe the member at position `index` of the innermost one's listing.
    Observe { depth: usize, index: usize },
    /// The walk is over, with the built tree or the first failure.
    Done(Result<Entry, TreeError>),
}

/// An open directory and the entries of its members built so far.
struct Frame {
    name: String,
    count: usize,
    built: Vec<Entry>,
}

/// The state of a walk: the open directories, outermost first.
pub struct Walker {
    frames: Vec<Frame>,
}

impl View for Observation {
    type V = ObservationModel;

    open spec fn view(&self) -> ObservationModel {
        ObservationModel {
            name: match self.name {
                Some(s) => Some(s@),
                None => None,
            },
            kind: match self.kind {
                ObservedKind::File => ObservedKindModel::File,
                ObservedKind::Dir(n) => ObservedKindModel::Dir(n as nat),
                ObservedKind::Symlink => ObservedKindModel::Symlink,
                ObservedKind::Other => ObservedKindModel::Other,
                ObservedKind::Unreadable(c) => ObservedKindModel::Unreadable(c@),
            },
        }
    }
}

impl View for Frame {
    type V = FrameModel;

    closed spec fn view(&self) -> FrameModel {
        FrameModel { name: self.name@, count: self.count as nat, built: entries_model(self.built@) }
    }
}

impl View for Walker {
    type V = Seq<FrameModel>;

    closed spec fn view(&self) -> Seq<FrameModel> {
        self.frames@.map_values(|f: Frame| f@)
    }
}

/// Where a walk stands after a step that asked for `r`, with open directories `s`.
pub open spec fn progress_of(s: Seq<FrameModel>, r: Step) -> Progress {
    match r {
        Step::Observe { .. } => Progress::Awaiting(s),
        Step::Done(res) => Progress::Finished(result_model(res)),
    }
}

/// What an observation asks for: the member after those built, in the
/// innermost open directory, which has such a member.
pub open spec fn asks_next(s: Seq<FrameModel>, r: Step) -> bool {
    r matches Step::Observe { depth, index } ==> {
        &&& s.len() > 0
        &&& depth == s.len()
        &&& index == s.last().built.len()
        &&& index < s.last().count
    }
}

proof fn lemma_entries_model_push(s: Seq<Entry>, e: Entry)
    ensures
        entries_model(s.push(e)) == entries_model(s).push(entry_model(e)),
{
    assert(s.push(e).drop_last() =~= s);
}

proof fn lemma_entries_model_len(s: Seq<Entry>)
    ensures
        entries_model(s).len() == s.len(),
    decreases s.len(),
{
    if s.len() > 0 {
        lemma_entries_model_len(s.drop_last());
    }
}

impl Walker {
    /// A walk with no directory open: its first observation is of the root.
    pub fn new() -> (w: Walker)
        ensures
            w@ == Seq::<FrameModel>::empty(),
    {
        let w = Walker { frames: Vec::new() };
        proof {
            assert(w@ =~= Seq::<FrameModel>::empty());
        }
        w
    }

    /// Hands a finished entry to the innermost open directory, closing each
    /// directory whose members are then all built.
    fn hand_over(&mut self, done: Entry) -> (r: Step)
        ensures
            progress_of(final(self)@, r) == deliver(old(self)@, done@),
            asks_next(final(self)@, r),
    {
        let ghost target = deliver(self@, done@);
        let mut e = done;
        loop
            invariant
                deliver(self@, e@) == target,
                target == deliver(old(self)@, done@),
            decreases self.frames.len(),
        {
            let ghost s = self@;
            match self.frames.pop() {
                None => {
                    proof {
                        assert(s.len() == 0);
                    }
                    return Step::Done(Ok(e));
                },
                Some(top) => {
                    proof {
                        assert(self@ =~= s.drop_last());
                        assert(top@ == s.last());
                    }
                    let Frame { name, count, mut built } = top;
                    let ghost before = built@;
                    built.push(e);
                    proof {
                        lemma_entries_model_push(before, e);
                        lemma_entries_model_len(built@);
                    }
                    let ghost fv = FrameModel { name: name@, count: count as nat, built: entries_model(built@) };
                    proof {
                        assert(fv == FrameModel { built: s.last().built.push(e@), ..s.last() });
                    }
                    if built.len() < count {
                        let index = built.len();
                        let f = Frame { name, count, built };
                        self.frames.push(f);
                        proof {
                            assert(self@ =~= s.drop_last().push(fv));
                        }
                        return Step::Observe { depth: self.frames.len(), index };
                    }
                    proof {
                        assert(s.drop_last().push(fv).drop_last() =~= s.drop_last());
                    }
                    e = Entry { name, kind: EntryKind::Folder(built) };
                },
            }
        }
    }

    /// Takes the observation of the awaited object and says what comes next:
    /// a file is handed to its directory, a directory is opened, and any other
    /// object ends the walk with its error.
    pub fn step(&mut self, o: Observation) -> (r: Step)
        ensures
            progress_of(final(self)@, r) == walk_step(old(self)@, o@),
            asks_next(final(self)@, r),
    {
        let ghost ov = o@;
        let Observation { name, kind } = o;
        match name {
            None => Step::Done(Err(TreeError::InvalidPath)),
            Some(name) => if name.as_str().is_empty() {
                Step::Done(Err(TreeError::InvalidPath))
            } else {
                match kind {
                ObservedKind::File => self.hand_over(Entry { name, kind: EntryKind::File }),
                ObservedKind::Dir(count) => {
                    if count > 0 {
                        let ghost s = self@;
                        let f = Frame { name, count, built: Vec::new() };
                        let ghost fv = f@;
                        proof {
                            assert(fv.built =~= Seq::<EntryModel>::empty());
                        }
                        self.frames.push(f);
                        proof {
                            assert(self@ =~= s.push(fv));
                        }
                        Step::Observe { depth: self.frames.len(), index: 0 }
                    } else {
                        let ghost s = self@;
                        let v: Vec<Entry> = Vec::new();
                        proof {
                            assert(entries_model(v@) =~= Seq::<EntryModel>::empty());
                            let fv = FrameModel {
                                name: name@,
                                count: 0,
                                built: Seq::<EntryModel>::empty(),
                            };
                            assert(s.push(fv).drop_last() =~= s);
                        }
                        self.hand_over(Entry { name, kind: EntryKind::Folder(v) })
                    }
                },
                ObservedKind::Symlink => Step::Done(Err(TreeError::SymlinkEncountered(name))),
                ObservedKind::Other => Step::Done(Err(TreeError::UnclassifiableEntry)),
                ObservedKind::Unreadable(cause) => Step::Done(Err(TreeError::Io(cause))),
                }
            },
        }
    }
}

} // verus!
