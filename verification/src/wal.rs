//! The write-ahead journal: planned actions, the redirection map from
//! original paths to their canonical copies, and the checkpoint that
//! separates applied actions from pending ones.
//!
//! The journal is the unit of durable state.  The unverified shell
//! persists it (replace-the-file) after every mutation; this module
//! owns its in-memory form and the invariants the rest of the engine
//! relies on.

use vstd::prelude::*;

use crate::action::{Action, ActionModel};
use crate::assoc::{
    lemma_map_of_contains, lemma_map_of_contains_value, lemma_map_of_value, map_of,
};
use crate::compare::full_match;

verus! {

/// The error surface of the engine.  The unverified shell attaches the
/// underlying OS or decoder detail to its own mirror of this type;
/// inside the core only the kind matters.
#[derive(Clone, Copy, PartialEq, Eq, Structural, Debug)]
pub enum MirageError {
    /// An underlying filesystem operation failed.
    ErrorDuringIO,
    /// The side-store root exists but is not a directory.
    DotMirageError,
    /// The side-store could not be brought into a usable state.
    DotMirageInInconsistentState,
    /// The journal path exists but is not a regular file.
    WALError,
    /// A non-empty journal file failed to decode.
    JsonError,
    /// Enumerating the directory tree failed.
    WalkDirError,
}

/// The redirection map: which canonical copy an original path was
/// consolidated onto.  Stored as insertion-ordered pairs; a path is
/// inserted at most once.
pub struct Redirections {
    pub pairs: Vec<(Vec<u8>, Vec<u8>)>,
}

impl View for Redirections {
    type V = Map<Seq<u8>, Seq<u8>>;

    open spec fn view(&self) -> Map<Seq<u8>, Seq<u8>> {
        map_of(self.pairs@)
    }
}

impl Redirections {
    /// No path appears under two pairs.
    pub open spec fn wf(&self) -> bool {
        forall|i: int, j: int|
            0 <= i < j < self.pairs@.len() ==> self.pairs@[i].0@ != self.pairs@[j].0@
    }

    /// An empty redirection map.
    pub fn new() -> (r: Redirections)
        ensures
            r.wf(),
            r@ == Map::<Seq<u8>, Seq<u8>>::empty(),
    {
        Redirections { pairs: Vec::new() }
    }

    /// Reports whether a path already has a redirection entry.
    pub fn contains_key(&self, k: &Vec<u8>) -> (r: bool)
        ensures
            r == self@.contains_key(k@),
    {
        proof {
            lemma_map_of_contains(self.pairs@, k@);
        }
        let mut i: usize = 0;
        while i < self.pairs.len()
            invariant
                i <= self.pairs@.len(),
                forall|j: int| 0 <= j < i ==> self.pairs@[j].0@ != k@,
            decreases self.pairs@.len() - i,
        {
            if full_match(&self.pairs[i].0, k) {
                proof {
                    lemma_map_of_contains(self.pairs@, k@);
                    assert(exists|j: int| 0 <= j < self.pairs@.len() && self.pairs@[j].0@ == k@)
                        by {
                        assert(0 <= i < self.pairs@.len() && self.pairs@[i as int].0@ == k@);
                    }
                }
                return true;
            }
            i = i + 1;
        }
        false
    }

    /// Looks a path up, returning a copy of the canonical path it was
    /// redirected to, if any.
    pub fn get(&self, k: &Vec<u8>) -> (r: Option<Vec<u8>>)
        ensures
            match r {
                Some(v) => self@.contains_key(k@) && v@ == self@[k@],
                None => !self@.contains_key(k@),
            },
    {
        let mut i: usize = self.pairs.len();
        while i > 0
            invariant
                i <= self.pairs@.len(),
                forall|j: int| i <= j < self.pairs@.len() ==> self.pairs@[j].0@ != k@,
            decreases i,
        {
            i = i - 1;
            if full_match(&self.pairs[i].0, k) {
                proof {
                    lemma_map_of_value(self.pairs@, i as int);
                }
                return Some(crate::action::clone_bytes(&self.pairs[i].1));
            }
        }
        proof {
            lemma_map_of_contains(self.pairs@, k@);
        }
        None
    }

    /// Reports whether some path is already redirected onto `v` —
    /// that is, whether `v` is a canonical path in use.
    pub fn contains_value(&self, v: &Vec<u8>) -> (r: bool)
        requires
            self.wf(),
        ensures
            r == self@.contains_value(v@),
    {
        let mut i: usize = 0;
        while i < self.pairs.len()
            invariant
                self.wf(),
                i <= self.pairs@.len(),
                forall|j: int| 0 <= j < i ==> self.pairs@[j].1@ != v@,
            decreases self.pairs@.len() - i,
        {
            if full_match(&self.pairs[i].1, v) {
                proof {
                    lemma_map_of_contains_value(self.pairs@, v@);
                    assert(exists|j: int| 0 <= j < self.pairs@.len() && self.pairs@[j].1@ == v@)
                        by {
                        assert(0 <= i < self.pairs@.len() && self.pairs@[i as int].1@ == v@);
                    }
                }
                return true;
            }
            i = i + 1;
        }
        proof {
            lemma_map_of_contains_value(self.pairs@, v@);
        }
        false
    }

    /// Records a fresh redirection.  The caller has checked that the
    /// path is not yet redirected, which keeps keys unique.
    pub fn insert(&mut self, k: Vec<u8>, v: Vec<u8>)
        requires
            old(self).wf(),
            !old(self)@.contains_key(k@),
        ensures
            final(self).wf(),
            final(self)@ == old(self)@.insert(k@, v@),
    {
        proof {
            lemma_map_of_contains(self.pairs@, k@);
        }
        let ghost old_pairs = self.pairs@;
        self.pairs.push((k, v));
        proof {
            assert(self.pairs@.drop_last() =~= old_pairs);
        }
    }
}

/// The mathematical image of the journal.
pub struct WalModel {
    pub actions: Seq<ActionModel>,
    pub redirections: Map<Seq<u8>, Seq<u8>>,
    pub checkpoint: int,
}

/// The journal: the ordered plan, the redirection map, and the
/// checkpoint.  Actions with index below the checkpoint have been
/// applied to the filesystem exactly once, in order; the rest are
/// planned but not yet applied.
pub struct WAL {
    pub actions: Vec<Action>,
    pub redirections: Redirections,
    pub checkpoint: usize,
}

impl View for WAL {
    type V = WalModel;

    open spec fn view(&self) -> WalModel {
        WalModel {
            actions: self.actions@.map_values(|a: Action| a@),
            redirections: self.redirections@,
            checkpoint: self.checkpoint as int,
        }
    }
}

impl WAL {
    /// The journal invariant: the checkpoint stays within the action
    /// list and redirection keys are unique.
    pub open spec fn wf(&self) -> bool {
        &&& 0 <= self.checkpoint <= self.actions@.len()
        &&& self.redirections.wf()
    }

    /// A fresh, empty journal: no actions, no redirections, checkpoint
    /// zero.
    pub fn new() -> (r: WAL)
        ensures
            r.wf(),
            r@.actions == Seq::<ActionModel>::empty(),
            r@.redirections == Map::<Seq<u8>, Seq<u8>>::empty(),
            r@.checkpoint == 0,
    {
        let r = WAL { actions: Vec::new(), redirections: Redirections::new(), checkpoint: 0 };
        proof {
            assert(r@.actions =~= Seq::<ActionModel>::empty());
        }
        r
    }
}

/// The mathematical image of a session.
pub struct StateModel {
    pub source_path: Seq<u8>,
    pub wal: WalModel,
}

/// One session against a target directory: the absolute path of its
/// side-store root and the journal loaded from it.  Owned exclusively
/// by the single running operation; loaded fresh at every invocation.
pub struct MirageState {
    pub source_path: Vec<u8>,
    pub wal: WAL,
}

impl View for MirageState {
    type V = StateModel;

    open spec fn view(&self) -> StateModel {
        StateModel { source_path: self.source_path@, wal: self.wal@ }
    }
}

impl MirageState {
    pub open spec fn wf(&self) -> bool {
        self.wal.wf()
    }

    /// A session over a freshly created side-store: an empty journal.
    /// The unverified shell calls this when the journal file on disk is
    /// newly created, and decodes the file into the fields directly
    /// when it is not.
    pub fn new(source_path: Vec<u8>) -> (r: MirageState)
        ensures
            r.wf(),
            r@.source_path == source_path@,
            r@.wal.actions == Seq::<ActionModel>::empty(),
            r@.wal.redirections == Map::<Seq<u8>, Seq<u8>>::empty(),
            r@.wal.checkpoint == 0,
    {
        MirageState { source_path, wal: WAL::new() }
    }

    /// The first planned action not yet applied, if any.
    pub fn next_pending(&self) -> (r: Option<&Action>)
        requires
            self.wf(),
        ensures
            match r {
                Some(a) => {
                    &&& self@.wal.checkpoint < self@.wal.actions.len()
                    &&& a@ == self@.wal.actions[self@.wal.checkpoint]
                },
                None => self@.wal.checkpoint == self@.wal.actions.len(),
            },
    {
        if self.wal.checkpoint < self.wal.actions.len() {
            Some(&self.wal.actions[self.wal.checkpoint])
        } else {
            None
        }
    }

    /// Marks the next pending action as applied.  The caller performs
    /// the filesystem effect first, then advances and persists, so the
    /// journal on disk always reflects how far execution got.
    pub fn advance_checkpoint(&mut self)
        requires
            old(self).wf(),
            old(self)@.wal.checkpoint < old(self)@.wal.actions.len(),
        ensures
            final(self).wf(),
            final(self)@.wal.actions == old(self)@.wal.actions,
            final(self)@.wal.redirections == old(self)@.wal.redirections,
            final(self)@.wal.checkpoint == old(self)@.wal.checkpoint + 1,
            final(self)@.source_path == old(self)@.source_path,
    {
        let n: usize = self.wal.actions.len();
        proof {
            assert(old(self).wal.actions@.map_values(|a: Action| a@).len()
                == old(self).wal.actions@.len());
            assert(self.wal.checkpoint < n);
        }
        self.wal.checkpoint = self.wal.checkpoint + 1;
    }
}

} // verus!
