//! Planned filesystem mutations and their inversion algebra.
//!
//! An [`Action`] is one step of the plan the engine journals before it
//! touches the filesystem.  Paths are carried as byte strings, the way
//! the operating system hands them out.

use vstd::prelude::*;

verus! {

/// The operation class of a planned action.
#[derive(Clone, Copy, PartialEq, Eq, Structural, Debug)]
pub enum ActionType {
    /// Copy the source file's bytes to the target path.
    Copy,
    /// Make the source path a symlink pointing at the target path,
    /// removing whatever entry currently occupies the source.
    Symlink,
    /// No filesystem effect.
    NOP,
}

/// The mathematical image of an [`Action`]: an operation class plus the
/// two paths it mentions, as byte sequences.
pub struct ActionModel {
    pub action: ActionType,
    pub source: Seq<u8>,
    pub target: Seq<u8>,
}

/// One planned filesystem mutation: an operation applied from a source
/// path towards a target path.
pub struct Action {
    pub action: ActionType,
    pub source: Vec<u8>,
    pub target: Vec<u8>,
}

impl View for Action {
    type V = ActionModel;

    open spec fn view(&self) -> ActionModel {
        ActionModel { action: self.action, source: self.source@, target: self.target@ }
    }
}

/// The inverse of an action: swap source and target and demote the
/// operation class, so that replaying inverses in reverse order undoes
/// a forward run.  Inverting a `Copy` yields a `NOP` (the copied bytes
/// are side-store contents, discarded wholesale at the end of a
/// revert); inverting a `Symlink` yields a `Copy` that restores the
/// original bytes over the link; a `NOP` stays a `NOP` with its paths
/// unswapped.
pub open spec fn invert_model(a: ActionModel) -> ActionModel {
    match a.action {
        ActionType::Copy => ActionModel {
            action: ActionType::NOP,
            source: a.target,
            target: a.source,
        },
        ActionType::Symlink => ActionModel {
            action: ActionType::Copy,
            source: a.target,
            target: a.source,
        },
        ActionType::NOP => ActionModel {
            action: ActionType::NOP,
            source: a.source,
            target: a.target,
        },
    }
}

/// Copies a byte string.
pub fn clone_bytes(v: &Vec<u8>) -> (r: Vec<u8>)
    ensures
        r@ == v@,
{
    let mut r: Vec<u8> = Vec::new();
    let mut i: usize = 0;
    while i < v.len()
        invariant
            i <= v.len(),
            r@ == v@.take(i as int),
        decreases v.len() - i,
    {
        r.push(v[i]);
        i = i + 1;
        proof {
            assert(r@ =~= v@.take(i as int));
        }
    }
    proof {
        assert(r@ =~= v@);
    }
    r
}

impl Action {
    /// Builds an action from its parts.
    pub fn new(action: ActionType, source: Vec<u8>, target: Vec<u8>) -> (r: Action)
        ensures
            r@ == (ActionModel { action, source: source@, target: target@ }),
    {
        Action { action, source, target }
    }

    /// Copies an action.
    pub fn duplicate(&self) -> (r: Action)
        ensures
            r@ == self@,
    {
        Action {
            action: self.action,
            source: clone_bytes(&self.source),
            target: clone_bytes(&self.target),
        }
    }

    /// Returns the inverse action, as [`invert_model`] describes it.
    pub fn invert(&self) -> (r: Action)
        ensures
            r@ == invert_model(self@),
    {
        match self.action {
            ActionType::Copy => Action {
                action: ActionType::NOP,
                source: clone_bytes(&self.target),
                target: clone_bytes(&self.source),
            },
            ActionType::Symlink => Action {
                action: ActionType::Copy,
                source: clone_bytes(&self.target),
                target: clone_bytes(&self.source),
            },
            ActionType::NOP => Action {
                action: ActionType::NOP,
                source: clone_bytes(&self.source),
                target: clone_bytes(&self.target),
            },
        }
    }
}

} // verus!
