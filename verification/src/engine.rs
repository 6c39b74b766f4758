//! The two operations of the engine: `apply` plans and then executes
//! the journal against a filesystem, `revert` replays the applied
//! prefix inverted and in reverse order and then removes the
//! side-store.
//!
//! Both run here against the in-memory model; the unverified shell
//! drives the same planner, executor steps and inversion against the
//! real filesystem, one committed step at a time.

use vstd::prelude::*;

use crate::action::{invert_model, Action, ActionModel};
use crate::memfs::{
    action_ok, drop_store, lemma_run_actions_snoc, run_action, run_actions_model, scan_model,
    MemFs,
};
use crate::planner::{lemma_plan_outer_checkpoint, plan, plan_outer};
use crate::executor::execute;
use crate::wal::{MirageError, MirageState, WalModel};

verus! {

/// Applies deduplication: plans every content-equal pair discovered in
/// a scan of the tree, then executes the journal's pending actions,
/// checkpointing after each.  Resumes exactly where a previous
/// interrupted run stopped, because planning starts from the loaded
/// journal and execution starts from its checkpoint.
pub fn apply(state: &mut MirageState, fs: &mut MemFs) -> (r: Result<(), MirageError>)
    requires
        old(state).wf(),
        old(fs).wf(),
    ensures
        final(state).wf(),
        final(fs).wf(),
        final(state)@.source_path == old(state)@.source_path,
        ({
            let planned = plan_outer(
                old(state)@.wal,
                old(state)@.source_path,
                old(fs)@,
                scan_model(old(fs).entries@, old(state)@.source_path),
                0,
            );
            &&& final(state)@.wal.actions == planned.actions
            &&& final(state)@.wal.redirections == planned.redirections
            &&& old(state)@.wal.checkpoint <= final(state)@.wal.checkpoint
                <= planned.actions.len()
            &&& final(fs)@ == run_actions_model(
                old(fs)@,
                planned.actions.subrange(
                    old(state)@.wal.checkpoint,
                    final(state)@.wal.checkpoint,
                ),
            )
            &&& (r is Ok ==> final(state)@.wal.checkpoint == planned.actions.len())
            &&& (r is Err ==> {
                &&& final(state)@.wal.checkpoint < planned.actions.len()
                &&& !action_ok(final(fs)@, planned.actions[final(state)@.wal.checkpoint])
            })
        }),
{
    plan(state, fs);
    proof {
        lemma_plan_outer_checkpoint(
            old(state)@.wal,
            old(state)@.source_path,
            old(fs)@,
            scan_model(old(fs).entries@, old(state)@.source_path),
            0,
        );
    }
    execute(state, fs)
}

/// The inverse replay plan: the applied prefix of the journal,
/// inverted, newest first.
pub open spec fn revert_plan(w: WalModel) -> Seq<ActionModel> {
    Seq::new(w.checkpoint as nat, |i: int| invert_model(w.actions[w.checkpoint - 1 - i]))
}

/// Reverts a prior apply: replays every applied action's inverse in
/// reverse order, restoring original file contents over the symlinks,
/// then removes the whole side-store.  A failure stops the replay and
/// reports how far it got; nothing is removed in that case, so a
/// re-invocation can run the journal again.
pub fn revert(state: &MirageState, fs: &mut MemFs) -> (r: Result<(), MirageError>)
    requires
        state.wf(),
        old(fs).wf(),
    ensures
        final(fs).wf(),
        r is Ok ==> final(fs)@ == drop_store(
            run_actions_model(old(fs)@, revert_plan(state@.wal)),
            state@.source_path,
        ),
        r is Err ==> {
            &&& (exists|k: int|
                {
                    &&& 0 <= k < revert_plan(state@.wal).len()
                    &&& final(fs)@ == run_actions_model(
                        old(fs)@,
                        revert_plan(state@.wal).subrange(0, k),
                    )
                    &&& !action_ok(final(fs)@, revert_plan(state@.wal)[k])
                })
            &&& r == Result::<(), MirageError>::Err(MirageError::ErrorDuringIO)
        },
{
    let ghost rp = revert_plan(state@.wal);
    let mut inverted: Vec<Action> = Vec::new();
    let cp = state.wal.checkpoint;
    let mut i: usize = cp;
    while i > 0
        invariant
            state.wf(),
            i <= cp,
            cp == state.wal.checkpoint,
            rp == revert_plan(state@.wal),
            inverted@.len() == cp - i,
            forall|l: int| 0 <= l < inverted@.len() ==> inverted@[l]@ == rp[l],
        decreases i,
    {
        i = i - 1;
        let a = state.wal.actions[i].invert();
        inverted.push(a);
        proof {
            assert(state@.wal.actions[i as int] == state.wal.actions@[i as int]@);
            assert(inverted@[inverted@.len() - 1]@ == rp[cp - 1 - i]);
        }
    }
    let ghost fs0 = fs@;
    let mut j: usize = 0;
    while j < inverted.len()
        invariant
            fs.wf(),
            fs0 == old(fs)@,
            rp == revert_plan(state@.wal),
            inverted@.len() == rp.len(),
            forall|l: int| 0 <= l < inverted@.len() ==> inverted@[l]@ == rp[l],
            j <= inverted@.len(),
            fs@ == run_actions_model(fs0, rp.subrange(0, j as int)),
        decreases inverted@.len() - j,
    {
        let ghost pre_fs = fs@;
        let ok = run_action(fs, &inverted[j]);
        proof {
            lemma_run_actions_snoc(fs0, rp.subrange(0, j as int), rp[j as int]);
            assert(rp.subrange(0, j + 1) =~= rp.subrange(0, j as int).push(rp[j as int]));
        }
        if !ok {
            proof {
                assert(fs@ == pre_fs);
                assert(0 <= j < rp.len() && fs@ == run_actions_model(
                    fs0,
                    rp.subrange(0, j as int),
                ) && !action_ok(fs@, rp[j as int]));
            }
            return Err(MirageError::ErrorDuringIO);
        }
        j = j + 1;
    }
    proof {
        assert(rp.subrange(0, j as int) =~= rp);
    }
    fs.remove_store(&state.source_path);
    Ok(())
}

} // verus!
