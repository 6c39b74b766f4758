//! The action executor: replays the journal's pending actions in
//! order, advancing the checkpoint after each one so an interrupted
//! run can resume exactly where it stopped.

use vstd::prelude::*;

use crate::memfs::{action_ok, lemma_run_actions_snoc, run_action, run_actions_model, MemFs};
use crate::wal::{MirageError, MirageState};

verus! {

/// Replays `actions[checkpoint..]` against the filesystem, advancing
/// the checkpoint past every action that succeeds.  The caller
/// persists the journal after every advance; a failure stops
/// execution with the checkpoint resting on the failed action, so the
/// journal always reflects how far execution got.
pub fn execute(state: &mut MirageState, fs: &mut MemFs) -> (r: Result<(), MirageError>)
    requires
        old(state).wf(),
        old(fs).wf(),
    ensures
        final(state).wf(),
        final(fs).wf(),
        final(state)@.wal.actions == old(state)@.wal.actions,
        final(state)@.wal.redirections == old(state)@.wal.redirections,
        final(state)@.source_path == old(state)@.source_path,
        old(state)@.wal.checkpoint <= final(state)@.wal.checkpoint <= old(
            state,
        )@.wal.actions.len(),
        final(fs)@ == run_actions_model(
            old(fs)@,
            old(state)@.wal.actions.subrange(
                old(state)@.wal.checkpoint,
                final(state)@.wal.checkpoint,
            ),
        ),
        forall|l: int|
            old(state)@.wal.checkpoint <= l < final(state)@.wal.checkpoint ==> action_ok(
                run_actions_model(
                    old(fs)@,
                    old(state)@.wal.actions.subrange(old(state)@.wal.checkpoint, l),
                ),
                old(state)@.wal.actions[l],
            ),
        r is Ok ==> final(state)@.wal.checkpoint == old(state)@.wal.actions.len(),
        r is Err ==> {
            &&& final(state)@.wal.checkpoint < old(state)@.wal.actions.len()
            &&& !action_ok(final(fs)@, old(state)@.wal.actions[final(state)@.wal.checkpoint])
            &&& r == Result::<(), MirageError>::Err(MirageError::ErrorDuringIO)
        },
{
    let ghost acts = state@.wal.actions;
    let ghost cp0 = state@.wal.checkpoint;
    let ghost reds = state@.wal.redirections;
    let ghost side = state@.source_path;
    let ghost fs0 = fs@;
    while state.wal.checkpoint < state.wal.actions.len()
        invariant
            state.wf(),
            fs.wf(),
            acts == old(state)@.wal.actions,
            cp0 == old(state)@.wal.checkpoint,
            reds == old(state)@.wal.redirections,
            side == old(state)@.source_path,
            fs0 == old(fs)@,
            0 <= cp0,
            state@.wal.actions == acts,
            state@.wal.redirections == reds,
            state@.source_path == side,
            cp0 <= state@.wal.checkpoint <= acts.len(),
            fs@ == run_actions_model(fs0, acts.subrange(cp0, state@.wal.checkpoint)),
            forall|l: int|
                cp0 <= l < state@.wal.checkpoint ==> action_ok(
                    run_actions_model(fs0, acts.subrange(cp0, l)),
                    acts[l],
                ),
        decreases state.wal.actions.len() - state.wal.checkpoint,
    {
        let cp = state.wal.checkpoint;
        let ghost pre_fs = fs@;
        let a = state.wal.actions[cp].duplicate();
        proof {
            assert(acts[cp as int] == state.wal.actions@[cp as int]@);
        }
        let ok = run_action(fs, &a);
        proof {
            lemma_run_actions_snoc(fs0, acts.subrange(cp0, cp as int), acts[cp as int]);
            assert(acts.subrange(cp0, cp + 1) =~= acts.subrange(cp0, cp as int).push(
                acts[cp as int],
            ));
        }
        if !ok {
            return Err(MirageError::ErrorDuringIO);
        }
        state.advance_checkpoint();
    }
    Ok(())
}

} // verus!
