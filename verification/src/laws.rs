//! The engine's laws, stated and proved over the models: the
//! round-trip guarantee of revert-after-apply, idempotence of
//! planning, resumability of execution, uniqueness and
//! no-overwriting of canonical copies, and the untouchability of
//! files the plan does not mention.

use vstd::prelude::*;

use crate::action::{invert_model, ActionModel, ActionType};
use crate::memfs::{drop_store, run_action_model, run_actions_model, EntryModel};
use crate::planner::{
    canonical_for, copy_action, fresh_canonical, lemma_fresh_canonical_free,
    lemma_fresh_canonical_rec_prefix, pair_matches, plan_inner, plan_outer, plan_pair_wal,
    symlink_action,
};
use crate::wal::WalModel;

verus! {

/// Replaying a batch backwards: the batch inverted, newest first.
/// [`crate::engine::revert_plan`] is exactly this, applied to the
/// journal's applied prefix.
pub open spec fn inverse_replay(s: Seq<ActionModel>) -> Seq<ActionModel> {
    Seq::new(s.len(), |i: int| invert_model(s[s.len() - 1 - i]))
}

/// The revert plan of a journal is the inverse replay of its applied
/// prefix.
pub proof fn lemma_revert_plan_is_inverse_replay(w: WalModel)
    requires
        0 <= w.checkpoint <= w.actions.len(),
    ensures
        crate::engine::revert_plan(w) == inverse_replay(w.actions.subrange(0, w.checkpoint)),
{
    assert(crate::engine::revert_plan(w) =~= inverse_replay(
        w.actions.subrange(0, w.checkpoint),
    ));
}

/// Round trip of a fresh consolidation batch.
///
/// When two distinct files hold the same bytes and neither is yet
/// redirected, the planner appends the batch
/// `[Copy(h, p), Symlink(h, p), Symlink(t, p)]` for a canonical path
/// `p` distinct from both.  Applying the batch leaves both files as
/// symlinks onto `p` and the bytes at `p`; replaying the inverted
/// batch in reverse order afterwards restores the filesystem exactly,
/// up to the canonical copy at `p`, which the side-store removal at
/// the end of a revert discards.
pub proof fn lemma_round_trip_fresh(
    fs: Map<Seq<u8>, EntryModel>,
    h: Seq<u8>,
    t: Seq<u8>,
    p: Seq<u8>,
    c: Seq<u8>,
)
    requires
        fs.contains_key(h),
        fs[h] == EntryModel::File(c),
        fs.contains_key(t),
        fs[t] == EntryModel::File(c),
        h != t,
        p != h,
        p != t,
    ensures
        ({
            let batch = seq![copy_action(h, p), symlink_action(h, p), symlink_action(t, p)];
            let applied = run_actions_model(fs, batch);
            &&& applied == fs.insert(p, EntryModel::File(c)).insert(
                h,
                EntryModel::Symlink(p),
            ).insert(t, EntryModel::Symlink(p))
            &&& applied[h] == EntryModel::Symlink(p)
            &&& applied[t] == EntryModel::Symlink(p)
            &&& applied[p] == EntryModel::File(c)
            &&& run_actions_model(applied, inverse_replay(batch)) == fs.insert(
                p,
                EntryModel::File(c),
            )
        }),
{
    let batch = seq![copy_action(h, p), symlink_action(h, p), symlink_action(t, p)];
    let fs1 = run_action_model(fs, copy_action(h, p));
    assert(fs1 == fs.insert(p, EntryModel::File(c)));
    let fs2 = run_action_model(fs1, symlink_action(h, p));
    let fs3 = run_action_model(fs2, symlink_action(t, p));
    let s1 = seq![copy_action(h, p)];
    let s2 = seq![copy_action(h, p), symlink_action(h, p)];
    assert(run_actions_model(fs, Seq::<ActionModel>::empty()) == fs);
    assert(s1 =~= Seq::<ActionModel>::empty().push(copy_action(h, p)));
    crate::memfs::lemma_run_actions_snoc(fs, Seq::empty(), copy_action(h, p));
    assert(s2 =~= s1.push(symlink_action(h, p)));
    crate::memfs::lemma_run_actions_snoc(fs, s1, symlink_action(h, p));
    assert(batch =~= s2.push(symlink_action(t, p)));
    crate::memfs::lemma_run_actions_snoc(fs, s2, symlink_action(t, p));
    let applied = run_actions_model(fs, batch);
    assert(applied == fs3);

    let back = inverse_replay(batch);
    let b0 = copy_action(p, t);
    let b1 = copy_action(p, h);
    let b2 = ActionModel { action: ActionType::NOP, source: p, target: h };
    assert(invert_model(symlink_action(t, p)) == b0);
    assert(invert_model(symlink_action(h, p)) == b1);
    assert(invert_model(copy_action(h, p)) == b2);
    assert(back =~= seq![b0, b1, b2]);
    assert(fs3.contains_key(p) && fs3[p] == EntryModel::File(c));
    let g1 = run_action_model(fs3, b0);
    assert(g1 == fs3.insert(t, EntryModel::File(c)));
    assert(g1.contains_key(p) && g1[p] == EntryModel::File(c));
    let g2 = run_action_model(g1, b1);
    assert(g2 == g1.insert(h, EntryModel::File(c)));
    let g3 = run_action_model(g2, b2);
    let r1 = seq![b0];
    let r2 = seq![b0, b1];
    assert(run_actions_model(applied, Seq::<ActionModel>::empty()) == applied);
    assert(r1 =~= Seq::<ActionModel>::empty().push(b0));
    crate::memfs::lemma_run_actions_snoc(applied, Seq::empty(), b0);
    assert(r2 =~= r1.push(b1));
    crate::memfs::lemma_run_actions_snoc(applied, r1, b1);
    assert(back =~= r2.push(b2));
    crate::memfs::lemma_run_actions_snoc(applied, r2, b2);
    assert(run_actions_model(applied, back) == g3);
    assert(g3 =~= fs.insert(p, EntryModel::File(c)));
}

/// Round trip of a single link onto an existing canonical copy.
///
/// When a file's bytes already have a canonical copy at `p`, the
/// planner appends only `Symlink(t, p)`.  Applying it turns the file
/// into a symlink; replaying the inverse afterwards restores the
/// filesystem exactly.
pub proof fn lemma_round_trip_link(
    fs: Map<Seq<u8>, EntryModel>,
    t: Seq<u8>,
    p: Seq<u8>,
    c: Seq<u8>,
)
    requires
        fs.contains_key(t),
        fs[t] == EntryModel::File(c),
        fs.contains_key(p),
        fs[p] == EntryModel::File(c),
        t != p,
    ensures
        ({
            let batch = seq![symlink_action(t, p)];
            let applied = run_actions_model(fs, batch);
            &&& applied == fs.insert(t, EntryModel::Symlink(p))
            &&& applied[t] == EntryModel::Symlink(p)
            &&& applied[p] == EntryModel::File(c)
            &&& run_actions_model(applied, inverse_replay(batch)) == fs
        }),
{
    let batch = seq![symlink_action(t, p)];
    assert(run_actions_model(fs, Seq::<ActionModel>::empty()) == fs);
    assert(batch =~= Seq::<ActionModel>::empty().push(symlink_action(t, p)));
    crate::memfs::lemma_run_actions_snoc(fs, Seq::empty(), symlink_action(t, p));
    let applied = run_actions_model(fs, batch);
    assert(applied == fs.insert(t, EntryModel::Symlink(p)));

    let back = inverse_replay(batch);
    assert(back =~= seq![copy_action(p, t)]);
    assert(run_actions_model(applied, Seq::<ActionModel>::empty()) == applied);
    assert(back =~= Seq::<ActionModel>::empty().push(copy_action(p, t)));
    crate::memfs::lemma_run_actions_snoc(applied, Seq::empty(), copy_action(p, t));
    assert(applied.contains_key(p) && applied[p] == EntryModel::File(c));
    assert(run_actions_model(applied, back) == applied.insert(t, EntryModel::File(c)));
    assert(applied.insert(t, EntryModel::File(c)) =~= fs);
}

/// Round trips compose: if a batch round-trips from a state and a
/// second batch round-trips from the state the first one reaches,
/// then their concatenation round-trips as a whole.  This lifts the
/// per-batch round trips above to whole journals, batch by batch.
pub proof fn lemma_round_trip_compose(
    fs: Map<Seq<u8>, EntryModel>,
    fs2: Map<Seq<u8>, EntryModel>,
    a: Seq<ActionModel>,
    b: Seq<ActionModel>,
)
    requires
        run_actions_model(run_actions_model(fs, a), inverse_replay(a)) == fs2,
        run_actions_model(
            run_actions_model(run_actions_model(fs, a), b),
            inverse_replay(b),
        ) == run_actions_model(fs, a),
    ensures
        run_actions_model(run_actions_model(fs, a + b), inverse_replay(a + b)) == fs2,
{
    assert(inverse_replay(a + b) =~= inverse_replay(b) + inverse_replay(a));
    crate::memfs::lemma_run_actions_concat(fs, a, b);
    crate::memfs::lemma_run_actions_concat(
        run_actions_model(fs, a + b),
        inverse_replay(b),
        inverse_replay(a),
    );
}

/// Planning a fresh content-equal pair over its two-candidate scan
/// appends exactly one consolidation batch and redirects both paths
/// onto the canonical copy.
pub proof fn lemma_plan_two_fresh(
    w: WalModel,
    side: Seq<u8>,
    fs: Map<Seq<u8>, EntryModel>,
    h: Seq<u8>,
    t: Seq<u8>,
)
    requires
        !w.redirections.contains_key(h),
        !w.redirections.contains_key(t),
        pair_matches(fs, h, t),
    ensures
        ({
            let p = fresh_canonical(w.redirections, side, h);
            plan_outer(w, side, fs, seq![h, t], 0) == WalModel {
                actions: w.actions + seq![
                    copy_action(h, p),
                    symlink_action(h, p),
                    symlink_action(t, p),
                ],
                redirections: w.redirections.insert(h, p).insert(t, p),
                checkpoint: w.checkpoint,
            }
        }),
{
    let cands = seq![h, t];
    assert(cands.len() == 2);
    assert(cands[0] == h);
    assert(cands[1] == t);
    assert(!pair_matches(fs, h, h));
    let w1 = plan_pair_wal(w, side, h, t);
    assert(plan_inner(w1, side, fs, h, cands, 2) == w1);
    assert(plan_inner(w, side, fs, h, cands, 1) == plan_inner(w1, side, fs, h, cands, 2));
    assert(plan_inner(w, side, fs, h, cands, 0) == plan_inner(w, side, fs, h, cands, 1));

    assert(pair_matches(fs, t, h));
    assert(w1.redirections.contains_key(t) && w1.redirections.contains_key(h));
    assert(plan_pair_wal(w1, side, t, h) == w1);
    assert(!pair_matches(fs, t, t));
    assert(plan_inner(w1, side, fs, t, cands, 2) == w1);
    assert(plan_inner(w1, side, fs, t, cands, 1) == plan_inner(w1, side, fs, t, cands, 2));
    assert(plan_inner(w1, side, fs, t, cands, 0) == plan_inner(plan_pair_wal(w1, side, t, h), side, fs, t, cands, 1));

    assert(plan_outer(w1, side, fs, cands, 2) == w1);
    assert(plan_outer(w1, side, fs, cands, 1) == plan_outer(
        plan_inner(w1, side, fs, t, cands, 0),
        side,
        fs,
        cands,
        2,
    ));
    assert(plan_outer(w, side, fs, cands, 0) == plan_outer(
        plan_inner(w, side, fs, h, cands, 0),
        side,
        fs,
        cands,
        1,
    ));
}

/// The round trip, end to end, for a tree of two content-equal files:
/// planning from a journal that holds no redirections yields one
/// consolidation batch; applying that batch and then reverting —
/// replaying its inverse backwards and removing everything under the
/// side-store — restores the filesystem exactly.
pub proof fn lemma_round_trip_two_files(
    fs: Map<Seq<u8>, EntryModel>,
    w: WalModel,
    side: Seq<u8>,
    h: Seq<u8>,
    t: Seq<u8>,
    c: Seq<u8>,
)
    requires
        !w.redirections.contains_key(h),
        !w.redirections.contains_key(t),
        fs.contains_key(h),
        fs[h] == EntryModel::File(c),
        fs.contains_key(t),
        fs[t] == EntryModel::File(c),
        h != t,
        forall|k: Seq<u8>| fs.contains_key(k) ==> !crate::memfs::in_store(side, k),
    ensures
        ({
            let planned = plan_outer(w, side, fs, seq![h, t], 0);
            let batch = planned.actions.subrange(
                w.actions.len() as int,
                planned.actions.len() as int,
            );
            drop_store(
                run_actions_model(run_actions_model(fs, batch), inverse_replay(batch)),
                side,
            ) == fs
        }),
{
    let base = canonical_for(side, h);
    let p = fresh_canonical(w.redirections, side, h);
    lemma_fresh_canonical_rec_prefix(
        w.redirections,
        base,
        (w.redirections.dom().len() + 1) as nat,
    );
    assert(crate::memfs::in_store(side, p)) by {
        assert(p.take(base.len() as int) == base);
        assert(p.take(side.len() as int + 1) =~= side.push(47u8));
    }
    assert(p != h);
    assert(p != t);
    assert(pair_matches(fs, h, t));
    lemma_plan_two_fresh(w, side, fs, h, t);
    let planned = plan_outer(w, side, fs, seq![h, t], 0);
    let triple = seq![copy_action(h, p), symlink_action(h, p), symlink_action(t, p)];
    let batch = planned.actions.subrange(w.actions.len() as int, planned.actions.len() as int);
    assert(batch =~= triple);
    lemma_round_trip_fresh(fs, h, t, p, c);
    let restored = run_actions_model(run_actions_model(fs, batch), inverse_replay(batch));
    assert(restored == fs.insert(p, EntryModel::File(c)));
    assert(!fs.contains_key(p));
    assert(drop_store(restored, side) =~= fs);
}

/// Planning three fresh content-equal files over their
/// three-candidate scan: one canonical copy for the whole class, all
/// three files planned as symlinks onto it, all three redirected to
/// it — never three separate copies.
pub proof fn lemma_plan_three_fresh(
    w: WalModel,
    side: Seq<u8>,
    fs: Map<Seq<u8>, EntryModel>,
    a: Seq<u8>,
    b: Seq<u8>,
    c: Seq<u8>,
)
    requires
        !w.redirections.contains_key(a),
        !w.redirections.contains_key(b),
        !w.redirections.contains_key(c),
        pair_matches(fs, a, b),
        pair_matches(fs, a, c),
        pair_matches(fs, b, c),
    ensures
        ({
            let p = fresh_canonical(w.redirections, side, a);
            plan_outer(w, side, fs, seq![a, b, c], 0) == WalModel {
                actions: w.actions + seq![
                    copy_action(a, p),
                    symlink_action(a, p),
                    symlink_action(b, p),
                    symlink_action(c, p),
                ],
                redirections: w.redirections.insert(a, p).insert(b, p).insert(c, p),
                checkpoint: w.checkpoint,
            }
        }),
{
    let cands = seq![a, b, c];
    assert(cands.len() == 3);
    assert(cands[0] == a);
    assert(cands[1] == b);
    assert(cands[2] == c);
    let p = fresh_canonical(w.redirections, side, a);
    assert(pair_matches(fs, b, a));
    assert(pair_matches(fs, c, a));
    assert(pair_matches(fs, c, b));
    assert(!pair_matches(fs, a, a));
    assert(!pair_matches(fs, b, b));
    assert(!pair_matches(fs, c, c));

    // First candidate: a consolidates with b (fresh batch at p), then
    // c joins the class with one more symlink.
    let w1 = plan_pair_wal(w, side, a, b);
    assert(w1.redirections[a] == p);
    assert(!w1.redirections.contains_key(c));
    let w2 = plan_pair_wal(w1, side, a, c);
    assert(w2.actions == w1.actions.push(symlink_action(c, p)));
    assert(w2.redirections == w.redirections.insert(a, p).insert(b, p).insert(c, p));
    assert(plan_inner(w2, side, fs, a, cands, 3) == w2);
    assert(plan_inner(w1, side, fs, a, cands, 2) == plan_inner(w2, side, fs, a, cands, 3));
    assert(plan_inner(w, side, fs, a, cands, 1) == plan_inner(w1, side, fs, a, cands, 2));
    assert(plan_inner(w, side, fs, a, cands, 0) == plan_inner(w, side, fs, a, cands, 1));

    // The remaining candidates find every pair already consolidated.
    assert(w2.redirections.contains_key(a));
    assert(w2.redirections.contains_key(b));
    assert(w2.redirections.contains_key(c));
    assert(plan_pair_wal(w2, side, b, a) == w2);
    assert(plan_pair_wal(w2, side, b, c) == w2);
    assert(plan_pair_wal(w2, side, c, a) == w2);
    assert(plan_pair_wal(w2, side, c, b) == w2);
    assert(plan_inner(w2, side, fs, b, cands, 3) == w2);
    assert(plan_inner(w2, side, fs, b, cands, 2) == plan_inner(w2, side, fs, b, cands, 3));
    assert(plan_inner(w2, side, fs, b, cands, 1) == plan_inner(w2, side, fs, b, cands, 2));
    assert(plan_inner(w2, side, fs, b, cands, 0) == plan_inner(w2, side, fs, b, cands, 1));
    assert(plan_inner(w2, side, fs, c, cands, 3) == w2);
    assert(plan_inner(w2, side, fs, c, cands, 2) == plan_inner(w2, side, fs, c, cands, 3));
    assert(plan_inner(w2, side, fs, c, cands, 1) == plan_inner(w2, side, fs, c, cands, 2));
    assert(plan_inner(w2, side, fs, c, cands, 0) == plan_inner(w2, side, fs, c, cands, 1));

    assert(plan_outer(w2, side, fs, cands, 3) == w2);
    assert(plan_outer(w2, side, fs, cands, 2) == plan_outer(
        plan_inner(w2, side, fs, c, cands, 0),
        side,
        fs,
        cands,
        3,
    ));
    assert(plan_outer(w2, side, fs, cands, 1) == plan_outer(
        plan_inner(w2, side, fs, b, cands, 0),
        side,
        fs,
        cands,
        2,
    ));
    assert(plan_outer(w, side, fs, cands, 0) == plan_outer(
        plan_inner(w, side, fs, a, cands, 0),
        side,
        fs,
        cands,
        1,
    ));
    assert(w2.actions =~= w.actions + seq![
        copy_action(a, p),
        symlink_action(a, p),
        symlink_action(b, p),
        symlink_action(c, p),
    ]);
}

/// The round trip, end to end, for a tree of three content-equal
/// files: planning yields one canonical copy and three links onto
/// it; applying that batch and then reverting restores the
/// filesystem exactly.
pub proof fn lemma_round_trip_three_files(
    fs: Map<Seq<u8>, EntryModel>,
    w: WalModel,
    side: Seq<u8>,
    a: Seq<u8>,
    b: Seq<u8>,
    c: Seq<u8>,
    content: Seq<u8>,
)
    requires
        !w.redirections.contains_key(a),
        !w.redirections.contains_key(b),
        !w.redirections.contains_key(c),
        fs.contains_key(a),
        fs[a] == EntryModel::File(content),
        fs.contains_key(b),
        fs[b] == EntryModel::File(content),
        fs.contains_key(c),
        fs[c] == EntryModel::File(content),
        a != b,
        a != c,
        b != c,
        forall|k: Seq<u8>| fs.contains_key(k) ==> !crate::memfs::in_store(side, k),
    ensures
        ({
            let planned = plan_outer(w, side, fs, seq![a, b, c], 0);
            let batch = planned.actions.subrange(
                w.actions.len() as int,
                planned.actions.len() as int,
            );
            drop_store(
                run_actions_model(run_actions_model(fs, batch), inverse_replay(batch)),
                side,
            ) == fs
        }),
{
    let base = canonical_for(side, a);
    let p = fresh_canonical(w.redirections, side, a);
    lemma_fresh_canonical_rec_prefix(
        w.redirections,
        base,
        (w.redirections.dom().len() + 1) as nat,
    );
    assert(crate::memfs::in_store(side, p)) by {
        assert(p.take(base.len() as int) == base);
        assert(p.take(side.len() as int + 1) =~= side.push(47u8));
    }
    assert(p != a);
    assert(p != b);
    assert(p != c);
    assert(pair_matches(fs, a, b));
    assert(pair_matches(fs, a, c));
    assert(pair_matches(fs, b, c));
    lemma_plan_three_fresh(w, side, fs, a, b, c);
    let planned = plan_outer(w, side, fs, seq![a, b, c], 0);
    let triple = seq![copy_action(a, p), symlink_action(a, p), symlink_action(b, p)];
    let link = seq![symlink_action(c, p)];
    let batch = planned.actions.subrange(w.actions.len() as int, planned.actions.len() as int);
    assert(batch =~= triple + link);

    lemma_round_trip_fresh(fs, a, b, p, content);
    let fs3 = run_actions_model(fs, triple);
    assert(fs3.contains_key(c) && fs3[c] == EntryModel::File(content));
    assert(fs3.contains_key(p) && fs3[p] == EntryModel::File(content));
    lemma_round_trip_link(fs3, c, p, content);
    lemma_round_trip_compose(fs, fs.insert(p, EntryModel::File(content)), triple, link);
    let restored = run_actions_model(
        run_actions_model(fs, triple + link),
        inverse_replay(triple + link),
    );
    assert(restored == fs.insert(p, EntryModel::File(content)));
    assert(!fs.contains_key(p));
    assert(drop_store(restored, side) =~= fs);
}

/// Resumability: executing up to some intermediate checkpoint and
/// then from there to the end reaches the same state as one
/// uninterrupted run.
pub proof fn lemma_resumable(
    fs: Map<Seq<u8>, EntryModel>,
    acts: Seq<ActionModel>,
    k1: int,
    k2: int,
    k3: int,
)
    requires
        0 <= k1 <= k2 <= k3 <= acts.len(),
    ensures
        run_actions_model(run_actions_model(fs, acts.subrange(k1, k2)), acts.subrange(k2, k3))
            == run_actions_model(fs, acts.subrange(k1, k3)),
{
    assert(acts.subrange(k1, k3) =~= acts.subrange(k1, k2) + acts.subrange(k2, k3));
    crate::memfs::lemma_run_actions_concat(fs, acts.subrange(k1, k2), acts.subrange(k2, k3));
}

/// Idempotence of planning: once a pair has been planned, planning
/// the same pair again changes nothing, because both paths are
/// redirected by then.
pub proof fn lemma_plan_pair_idempotent(w: WalModel, side: Seq<u8>, h: Seq<u8>, t: Seq<u8>)
    ensures
        plan_pair_wal(plan_pair_wal(w, side, h, t), side, h, t) == plan_pair_wal(w, side, h, t),
{
    let w1 = plan_pair_wal(w, side, h, t);
    assert(w1.redirections.contains_key(h));
    assert(w1.redirections.contains_key(t));
}

/// A planning pass over candidates whose content-equal pairs are all
/// redirected already changes nothing: one candidate against the
/// list.
pub proof fn lemma_plan_inner_covered(
    w: WalModel,
    side: Seq<u8>,
    fs: Map<Seq<u8>, EntryModel>,
    here: Seq<u8>,
    cands: Seq<Seq<u8>>,
    j: int,
)
    requires
        forall|b: int|
            0 <= b < cands.len() && pair_matches(fs, here, cands[b])
                ==> w.redirections.contains_key(here) && w.redirections.contains_key(cands[b]),
    ensures
        plan_inner(w, side, fs, here, cands, j) == w,
    decreases cands.len() - j,
{
    if j < 0 || j >= cands.len() {
    } else {
        lemma_plan_inner_covered(w, side, fs, here, cands, j + 1);
    }
}

/// Idempotence of the whole planning pass: when the redirection map
/// already covers every content-equal pair among the candidates — as
/// it does after a completed pass over an unchanged tree — planning
/// again appends nothing.
pub proof fn lemma_plan_covered_identity(
    w: WalModel,
    side: Seq<u8>,
    fs: Map<Seq<u8>, EntryModel>,
    cands: Seq<Seq<u8>>,
    i: int,
)
    requires
        forall|a: int, b: int|
            0 <= a < cands.len() && 0 <= b < cands.len() && pair_matches(fs, cands[a], cands[b])
                ==> w.redirections.contains_key(cands[a]) && w.redirections.contains_key(
                cands[b],
            ),
    ensures
        plan_outer(w, side, fs, cands, i) == w,
    decreases cands.len() - i,
{
    if i < 0 || i >= cands.len() {
    } else {
        lemma_plan_inner_covered(w, side, fs, cands[i], cands, 0);
        lemma_plan_covered_identity(w, side, fs, cands, i + 1);
    }
}

proof fn lemma_plan_pair_keeps_redirections(
    w: WalModel,
    side: Seq<u8>,
    h: Seq<u8>,
    t: Seq<u8>,
    x: Seq<u8>,
)
    requires
        w.redirections.contains_key(x),
    ensures
        plan_pair_wal(w, side, h, t).redirections.contains_key(x),
{
}

proof fn lemma_plan_inner_keeps_redirections(
    w: WalModel,
    side: Seq<u8>,
    fs: Map<Seq<u8>, EntryModel>,
    here: Seq<u8>,
    cands: Seq<Seq<u8>>,
    j: int,
    x: Seq<u8>,
)
    requires
        w.redirections.contains_key(x),
    ensures
        plan_inner(w, side, fs, here, cands, j).redirections.contains_key(x),
    decreases cands.len() - j,
{
    if j < 0 || j >= cands.len() {
    } else {
        let w1 = if pair_matches(fs, here, cands[j]) {
            plan_pair_wal(w, side, here, cands[j])
        } else {
            w
        };
        lemma_plan_inner_keeps_redirections(w1, side, fs, here, cands, j + 1, x);
    }
}

proof fn lemma_plan_outer_keeps_redirections(
    w: WalModel,
    side: Seq<u8>,
    fs: Map<Seq<u8>, EntryModel>,
    cands: Seq<Seq<u8>>,
    i: int,
    x: Seq<u8>,
)
    requires
        w.redirections.contains_key(x),
    ensures
        plan_outer(w, side, fs, cands, i).redirections.contains_key(x),
    decreases cands.len() - i,
{
    if i < 0 || i >= cands.len() {
    } else {
        let w1 = plan_inner(w, side, fs, cands[i], cands, 0);
        lemma_plan_inner_keeps_redirections(w, side, fs, cands[i], cands, 0, x);
        lemma_plan_outer_keeps_redirections(w1, side, fs, cands, i + 1, x);
    }
}

proof fn lemma_plan_inner_covers(
    w: WalModel,
    side: Seq<u8>,
    fs: Map<Seq<u8>, EntryModel>,
    here: Seq<u8>,
    cands: Seq<Seq<u8>>,
    j: int,
)
    requires
        0 <= j,
    ensures
        forall|l: int|
            j <= l < cands.len() && #[trigger] pair_matches(fs, here, cands[l]) ==> {
                &&& plan_inner(w, side, fs, here, cands, j).redirections.contains_key(here)
                &&& plan_inner(w, side, fs, here, cands, j).redirections.contains_key(cands[l])
            },
    decreases cands.len() - j,
{
    if j < 0 || j >= cands.len() {
    } else {
        let w1 = if pair_matches(fs, here, cands[j]) {
            plan_pair_wal(w, side, here, cands[j])
        } else {
            w
        };
        assert(plan_inner(w, side, fs, here, cands, j) == plan_inner(
            w1,
            side,
            fs,
            here,
            cands,
            j + 1,
        ));
        lemma_plan_inner_covers(w1, side, fs, here, cands, j + 1);
        if pair_matches(fs, here, cands[j]) {
            assert(w1.redirections.contains_key(here));
            assert(w1.redirections.contains_key(cands[j]));
            lemma_plan_inner_keeps_redirections(w1, side, fs, here, cands, j + 1, here);
            lemma_plan_inner_keeps_redirections(w1, side, fs, here, cands, j + 1, cands[j]);
        }
    }
}

proof fn lemma_plan_outer_covers(
    w: WalModel,
    side: Seq<u8>,
    fs: Map<Seq<u8>, EntryModel>,
    cands: Seq<Seq<u8>>,
    i: int,
)
    requires
        0 <= i,
    ensures
        forall|i2: int, j2: int|
            i <= i2 < cands.len() && 0 <= j2 < cands.len() && #[trigger] pair_matches(
                fs,
                cands[i2],
                cands[j2],
            ) ==> {
                &&& plan_outer(w, side, fs, cands, i).redirections.contains_key(cands[i2])
                &&& plan_outer(w, side, fs, cands, i).redirections.contains_key(cands[j2])
            },
    decreases cands.len() - i,
{
    if i < 0 || i >= cands.len() {
    } else {
        let w1 = plan_inner(w, side, fs, cands[i], cands, 0);
        assert(plan_outer(w, side, fs, cands, i) == plan_outer(w1, side, fs, cands, i + 1));
        lemma_plan_inner_covers(w, side, fs, cands[i], cands, 0);
        lemma_plan_outer_covers(w1, side, fs, cands, i + 1);
        assert forall|i2: int, j2: int|
            i <= i2 < cands.len() && 0 <= j2 < cands.len() && #[trigger] pair_matches(
                fs,
                cands[i2],
                cands[j2],
            ) implies {
            &&& plan_outer(w, side, fs, cands, i).redirections.contains_key(cands[i2])
            &&& plan_outer(w, side, fs, cands, i).redirections.contains_key(cands[j2])
        } by {
            if i2 == i {
                assert(pair_matches(fs, cands[i as int], cands[j2]));
                assert(w1.redirections.contains_key(cands[i as int]));
                assert(w1.redirections.contains_key(cands[j2]));
                lemma_plan_outer_keeps_redirections(w1, side, fs, cands, i + 1, cands[i as int]);
                lemma_plan_outer_keeps_redirections(w1, side, fs, cands, i + 1, cands[j2]);
            } else {
                assert(plan_outer(w1, side, fs, cands, i + 1).redirections.contains_key(
                    cands[i2],
                ));
                assert(plan_outer(w1, side, fs, cands, i + 1).redirections.contains_key(
                    cands[j2],
                ));
            }
        }
    }
}

/// Idempotence of the whole planning pass: one pass leaves every
/// content-equal pair of the candidates redirected, so running the
/// same pass a second time over the same scan changes nothing.
pub proof fn lemma_plan_idempotent(
    w: WalModel,
    side: Seq<u8>,
    fs: Map<Seq<u8>, EntryModel>,
    cands: Seq<Seq<u8>>,
)
    ensures
        plan_outer(plan_outer(w, side, fs, cands, 0), side, fs, cands, 0) == plan_outer(
            w,
            side,
            fs,
            cands,
            0,
        ),
{
    let w2 = plan_outer(w, side, fs, cands, 0);
    lemma_plan_outer_covers(w, side, fs, cands, 0);
    lemma_plan_covered_identity(w2, side, fs, cands, 0);
}

/// How many copies a plan holds.
pub open spec fn count_copies(s: Seq<ActionModel>) -> int
    decreases s.len(),
{
    if s.len() == 0 {
        0
    } else {
        count_copies(s.drop_last()) + if s.last().action is Copy {
            1int
        } else {
            0
        }
    }
}

/// Canonical-copy uniqueness, per planned pair: planning appends a
/// copy action exactly when neither path was redirected yet — one
/// canonical copy per newly discovered equivalence class — and both
/// paths come out redirected onto the same canonical path.
pub proof fn lemma_canonical_unique(w: WalModel, side: Seq<u8>, h: Seq<u8>, t: Seq<u8>)
    requires
        h != t,
    ensures
        ({
            let w2 = plan_pair_wal(w, side, h, t);
            let rh = w.redirections.contains_key(h);
            let rt = w.redirections.contains_key(t);
            &&& w2.redirections.contains_key(h)
            &&& w2.redirections.contains_key(t)
            &&& (!(rh && rt) ==> w2.redirections[h] == w2.redirections[t])
            &&& count_copies(w2.actions) == count_copies(w.actions) + (
            if !rh && !rt {
                1int
            } else {
                0
            })
            &&& (!rh && !rt ==> w2.redirections[h] == fresh_canonical(w.redirections, side, h))
        }),
{
    let w2 = plan_pair_wal(w, side, h, t);
    let rh = w.redirections.contains_key(h);
    let rt = w.redirections.contains_key(t);
    if rh && rt {
    } else if rh {
        assert(w2.actions.drop_last() =~= w.actions);
        assert(w2.actions.last() == symlink_action(t, w.redirections[h]));
        assert(count_copies(w2.actions) == count_copies(w.actions));
    } else if rt {
        assert(w2.actions.drop_last() =~= w.actions);
        assert(w2.actions.last() == symlink_action(h, w.redirections[t]));
        assert(count_copies(w2.actions) == count_copies(w.actions));
    } else {
        let p = fresh_canonical(w.redirections, side, h);
        let s3 = w.actions + seq![copy_action(h, p), symlink_action(h, p), symlink_action(t, p)];
        assert(w2.actions == s3);
        assert(s3.drop_last().drop_last().drop_last() =~= w.actions);
        assert(s3.drop_last().drop_last().last() == copy_action(h, p));
        assert(s3.drop_last().last() == symlink_action(h, p));
        assert(s3.last() == symlink_action(t, p));
        assert(count_copies(s3) == count_copies(s3.drop_last()));
        assert(count_copies(s3.drop_last()) == count_copies(s3.drop_last().drop_last()));
        assert(count_copies(s3.drop_last().drop_last()) == count_copies(w.actions) + 1);
    }
}

/// No canonical copy is ever overwritten by a fresh class: the
/// canonical path chosen when neither file of a pair is redirected is
/// the redirection target of no already-consolidated file — even
/// when two unrelated classes' first members share a basename.
pub proof fn lemma_fresh_canonical_unused(w: WalModel, side: Seq<u8>, h: Seq<u8>, t: Seq<u8>)
    requires
        w.redirections.dom().finite(),
        h != t,
        !w.redirections.contains_key(h),
        !w.redirections.contains_key(t),
    ensures
        ({
            let w2 = plan_pair_wal(w, side, h, t);
            &&& !w.redirections.contains_value(w2.redirections[h])
            &&& w2.redirections[h] == fresh_canonical(w.redirections, side, h)
        }),
{
    lemma_fresh_canonical_free(w.redirections, side, h);
}

/// The planner's write discipline: every action appended for a pair
/// has one of the two compared files as its source, and the pair's
/// common canonical path as its target.  Nothing else is ever named
/// as a destination of filesystem work.
pub proof fn lemma_plan_pair_writes(w: WalModel, side: Seq<u8>, h: Seq<u8>, t: Seq<u8>)
    requires
        h != t,
    ensures
        ({
            let w2 = plan_pair_wal(w, side, h, t);
            forall|i: int|
                w.actions.len() <= i < w2.actions.len() ==> {
                    &&& (#[trigger] w2.actions[i].source == h || w2.actions[i].source == t)
                    &&& w2.actions[i].target == w2.redirections[h]
                }
        }),
{
    let w2 = plan_pair_wal(w, side, h, t);
    let rh = w.redirections.contains_key(h);
    let rt = w.redirections.contains_key(t);
    if rh && rt {
    } else if rh {
        assert(w2.actions[w.actions.len() as int] == symlink_action(t, w.redirections[h]));
    } else if rt {
        assert(w2.actions[w.actions.len() as int] == symlink_action(h, w.redirections[t]));
    } else {
        let p = fresh_canonical(w.redirections, side, h);
        assert(forall|i: int|
            w.actions.len() <= i < w2.actions.len() ==> w2.actions[i] == seq![
                copy_action(h, p),
                symlink_action(h, p),
                symlink_action(t, p),
            ][i - w.actions.len()]);
    }
}

/// Canonical paths lie inside the side-store.
pub open spec fn values_in_store(red: Map<Seq<u8>, Seq<u8>>, side: Seq<u8>) -> bool {
    forall|v: Seq<u8>| #[trigger] red.contains_value(v) ==> crate::memfs::in_store(side, v)
}

proof fn lemma_plan_pair_avoids(
    w: WalModel,
    side: Seq<u8>,
    h: Seq<u8>,
    t: Seq<u8>,
    f: Seq<u8>,
)
    requires
        h != t,
        h != f,
        t != f,
        values_in_store(w.redirections, side),
        !crate::memfs::in_store(side, f),
    ensures
        ({
            let w2 = plan_pair_wal(w, side, h, t);
            &&& values_in_store(w2.redirections, side)
            &&& w.actions.len() <= w2.actions.len()
            &&& forall|idx: int|
                0 <= idx < w.actions.len() ==> #[trigger] w2.actions[idx] == w.actions[idx]
            &&& forall|idx: int|
                w.actions.len() <= idx < w2.actions.len() ==> #[trigger] w2.actions[idx].source
                    != f && w2.actions[idx].target != f
        }),
{
    let w2 = plan_pair_wal(w, side, h, t);
    let rh = w.redirections.contains_key(h);
    let rt = w.redirections.contains_key(t);
    lemma_plan_pair_writes(w, side, h, t);

    let p = if rh && rt {
        w.redirections[h]
    } else if rh {
        w.redirections[h]
    } else if rt {
        w.redirections[t]
    } else {
        fresh_canonical(w.redirections, side, h)
    };
    if !rh && !rt {
        let base = canonical_for(side, h);
        lemma_fresh_canonical_rec_prefix(
            w.redirections,
            base,
            (w.redirections.dom().len() + 1) as nat,
        );
        assert(crate::memfs::in_store(side, p)) by {
            assert(p.take(base.len() as int) == base);
            assert(p.take(side.len() as int + 1) =~= side.push(47u8));
        }
    } else if rh {
        assert(w.redirections.contains_value(p)) by {
            assert(w.redirections.dom().contains(h) && w.redirections[h] == p);
        }
    } else if rt {
        assert(w.redirections.contains_value(p)) by {
            assert(w.redirections.dom().contains(t) && w.redirections[t] == p);
        }
    }
    assert(!(rh && rt) ==> crate::memfs::in_store(side, p));

    assert forall|v: Seq<u8>| #[trigger] w2.redirections.contains_value(v) implies
        crate::memfs::in_store(side, v) by {
        let k = choose|k: Seq<u8>|
            w2.redirections.dom().contains(k) && w2.redirections[k] == v;
        if w.redirections.contains_key(k) && w.redirections[k] == v {
            assert(w.redirections.contains_value(v)) by {
                assert(w.redirections.dom().contains(k) && w.redirections[k] == v);
            }
        } else {
            assert(v == p);
        }
    }

    assert forall|idx: int|
        w.actions.len() <= idx < w2.actions.len() implies #[trigger] w2.actions[idx].source != f
        && w2.actions[idx].target != f by {
        assert(w2.actions[idx].source == h || w2.actions[idx].source == t);
        assert(w2.actions[idx].target == w2.redirections[h]);
        assert(w2.redirections.contains_key(h));
        assert(w2.redirections.contains_value(w2.redirections[h])) by {
            assert(w2.redirections.dom().contains(h));
        }
    }
}

proof fn lemma_plan_inner_avoids(
    w: WalModel,
    side: Seq<u8>,
    fs: Map<Seq<u8>, EntryModel>,
    here: Seq<u8>,
    cands: Seq<Seq<u8>>,
    j: int,
    f: Seq<u8>,
)
    requires
        0 <= j,
        values_in_store(w.redirections, side),
        !crate::memfs::in_store(side, f),
        forall|l: int|
            0 <= l < cands.len() && #[trigger] pair_matches(fs, here, cands[l]) ==> here != f
                && cands[l] != f,
    ensures
        ({
            let w2 = plan_inner(w, side, fs, here, cands, j);
            &&& values_in_store(w2.redirections, side)
            &&& w.actions.len() <= w2.actions.len()
            &&& forall|idx: int|
                0 <= idx < w.actions.len() ==> #[trigger] w2.actions[idx] == w.actions[idx]
            &&& forall|idx: int|
                w.actions.len() <= idx < w2.actions.len() ==> #[trigger] w2.actions[idx].source
                    != f && w2.actions[idx].target != f
        }),
    decreases cands.len() - j,
{
    if j >= cands.len() {
    } else {
        let w1 = if pair_matches(fs, here, cands[j]) {
            plan_pair_wal(w, side, here, cands[j])
        } else {
            w
        };
        if pair_matches(fs, here, cands[j]) {
            lemma_plan_pair_avoids(w, side, here, cands[j], f);
        }
        lemma_plan_inner_avoids(w1, side, fs, here, cands, j + 1, f);
    }
}

proof fn lemma_plan_outer_avoids(
    w: WalModel,
    side: Seq<u8>,
    fs: Map<Seq<u8>, EntryModel>,
    cands: Seq<Seq<u8>>,
    i: int,
    f: Seq<u8>,
)
    requires
        0 <= i,
        values_in_store(w.redirections, side),
        !crate::memfs::in_store(side, f),
        forall|x: int, l: int|
            0 <= x < cands.len() && 0 <= l < cands.len() && #[trigger] pair_matches(
                fs,
                cands[x],
                cands[l],
            ) ==> cands[x] != f && cands[l] != f,
    ensures
        ({
            let w2 = plan_outer(w, side, fs, cands, i);
            &&& values_in_store(w2.redirections, side)
            &&& w.actions.len() <= w2.actions.len()
            &&& forall|idx: int|
                0 <= idx < w.actions.len() ==> #[trigger] w2.actions[idx] == w.actions[idx]
            &&& forall|idx: int|
                w.actions.len() <= idx < w2.actions.len() ==> #[trigger] w2.actions[idx].source
                    != f && w2.actions[idx].target != f
        }),
    decreases cands.len() - i,
{
    if i >= cands.len() {
    } else {
        let w1 = plan_inner(w, side, fs, cands[i], cands, 0);
        lemma_plan_inner_avoids(w, side, fs, cands[i], cands, 0, f);
        lemma_plan_outer_avoids(w1, side, fs, cands, i + 1, f);
    }
}

/// A file whose content matches no candidate is never named by the
/// plan: when every canonical path of the journal lies inside the
/// side-store (true of a fresh journal, and preserved by planning),
/// and a path outside the store matches no scanned candidate, the
/// whole planning pass appends no action whose source or target is
/// that path.  With [`lemma_untouched`], executing any part of such a
/// plan leaves the file exactly as it was.
pub proof fn lemma_distinct_content_unplanned(
    w: WalModel,
    side: Seq<u8>,
    fs: Map<Seq<u8>, EntryModel>,
    cands: Seq<Seq<u8>>,
    f: Seq<u8>,
)
    requires
        values_in_store(w.redirections, side),
        !crate::memfs::in_store(side, f),
        forall|l: int|
            0 <= l < cands.len() ==> !#[trigger] pair_matches(fs, f, cands[l]),
    ensures
        ({
            let w2 = plan_outer(w, side, fs, cands, 0);
            &&& values_in_store(w2.redirections, side)
            &&& w.actions.len() <= w2.actions.len()
            &&& forall|idx: int|
                0 <= idx < w.actions.len() ==> #[trigger] w2.actions[idx] == w.actions[idx]
            &&& forall|idx: int|
                w.actions.len() <= idx < w2.actions.len() ==> #[trigger] w2.actions[idx].source
                    != f && w2.actions[idx].target != f
        }),
{
    assert forall|x: int, l: int|
        0 <= x < cands.len() && 0 <= l < cands.len() && #[trigger] pair_matches(
            fs,
            cands[x],
            cands[l],
        ) implies cands[x] != f && cands[l] != f by {
        if cands[x] == f {
            assert(pair_matches(fs, f, cands[l]));
        }
        if cands[l] == f {
            assert(pair_matches(fs, cands[x], f));
            assert(pair_matches(fs, f, cands[x]));
        }
    }
    lemma_plan_outer_avoids(w, side, fs, cands, 0, f);
}

/// Distinct content is untouched, end to end: a file outside the
/// side-store whose content matches no scanned candidate, and which
/// no already-journalled action names, is left exactly as it was by
/// any execution — full or partial, forward or during a resumed run —
/// of the journal the planning pass produces.
pub proof fn lemma_distinct_content_untouched(
    w: WalModel,
    side: Seq<u8>,
    fs: Map<Seq<u8>, EntryModel>,
    cands: Seq<Seq<u8>>,
    f: Seq<u8>,
    g: Map<Seq<u8>, EntryModel>,
    a: int,
    b: int,
)
    requires
        values_in_store(w.redirections, side),
        !crate::memfs::in_store(side, f),
        forall|l: int| 0 <= l < cands.len() ==> !#[trigger] pair_matches(fs, f, cands[l]),
        forall|idx: int|
            0 <= idx < w.actions.len() ==> (#[trigger] w.actions[idx]).source != f
                && w.actions[idx].target != f,
        0 <= a <= b <= plan_outer(w, side, fs, cands, 0).actions.len(),
    ensures
        ({
            let run = run_actions_model(
                g,
                plan_outer(w, side, fs, cands, 0).actions.subrange(a, b),
            );
            &&& run.contains_key(f) == g.contains_key(f)
            &&& (g.contains_key(f) ==> run[f] == g[f])
        }),
{
    lemma_distinct_content_unplanned(w, side, fs, cands, f);
    let w2 = plan_outer(w, side, fs, cands, 0);
    let acts = w2.actions.subrange(a, b);
    assert forall|i: int|
        0 <= i < acts.len() implies #[trigger] acts[i].source != f && acts[i].target != f by {
        let idx = a + i;
        assert(acts[i] == w2.actions[idx]);
        if idx < w.actions.len() {
            assert(w2.actions[idx] == w.actions[idx]);
            assert(w.actions[idx].source != f && w.actions[idx].target != f);
        } else {
            assert(w2.actions[idx].source != f && w2.actions[idx].target != f);
        }
    }
    lemma_untouched(g, acts, f);
}

/// Files the plan does not mention are untouched: replaying any
/// action sequence leaves every path that appears in no action's
/// source or target exactly as it was.
pub proof fn lemma_untouched(fs: Map<Seq<u8>, EntryModel>, acts: Seq<ActionModel>, k: Seq<u8>)
    requires
        forall|i: int| 0 <= i < acts.len() ==> acts[i].source != k && acts[i].target != k,
    ensures
        run_actions_model(fs, acts).contains_key(k) == fs.contains_key(k),
        fs.contains_key(k) ==> run_actions_model(fs, acts)[k] == fs[k],
    decreases acts.len(),
{
    if acts.len() > 0 {
        let fs1 = run_action_model(fs, acts[0]);
        assert(fs1.contains_key(k) == fs.contains_key(k));
        assert(fs.contains_key(k) ==> fs1[k] == fs[k]);
        assert(forall|i: int|
            0 <= i < acts.drop_first().len() ==> acts.drop_first()[i].source != k
                && acts.drop_first()[i].target != k);
        lemma_untouched(fs1, acts.drop_first(), k);
    }
}

/// The paths a planned pair can touch: everything the planner appends
/// for the pair `(h, t)` has its source and target among `h`, `t`,
/// their previously recorded canonical paths, and the fresh canonical
/// path derived from `h`.  Together with [`lemma_untouched`], a file
/// at any other path — in particular one whose content matches no
/// other file — is never copied nor replaced by a symlink.
pub proof fn lemma_plan_pair_touches(
    w: WalModel,
    side: Seq<u8>,
    h: Seq<u8>,
    t: Seq<u8>,
    k: Seq<u8>,
)
    requires
        k != h,
        k != t,
        w.redirections.contains_key(h) ==> k != w.redirections[h],
        w.redirections.contains_key(t) ==> k != w.redirections[t],
        k != fresh_canonical(w.redirections, side, h),
    ensures
        ({
            let w2 = plan_pair_wal(w, side, h, t);
            &&& w2.actions.subrange(0, w.actions.len() as int) == w.actions
            &&& forall|i: int|
                w.actions.len() <= i < w2.actions.len() ==> w2.actions[i].source != k
                    && w2.actions[i].target != k
        }),
{
    let w2 = plan_pair_wal(w, side, h, t);
    assert(w2.actions.subrange(0, w.actions.len() as int) =~= w.actions);
}

} // verus!
