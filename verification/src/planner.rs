//! The dedup planner: turns a discovered content-equal pair of files
//! into journal actions and redirection entries, and drives the
//! all-pairs discovery over a scanned tree.
//!
//! Planning never touches the filesystem; it only appends to the
//! journal.  The shell persists the journal after every appended
//! batch, so a crash can lose at most the batch in flight.

use vstd::prelude::*;

use crate::action::{clone_bytes, Action, ActionModel, ActionType};
use crate::compare::{check_if_files_are_same, full_match};
use crate::memfs::{Entry, EntryModel, MemFs};
use crate::wal::{MirageState, Redirections, WalModel};

verus! {

/// A planned symlink from `source` to `target`.
pub open spec fn symlink_action(source: Seq<u8>, target: Seq<u8>) -> ActionModel {
    ActionModel { action: ActionType::Symlink, source, target }
}

/// A planned copy of `source`'s bytes to `target`.
pub open spec fn copy_action(source: Seq<u8>, target: Seq<u8>) -> ActionModel {
    ActionModel { action: ActionType::Copy, source, target }
}

/// The path component after the last separator.  The planner hands
/// this canonical absolute file paths, which never end in a
/// separator; a path that does yields the empty name.
pub open spec fn basename_of(p: Seq<u8>) -> Seq<u8>
    decreases p.len(),
{
    if p.len() == 0 {
        p
    } else if p.last() == 47u8 {
        Seq::empty()
    } else {
        basename_of(p.drop_last()).push(p.last())
    }
}

/// Extracts the base filename of a path.
pub fn basename(p: &Vec<u8>) -> (r: Vec<u8>)
    ensures
        r@ == basename_of(p@),
{
    let mut r: Vec<u8> = Vec::new();
    let mut i: usize = 0;
    while i < p.len()
        invariant
            i <= p.len(),
            r@ == basename_of(p@.take(i as int)),
        decreases p.len() - i,
    {
        proof {
            assert(p@.take(i + 1) =~= p@.take(i as int).push(p@[i as int]));
            assert(p@.take(i + 1).drop_last() =~= p@.take(i as int));
        }
        if p[i] == 47 {
            r = Vec::new();
        } else {
            r.push(p[i]);
        }
        i = i + 1;
    }
    proof {
        assert(p@.take(i as int) =~= p@);
    }
    r
}

/// Appends one byte string to another.
pub fn append_bytes(dst: &mut Vec<u8>, src: &Vec<u8>)
    ensures
        final(dst)@ == old(dst)@ + src@,
{
    let mut i: usize = 0;
    while i < src.len()
        invariant
            i <= src.len(),
            dst@ == old(dst)@ + src@.take(i as int),
        decreases src.len() - i,
    {
        dst.push(src[i]);
        i = i + 1;
        proof {
            assert(dst@ =~= old(dst)@ + src@.take(i as int));
        }
    }
    proof {
        assert(old(dst)@ + src@.take(i as int) =~= old(dst)@ + src@);
    }
}

/// The path segment separating the side-store root from the canonical
/// copies: `/originals/`.
pub open spec fn originals_segment() -> Seq<u8> {
    seq![47u8, 111u8, 114u8, 105u8, 103u8, 105u8, 110u8, 97u8, 108u8, 115u8, 47u8]
}

/// The canonical-copy path for a file: the side-store root, then the
/// `originals` directory, then the file's base name.
pub open spec fn canonical_for(side: Seq<u8>, here: Seq<u8>) -> Seq<u8> {
    side + originals_segment() + basename_of(here)
}

/// Builds the canonical-copy path for a file.
pub fn canonical_path(side: &Vec<u8>, here: &Vec<u8>) -> (r: Vec<u8>)
    ensures
        r@ == canonical_for(side@, here@),
{
    let mut r = clone_bytes(side);
    r.push(47);
    r.push(111);
    r.push(114);
    r.push(105);
    r.push(103);
    r.push(105);
    r.push(110);
    r.push(97);
    r.push(108);
    r.push(115);
    r.push(47);
    let b = basename(here);
    append_bytes(&mut r, &b);
    proof {
        assert(r@ =~= side@ + originals_segment() + basename_of(here@));
    }
    r
}

/// The canonical-name candidates for a fresh equivalence class: the
/// base name, then the base with separators appended, until one is
/// not yet the canonical path of any redirected file.  The fuel
/// bounds the search; one more try than the map has keys always finds
/// a free name ([`lemma_fresh_canonical_free`]).
pub open spec fn fresh_canonical_rec(
    red: Map<Seq<u8>, Seq<u8>>,
    base: Seq<u8>,
    fuel: nat,
) -> Seq<u8>
    decreases fuel,
{
    if fuel == 0 || !red.contains_value(base) {
        base
    } else {
        fresh_canonical_rec(red, base.push(95u8), (fuel - 1) as nat)
    }
}

/// The canonical path chosen for a fresh equivalence class: the
/// side-store name derived from the first member's base filename,
/// disambiguated until it is the canonical path of no
/// already-consolidated file.  Two unrelated classes whose first
/// members share a basename therefore get distinct canonical copies;
/// neither is overwritten.
pub open spec fn fresh_canonical(
    red: Map<Seq<u8>, Seq<u8>>,
    side: Seq<u8>,
    here: Seq<u8>,
) -> Seq<u8> {
    fresh_canonical_rec(red, canonical_for(side, here), (red.dom().len() + 1) as nat)
}

proof fn lemma_fresh_rec_free_aux(
    red: Map<Seq<u8>, Seq<u8>>,
    base: Seq<u8>,
    fuel: nat,
    used: Set<Seq<u8>>,
)
    requires
        red.dom().finite(),
        used.finite(),
        used.subset_of(red.dom()),
        forall|w: Seq<u8>| used.contains(w) ==> #[trigger] red[w].len() < base.len(),
        red.dom().len() < fuel + used.len(),
    ensures
        !red.contains_value(fresh_canonical_rec(red, base, fuel)),
    decreases fuel,
{
    vstd::set_lib::lemma_len_subset(used, red.dom());
    assert(fuel > 0);
    if red.contains_value(base) {
        let w = choose|w: Seq<u8>| red.dom().contains(w) && red[w] == base;
        assert(!used.contains(w)) by {
            assert(red[w].len() == base.len());
        }
        let used2 = used.insert(w);
        vstd::set::axiom_set_insert_len(used, w);
        assert(forall|x: Seq<u8>|
            used2.contains(x) ==> #[trigger] red[x].len() < base.push(95u8).len());
        lemma_fresh_rec_free_aux(red, base.push(95u8), (fuel - 1) as nat, used2);
    }
}

/// The chosen canonical path is in use by no redirected file: by the
/// pigeonhole over candidates of strictly growing length, trying one
/// more name than the map has keys must find a free one.
pub proof fn lemma_fresh_canonical_free(
    red: Map<Seq<u8>, Seq<u8>>,
    side: Seq<u8>,
    here: Seq<u8>,
)
    requires
        red.dom().finite(),
    ensures
        !red.contains_value(fresh_canonical(red, side, here)),
{
    broadcast use vstd::set::axiom_set_empty_len;

    lemma_fresh_rec_free_aux(
        red,
        canonical_for(side, here),
        (red.dom().len() + 1) as nat,
        Set::empty(),
    );
}

/// The chosen canonical path extends the base side-store name, and so
/// still lies inside the side-store.
pub proof fn lemma_fresh_canonical_rec_prefix(
    red: Map<Seq<u8>, Seq<u8>>,
    base: Seq<u8>,
    fuel: nat,
)
    ensures
        crate::memfs::is_prefix(base, fresh_canonical_rec(red, base, fuel)),
    decreases fuel,
{
    if fuel == 0 || !red.contains_value(base) {
        assert(base.take(base.len() as int) =~= base);
    } else {
        lemma_fresh_canonical_rec_prefix(red, base.push(95u8), (fuel - 1) as nat);
        let r = fresh_canonical_rec(red, base.push(95u8), (fuel - 1) as nat);
        assert(r.take(base.push(95u8).len() as int) == base.push(95u8));
        assert(r.take(base.len() as int) =~= base);
    }
}

/// Builds the collision-free canonical path for a fresh equivalence
/// class, as [`fresh_canonical`] describes it.
pub fn fresh_canonical_path(red: &Redirections, side: &Vec<u8>, here: &Vec<u8>) -> (r: Vec<u8>)
    requires
        red.wf(),
    ensures
        r@ == fresh_canonical(red@, side@, here@),
        !red@.contains_value(r@),
{
    proof {
        crate::assoc::lemma_map_of_len(red.pairs@);
        lemma_fresh_canonical_free(red@, side@, here@);
    }
    let n = red.pairs.len();
    let mut cand = canonical_path(side, here);
    let mut i: usize = 0;
    loop
        invariant
            red.wf(),
            i <= n,
            n == red.pairs@.len(),
            red@.dom().len() == n,
            red@.dom().finite(),
            !red@.contains_value(fresh_canonical(red@, side@, here@)),
            fresh_canonical(red@, side@, here@) == fresh_canonical_rec(
                red@,
                cand@,
                (n + 1 - i) as nat,
            ),
        decreases n - i,
    {
        if !red.contains_value(&cand) {
            proof {
                assert(fresh_canonical_rec(red@, cand@, (n + 1 - i) as nat) == cand@);
            }
            return cand;
        }
        if i == n {
            let ghost pre = cand@;
            cand.push(95);
            proof {
                assert(fresh_canonical_rec(red@, pre, 1nat) == fresh_canonical_rec(
                    red@,
                    pre.push(95u8),
                    0nat,
                ));
                assert(fresh_canonical_rec(red@, pre.push(95u8), 0nat) == cand@);
            }
            return cand;
        }
        let ghost pre = cand@;
        cand.push(95);
        i = i + 1;
        proof {
            assert(fresh_canonical_rec(red@, pre, (n + 2 - i) as nat) == fresh_canonical_rec(
                red@,
                cand@,
                (n + 1 - i) as nat,
            ));
        }
    }
}

/// What planning one content-equal pair does to the journal.
///
/// If both paths are already redirected the pair is assumed
/// consolidated and nothing changes.  If exactly one is redirected,
/// the other is planned as one more symlink onto the same canonical
/// copy.  If neither is, a canonical copy is planned (a copy of the
/// first file into the side-store, then symlinks for both) at a
/// collision-free path ([`fresh_canonical`]), and both paths are
/// redirected onto it.  The checkpoint never moves during planning.
pub open spec fn plan_pair_wal(
    w: WalModel,
    side: Seq<u8>,
    here: Seq<u8>,
    there: Seq<u8>,
) -> WalModel {
    let rh = w.redirections.contains_key(here);
    let rt = w.redirections.contains_key(there);
    if rh && rt {
        w
    } else if rh {
        let p = w.redirections[here];
        WalModel {
            actions: w.actions.push(symlink_action(there, p)),
            redirections: w.redirections.insert(there, p),
            checkpoint: w.checkpoint,
        }
    } else if rt {
        let p = w.redirections[there];
        WalModel {
            actions: w.actions.push(symlink_action(here, p)),
            redirections: w.redirections.insert(here, p),
            checkpoint: w.checkpoint,
        }
    } else {
        let p = fresh_canonical(w.redirections, side, here);
        WalModel {
            actions: w.actions + seq![
                copy_action(here, p),
                symlink_action(here, p),
                symlink_action(there, p),
            ],
            redirections: w.redirections.insert(here, p).insert(there, p),
            checkpoint: w.checkpoint,
        }
    }
}

impl MirageState {
    /// Plans the consolidation of one pair of distinct, content-equal
    /// files, appending actions and redirections as [`plan_pair_wal`]
    /// describes.  A freshly chosen canonical path is in use by no
    /// other class, so an unrelated canonical copy is never
    /// overwritten even when basenames repeat.  Returns whether the
    /// journal changed, so the caller knows to persist it.
    pub fn plan_pair(&mut self, here: &Vec<u8>, there: &Vec<u8>) -> (changed: bool)
        requires
            old(self).wf(),
            here@ != there@,
        ensures
            final(self).wf(),
            final(self)@.source_path == old(self)@.source_path,
            final(self)@.wal == plan_pair_wal(
                old(self)@.wal,
                old(self)@.source_path,
                here@,
                there@,
            ),
            changed == !(old(self)@.wal.redirections.contains_key(here@)
                && old(self)@.wal.redirections.contains_key(there@)),
            !old(self)@.wal.redirections.contains_key(here@) && !old(
                self,
            )@.wal.redirections.contains_key(there@) ==> !old(
                self,
            )@.wal.redirections.contains_value(final(self)@.wal.redirections[here@]),
    {
        let rh = self.wal.redirections.contains_key(here);
        let rt = self.wal.redirections.contains_key(there);
        if rh && rt {
            false
        } else if rh {
            let p = match self.wal.redirections.get(here) {
                Some(p) => p,
                None => {
                    proof {
                        assert(false);
                    }
                    Vec::new()
                },
            };
            let ghost acts0 = self.wal.actions@;
            self.wal.actions.push(
                Action::new(ActionType::Symlink, clone_bytes(there), clone_bytes(&p)),
            );
            proof {
                assert(self.wal.actions@.map_values(|a: Action| a@) =~= acts0.map_values(
                    |a: Action| a@,
                ).push(symlink_action(there@, p@)));
            }
            self.wal.redirections.insert(clone_bytes(there), p);
            true
        } else if rt {
            let p = match self.wal.redirections.get(there) {
                Some(p) => p,
                None => {
                    proof {
                        assert(false);
                    }
                    Vec::new()
                },
            };
            let ghost acts0 = self.wal.actions@;
            self.wal.actions.push(
                Action::new(ActionType::Symlink, clone_bytes(here), clone_bytes(&p)),
            );
            proof {
                assert(self.wal.actions@.map_values(|a: Action| a@) =~= acts0.map_values(
                    |a: Action| a@,
                ).push(symlink_action(here@, p@)));
            }
            self.wal.redirections.insert(clone_bytes(here), p);
            true
        } else {
            let p = fresh_canonical_path(&self.wal.redirections, &self.source_path, here);
            let ghost acts0 = self.wal.actions@;
            let ghost pv = p@;
            self.wal.actions.push(
                Action::new(ActionType::Copy, clone_bytes(here), clone_bytes(&p)),
            );
            self.wal.actions.push(
                Action::new(ActionType::Symlink, clone_bytes(here), clone_bytes(&p)),
            );
            self.wal.actions.push(
                Action::new(ActionType::Symlink, clone_bytes(there), clone_bytes(&p)),
            );
            proof {
                assert(self.wal.actions@.map_values(|a: Action| a@) =~= acts0.map_values(
                    |a: Action| a@,
                ) + seq![
                    copy_action(here@, pv),
                    symlink_action(here@, pv),
                    symlink_action(there@, pv),
                ]);
            }
            self.wal.redirections.insert(clone_bytes(here), clone_bytes(&p));
            self.wal.redirections.insert(clone_bytes(there), p);
            true
        }
    }
}

/// Whether a scanned pair is to be consolidated: two distinct paths,
/// both regular files, with byte-identical content.
pub open spec fn pair_matches(
    fs: Map<Seq<u8>, crate::memfs::EntryModel>,
    a: Seq<u8>,
    b: Seq<u8>,
) -> bool {
    &&& a != b
    &&& fs.contains_key(a)
    &&& fs.contains_key(b)
    &&& fs[a] is File
    &&& fs[b] is File
    &&& crate::memfs::entry_bytes(fs[a]) == crate::memfs::entry_bytes(fs[b])
}

/// Planning one candidate against the tail of the candidate list,
/// pair by pair.
pub open spec fn plan_inner(
    w: WalModel,
    side: Seq<u8>,
    fs: Map<Seq<u8>, crate::memfs::EntryModel>,
    here: Seq<u8>,
    cands: Seq<Seq<u8>>,
    j: int,
) -> WalModel
    decreases cands.len() - j,
{
    if j < 0 || j >= cands.len() {
        w
    } else {
        let w1 = if pair_matches(fs, here, cands[j]) {
            plan_pair_wal(w, side, here, cands[j])
        } else {
            w
        };
        plan_inner(w1, side, fs, here, cands, j + 1)
    }
}

/// The whole planning pass: every candidate compared against every
/// other, in scan order.
pub open spec fn plan_outer(
    w: WalModel,
    side: Seq<u8>,
    fs: Map<Seq<u8>, crate::memfs::EntryModel>,
    cands: Seq<Seq<u8>>,
    i: int,
) -> WalModel
    decreases cands.len() - i,
{
    if i < 0 || i >= cands.len() {
        w
    } else {
        plan_outer(plan_inner(w, side, fs, cands[i], cands, 0), side, fs, cands, i + 1)
    }
}

/// Planning one pair never moves the checkpoint.
pub proof fn lemma_plan_pair_checkpoint(w: WalModel, side: Seq<u8>, here: Seq<u8>, there: Seq<u8>)
    ensures
        plan_pair_wal(w, side, here, there).checkpoint == w.checkpoint,
{
}

/// Planning a candidate against the list never moves the checkpoint.
pub proof fn lemma_plan_inner_checkpoint(
    w: WalModel,
    side: Seq<u8>,
    fs: Map<Seq<u8>, crate::memfs::EntryModel>,
    here: Seq<u8>,
    cands: Seq<Seq<u8>>,
    j: int,
)
    ensures
        plan_inner(w, side, fs, here, cands, j).checkpoint == w.checkpoint,
    decreases cands.len() - j,
{
    if j < 0 || j >= cands.len() {
    } else {
        let w1 = if pair_matches(fs, here, cands[j]) {
            plan_pair_wal(w, side, here, cands[j])
        } else {
            w
        };
        lemma_plan_inner_checkpoint(w1, side, fs, here, cands, j + 1);
    }
}

/// The whole planning pass never moves the checkpoint.
pub proof fn lemma_plan_outer_checkpoint(
    w: WalModel,
    side: Seq<u8>,
    fs: Map<Seq<u8>, crate::memfs::EntryModel>,
    cands: Seq<Seq<u8>>,
    i: int,
)
    ensures
        plan_outer(w, side, fs, cands, i).checkpoint == w.checkpoint,
    decreases cands.len() - i,
{
    if i < 0 || i >= cands.len() {
    } else {
        lemma_plan_inner_checkpoint(w, side, fs, cands[i], cands, 0);
        lemma_plan_outer_checkpoint(
            plan_inner(w, side, fs, cands[i], cands, 0),
            side,
            fs,
            cands,
            i + 1,
        );
    }
}

/// Runs the planning pass over a scanned tree: all-pairs content
/// comparison, each newly discovered equivalence turned into journal
/// actions through [`MirageState::plan_pair`].
pub fn plan(state: &mut MirageState, fs: &MemFs)
    requires
        old(state).wf(),
        fs.wf(),
    ensures
        final(state).wf(),
        final(state)@.source_path == old(state)@.source_path,
        final(state)@.wal == plan_outer(
            old(state)@.wal,
            old(state)@.source_path,
            fs@,
            crate::memfs::scan_model(fs.entries@, old(state)@.source_path),
            0,
        ),
{
    let cands = fs.scan(&state.source_path);
    let ghost cv = cands@.map_values(|v: Vec<u8>| v@);
    let ghost side = state@.source_path;
    let ghost w0 = state@.wal;
    let mut i: usize = 0;
    while i < cands.len()
        invariant
            state.wf(),
            fs.wf(),
            state@.source_path == side,
            i <= cands@.len(),
            cv == cands@.map_values(|v: Vec<u8>| v@),
            plan_outer(w0, side, fs@, cv, 0) == plan_outer(state@.wal, side, fs@, cv, i as int),
        decreases cands@.len() - i,
    {
        let ghost wi = state@.wal;
        let mut j: usize = 0;
        while j < cands.len()
            invariant
                state.wf(),
                fs.wf(),
                state@.source_path == side,
                i < cands@.len(),
                j <= cands@.len(),
                cv == cands@.map_values(|v: Vec<u8>| v@),
                plan_inner(wi, side, fs@, cv[i as int], cv, 0) == plan_inner(
                    state@.wal,
                    side,
                    fs@,
                    cv[i as int],
                    cv,
                    j as int,
                ),
            decreases cands@.len() - j,
        {
            let ghost wj = state@.wal;
            proof {
                assert(cv[i as int] == cands@[i as int]@);
                assert(cv[j as int] == cands@[j as int]@);
            }
            let distinct = !full_match(&cands[i], &cands[j]);
            let same: bool = if distinct {
                let oi = fs.get(&cands[i]);
                let oj = fs.get(&cands[j]);
                match (oi, oj) {
                    (Some(Entry::File(c1)), Some(Entry::File(c2))) => check_if_files_are_same(
                        c1,
                        c2,
                    ),
                    _ => false,
                }
            } else {
                false
            };
            proof {
                assert(same == pair_matches(fs@, cv[i as int], cv[j as int]));
            }
            if same {
                state.plan_pair(&cands[i], &cands[j]);
                proof {
                    assert(state@.wal == plan_pair_wal(wj, side, cv[i as int], cv[j as int]));
                    assert(plan_inner(wj, side, fs@, cv[i as int], cv, j as int) == plan_inner(
                        state@.wal,
                        side,
                        fs@,
                        cv[i as int],
                        cv,
                        j + 1,
                    ));
                }
            } else {
                proof {
                    assert(plan_inner(wj, side, fs@, cv[i as int], cv, j as int) == plan_inner(
                        state@.wal,
                        side,
                        fs@,
                        cv[i as int],
                        cv,
                        j + 1,
                    ));
                }
            }
            j = j + 1;
        }
        proof {
            assert(plan_inner(wi, side, fs@, cv[i as int], cv, 0) == state@.wal);
            assert(plan_outer(wi, side, fs@, cv, i as int) == plan_outer(
                state@.wal,
                side,
                fs@,
                cv,
                i + 1,
            ));
        }
        i = i + 1;
    }
}

} // verus!
