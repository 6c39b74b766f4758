//! An in-memory filesystem model: a map from absolute paths to
//! entries, with the semantics of replaying planned actions against
//! it.
//!
//! The engine is verified against this model; the unverified shell
//! performs the same actions against the real filesystem, one
//! checkpointed step at a time.

use vstd::prelude::*;
use vstd::pervasive::VecAdditionalExecFns;

use crate::action::{clone_bytes, Action, ActionModel, ActionType};
use crate::assoc::{lemma_map_of_contains, lemma_map_of_update, lemma_map_of_value, map_of};

verus! {

/// The mathematical image of a filesystem entry.
pub enum EntryModel {
    /// A regular file and its bytes.
    File(Seq<u8>),
    /// A symlink and the path it points at.
    Symlink(Seq<u8>),
}

/// One filesystem entry: a regular file with its content, or a symlink
/// with its target path.  Directories do not participate: the engine
/// only ever creates, replaces and reads back regular files and links,
/// so paths are modelled as flat absolute keys.
#[derive(Debug)]
pub enum Entry {
    File(Vec<u8>),
    Symlink(Vec<u8>),
}

impl View for Entry {
    type V = EntryModel;

    open spec fn view(&self) -> EntryModel {
        match self {
            Entry::File(c) => EntryModel::File(c@),
            Entry::Symlink(t) => EntryModel::Symlink(t@),
        }
    }
}

impl Entry {
    /// Copies an entry.
    pub fn duplicate(&self) -> (r: Entry)
        ensures
            r@ == self@,
    {
        match self {
            Entry::File(c) => Entry::File(clone_bytes(c)),
            Entry::Symlink(t) => Entry::Symlink(clone_bytes(t)),
        }
    }
}

/// Whether `p` is a prefix of `k`.
pub open spec fn is_prefix(p: Seq<u8>, k: Seq<u8>) -> bool {
    p.len() <= k.len() && k.take(p.len() as int) == p
}

/// Reports whether `k` starts with `p`.
pub fn has_prefix(k: &Vec<u8>, p: &Vec<u8>) -> (r: bool)
    ensures
        r == is_prefix(p@, k@),
{
    if p.len() > k.len() {
        proof {
            assert(!is_prefix(p@, k@));
        }
        return false;
    }
    let mut i: usize = 0;
    while i < p.len()
        invariant
            i <= p.len(),
            p.len() <= k.len(),
            k@.take(i as int) == p@.take(i as int),
        decreases p.len() - i,
    {
        if k[i] != p[i] {
            proof {
                assert(k@.take(p@.len() as int)[i as int] != p@[i as int]);
            }
            return false;
        }
        proof {
            assert(k@.take(i + 1) =~= k@.take(i as int).push(k@[i as int]));
            assert(p@.take(i + 1) =~= p@.take(i as int).push(p@[i as int]));
        }
        i = i + 1;
    }
    proof {
        assert(p@.take(i as int) =~= p@);
        assert(k@.take(p@.len() as int) =~= p@);
    }
    true
}

/// Whether a path lies inside the side-store rooted at `p`: the root
/// itself, or any path below it.  A sibling that merely shares `p` as
/// a byte prefix (a neighbouring name that starts the same way) is
/// outside.
pub open spec fn in_store(p: Seq<u8>, k: Seq<u8>) -> bool {
    k == p || is_prefix(p.push(47u8), k)
}

/// Reports whether `k` lies inside the side-store rooted at `p`.
pub fn in_store_check(k: &Vec<u8>, p: &Vec<u8>) -> (r: bool)
    ensures
        r == in_store(p@, k@),
{
    if crate::compare::full_match(k, p) {
        return true;
    }
    let mut below = crate::action::clone_bytes(p);
    below.push(47);
    has_prefix(k, &below)
}

/// The map left after dropping the side-store rooted at `p`: its
/// journal, its canonical copies, and the root itself.
pub open spec fn drop_store(
    m: Map<Seq<u8>, EntryModel>,
    p: Seq<u8>,
) -> Map<Seq<u8>, EntryModel> {
    Map::new(|k: Seq<u8>| m.contains_key(k) && !in_store(p, k), |k: Seq<u8>| m[k])
}

/// The in-memory filesystem: insertion-ordered entries with unique
/// paths.
pub struct MemFs {
    pub entries: Vec<(Vec<u8>, Entry)>,
}

impl View for MemFs {
    type V = Map<Seq<u8>, EntryModel>;

    open spec fn view(&self) -> Map<Seq<u8>, EntryModel> {
        map_of(self.entries@)
    }
}

impl MemFs {
    /// No path appears under two entries.
    pub open spec fn wf(&self) -> bool {
        forall|i: int, j: int|
            0 <= i < j < self.entries@.len() ==> self.entries@[i].0@ != self.entries@[j].0@
    }

    /// An empty filesystem.
    pub fn new() -> (r: MemFs)
        ensures
            r.wf(),
            r@ == Map::<Seq<u8>, EntryModel>::empty(),
    {
        MemFs { entries: Vec::new() }
    }

    /// Looks a path up.
    pub fn get(&self, k: &Vec<u8>) -> (r: Option<&Entry>)
        ensures
            match r {
                Some(e) => self@.contains_key(k@) && e@ == self@[k@],
                None => !self@.contains_key(k@),
            },
    {
        let mut i: usize = self.entries.len();
        while i > 0
            invariant
                i <= self.entries@.len(),
                forall|j: int| i <= j < self.entries@.len() ==> self.entries@[j].0@ != k@,
            decreases i,
        {
            i = i - 1;
            if crate::compare::full_match(&self.entries[i].0, k) {
                proof {
                    lemma_map_of_value(self.entries@, i as int);
                }
                return Some(&self.entries[i].1);
            }
        }
        proof {
            lemma_map_of_contains(self.entries@, k@);
        }
        None
    }

    /// Creates or replaces the entry at a path.
    pub fn set(&mut self, k: Vec<u8>, e: Entry)
        requires
            old(self).wf(),
        ensures
            final(self).wf(),
            final(self)@ == old(self)@.insert(k@, e@),
    {
        let mut i: usize = 0;
        while i < self.entries.len()
            invariant
                self == old(self),
                self.wf(),
                i <= self.entries@.len(),
                forall|j: int| 0 <= j < i ==> self.entries@[j].0@ != k@,
            decreases self.entries@.len() - i,
        {
            if crate::compare::full_match(&self.entries[i].0, &k) {
                proof {
                    lemma_map_of_update(self.entries@, i as int, (k, e));
                }
                let ghost pre = self.entries@;
                self.entries.set(i, (k, e));
                proof {
                    assert(self.entries@ == pre.update(i as int, (k, e)));
                    assert forall|a: int, b: int|
                        0 <= a < b < self.entries@.len() implies self.entries@[a].0@
                        != self.entries@[b].0@ by {
                        assert(pre[a].0@ != pre[b].0@);
                        if a != i && b != i {
                            assert(self.entries@[a] == pre[a]);
                            assert(self.entries@[b] == pre[b]);
                        }
                    }
                }
                return;
            }
            i = i + 1;
        }
        let ghost pre = self.entries@;
        self.entries.push((k, e));
        proof {
            assert(self.entries@.drop_last() =~= pre);
            lemma_map_of_contains(pre, k@);
        }
    }

    /// Removes every entry of the side-store rooted at `p`; the rest
    /// keep their order.
    pub fn remove_store(&mut self, p: &Vec<u8>)
        requires
            old(self).wf(),
        ensures
            final(self).wf(),
            final(self)@ == drop_store(old(self)@, p@),
    {
        let mut kept: Vec<(Vec<u8>, Entry)> = Vec::new();
        let mut i: usize = 0;
        while i < self.entries.len()
            invariant
                self == old(self),
                self.wf(),
                i <= self.entries@.len(),
                map_of(kept@) == drop_store(map_of(self.entries@.take(i as int)), p@),
                forall|a: int, b: int|
                    0 <= a < b < kept@.len() ==> kept@[a].0@ != kept@[b].0@,
                forall|a: int, l: int|
                    0 <= a < kept@.len() && i <= l < self.entries@.len() ==> kept@[a].0@
                        != self.entries@[l].0@,
            decreases self.entries@.len() - i,
        {
            let ghost pre_kept = kept@;
            let ghost s = self.entries@;
            proof {
                assert(s.take(i + 1) =~= s.take(i as int).push(s[i as int]));
                assert(s.take(i + 1).drop_last() =~= s.take(i as int));
                assert(s.take(i + 1).last() == s[i as int]);
                assert(map_of(s.take(i + 1)) == map_of(s.take(i as int)).insert(
                    s[i as int].0@,
                    s[i as int].1@,
                ));
            }
            if !in_store_check(&self.entries[i].0, p) {
                kept.push((
                    clone_bytes(&self.entries[i].0),
                    self.entries[i].1.duplicate(),
                ));
                proof {
                    assert(kept@.drop_last() =~= pre_kept);
                    assert(map_of(kept@) == map_of(pre_kept).insert(s[i as int].0@, s[i as int].1@));
                    assert(map_of(kept@) =~= drop_store(map_of(s.take(i + 1)), p@));
                }
            } else {
                proof {
                    lemma_map_of_contains(s.take(i as int), s[i as int].0@);
                    assert(map_of(kept@) =~= drop_store(map_of(s.take(i + 1)), p@));
                }
            }
            i = i + 1;
        }
        proof {
            assert(self.entries@.take(i as int) =~= self.entries@);
        }
        self.entries = kept;
    }
}

/// The bytes an entry carries: a file's content, or the path a
/// symlink points at.
pub open spec fn entry_bytes(e: EntryModel) -> Seq<u8> {
    match e {
        EntryModel::File(c) => c,
        EntryModel::Symlink(t) => t,
    }
}

/// The candidate files of one planning pass, in storage order: paths
/// of regular files, excluding symlinks and everything under the
/// side-store prefix.
pub open spec fn scan_model(s: Seq<(Vec<u8>, Entry)>, mir: Seq<u8>) -> Seq<Seq<u8>>
    decreases s.len(),
{
    if s.len() == 0 {
        Seq::empty()
    } else {
        let rest = scan_model(s.drop_last(), mir);
        if s.last().1 is File && !is_prefix(mir, s.last().0@) {
            rest.push(s.last().0@)
        } else {
            rest
        }
    }
}

impl MemFs {
    /// Enumerates the candidate files for one planning pass, as
    /// [`scan_model`] describes.
    pub fn scan(&self, mir: &Vec<u8>) -> (r: Vec<Vec<u8>>)
        ensures
            r@.map_values(|v: Vec<u8>| v@) == scan_model(self.entries@, mir@),
    {
        let mut r: Vec<Vec<u8>> = Vec::new();
        let mut i: usize = 0;
        while i < self.entries.len()
            invariant
                i <= self.entries@.len(),
                r@.map_values(|v: Vec<u8>| v@) == scan_model(self.entries@.take(i as int), mir@),
            decreases self.entries@.len() - i,
        {
            let ghost s = self.entries@;
            let ghost pre = r@;
            proof {
                assert(s.take(i + 1) =~= s.take(i as int).push(s[i as int]));
                assert(s.take(i + 1).drop_last() =~= s.take(i as int));
                assert(s.take(i + 1).last() == s[i as int]);
            }
            let is_file = match &self.entries[i].1 {
                Entry::File(_) => true,
                Entry::Symlink(_) => false,
            };
            if is_file && !has_prefix(&self.entries[i].0, mir) {
                r.push(clone_bytes(&self.entries[i].0));
                proof {
                    assert(r@.map_values(|v: Vec<u8>| v@) =~= pre.map_values(
                        |v: Vec<u8>| v@,
                    ).push(s[i as int].0@));
                }
            }
            i = i + 1;
        }
        proof {
            assert(self.entries@.take(i as int) =~= self.entries@);
        }
        r
    }
}

/// What one action does to the filesystem.  A `Copy` whose source is
/// not a regular file has no effect (the real operation fails and the
/// caller reports the failure); a `Symlink` replaces whatever occupies
/// the source path with a link to the target; a `NOP` changes nothing.
pub open spec fn run_action_model(
    fs: Map<Seq<u8>, EntryModel>,
    a: ActionModel,
) -> Map<Seq<u8>, EntryModel> {
    match a.action {
        ActionType::Copy => if fs.contains_key(a.source) && fs[a.source] is File {
            fs.insert(a.target, fs[a.source])
        } else {
            fs
        },
        ActionType::Symlink => fs.insert(a.source, EntryModel::Symlink(a.target)),
        ActionType::NOP => fs,
    }
}

/// Whether one action can be performed without failing.
pub open spec fn action_ok(fs: Map<Seq<u8>, EntryModel>, a: ActionModel) -> bool {
    a.action is Copy ==> fs.contains_key(a.source) && fs[a.source] is File
}

/// Replaying a sequence of actions in order.
pub open spec fn run_actions_model(
    fs: Map<Seq<u8>, EntryModel>,
    acts: Seq<ActionModel>,
) -> Map<Seq<u8>, EntryModel>
    decreases acts.len(),
{
    if acts.len() == 0 {
        fs
    } else {
        run_actions_model(run_action_model(fs, acts[0]), acts.drop_first())
    }
}

/// Appending one action to a replay runs it last.
pub proof fn lemma_run_actions_snoc(
    fs: Map<Seq<u8>, EntryModel>,
    acts: Seq<ActionModel>,
    a: ActionModel,
)
    ensures
        run_actions_model(fs, acts.push(a)) == run_action_model(run_actions_model(fs, acts), a),
    decreases acts.len(),
{
    let p = acts.push(a);
    if acts.len() == 0 {
        assert(p[0] == a);
        assert(p.drop_first() =~= Seq::<ActionModel>::empty());
        assert(run_actions_model(fs, p) == run_actions_model(
            run_action_model(fs, a),
            p.drop_first(),
        ));
        assert(run_actions_model(run_action_model(fs, a), p.drop_first()) == run_action_model(
            fs,
            a,
        ));
        assert(run_actions_model(fs, acts) == fs);
    } else {
        assert(p[0] == acts[0]);
        assert(p.drop_first() =~= acts.drop_first().push(a));
        assert(run_actions_model(fs, p) == run_actions_model(
            run_action_model(fs, acts[0]),
            acts.drop_first().push(a),
        ));
        lemma_run_actions_snoc(run_action_model(fs, acts[0]), acts.drop_first(), a);
        assert(run_actions_model(fs, acts) == run_actions_model(
            run_action_model(fs, acts[0]),
            acts.drop_first(),
        ));
    }
}

/// Replaying a concatenation replays the parts in turn.
pub proof fn lemma_run_actions_concat(
    fs: Map<Seq<u8>, EntryModel>,
    s1: Seq<ActionModel>,
    s2: Seq<ActionModel>,
)
    ensures
        run_actions_model(fs, s1 + s2) == run_actions_model(run_actions_model(fs, s1), s2),
    decreases s1.len(),
{
    if s1.len() == 0 {
        assert(s1 + s2 =~= s2);
    } else {
        assert((s1 + s2)[0] == s1[0]);
        assert((s1 + s2).drop_first() =~= s1.drop_first() + s2);
        lemma_run_actions_concat(run_action_model(fs, s1[0]), s1.drop_first(), s2);
    }
}

/// Performs one action against the model, reporting whether the real
/// operation would have succeeded.
pub fn run_action(fs: &mut MemFs, a: &Action) -> (ok: bool)
    requires
        old(fs).wf(),
    ensures
        final(fs).wf(),
        final(fs)@ == run_action_model(old(fs)@, a@),
        ok == action_ok(old(fs)@, a@),
{
    match a.action {
        ActionType::Copy => {
            let content = match fs.get(&a.source) {
                Some(e) => match e {
                    Entry::File(c) => Some(clone_bytes(c)),
                    Entry::Symlink(_) => None,
                },
                None => None,
            };
            match content {
                Some(c) => {
                    fs.set(clone_bytes(&a.target), Entry::File(c));
                    true
                },
                None => false,
            }
        },
        ActionType::Symlink => {
            fs.set(clone_bytes(&a.source), Entry::Symlink(clone_bytes(&a.target)));
            true
        },
        ActionType::NOP => true,
    }
}

} // verus!
