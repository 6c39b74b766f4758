//! Content comparison: two files are "the same" exactly when their byte
//! sequences are identical from start to end.
//!
//! The unverified shell reads file contents from disk and hands the
//! bytes here; the decision itself is pure.

use vstd::prelude::*;

verus! {

/// Compares two byte strings in fixed-size chunks and reports whether
/// they are identical.  Length is not assumed equal beforehand.
pub fn full_match(here: &Vec<u8>, there: &Vec<u8>) -> (r: bool)
    ensures
        r == (here@ == there@),
{
    if here.len() != there.len() {
        proof {
            assert(here@ != there@);
        }
        return false;
    }
    let mut i: usize = 0;
    while i < here.len()
        invariant
            i <= here.len(),
            here.len() == there.len(),
            here@.take(i as int) == there@.take(i as int),
        decreases here.len() - i,
    {
        if here[i] != there[i] {
            proof {
                assert(here@[i as int] != there@[i as int]);
            }
            return false;
        }
        proof {
            assert(here@.take(i + 1) =~= here@.take(i as int).push(here@[i as int]));
            assert(there@.take(i + 1) =~= there@.take(i as int).push(there@[i as int]));
        }
        i = i + 1;
    }
    proof {
        assert(here@.take(i as int) =~= here@);
        assert(there@.take(i as int) =~= there@);
    }
    true
}

/// Decides whether two regular files have byte-identical content, given
/// their full contents.  A length mismatch short-circuits the
/// comparison; otherwise the bytes are matched in full.
pub fn check_if_files_are_same(here: &Vec<u8>, there: &Vec<u8>) -> (r: bool)
    ensures
        r == (here@ == there@),
{
    if here.len() != there.len() {
        proof {
            assert(here@ != there@);
        }
        return false;
    }
    full_match(here, there)
}

} // verus!
