//! Header checkpoint verification.
//!
//! A block at a checkpoint height must carry the checkpoint's hash, and a
//! reorg must not unwind at or below the last checkpoint.

use vstd::prelude::*;

use crate::constants::checkpoints;
use crate::error::BlockError;
use crate::types::Hash256;

verus! {

/// The block hash `hash` at `height` agrees with the first checkpoint listed
/// at that height, if any.
pub open spec fn checkpoint_ok(cps: Seq<(u64, [u8; 32])>, height: u64, hash: Seq<u8>) -> bool {
    forall|i: int|
        0 <= i < cps.len() && (#[trigger] cps[i]).0 == height && (forall|j: int|
            0 <= j < i ==> cps[j].0 != height) ==> cps[i].1@ == hash
}

/// The greatest checkpoint height, or 0 for an empty list.
pub open spec fn is_last_height(cps: Seq<(u64, [u8; 32])>, r: u64) -> bool {
    &&& forall|i: int| 0 <= i < cps.len() ==> (#[trigger] cps[i]).0 <= r
    &&& cps.len() == 0 ==> r == 0
    &&& cps.len() > 0 ==> exists|i: int| 0 <= i < cps.len() && (#[trigger] cps[i]).0 == r
}

/// Verify a block hash against the built-in checkpoint list.
pub fn check_checkpoint(height: u64, hash: &Hash256) -> (r: Result<(), BlockError>)
    ensures
        r is Ok,
{
    let cps = checkpoints();
    check_checkpoint_with(cps.as_slice(), height, hash)
}

/// Verify that a block at `height` has the checkpoint hash, when the list
/// has a checkpoint at that height.
pub fn check_checkpoint_with(checkpoints: &[(u64, [u8; 32])], height: u64, hash: &Hash256) -> (r:
    Result<(), BlockError>)
    ensures
        checkpoint_ok(checkpoints@, height, hash@) ==> r == Ok::<(), BlockError>(()),
        !checkpoint_ok(checkpoints@, height, hash@) ==> r == Err::<(), BlockError>(
            BlockError::CheckpointMismatch,
        ),
{
    let n = checkpoints.len();
    let mut i: usize = 0;
    while i < n
        invariant
            n == checkpoints@.len(),
            i <= n,
            forall|j: int| 0 <= j < i ==> (#[trigger] checkpoints@[j]).0 != height,
        decreases n - i,
    {
        let (cp_height, cp_hash) = checkpoints[i];
        if cp_height == height {
            if !(Hash256(cp_hash) == *hash) {
                return Err(BlockError::CheckpointMismatch);
            }
            proof {
                assert forall|k: int|
                    0 <= k < checkpoints@.len() && (#[trigger] checkpoints@[k]).0 == height && (
                    forall|j: int| 0 <= j < k ==> checkpoints@[j].0 != height) implies checkpoints@[k].1@
                    == hash@ by {
                    if k > i {
                        assert(checkpoints@[i as int].0 == height);
                    }
                }
            }
            return Ok(());
        }
        i = i + 1;
    }
    Ok(())
}

/// The height of the most recent built-in checkpoint, or 0 if there are none.
pub fn last_checkpoint_height() -> (r: u64)
    ensures
        r == 0,
{
    let cps = checkpoints();
    last_checkpoint_height_with(cps.as_slice())
}

/// The greatest height in a checkpoint list, or 0 for an empty list.
pub fn last_checkpoint_height_with(checkpoints: &[(u64, [u8; 32])]) -> (r: u64)
    ensures
        is_last_height(checkpoints@, r),
{
    let n = checkpoints.len();
    let mut best: u64 = 0;
    let mut i: usize = 0;
    while i < n
        invariant
            n == checkpoints@.len(),
            i <= n,
            forall|j: int| 0 <= j < i ==> (#[trigger] checkpoints@[j]).0 <= best,
            i == 0 ==> best == 0,
            i > 0 ==> exists|j: int| 0 <= j < i && (#[trigger] checkpoints@[j]).0 == best,
        decreases n - i,
    {
        let h = checkpoints[i].0;
        if i == 0 || h > best {
            best = h;
        }
        proof {
            assert(checkpoints@[i as int].0 == h);
        }
        i = i + 1;
    }
    best
}

/// Whether `height` is at or below the last built-in checkpoint.
pub fn is_below_checkpoint(height: u64) -> (r: bool)
    ensures
        !r,
{
    let cps = checkpoints();
    assert(is_last_height(cps@, 0));
    is_below_checkpoint_with(cps.as_slice(), height)
}

/// Whether `height` is at or below the last checkpoint of the list; never
/// for an empty list.
pub fn is_below_checkpoint_with(checkpoints: &[(u64, [u8; 32])], height: u64) -> (r: bool)
    ensures
        forall|last: u64|
            is_last_height(checkpoints@, last) ==> (r <==> (checkpoints@.len() > 0 && height
                <= last)),
{
    let last = last_checkpoint_height_with(checkpoints);
    proof {
        assert forall|other: u64| is_last_height(checkpoints@, other) implies other == last by {
            if checkpoints@.len() > 0 {
                let i = choose|i: int| 0 <= i < checkpoints@.len() && (#[trigger] checkpoints@[i]).0
                    == other;
                let j = choose|j: int| 0 <= j < checkpoints@.len() && (#[trigger] checkpoints@[j]).0
                    == last;
                assert(checkpoints@[i].0 <= last);
                assert(checkpoints@[j].0 <= other);
            }
        }
    }
    checkpoints.len() > 0 && height <= last
}

} // verus!
