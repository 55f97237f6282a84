//! Historical backfill: the cursor that walks every height from a caller
//! supplied checkpoint up to the provider's current tip, so that the engine
//! can replay those headers before switching to live notifications.

use vstd::prelude::*;

use crate::api::BlockHash;
use crate::api::Error;

verus! {

/// The heights a backfill walks when the tip stays put: `next` up to `tip`,
/// one by one, in ascending order.
pub open spec fn backfill_heights(next: int, tip: int) -> Seq<int>
    decreases tip - next + 1,
{
    if next > tip {
        Seq::empty()
    } else {
        seq![next] + backfill_heights(next + 1, tip)
    }
}

/// A backfill covers every height from its starting point to the tip,
/// inclusive, in ascending order: `tip - h + 1` heights in all. Together with
/// the linear-announcement law this is why a subscription from a valid
/// checkpoint `(h, id)` on a quiet chain yields exactly `tip - h + 1`
/// `Connected` events for heights `h..tip`, ascending.
pub proof fn lemma_backfill_heights_cover(next: int, tip: int)
    requires
        next <= tip + 1,
    ensures
        backfill_heights(next, tip).len() == tip + 1 - next,
        forall|i: int|
            0 <= i < tip + 1 - next ==> #[trigger] backfill_heights(next, tip)[i] == next + i,
    decreases tip + 1 - next,
{
    if next <= tip {
        lemma_backfill_heights_cover(next + 1, tip);
    }
}

/// The mutable cursor of one backfill run: the next height to fetch and the
/// most recently refreshed tip height. The cursor is created by validating
/// the caller's checkpoint and is not restartable; a new backfill needs a new
/// cursor.
#[derive(Debug, Clone, Copy, PartialEq, Eq, Structural)]
pub struct BackfillState {
    /// The next height whose header is to be fetched. Held one wider than a
    /// height so that stepping past the final height cannot overflow.
    pub next_height: u64,
    /// The provider's tip height as of the last refresh.
    pub tip: u32,
}

impl BackfillState {
    /// Validate the checkpoint `(height, id)` against the identity the
    /// provider reports at that height, and start a cursor at the checkpoint
    /// height. A mismatch fails the whole backfill with `CheckpointInvalid`
    /// before any header is produced; a match never fails.
    pub fn new(checkpoint: (u32, BlockHash), provider_id_at_height: BlockHash, tip: u32) -> (r:
        Result<BackfillState, Error>)
        ensures
            r is Ok <==> checkpoint.1 == provider_id_at_height,
            r matches Ok(state) ==> state.next_height == checkpoint.0 as u64 && state.tip == tip,
            r matches Err(e) ==> e == Error::CheckpointInvalid,
    {
        let (height, id) = checkpoint;
        if id == provider_id_at_height {
            Ok(BackfillState { next_height: height as u64, tip })
        } else {
            Err(Error::CheckpointInvalid)
        }
    }

    /// The height to fetch next, or `None` once the cursor has passed the
    /// tip and the backfill is complete. The height handed out is the head of
    /// the heights the backfill still has to walk.
    pub fn next_to_fetch(&self) -> (r: Option<u32>)
        ensures
            r == if self.next_height <= self.tip as u64 {
                Some(self.next_height as u32)
            } else {
                None::<u32>
            },
            r is Some <==> backfill_heights(self.next_height as int, self.tip as int).len() > 0,
            r matches Some(height) ==> height as int == backfill_heights(
                self.next_height as int,
                self.tip as int,
            )[0],
    {
        proof {
            if self.next_height <= self.tip as u64 {
                lemma_backfill_heights_cover(self.next_height as int, self.tip as int);
            }
        }
        if self.next_height <= self.tip as u64 {
            Some(self.next_height as u32)
        } else {
            None
        }
    }

    /// Step past the height just fetched: the heights still to walk lose
    /// exactly their head.
    pub fn advance(&mut self)
        requires
            old(self).next_height <= old(self).tip as u64,
        ensures
            final(self).next_height == old(self).next_height + 1,
            final(self).tip == old(self).tip,
            backfill_heights(old(self).next_height as int, old(self).tip as int) == seq![
                old(self).next_height as int,
            ] + backfill_heights(final(self).next_height as int, final(self).tip as int),
    {
        self.next_height = self.next_height + 1;
    }

    /// Adopt a freshly read tip height, so that a backfill outliving the
    /// refresh interval picks up newly mined heights instead of stopping at a
    /// stale snapshot.
    pub fn refresh_tip(&mut self, new_tip: u32)
        ensures
            final(self).tip == new_tip,
            final(self).next_height == old(self).next_height,
    {
        self.tip = new_tip;
    }
}

} // verus!
