//! The signing record of a validator over a sliding window of blocks.

use crate::error::StakingError;
use vstd::prelude::*;

verus! {

/// The number of blocks in a window that were not signed.
pub open spec fn missed_in(window: Seq<bool>) -> nat
    decreases window.len(),
{
    if window.len() == 0 {
        0
    } else {
        missed_in(window.drop_last()) + if window.last() {
            0nat
        } else {
            1nat
        }
    }
}

/// A window never misses more blocks than it holds.
pub proof fn lemma_missed_in_bounded(window: Seq<bool>)
    ensures
        missed_in(window) <= window.len(),
    decreases window.len(),
{
    if window.len() > 0 {
        lemma_missed_in_bounded(window.drop_last());
    }
}

/// A window in which every block was signed misses none.
pub proof fn lemma_missed_in_all_signed(window: Seq<bool>)
    requires
        forall|i: int| 0 <= i < window.len() ==> window[i],
    ensures
        missed_in(window) == 0,
    decreases window.len(),
{
    if window.len() > 0 {
        lemma_missed_in_all_signed(window.drop_last());
    }
}

/// Writing one slot of a window changes the number of missed blocks by the
/// difference between what the slot held and what it holds now.
pub proof fn lemma_missed_in_update(window: Seq<bool>, slot: int, signed: bool)
    requires
        0 <= slot < window.len(),
    ensures
        missed_in(window.update(slot, signed)) + (if window[slot] {
            0nat
        } else {
            1nat
        }) == missed_in(window) + (if signed {
            0nat
        } else {
            1nat
        }),
    decreases window.len(),
{
    let after = window.update(slot, signed);
    if slot == window.len() - 1 {
        assert(after.drop_last() =~= window.drop_last());
    } else {
        lemma_missed_in_update(window.drop_last(), slot, signed);
        assert(after.drop_last() =~= window.drop_last().update(slot, signed));
    }
}

/// Which blocks of the last window a validator signed, used as a ring: the
/// block at height `h` is recorded in slot `h` modulo the window length.
#[derive(Debug)]
pub struct Uptime {
    as_of_block_height: u64,
    signatures: Vec<bool>,
}

/// The mathematical value of an uptime tracker.
pub struct UptimeView {
    pub as_of_block_height: u64,
    pub window: Seq<bool>,
}

impl UptimeView {
    /// A tracker that has seen no block since `initial_block_height` and
    /// counts every block of its window as signed.
    pub open spec fn fresh(initial_block_height: u64, window_len: nat) -> UptimeView {
        UptimeView {
            as_of_block_height: initial_block_height,
            window: Seq::new(window_len, |i: int| true),
        }
    }

    /// The tracker after the block at `height`, which must follow the last
    /// block seen, was signed or missed.
    pub open spec fn marked(self, height: u64, signed: bool) -> Result<UptimeView, StakingError> {
        if height != self.as_of_block_height + 1 {
            Err(StakingError::NonSequentialHeight)
        } else {
            Ok(
                UptimeView {
                    as_of_block_height: height,
                    window: self.window.update(height as int % self.window.len() as int, signed),
                },
            )
        }
    }

    /// The number of blocks of the window that were not signed.
    pub open spec fn num_missed_blocks(self) -> nat {
        missed_in(self.window)
    }

    /// The window holds at least one block.
    pub open spec fn wf(self) -> bool {
        self.window.len() > 0
    }
}

impl View for Uptime {
    type V = UptimeView;

    closed spec fn view(&self) -> UptimeView {
        UptimeView { as_of_block_height: self.as_of_block_height, window: self.signatures@ }
    }
}

impl Uptime {
    /// The window holds at least one block.
    pub open spec fn wf(&self) -> bool {
        self@.wf()
    }

    /// Starts tracking at `initial_block_height` with a window of
    /// `signed_blocks_window_len` blocks, all counted as signed.
    pub fn new(initial_block_height: u64, signed_blocks_window_len: usize) -> (r: Uptime)
        ensures
            r@ == UptimeView::fresh(initial_block_height, signed_blocks_window_len as nat),
            r@.num_missed_blocks() == 0,
    {
        let mut signatures: Vec<bool> = Vec::new();
        let mut i: usize = 0;
        while i < signed_blocks_window_len
            invariant
                i <= signed_blocks_window_len,
                signatures@.len() == i,
                forall|j: int| 0 <= j < i ==> signatures@[j],
            decreases signed_blocks_window_len - i,
        {
            signatures.push(true);
            i = i + 1;
        }
        proof {
            assert(signatures@ =~= Seq::new(signed_blocks_window_len as nat, |i: int| true));
            lemma_missed_in_all_signed(signatures@);
        }
        Uptime { as_of_block_height: initial_block_height, signatures }
    }

    /// The height of the last block recorded.
    pub fn as_of_height(&self) -> (h: u64)
        ensures
            h == self@.as_of_block_height,
    {
        self.as_of_block_height
    }

    /// The number of blocks in the window.
    pub fn window_len(&self) -> (n: usize)
        ensures
            n == self@.window.len(),
    {
        self.signatures.len()
    }

    /// Records whether the validator signed the block at `height`. Fails,
    /// and changes nothing, unless `height` is one more than the last height
    /// recorded.
    pub fn mark_height_as_signed(&mut self, height: u64, signed: bool) -> (r: Result<
        (),
        StakingError,
    >)
        requires
            old(self).wf(),
        ensures
            match r {
                Ok(()) => old(self)@.marked(height, signed) == Ok::<UptimeView, StakingError>(
                    final(self)@,
                ),
                Err(e) => old(self)@.marked(height, signed) == Err::<UptimeView, StakingError>(e)
                    && final(self)@ == old(self)@,
            },
            final(self).wf(),
    {
        if self.as_of_block_height == u64::MAX || height != self.as_of_block_height + 1 {
            return Err(StakingError::NonSequentialHeight);
        }
        let len: u64 = self.signatures.len() as u64;
        let slot: usize = (height % len) as usize;
        self.signatures[slot] = signed;
        self.as_of_block_height = height;
        Ok(())
    }

    /// Counts the blocks of the window that were not signed.
    pub fn num_missed_blocks(&self) -> (n: usize)
        ensures
            n == self@.num_missed_blocks(),
    {
        let mut n: usize = 0;
        let mut i: usize = 0;
        while i < self.signatures.len()
            invariant
                i <= self.signatures@.len(),
                n == missed_in(self.signatures@.take(i as int)),
                n <= i,
            decreases self.signatures@.len() - i,
        {
            assert(self.signatures@.take(i as int + 1).drop_last() =~= self.signatures@.take(
                i as int,
            ));
            if !self.signatures[i] {
                n = n + 1;
            }
            i = i + 1;
        }
        assert(self.signatures@.take(i as int) =~= self.signatures@);
        n
    }
}

impl Clone for Uptime {
    fn clone(&self) -> (r: Uptime)
        ensures
            r@ == self@,
    {
        let mut signatures: Vec<bool> = Vec::new();
        let mut i: usize = 0;
        while i < self.signatures.len()
            invariant
                i <= self.signatures@.len(),
                signatures@ == self.signatures@.take(i as int),
            decreases self.signatures@.len() - i,
        {
            signatures.push(self.signatures[i]);
            assert(self.signatures@.take(i as int).push(self.signatures@[i as int])
                =~= self.signatures@.take(i as int + 1));
            i = i + 1;
        }
        assert(self.signatures@.take(i as int) =~= self.signatures@);
        Uptime { as_of_block_height: self.as_of_block_height, signatures }
    }
}

} // verus!
