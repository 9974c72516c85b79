//! The completion watermark: the lowest row index not yet complete, with a
//! sliding window of completion flags for the rows at or above it.
use std::collections::VecDeque;
use vstd::prelude::*;

verus! {

/// Tracks which rows are complete without keeping a flag per row forever.
///
/// Every row below `base` is complete. The entry `window[i]` tells whether row
/// `base + i` is complete; rows beyond the window are not complete. The front
/// of the window is never `true`: a complete front is popped at once and
/// `base` moves past it.
pub struct CompletionWatermark {
    base: usize,
    window: VecDeque<bool>,
}

impl CompletionWatermark {
    /// The lowest row index that is not complete.
    pub closed spec fn spec_watermark(&self) -> nat {
        self.base as nat
    }

    /// Whether row `r` has been marked complete.
    pub closed spec fn is_complete(&self, r: nat) -> bool {
        r < self.base || (r < self.base + self.window@.len() && self.window@[r - self.base])
    }

    pub closed spec fn wf(&self) -> bool {
        &&& self.base + self.window@.len() <= usize::MAX
        &&& (self.window@.len() > 0 ==> !self.window@[0])
    }

    /// A tracker on which no row is complete yet.
    pub fn new() -> (w: Self)
        ensures
            w.wf(),
            w.spec_watermark() == 0,
            forall|r: nat| !w.is_complete(r),
    {
        CompletionWatermark { base: 0, window: VecDeque::new() }
    }

    /// The lowest row index that is not complete.
    pub fn watermark(&self) -> (m: usize)
        ensures
            m == self.spec_watermark(),
    {
        self.base
    }

    /// The watermark is exactly the lowest incomplete row.
    pub proof fn lemma_watermark_is_lowest_incomplete(&self)
        requires
            self.wf(),
        ensures
            forall|r: nat| r < self.spec_watermark() ==> self.is_complete(r),
            !self.is_complete(self.spec_watermark()),
    {
    }

    /// Marks `row` complete, then moves the watermark past every complete row
    /// at its front, dropping their flags from the window.
    pub fn mark_complete(&mut self, row: usize)
        requires
            old(self).wf(),
            !old(self).is_complete(row as nat),
            row < usize::MAX,
        ensures
            final(self).wf(),
            forall|r: nat|
                #[trigger] final(self).is_complete(r) == (old(self).is_complete(r) || r == row),
            final(self).spec_watermark() >= old(self).spec_watermark(),
            forall|r: nat| r < final(self).spec_watermark() ==> final(self).is_complete(r),
            !final(self).is_complete(final(self).spec_watermark()),
    {
        let ghost before = *self;
        let offset: usize = row - self.base;
        while self.window.len() <= offset
            invariant
                self.base == before.base,
                self.base + offset == row,
                self.window@.len() <= offset + 1 || self.window@ == before.window@,
                before.window@.len() <= self.window@.len(),
                forall|i: int| 0 <= i < before.window@.len() ==> self.window@[i] == before.window@[i],
                forall|i: int| before.window@.len() <= i < self.window@.len() ==> !self.window@[i],
            decreases offset + 1 - self.window@.len(),
        {
            self.window.push_back(false);
        }
        let _ = self.window.remove(offset);
        self.window.insert(offset, true);
        assert forall|r: nat| #[trigger] self.is_complete(r) == (before.is_complete(r) || r == row) by {
            if self.base <= r < self.base + self.window@.len() && r != row {
                assert(self.window@[r - self.base] == if r - self.base < before.window@.len() {
                    before.window@[r - self.base]
                } else {
                    false
                });
            }
        }
        while self.window.len() > 0 && self.window[0]
            invariant
                self.base + self.window@.len() <= usize::MAX,
                self.base >= before.base,
                forall|r: nat| #[trigger] self.is_complete(r) == (before.is_complete(r) || r == row),
            decreases self.window@.len(),
        {
            let ghost prev = *self;
            let _ = self.window.pop_front();
            self.base = self.base + 1;
            assert forall|r: nat| #[trigger] self.is_complete(r) == prev.is_complete(r) by {
                if prev.base <= r < prev.base + prev.window@.len() {
                    assert(prev.window@[r - prev.base] == (r < prev.base + 1 || self.window@[r - self.base]));
                }
            }
        }
    }
}

} // verus!
