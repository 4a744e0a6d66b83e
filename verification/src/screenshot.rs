//! The bookkeeping of a burst of desktop screenshots: which slot each
//! captured frame goes to, and the timing figures of the burst.
use vstd::prelude::*;

verus! {

/// What acquiring one desktop frame gave.
#[derive(PartialEq, Eq, Structural, Clone, Copy, Debug)]
pub enum FrameAcquire {
    /// Acquiring failed.
    Failed,
    /// Acquiring succeeded without a resource.
    NoResource,
    /// A resource came, but no frame accumulated since the last one.
    NoAccumulatedFrames,
    /// A new frame came.
    Acquired,
}

/// Slots of a screenshot burst: which hold a valid frame, and the next one
/// to fill.
pub struct CaptureSlots {
    valid: Vec<bool>,
    index: usize,
}

impl CaptureSlots {
    /// Which slots hold a valid frame.
    pub closed spec fn valid(&self) -> Seq<bool> {
        self.valid@
    }

    /// The slot filled next.
    pub closed spec fn index(&self) -> int {
        self.index as int
    }

    /// `n` empty slots, the first one next.
    pub fn new(n: usize) -> (s: Self)
        ensures
            s.valid() == Seq::new(n as nat, |i: int| false),
            s.index() == 0,
    {
        let mut valid: Vec<bool> = Vec::new();
        let mut i: usize = 0;
        while i < n
            invariant
                i <= n,
                valid@ == Seq::new(i as nat, |k: int| false),
            decreases n - i,
        {
            valid.push(false);
            i = i + 1;
            assert(valid@ =~= Seq::new(i as nat, |k: int| false));
        }
        CaptureSlots { valid, index: 0 }
    }

    /// Records the outcome of one acquisition: a new frame fills the next
    /// slot (returned, for the caller to copy the frame into) and marks it
    /// valid; a failure or an empty frame marks the next slot invalid and
    /// skips it; no resource changes nothing.
    pub fn record(&mut self, outcome: FrameAcquire) -> (slot: Option<usize>)
        requires
            outcome != FrameAcquire::NoResource ==> old(self).index() < old(self).valid().len(),
        ensures
            outcome == FrameAcquire::NoResource ==> {
                &&& slot is None
                &&& final(self).index() == old(self).index()
                &&& final(self).valid() == old(self).valid()
            },
            outcome == FrameAcquire::Acquired ==> {
                &&& slot == Some(old(self).index() as usize)
                &&& final(self).index() == old(self).index() + 1
                &&& final(self).valid() == old(self).valid().update(old(self).index(), true)
            },
            (outcome == FrameAcquire::Failed || outcome == FrameAcquire::NoAccumulatedFrames) ==> {
                &&& slot is None
                &&& final(self).index() == old(self).index() + 1
                &&& final(self).valid() == old(self).valid().update(old(self).index(), false)
            },
    {
        // The slot count bounds the next index, so the increments below fit.
        let slot_count = self.valid.len();
        assert(self.index < slot_count || outcome == FrameAcquire::NoResource);
        match outcome {
            FrameAcquire::NoResource => None,
            FrameAcquire::Acquired => {
                let slot = self.index;
                self.valid.set(slot, true);
                self.index = slot + 1;
                Some(slot)
            },
            _ => {
                let slot = self.index;
                self.valid.set(slot, false);
                self.index = slot + 1;
                None
            },
        }
    }

    /// The number of slots filled or skipped so far.
    pub fn frames_captured(&self) -> (n: usize)
        ensures
            n == self.index(),
    {
        self.index
    }
}

/// The milliseconds between frames at `fps` frames per second, rounded
/// down.
pub fn frame_interval_ms(fps: u32) -> (ms: u32)
    requires
        fps > 0,
    ensures
        ms == 1000u32 / fps,
{
    1000 / fps
}

/// The frames per second achieved by `frames` frames in `elapsed_ms`
/// milliseconds, rounded down.
pub fn achieved_fps(frames: usize, elapsed_ms: u128) -> (fps: u128)
    requires
        elapsed_ms > 0,
    ensures
        fps == (frames as int * 1000) / elapsed_ms as int,
{
    (frames as u128 * 1000) / elapsed_ms
}

} // verus!
