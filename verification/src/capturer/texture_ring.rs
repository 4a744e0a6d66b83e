//! The bookkeeping of a ring of captured textures: which slot the next
//! capture is copied into, which slots hold a valid capture, and which
//! slots a copy of the newest captures reads. The textures themselves are
//! held by the caller, slot for slot.
use vstd::prelude::*;

verus! {

/// The start slot a copy of `out_len` captures computes when the write
/// position is `index` in a ring of `len` slots: the position minus the
/// copy's length, taken modulo the ring size with the sign of the
/// difference and then reinterpreted as an unsigned index.
pub open spec fn copy_start_slot(index: int, out_len: int, len: int) -> int {
    if index >= out_len {
        (index - out_len) % len
    } else if out_len - index == len {
        0
    } else {
        usize::MAX + 1 - (out_len - index)
    }
}

/// Validity flags and write position of a ring of captured textures.
pub struct OptionalID3D11Texture2DRingBuffer {
    valid: Vec<bool>,
    index: usize,
}

impl OptionalID3D11Texture2DRingBuffer {
    /// Which slots hold a valid capture.
    pub closed spec fn valid(&self) -> Seq<bool> {
        self.valid@
    }

    /// The slot written next.
    pub closed spec fn index(&self) -> int {
        self.index as int
    }

    /// The position never passes the ring's size, and the size fits the
    /// signed arithmetic of a copy.
    pub open spec fn well_formed(&self) -> bool {
        &&& self.index() <= self.valid().len()
        &&& self.valid().len() <= i64::MAX
        &&& self.valid().len() < usize::MAX
    }

    /// A ring of `buffer_len` slots, none valid, positioned one past the
    /// last slot.
    pub fn new(buffer_len: usize) -> (r: Self)
        requires
            buffer_len <= i64::MAX,
            buffer_len < usize::MAX,
        ensures
            r.well_formed(),
            r.valid() == Seq::new(buffer_len as nat, |i: int| false),
            r.index() == buffer_len,
    {
        let mut valid: Vec<bool> = Vec::new();
        let mut i: usize = 0;
        while i < buffer_len
            invariant
                i <= buffer_len,
                valid@ == Seq::new(i as nat, |k: int| false),
            decreases buffer_len - i,
        {
            valid.push(false);
            i = i + 1;
            assert(valid@ =~= Seq::new(i as nat, |k: int| false));
        }
        OptionalID3D11Texture2DRingBuffer { valid, index: buffer_len }
    }

    /// Marks the slot at the write position valid and returns it: the
    /// caller copies the new capture into that slot.
    pub fn copy_in(&mut self) -> (slot: usize)
        requires
            old(self).well_formed(),
            old(self).index() < old(self).valid().len(),
        ensures
            final(self).well_formed(),
            slot == old(self).index(),
            final(self).index() == old(self).index(),
            final(self).valid() == old(self).valid().update(slot as int, true),
    {
        let slot = self.index;
        self.valid.set(slot, true);
        slot
    }

    /// Moves the write position one slot on, wrapping around, and marks the
    /// slot now at the write position invalid.
    pub fn advance_index(&mut self)
        requires
            old(self).well_formed(),
            old(self).valid().len() > 0,
        ensures
            final(self).well_formed(),
            final(self).index() == (old(self).index() + 1) % (old(self).valid().len() as int),
            final(self).valid() == old(self).valid().update(final(self).index(), false),
    {
        let next = (self.index + 1) % self.valid.len();
        self.index = next;
        self.valid.set(next, false);
    }

    /// Copies the newest `buffer`-many captures into `buffer`: marks every
    /// slot of `buffer` valid and returns, for each of them in order, the
    /// slot of this ring the caller copies from.
    pub fn copy_out(&self, buffer: &mut OptionalID3D11Texture2DRingBuffer) -> (sources: Vec<usize>)
        requires
            self.well_formed(),
            old(buffer).well_formed(),
            self.valid().len() > 0,
            self.valid().len() >= old(buffer).valid().len(),
            old(buffer).valid().len() == 0 || old(buffer).valid().len() - 1 + copy_start_slot(
                self.index(),
                old(buffer).valid().len() as int,
                self.valid().len() as int,
            ) <= usize::MAX,
        ensures
            final(buffer).well_formed(),
            final(buffer).index() == old(buffer).index(),
            final(buffer).valid() == Seq::new(old(buffer).valid().len(), |i: int| true),
            sources@.len() == old(buffer).valid().len(),
            forall|i: int| 0 <= i < sources@.len() ==> #[trigger] sources@[i] as int == (i + copy_start_slot(
                self.index(),
                old(buffer).valid().len() as int,
                self.valid().len() as int,
            )) % (self.valid().len() as int),
    {
        let len = self.valid.len();
        let out_len = buffer.valid.len();
        let start: usize = if self.index >= out_len {
            (self.index - out_len) % len
        } else if out_len - self.index == len {
            0
        } else {
            usize::MAX - (out_len - self.index) + 1
        };
        let ghost s = copy_start_slot(self.index as int, out_len as int, len as int);
        assert(start == s);
        let mut sources: Vec<usize> = Vec::new();
        let mut i: usize = 0;
        while i < out_len
            invariant
                i <= out_len,
                out_len == buffer.valid@.len(),
                len == self.valid@.len(),
                len > 0,
                start == s,
                out_len == 0 || out_len - 1 + s <= usize::MAX,
                buffer.index == old(buffer).index,
                s == copy_start_slot(self.index as int, out_len as int, len as int),
                buffer.index <= out_len,
                sources@.len() == i,
                forall|k: int| 0 <= k < i ==> #[trigger] sources@[k] as int == (k + s) % (len as int),
                forall|k: int| 0 <= k < i ==> #[trigger] buffer.valid@[k],
            decreases out_len - i,
        {
            let slot = (i + start) % len;
            sources.push(slot);
            buffer.valid.set(i, true);
            i = i + 1;
        }
        assert(buffer.valid@ =~= Seq::new(out_len as nat, |k: int| true));
        sources
    }
}

/// While the write position is at least the copy's length into the ring,
/// a copy reads, oldest first, exactly the slots right before the write
/// position.
pub proof fn law_copy_reads_newest_slots(index: int, out_len: int, len: int)
    requires
        0 < len,
        0 <= out_len <= index <= len,
    ensures
        forall|i: int| 0 <= i < out_len ==> #[trigger] ((i + copy_start_slot(index, out_len, len)) % len) == index - out_len + i,
{
    if index - out_len < len {
        assert((index - out_len) % len == index - out_len) by (nonlinear_arith)
            requires
                0 <= index - out_len < len,
        ;
        assert forall|i: int| 0 <= i < out_len implies #[trigger] ((i + copy_start_slot(index, out_len, len)) % len) == index - out_len + i by {
            assert((i + (index - out_len)) % len == index - out_len + i) by (nonlinear_arith)
                requires
                    0 <= i + (index - out_len) < len,
            ;
        }
    }
}

} // verus!
