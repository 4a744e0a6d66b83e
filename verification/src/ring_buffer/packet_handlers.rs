//! The two groupings a ring buffer is used with: one packet per item, and
//! runs of packets that each end at a key packet.
use std::collections::VecDeque;
use vstd::prelude::*;
use crate::packet::{Packet, packets_duration, running_durations_fit};
use crate::ring_buffer::traits::{PacketHandler, flatten_groups, fits_i64};

verus! {

/// `std::slice::from_ref` views one value as a slice of length one.
pub assume_specification<T>[ core::slice::from_ref::<T> ](s: &T) -> (r: &[T])
    ensures
        r@ == seq![*s],
;

impl PacketHandler for Packet {
    open spec fn contents(&self) -> Seq<Packet> {
        seq![*self]
    }

    open spec fn valid(&self) -> bool {
        true
    }

    open spec fn inserted_groups(groups: Seq<Seq<Packet>>, packet: Packet) -> Seq<Seq<Packet>> {
        groups.push(seq![packet])
    }

    proof fn lemma_inserted_groups(groups: Seq<Seq<Packet>>, packet: Packet) {
        let g = groups.push(seq![packet]);
        assert(g.drop_last() =~= groups);
        assert(flatten_groups(groups) + seq![packet] =~= flatten_groups(groups).push(packet));
    }

    fn insert(container: &mut VecDeque<Self>, packet: Packet) {
        let ghost old_items = container@;
        container.push_back(packet);
        assert(container@.map_values(|t: Self| t.contents()) =~= old_items.map_values(|t: Self| t.contents()).push(seq![packet]));
    }

    fn get_duration(&self) -> (d: i64) {
        assert(seq![*self].drop_last() =~= Seq::<Packet>::empty());
        assert(packets_duration(Seq::<Packet>::empty()) == 0);
        self.duration
    }

    fn get_contents(&self) -> (c: &[Packet]) {
        core::slice::from_ref(self)
    }
}

/// A run of packets kept together in a ring buffer. A new run is started
/// after a key packet, so within a run only the newest packet can be a key
/// packet.
pub struct KeyFrameStartPacketWrapper {
    buffer: Vec<Packet>,
}

impl KeyFrameStartPacketWrapper {
    /// An empty run.
    pub fn new() -> (w: Self)
        ensures
            w.contents() == Seq::<Packet>::empty(),
    {
        KeyFrameStartPacketWrapper { buffer: Vec::new() }
    }

    /// The groups of a container after `packet` is inserted: it joins the
    /// newest run unless there is none or that run ends with a key packet.
    pub open spec fn wrapper_inserted(groups: Seq<Seq<Packet>>, packet: Packet) -> Seq<Seq<Packet>> {
        if groups.len() == 0 || groups.last().last().is_key {
            groups.push(seq![packet])
        } else {
            groups.update(groups.len() - 1, groups.last().push(packet))
        }
    }
}

impl PacketHandler for KeyFrameStartPacketWrapper {
    closed spec fn contents(&self) -> Seq<Packet> {
        self.buffer@
    }

    open spec fn valid(&self) -> bool {
        self.contents().len() > 0
    }

    open spec fn inserted_groups(groups: Seq<Seq<Packet>>, packet: Packet) -> Seq<Seq<Packet>> {
        Self::wrapper_inserted(groups, packet)
    }

    proof fn lemma_inserted_groups(groups: Seq<Seq<Packet>>, packet: Packet) {
        let g = Self::wrapper_inserted(groups, packet);
        if groups.len() == 0 || groups.last().last().is_key {
            assert(g.drop_last() =~= groups);
            assert(flatten_groups(groups) + seq![packet] =~= flatten_groups(groups).push(packet));
        } else {
            assert(g.drop_last() =~= groups.drop_last());
            assert(flatten_groups(groups.drop_last()) + groups.last().push(packet)
                =~= (flatten_groups(groups.drop_last()) + groups.last()).push(packet));
        }
    }

    fn insert(container: &mut VecDeque<Self>, packet: Packet) {
        let ghost old_items = container@;
        let n = container.len();
        let needs_new = if n == 0 {
            true
        } else {
            let back = &container[n - 1];
            assert(back.valid());
            back.buffer[back.buffer.len() - 1].is_key
        };
        if needs_new {
            let mut buffer: Vec<Packet> = Vec::new();
            buffer.push(packet);
            container.push_back(KeyFrameStartPacketWrapper { buffer });
            proof {
                assert(container@.map_values(|t: Self| t.contents()) =~= old_items.map_values(|t: Self| t.contents()).push(seq![packet]));
                assert forall|i: int| 0 <= i < container@.len() implies #[trigger] container@[i].valid() by {
                    if i < old_items.len() {
                        assert(container@[i] == old_items[i]);
                    }
                }
            }
        } else {
            let mut target = container.pop_back().unwrap();
            target.buffer.push(packet);
            container.push_back(target);
            proof {
                assert(container@.map_values(|t: Self| t.contents()) =~= old_items.map_values(|t: Self| t.contents()).update(
                    old_items.len() - 1,
                    old_items.last().contents().push(packet),
                ));
                assert forall|i: int| 0 <= i < container@.len() implies #[trigger] container@[i].valid() by {
                    if i < old_items.len() - 1 {
                        assert(container@[i] == old_items[i]);
                    }
                }
            }
        }
    }

    fn get_duration(&self) -> (d: i64) {
        let mut total: i64 = 0;
        let mut i: usize = 0;
        while i < self.buffer.len()
            invariant
                0 <= i <= self.buffer@.len(),
                running_durations_fit(self.buffer@),
                total == packets_duration(self.buffer@.take(i as int)),
            decreases self.buffer@.len() - i,
        {
            assert(self.buffer@.take(i as int + 1).drop_last() =~= self.buffer@.take(i as int));
            assert(fits_i64(packets_duration(self.buffer@.take(i as int + 1))));
            total = total + self.buffer[i].duration;
            i = i + 1;
        }
        assert(self.buffer@.take(i as int) =~= self.buffer@);
        total
    }

    fn get_contents(&self) -> (c: &[Packet]) {
        self.buffer.as_slice()
    }
}

} // verus!
