//! A ring of encoded packets, each tagged with the frames it stands for,
//! grouped so that every group after the oldest starts at a key packet.
use std::collections::VecDeque;
use vstd::prelude::*;
use crate::packet::{Packet, PacketView, lemma_views_concat, packet_views};
use crate::ring_buffer::traits::{flatten_groups, lemma_flatten_concat, lemma_prefix_step};

verus! {

/// Whether an integer is a value of `i32`.
pub open spec fn fits_i32(x: int) -> bool {
    i32::MIN <= x <= i32::MAX
}

/// A packet and the number of frames it accounts for.
pub struct PacketWrapper {
    frame_amount: i32,
    buffer: Packet,
}

impl PacketWrapper {
    /// The frames this packet accounts for.
    pub closed spec fn frames(&self) -> int {
        self.frame_amount as int
    }

    /// The wrapped packet.
    pub closed spec fn packet(&self) -> Packet {
        self.buffer
    }

    /// Wraps `buffer`, accounting for `frame_amount` frames.
    pub fn new(frame_amount: i32, buffer: Packet) -> (w: Self)
        ensures
            w.frames() == frame_amount as int,
            w.packet() == buffer,
    {
        PacketWrapper { frame_amount, buffer }
    }

    /// The frames this packet accounts for.
    pub fn frame_amount(&self) -> (a: i32)
        ensures
            a as int == self.frames(),
    {
        self.frame_amount
    }

    /// Whether the wrapped packet starts a key frame.
    pub fn is_key(&self) -> (k: bool)
        ensures
            k == self.packet().is_key,
    {
        self.buffer.is_key
    }

    /// A copy of the wrapped packet.
    pub fn packet_copy(&self) -> (p: Packet)
        ensures
            p@ == self.packet()@,
    {
        self.buffer.duplicate()
    }
}

/// The frames a run of wrapped packets accounts for.
pub open spec fn wrappers_frames(s: Seq<PacketWrapper>) -> int
    decreases s.len(),
{
    if s.len() == 0 {
        0
    } else {
        wrappers_frames(s.drop_last()) + s.last().frames()
    }
}

/// The packets of a run of wrapped packets.
pub open spec fn unwrapped(s: Seq<PacketWrapper>) -> Seq<Packet> {
    s.map_values(|w: PacketWrapper| w.packet())
}

/// A group of wrapped packets with their summed frame count.
pub struct PacketWrappersWrapper {
    frame_amount: i32,
    buffer: Vec<PacketWrapper>,
}

impl PacketWrappersWrapper {
    /// The wrapped packets of the group, oldest first.
    pub closed spec fn wrappers(&self) -> Seq<PacketWrapper> {
        self.buffer@
    }

    /// The stored count equals the frames of the wrapped packets.
    pub closed spec fn well_formed(&self) -> bool {
        self.frame_amount == wrappers_frames(self.buffer@)
    }

    /// An empty group.
    pub fn new() -> (g: Self)
        ensures
            g.well_formed(),
            g.wrappers() == Seq::<PacketWrapper>::empty(),
    {
        let g = PacketWrappersWrapper { frame_amount: 0, buffer: Vec::new() };
        assert(g.buffer@ =~= Seq::<PacketWrapper>::empty());
        g
    }

    /// Appends a wrapped packet and adds its frames to the count.
    pub fn insert(&mut self, packet: PacketWrapper)
        requires
            old(self).well_formed(),
            fits_i32(wrappers_frames(old(self).wrappers()) + packet.frames()),
        ensures
            final(self).well_formed(),
            final(self).wrappers() == old(self).wrappers().push(packet),
    {
        let ghost before = self.buffer@;
        self.frame_amount = self.frame_amount + packet.frame_amount;
        self.buffer.push(packet);
        assert(self.buffer@.drop_last() =~= before);
    }
}

/// The frames all groups account for.
pub open spec fn groups_frames(groups: Seq<Seq<PacketWrapper>>) -> int {
    wrappers_frames(flatten_groups(groups))
}

/// The frames the groups from index `k` on account for.
pub open spec fn frames_suffix(groups: Seq<Seq<PacketWrapper>>, k: int) -> int {
    groups_frames(groups.subrange(k, groups.len() as int))
}

/// The groups left once front groups are dropped for as long as the rest,
/// together with `incoming` frames, still exceeds `min`.
pub open spec fn evicted_before(groups: Seq<Seq<PacketWrapper>>, incoming: int, min: int) -> Seq<Seq<PacketWrapper>>
    decreases groups.len(),
{
    if groups.len() == 0 {
        groups
    } else if frames_suffix(groups, 1) + incoming > min {
        evicted_before(groups.subrange(1, groups.len() as int), incoming, min)
    } else {
        groups
    }
}

/// Every count that eviction computes fits in an `i32`.
pub open spec fn eviction_fits(groups: Seq<Seq<PacketWrapper>>, incoming: int, min: int) -> bool
    decreases groups.len(),
{
    groups.len() == 0 || {
        &&& fits_i32(frames_suffix(groups, 1) + incoming)
        &&& frames_suffix(groups, 1) + incoming > min ==> eviction_fits(
            groups.subrange(1, groups.len() as int),
            incoming,
            min,
        )
    }
}

/// Where a packet goes: a non-key packet joins the newest group, a key
/// packet (or any packet when there is no group) starts a new one.
pub open spec fn placed(groups: Seq<Seq<PacketWrapper>>, packet: PacketWrapper) -> Seq<Seq<PacketWrapper>> {
    if groups.len() > 0 && !packet.packet().is_key {
        groups.update(groups.len() - 1, groups.last().push(packet))
    } else {
        groups.push(seq![packet])
    }
}

/// Searching from index `k` towards the oldest group, the first index whose
/// suffix reaches `m` frames.
pub open spec fn slice_start_below(groups: Seq<Seq<PacketWrapper>>, m: int, k: int) -> int
    decreases k,
{
    if m > frames_suffix(groups, k) && k > 0 {
        slice_start_below(groups, m, k - 1)
    } else {
        k
    }
}

/// The index of the oldest group that a slice asking for `m` frames
/// returns.
pub open spec fn slice_start(groups: Seq<Seq<PacketWrapper>>, m: int) -> int {
    slice_start_below(groups, m, groups.len() as int)
}

/// The search of [`slice_start_below`] finds enough frames before running
/// out of groups, and each count it computes fits in an `i32`.
pub open spec fn slice_fits_below(groups: Seq<Seq<PacketWrapper>>, m: int, k: int) -> bool
    decreases k,
{
    m > frames_suffix(groups, k) ==> {
        &&& k > 0
        &&& fits_i32(frames_suffix(groups, k - 1))
        &&& slice_fits_below(groups, m, k - 1)
    }
}

/// The packets a slice returns, by what it is asked for.
pub open spec fn sliced_packets(groups: Seq<Seq<PacketWrapper>>, min_requested_frames: Option<i32>) -> Seq<Packet> {
    match min_requested_frames {
        Some(m) => unwrapped(flatten_groups(groups.subrange(slice_start(groups, m as int), groups.len() as int))),
        None => unwrapped(flatten_groups(groups)),
    }
}

/// Frame counting is additive over concatenation.
pub proof fn lemma_frames_concat(a: Seq<PacketWrapper>, b: Seq<PacketWrapper>)
    ensures
        wrappers_frames(a + b) == wrappers_frames(a) + wrappers_frames(b),
    decreases b.len(),
{
    if b.len() == 0 {
        assert(a + b =~= a);
    } else {
        lemma_frames_concat(a, b.drop_last());
        assert((a + b).drop_last() =~= a + b.drop_last());
    }
}

/// The frames of a suffix are those of its first group plus the rest.
pub proof fn lemma_frames_suffix_step(groups: Seq<Seq<PacketWrapper>>, k: int)
    requires
        0 <= k < groups.len(),
    ensures
        frames_suffix(groups, k) == wrappers_frames(groups[k]) + frames_suffix(groups, k + 1),
{
    let n = groups.len() as int;
    let rest = groups.subrange(k + 1, n);
    assert(groups.subrange(k, n) =~= seq![groups[k]] + rest);
    lemma_flatten_concat(seq![groups[k]], rest);
    assert(seq![groups[k]].drop_last() =~= Seq::<Seq<PacketWrapper>>::empty());
    assert(flatten_groups(Seq::<Seq<PacketWrapper>>::empty()) == Seq::<PacketWrapper>::empty());
    assert(flatten_groups(seq![groups[k]]) =~= groups[k]);
    lemma_frames_concat(groups[k], flatten_groups(rest));
}

/// Placing a packet appends it to the flattened groups.
pub proof fn lemma_placed(groups: Seq<Seq<PacketWrapper>>, packet: PacketWrapper)
    ensures
        flatten_groups(placed(groups, packet)) == flatten_groups(groups).push(packet),
        groups_frames(placed(groups, packet)) == groups_frames(groups) + packet.frames(),
{
    let p = placed(groups, packet);
    if groups.len() > 0 && !packet.packet().is_key {
        assert(p.drop_last() =~= groups.drop_last());
        assert(flatten_groups(groups.drop_last()) + groups.last().push(packet)
            =~= (flatten_groups(groups.drop_last()) + groups.last()).push(packet));
    } else {
        assert(p.drop_last() =~= groups);
        assert(flatten_groups(groups) + seq![packet] =~= flatten_groups(groups).push(packet));
    }
    assert(flatten_groups(groups).push(packet).drop_last() =~= flatten_groups(groups));
}

/// Keeps the newest packets, grouped from key packet to key packet, so that
/// they account for at least `min_frame_amount` frames once that many
/// have been seen.
pub struct RingBuffer {
    frame_counter: i32,
    buffer: VecDeque<PacketWrappersWrapper>,
    min_frame_amount: i32,
}

impl RingBuffer {
    /// The groups held, oldest first.
    pub closed spec fn groups(&self) -> Seq<Seq<PacketWrapper>> {
        self.buffer@.map_values(|g: PacketWrappersWrapper| g.wrappers())
    }

    /// The number of frames the buffer keeps at the least.
    pub closed spec fn min_frames(&self) -> int {
        self.min_frame_amount as int
    }

    /// The counter is the frames of everything held, and each group's
    /// count is right.
    pub closed spec fn well_formed(&self) -> bool {
        &&& self.frame_counter == groups_frames(self.groups())
        &&& forall|i: int| 0 <= i < self.buffer@.len() ==> (#[trigger] self.buffer@[i]).well_formed()
    }

    /// The frames of everything held.
    pub open spec fn total_frames(&self) -> int {
        groups_frames(self.groups())
    }

    /// Inserting `packet` computes no count outside `i32`.
    pub open spec fn insert_fits(&self, packet: PacketWrapper) -> bool {
        let kept = evicted_before(self.groups(), packet.frames(), self.min_frames());
        &&& fits_i32(self.total_frames() + packet.frames())
        &&& eviction_fits(self.groups(), packet.frames(), self.min_frames())
        &&& kept.len() > 0 && !packet.packet().is_key ==> fits_i32(
            wrappers_frames(kept.last()) + packet.frames(),
        )
    }

    /// A slice asking for `min_requested_frames` finds enough frames and
    /// computes no count outside `i32`.
    pub open spec fn slice_fits(&self, min_requested_frames: Option<i32>) -> bool {
        match min_requested_frames {
            Some(m) => slice_fits_below(self.groups(), m as int, self.groups().len() as int),
            None => true,
        }
    }

    /// An empty buffer that keeps at least `requested_frame_amount` frames.
    pub fn new(requested_frame_amount: i32) -> (r: Self)
        ensures
            r.well_formed(),
            r.groups() == Seq::<Seq<PacketWrapper>>::empty(),
            r.min_frames() == requested_frame_amount as int,
    {
        let r = RingBuffer { frame_counter: 0, buffer: VecDeque::new(), min_frame_amount: requested_frame_amount };
        assert(r.groups() =~= Seq::<Seq<PacketWrapper>>::empty());
        assert(flatten_groups(Seq::<Seq<PacketWrapper>>::empty()) == Seq::<PacketWrapper>::empty());
        r
    }

    /// Counts the packet's frames, drops the oldest groups for as long as
    /// the rest together with the new packet still exceeds the minimum,
    /// then adds the packet: to the newest group unless it is a key packet
    /// or no group is left.
    pub fn insert(&mut self, packet: PacketWrapper)
        requires
            old(self).well_formed(),
            old(self).insert_fits(packet),
        ensures
            final(self).well_formed(),
            final(self).min_frames() == old(self).min_frames(),
            final(self).groups() == placed(
                evicted_before(old(self).groups(), packet.frames(), old(self).min_frames()),
                packet,
            ),
    {
        let ghost a = packet.frames();
        let ghost min = self.min_frames();
        let ghost target = evicted_before(self.groups(), a, min);
        self.frame_counter = self.frame_counter + packet.frame_amount;
        loop
            invariant
                self.frame_counter == groups_frames(self.buffer@.map_values(|g: PacketWrappersWrapper| g.wrappers())) + a,
                forall|i: int| 0 <= i < self.buffer@.len() ==> (#[trigger] self.buffer@[i]).well_formed(),
                evicted_before(self.buffer@.map_values(|g: PacketWrappersWrapper| g.wrappers()), a, min) == target,
                eviction_fits(self.buffer@.map_values(|g: PacketWrappersWrapper| g.wrappers()), a, min),
                self.min_frame_amount == min,
                a == packet.frames(),
            ensures
                self.frame_counter == groups_frames(self.buffer@.map_values(|g: PacketWrappersWrapper| g.wrappers())) + a,
                forall|i: int| 0 <= i < self.buffer@.len() ==> (#[trigger] self.buffer@[i]).well_formed(),
                self.buffer@.map_values(|g: PacketWrappersWrapper| g.wrappers()) == target,
                self.min_frame_amount == min,
            decreases self.buffer@.len(),
        {
            let ghost g = self.buffer@.map_values(|g: PacketWrappersWrapper| g.wrappers());
            if self.buffer.len() == 0 {
                break;
            }
            let front_amount = self.buffer[0].frame_amount;
            proof {
                lemma_frames_suffix_step(g, 0);
                assert(g.subrange(0, g.len() as int) =~= g);
                assert(self.buffer@[0].well_formed());
            }
            if self.frame_counter - front_amount > self.min_frame_amount {
                self.frame_counter = self.frame_counter - front_amount;
                let ghost before = self.buffer@;
                self.buffer.pop_front();
                proof {
                    assert(self.buffer@.map_values(|g: PacketWrappersWrapper| g.wrappers()) =~= g.subrange(1, g.len() as int));
                    assert forall|i: int| 0 <= i < self.buffer@.len() implies (#[trigger] self.buffer@[i]).well_formed() by {
                        assert(self.buffer@[i] == before[i + 1]);
                    }
                }
            } else {
                break;
            }
        }
        let ghost kept = self.buffer@;
        let n = self.buffer.len();
        proof {
            lemma_placed(target, packet);
        }
        if n > 0 && !packet.is_key() {
            let mut back = self.buffer.pop_back().unwrap();
            proof {
                assert(back == kept[n - 1]);
                assert(back.wrappers() == target.last());
            }
            back.insert(packet);
            self.buffer.push_back(back);
            proof {
                assert(self.groups() =~= placed(target, packet));
                assert forall|i: int| 0 <= i < self.buffer@.len() implies (#[trigger] self.buffer@[i]).well_formed() by {
                    if i < n - 1 {
                        assert(self.buffer@[i] == kept[i]);
                    }
                }
            }
        } else {
            let mut fresh = PacketWrappersWrapper::new();
            proof {
                assert(wrappers_frames(Seq::<PacketWrapper>::empty()) == 0);
            }
            fresh.insert(packet);
            self.buffer.push_back(fresh);
            proof {
                assert(fresh.wrappers() =~= seq![packet]);
                assert(self.groups() =~= placed(target, packet));
                assert forall|i: int| 0 <= i < self.buffer@.len() implies (#[trigger] self.buffer@[i]).well_formed() by {
                    if i < n {
                        assert(self.buffer@[i] == kept[i]);
                    }
                }
            }
        }
    }

    /// Copies of the held packets, oldest first. With `Some(m)`, only the
    /// newest groups, as many as it takes to reach `m` frames; with
    /// `None`, everything.
    pub fn get_slice(&self, min_requested_frames: Option<i32>) -> (r: Vec<Packet>)
        requires
            self.well_formed(),
            self.slice_fits(min_requested_frames),
        ensures
            packet_views(r@) == packet_views(sliced_packets(self.groups(), min_requested_frames)),
    {
        let ghost g = self.groups();
        let n = self.buffer.len();
        let mut start: usize = 0;
        if let Some(m) = min_requested_frames {
            let mut i: usize = n;
            let mut frames: i32 = 0;
            proof {
                assert(g.subrange(n as int, n as int) =~= Seq::<Seq<PacketWrapper>>::empty());
                assert(flatten_groups(Seq::<Seq<PacketWrapper>>::empty()) == Seq::<PacketWrapper>::empty());
            }
            while m > frames
                invariant
                    i <= n,
                    n == g.len(),
                    g == self.groups(),
                    self.well_formed(),
                    frames == frames_suffix(g, i as int),
                    slice_start_below(g, m as int, n as int) == slice_start_below(g, m as int, i as int),
                    slice_fits_below(g, m as int, i as int),
                decreases i,
            {
                i = i - 1;
                proof {
                    lemma_frames_suffix_step(g, i as int);
                    assert(self.buffer@[i as int].well_formed());
                    assert(g[i as int] == self.buffer@[i as int].wrappers());
                }
                frames = frames + self.buffer[i].frame_amount;
            }
            start = i;
        }
        let mut result: Vec<Packet> = Vec::new();
        let mut k: usize = start;
        proof {
            assert(g.subrange(start as int, start as int) =~= Seq::<Seq<PacketWrapper>>::empty());
            assert(flatten_groups(Seq::<Seq<PacketWrapper>>::empty()) == Seq::<PacketWrapper>::empty());
            assert(packet_views(result@) =~= packet_views(unwrapped(Seq::<PacketWrapper>::empty())));
        }
        while k < n
            invariant
                start <= k <= n,
                n == g.len(),
                g == self.groups(),
                packet_views(result@) == packet_views(unwrapped(flatten_groups(g.subrange(start as int, k as int)))),
            decreases n - k,
        {
            let group = &self.buffer[k];
            let mut j: usize = 0;
            let ghost before = result@;
            while j < group.buffer.len()
                invariant
                    j <= group.buffer@.len(),
                    packet_views(result@) == packet_views(before + unwrapped(group.buffer@.take(j as int))),
                decreases group.buffer@.len() - j,
            {
                let ghost r0 = result@;
                result.push(group.buffer[j].packet_copy());
                proof {
                    assert(unwrapped(group.buffer@.take(j as int + 1)) =~= unwrapped(group.buffer@.take(j as int)).push(group.buffer@[j as int].packet()));
                    assert(before + unwrapped(group.buffer@.take(j as int + 1)) =~= (before + unwrapped(group.buffer@.take(j as int))).push(group.buffer@[j as int].packet()));
                    assert(packet_views(result@) =~= packet_views(r0).push(group.buffer@[j as int].packet()@));
                    assert(packet_views((before + unwrapped(group.buffer@.take(j as int))).push(group.buffer@[j as int].packet()))
                        =~= packet_views(before + unwrapped(group.buffer@.take(j as int))).push(group.buffer@[j as int].packet()@));
                }
                j = j + 1;
            }
            proof {
                assert(group.buffer@.take(j as int) =~= group.buffer@);
                assert(g[k as int] == group.buffer@);
                lemma_prefix_step(g, start as int, k as int);
                assert(unwrapped(flatten_groups(g.subrange(start as int, k as int)) + g[k as int]) =~= unwrapped(
                    flatten_groups(g.subrange(start as int, k as int)),
                ) + unwrapped(g[k as int]));
                lemma_views_concat(before, unwrapped(g[k as int]));
                lemma_views_concat(unwrapped(flatten_groups(g.subrange(start as int, k as int))), unwrapped(g[k as int]));
            }
            k = k + 1;
        }
        proof {
            assert(g.subrange(0, n as int) =~= g);
        }
        result
    }
}

} // verus!
