//! A buffer of encoded packets that keeps just enough of the newest
//! groups to cover a minimum number of frames.
use std::collections::VecDeque;
use vstd::prelude::*;
use crate::packet::{Packet, PacketView, lemma_views_concat, packet_views, packets_duration, running_durations_fit};
use crate::ring_buffer::traits::{
    PacketHandler, all_valid, fits_i64, flatten_groups, groups_duration, groups_of, lemma_duration_concat,
    lemma_groups_of_skip, lemma_prefix_step, lemma_suffix_step, suffix_duration,
};

verus! {

/// The groups that remain after dropping front groups for as long as the
/// groups behind the front one still hold more than `min` frames.
pub open spec fn evicted(groups: Seq<Seq<Packet>>, min: int) -> Seq<Seq<Packet>>
    decreases groups.len(),
{
    if groups.len() == 0 {
        groups
    } else if suffix_duration(groups, 1) > min {
        evicted(groups.subrange(1, groups.len() as int), min)
    } else {
        groups
    }
}

/// Every duration that eviction computes on `groups` fits in an `i64`.
pub open spec fn eviction_fits(groups: Seq<Seq<Packet>>, min: int) -> bool
    decreases groups.len(),
{
    groups.len() == 0 || {
        &&& running_durations_fit(groups[0])
        &&& fits_i64(suffix_duration(groups, 1))
        &&& suffix_duration(groups, 1) > min ==> eviction_fits(
            groups.subrange(1, groups.len() as int),
            min,
        )
    }
}

/// Searching from group `k - 1` towards the oldest group, the first index
/// whose suffix holds at least `m` frames, or 0 when none does.
pub open spec fn copy_start_below(groups: Seq<Seq<Packet>>, m: int, k: int) -> int
    decreases k,
{
    if k <= 0 {
        0
    } else if suffix_duration(groups, k - 1) >= m {
        k - 1
    } else {
        copy_start_below(groups, m, k - 1)
    }
}

/// The index of the oldest group that a copy asking for `m` frames
/// returns: the newest groups are taken until they hold at least `m`
/// frames, or all groups when they never do.
pub open spec fn copy_start(groups: Seq<Seq<Packet>>, m: int) -> int {
    copy_start_below(groups, m, groups.len() as int)
}

/// Every duration that the search of [`copy_start_below`] computes fits in
/// an `i64`.
pub open spec fn copy_fits_below(groups: Seq<Seq<Packet>>, m: int, k: int) -> bool
    decreases k,
{
    k <= 0 || {
        &&& running_durations_fit(groups[k - 1])
        &&& fits_i64(suffix_duration(groups, k - 1))
        &&& suffix_duration(groups, k - 1) < m ==> copy_fits_below(groups, m, k - 1)
    }
}

/// Every duration that a copy asking for `m` frames computes fits in an
/// `i64`.
pub open spec fn copy_fits(groups: Seq<Seq<Packet>>, m: int) -> bool {
    copy_fits_below(groups, m, groups.len() as int)
}

/// The packets a copy returns, by what it is asked for.
pub open spec fn copied_packets(groups: Seq<Seq<Packet>>, min_requested_frames: Option<i64>) -> Seq<Packet> {
    match min_requested_frames {
        Some(m) => flatten_groups(groups.subrange(copy_start(groups, m as int), groups.len() as int)),
        None => flatten_groups(groups),
    }
}

/// No packet of `s` has a negative duration.
pub open spec fn durations_nonneg(s: Seq<Packet>) -> bool {
    forall|i: int| 0 <= i < s.len() ==> (#[trigger] s[i]).duration >= 0
}

/// Packets without negative durations sum to no negative duration.
proof fn lemma_duration_nonneg(s: Seq<Packet>)
    requires
        durations_nonneg(s),
    ensures
        packets_duration(s) >= 0,
    decreases s.len(),
{
    if s.len() > 0 {
        lemma_duration_nonneg(s.drop_last());
    }
}

/// Without negative durations, every running total lies between zero and
/// the whole sum.
proof fn lemma_running_totals_bounded(s: Seq<Packet>)
    requires
        durations_nonneg(s),
    ensures
        forall|k: int| 0 <= k <= s.len() ==> 0 <= #[trigger] packets_duration(s.take(k)) <= packets_duration(s),
{
    assert forall|k: int| 0 <= k <= s.len() implies 0 <= #[trigger] packets_duration(s.take(k)) <= packets_duration(s) by {
        assert(s =~= s.take(k) + s.skip(k));
        lemma_duration_concat(s.take(k), s.skip(k));
        lemma_duration_nonneg(s.take(k));
        lemma_duration_nonneg(s.skip(k));
    }
}

/// The packets of groups without negative durations have none.
proof fn lemma_flatten_nonneg(groups: Seq<Seq<Packet>>)
    requires
        forall|j: int| 0 <= j < groups.len() ==> durations_nonneg(#[trigger] groups[j]),
    ensures
        durations_nonneg(flatten_groups(groups)),
    decreases groups.len(),
{
    if groups.len() > 0 {
        lemma_flatten_nonneg(groups.drop_last());
        let a = flatten_groups(groups.drop_last());
        let b = groups.last();
        assert(durations_nonneg(b));
        assert forall|i: int| 0 <= i < (a + b).len() implies (#[trigger] (a + b)[i]).duration >= 0 by {
            if i >= a.len() {
                assert((a + b)[i] == b[i - a.len()]);
            }
        }
    }
}

/// When the packets of all groups have no negative duration, neither do
/// those of any one group.
proof fn lemma_groups_nonneg(groups: Seq<Seq<Packet>>)
    requires
        durations_nonneg(flatten_groups(groups)),
    ensures
        forall|j: int| 0 <= j < groups.len() ==> durations_nonneg(#[trigger] groups[j]),
    decreases groups.len(),
{
    if groups.len() > 0 {
        let a = flatten_groups(groups.drop_last());
        let b = groups.last();
        let all = flatten_groups(groups);
        assert(all == a + b);
        assert(durations_nonneg(a)) by {
            assert forall|i: int| 0 <= i < a.len() implies (#[trigger] a[i]).duration >= 0 by {
                assert(all[i] == a[i]);
            }
        }
        assert(durations_nonneg(b)) by {
            assert forall|i: int| 0 <= i < b.len() implies (#[trigger] b[i]).duration >= 0 by {
                assert(all[i + a.len()] == b[i]);
            }
        }
        lemma_groups_nonneg(groups.drop_last());
        assert forall|j: int| 0 <= j < groups.len() implies durations_nonneg(#[trigger] groups[j]) by {
            if j < groups.len() - 1 {
                assert(groups.drop_last()[j] == groups[j]);
            }
        }
    }
}

/// Groups whose packets have no negative duration and whose sum fits in
/// an `i64` can be evicted from without any sum leaving `i64`.
proof fn lemma_nonneg_eviction_fits(groups: Seq<Seq<Packet>>, min: int)
    requires
        durations_nonneg(flatten_groups(groups)),
        groups_duration(groups) <= i64::MAX,
    ensures
        eviction_fits(groups, min),
    decreases groups.len(),
{
    if groups.len() > 0 {
        let n = groups.len() as int;
        let rest = groups.subrange(1, n);
        lemma_suffix_step(groups, 0);
        assert(groups.subrange(0, n) =~= groups);
        let all = flatten_groups(groups);
        let first = groups[0];
        let tail = flatten_groups(rest);
        assert(all == first + tail);
        assert(durations_nonneg(first)) by {
            assert forall|i: int| 0 <= i < first.len() implies (#[trigger] first[i]).duration >= 0 by {
                assert(all[i] == first[i]);
            }
        }
        assert(durations_nonneg(tail)) by {
            assert forall|i: int| 0 <= i < tail.len() implies (#[trigger] tail[i]).duration >= 0 by {
                assert(all[i + first.len()] == tail[i]);
            }
        }
        lemma_duration_concat(first, tail);
        lemma_duration_nonneg(first);
        lemma_duration_nonneg(tail);
        lemma_running_totals_bounded(first);
        lemma_nonneg_eviction_fits(rest, min);
    }
}

/// Appends independent copies of the packets of `src` to `out`.
fn append_copies(out: &mut Vec<Packet>, src: &[Packet])
    ensures
        packet_views(final(out)@) == packet_views(old(out)@ + src@),
{
    let ghost start = out@;
    let mut j: usize = 0;
    while j < src.len()
        invariant
            j <= src@.len(),
            packet_views(out@) == packet_views(start + src@.take(j as int)),
        decreases src@.len() - j,
    {
        let ghost before = out@;
        out.push(src[j].duplicate());
        proof {
            assert(packet_views(out@) =~= packet_views(before).push(src@[j as int]@));
            assert(start + src@.take(j as int + 1) =~= (start + src@.take(j as int)).push(src@[j as int]));
            assert(packet_views((start + src@.take(j as int)).push(src@[j as int])) =~= packet_views(
                start + src@.take(j as int),
            ).push(src@[j as int]@));
        }
        j = j + 1;
    }
    assert(src@.take(j as int) =~= src@);
}

/// Keeps the newest encoded packets, grouped by `T`, covering at least
/// `min_frame_amount` frames of duration whenever it has seen that many.
pub struct RingBuffer<T: PacketHandler> {
    frame_counter: i64,
    buffer: VecDeque<T>,
    min_frame_amount: i64,
}

impl<T: PacketHandler> RingBuffer<T> {
    /// The groups held, oldest first.
    pub closed spec fn groups(&self) -> Seq<Seq<Packet>> {
        groups_of(self.buffer@)
    }

    /// The number of frames the buffer keeps at the least.
    pub closed spec fn min_frames(&self) -> int {
        self.min_frame_amount as int
    }

    /// The internal invariant: the frame counter is the summed duration of
    /// what is held, and every group keeps its handler's invariant.
    pub closed spec fn well_formed(&self) -> bool {
        &&& self.frame_counter == groups_duration(self.groups())
        &&& all_valid(self.buffer@)
        &&& self.min_frame_amount >= 0
    }

    /// All packets held, oldest first.
    pub open spec fn packets(&self) -> Seq<Packet> {
        flatten_groups(self.groups())
    }

    /// The summed duration of all packets held.
    pub open spec fn total_frames(&self) -> int {
        groups_duration(self.groups())
    }

    /// Inserting `packet` computes no duration outside `i64`.
    pub open spec fn insert_fits(&self, packet: Packet) -> bool {
        &&& fits_i64(self.total_frames() + packet.duration)
        &&& eviction_fits(T::inserted_groups(self.groups(), packet), self.min_frames())
    }

    /// An empty buffer that keeps at least `min_frame_amount` frames.
    pub fn new(min_frame_amount: u32) -> (r: Self)
        ensures
            r.well_formed(),
            r.groups() == Seq::<Seq<Packet>>::empty(),
            r.min_frames() == min_frame_amount as int,
            r.min_frames() >= 0,
    {
        let r = RingBuffer { frame_counter: 0, buffer: VecDeque::new(), min_frame_amount: min_frame_amount as i64 };
        assert(r.groups() =~= Seq::<Seq<Packet>>::empty());
        assert(flatten_groups(Seq::<Seq<Packet>>::empty()) == Seq::<Packet>::empty());
        assert(packets_duration(Seq::<Packet>::empty()) == 0);
        r
    }

    /// Whether `packet` and every packet held have no negative duration and
    /// the total with `packet` fits in an `i64`; when so, inserting it
    /// computes no duration outside `i64`.
    pub fn can_insert(&self, packet: &Packet) -> (b: bool)
        requires
            self.well_formed(),
        ensures
            b == (durations_nonneg(self.packets().push(*packet)) && self.total_frames() + packet.duration
                <= i64::MAX),
            b ==> self.insert_fits(*packet),
    {
        let ghost g = self.groups();
        let n = self.buffer.len();
        let mut i: usize = 0;
        let mut ok = packet.duration >= 0;
        while i < n
            invariant
                i <= n,
                n == g.len(),
                g == self.groups(),
                ok == (packet.duration >= 0 && forall|j: int| 0 <= j < i ==> durations_nonneg(#[trigger] g[j])),
            decreases n - i,
        {
            let contents = self.buffer[i].get_contents();
            proof {
                assert(g[i as int] == self.buffer@[i as int].contents());
            }
            let mut k: usize = 0;
            let mut group_ok = true;
            while k < contents.len()
                invariant
                    k <= contents@.len(),
                    group_ok == forall|m: int| 0 <= m < k ==> (#[trigger] contents@[m]).duration >= 0,
                decreases contents@.len() - k,
            {
                if contents[k].duration < 0 {
                    group_ok = false;
                }
                k = k + 1;
            }
            let ghost prev_ok = ok;
            ok = ok && group_ok;
            proof {
                if prev_ok && group_ok {
                    assert forall|j: int| 0 <= j < i + 1 implies durations_nonneg(#[trigger] g[j]) by {
                        if j == i {
                            assert(g[j] == contents@);
                        }
                    }
                }
                if !group_ok {
                    let m = choose|m: int| 0 <= m < k && !((#[trigger] contents@[m]).duration >= 0);
                    assert(!durations_nonneg(g[i as int]));
                }
            }
            i = i + 1;
        }
        let ghost s = self.packets();
        proof {
            assert(s.push(*packet)[s.len() as int] == *packet);
            if ok {
                lemma_flatten_nonneg(g);
                lemma_duration_nonneg(s);
                assert forall|i: int| 0 <= i < s.len() + 1 implies (#[trigger] s.push(*packet)[i]).duration >= 0 by {
                    if i < s.len() {
                        assert(s.push(*packet)[i] == s[i]);
                    }
                }
            }
            if durations_nonneg(s.push(*packet)) {
                assert(durations_nonneg(s)) by {
                    assert forall|i: int| 0 <= i < s.len() implies (#[trigger] s[i]).duration >= 0 by {
                        assert(s.push(*packet)[i] == s[i]);
                    }
                }
                lemma_groups_nonneg(g);
            }
        }
        if !ok {
            return false;
        }
        let fits = self.frame_counter <= i64::MAX - packet.duration;
        proof {
            assert(s.push(*packet).drop_last() =~= s);
            assert(packets_duration(s.push(*packet)) == self.total_frames() + packet.duration);
            if fits {
                T::lemma_inserted_groups(g, *packet);
                lemma_nonneg_eviction_fits(T::inserted_groups(g, *packet), self.min_frames());
            }
        }
        fits
    }

    /// Adds `packet` to the newest group (or a new one, as `T` decides),
    /// then drops the oldest groups for as long as the rest still holds
    /// more than the minimum number of frames.
    pub fn insert(&mut self, packet: Packet)
        requires
            old(self).well_formed(),
            old(self).insert_fits(packet),
        ensures
            final(self).well_formed(),
            final(self).min_frames() == old(self).min_frames(),
            final(self).min_frames() >= 0,
            final(self).groups() == evicted(
                T::inserted_groups(old(self).groups(), packet),
                old(self).min_frames(),
            ),
    {
        let ghost p = packet;
        let ghost target = T::inserted_groups(self.groups(), packet);
        let ghost min = self.min_frames();
        proof {
            T::lemma_inserted_groups(self.groups(), packet);
            assert(flatten_groups(self.groups()).push(packet).drop_last() =~= flatten_groups(self.groups()));
        }
        self.frame_counter = self.frame_counter + packet.duration;
        T::insert(&mut self.buffer, packet);
        assert(self.groups() == target);
        loop
            invariant
                self.frame_counter == groups_duration(groups_of(self.buffer@)),
                all_valid(self.buffer@),
                evicted(groups_of(self.buffer@), min) == evicted(target, min),
                eviction_fits(groups_of(self.buffer@), min),
                self.min_frame_amount == min,
            ensures
                self.frame_counter == groups_duration(groups_of(self.buffer@)),
                all_valid(self.buffer@),
                groups_of(self.buffer@) == evicted(target, min),
                self.min_frame_amount == min,
            decreases self.buffer@.len(),
        {
            let ghost g = groups_of(self.buffer@);
            if self.buffer.len() == 0 {
                break;
            }
            proof {
                lemma_suffix_step(g, 0);
                assert(g.subrange(0, g.len() as int) =~= g);
                assert(g[0] == self.buffer@[0].contents());
                assert(self.buffer@[0].valid());
            }
            let front_duration = self.buffer[0].get_duration();
            let remaining = self.frame_counter - front_duration;
            if remaining > self.min_frame_amount {
                self.frame_counter = remaining;
                let ghost before = self.buffer@;
                self.buffer.pop_front();
                proof {
                    lemma_groups_of_skip(before, 1);
                    assert forall|i: int| 0 <= i < self.buffer@.len() implies #[trigger] self.buffer@[i].valid() by {
                        assert(self.buffer@[i] == before[i + 1]);
                    }
                }
            } else {
                break;
            }
        }
    }

    /// Copies of the held packets, oldest first. With `Some(m)`, only the
    /// newest groups are copied, as many as it takes to reach `m` frames
    /// (all groups when they hold fewer); with `None`, everything.
    pub fn copy_out(&self, min_requested_frames: Option<i64>) -> (r: Vec<Packet>)
        requires
            self.well_formed(),
            match min_requested_frames {
                Some(m) => copy_fits(self.groups(), m as int),
                None => true,
            },
        ensures
            packet_views(r@) == packet_views(copied_packets(self.groups(), min_requested_frames)),
    {
        let ghost g = self.groups();
        let n = self.buffer.len();
        let mut start: usize = 0;
        if let Some(m) = min_requested_frames {
            let mut total: i64 = 0;
            let mut i: usize = n;
            proof {
                assert(g.subrange(n as int, n as int) =~= Seq::<Seq<Packet>>::empty());
                assert(flatten_groups(Seq::<Seq<Packet>>::empty()) == Seq::<Packet>::empty());
                assert(packets_duration(Seq::<Packet>::empty()) == 0);
            }
            while i > 0
                invariant_except_break
                    i <= n,
                    total == suffix_duration(g, i as int),
                    copy_start_below(g, m as int, n as int) == copy_start_below(g, m as int, i as int),
                    copy_fits_below(g, m as int, i as int),
                    start == 0,
                invariant
                    n == g.len(),
                    g == self.groups(),
                    self.well_formed(),
                ensures
                    start as int == copy_start(g, m as int),
                    start <= n,
                decreases i,
            {
                i = i - 1;
                proof {
                    lemma_suffix_step(g, i as int);
                    assert(g[i as int] == self.buffer@[i as int].contents());
                    assert(self.buffer@[i as int].valid());
                }
                let d = self.buffer[i].get_duration();
                total = total + d;
                if total >= m {
                    start = i;
                    break;
                }
            }
        }
        let mut result: Vec<Packet> = Vec::new();
        let mut k: usize = start;
        proof {
            assert(g.subrange(start as int, start as int) =~= Seq::<Seq<Packet>>::empty());
            assert(flatten_groups(Seq::<Seq<Packet>>::empty()) == Seq::<Packet>::empty());
            assert(packet_views(result@) =~= packet_views(Seq::<Packet>::empty()));
        }
        while k < n
            invariant
                start <= k <= n,
                n == g.len(),
                g == self.groups(),
                packet_views(result@) == packet_views(flatten_groups(g.subrange(start as int, k as int))),
            decreases n - k,
        {
            let contents = self.buffer[k].get_contents();
            let ghost before = result@;
            append_copies(&mut result, contents);
            proof {
                lemma_views_concat(before, contents@);
                lemma_views_concat(flatten_groups(g.subrange(start as int, k as int)), g[k as int]);
                lemma_prefix_step(g, start as int, k as int);
                assert(g[k as int] == self.buffer@[k as int].contents());
            }
            k = k + 1;
        }
        proof {
            assert(g.subrange(0, n as int) =~= g);
        }
        result
    }
}

} // verus!
