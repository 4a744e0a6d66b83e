//! What inserting into and copying out of a ring buffer guarantee over
//! any sequence of calls.
use vstd::prelude::*;
use crate::packet::{Packet, packets_duration};
use crate::ring_buffer::packet_handlers::KeyFrameStartPacketWrapper;
use crate::ring_buffer::ring_buffer::{copy_start, copy_start_below, evicted};
use crate::ring_buffer::traits::{
    PacketHandler, flatten_groups, groups_duration, lemma_flatten_concat, suffix_duration,
};

verus! {

/// Eviction only ever drops a prefix of the groups; returns its length.
proof fn evicted_start(groups: Seq<Seq<Packet>>, min: int) -> (j: int)
    ensures
        0 <= j <= groups.len(),
        evicted(groups, min) == groups.subrange(j, groups.len() as int),
        j > 0 ==> groups_duration(evicted(groups, min)) > min,
        evicted(groups, min).len() == 0 || suffix_duration(evicted(groups, min), 1) <= min,
    decreases groups.len(),
{
    let n = groups.len() as int;
    if n == 0 {
        assert(groups.subrange(0, 0) =~= groups);
        0
    } else if suffix_duration(groups, 1) > min {
        let rest = groups.subrange(1, n);
        let j = evicted_start(rest, min);
        assert(rest.subrange(j, rest.len() as int) =~= groups.subrange(j + 1, n));
        assert(rest.subrange(0, rest.len() as int) =~= rest);
        j + 1
    } else {
        assert(groups.subrange(0, n) =~= groups);
        0
    }
}

/// The packets of a suffix of the groups are a suffix of all packets.
proof fn flatten_suffix(groups: Seq<Seq<Packet>>, j: int) -> (k: int)
    requires
        0 <= j <= groups.len(),
    ensures
        0 <= k <= flatten_groups(groups).len(),
        flatten_groups(groups.subrange(j, groups.len() as int)) == flatten_groups(groups).subrange(
            k,
            flatten_groups(groups).len() as int,
        ),
{
    let n = groups.len() as int;
    assert(groups =~= groups.subrange(0, j) + groups.subrange(j, n));
    lemma_flatten_concat(groups.subrange(0, j), groups.subrange(j, n));
    let k = flatten_groups(groups.subrange(0, j)).len() as int;
    assert(flatten_groups(groups.subrange(j, n)) =~= flatten_groups(groups).subrange(
        k,
        flatten_groups(groups).len() as int,
    ));
    k
}

/// Inserting never reorders or alters what is held: afterwards the buffer
/// holds a suffix of its old packets followed by the new packet, and with
/// a minimum of zero frames or more the new packet is always kept.
pub proof fn law_insert_keeps_order<T: PacketHandler>(groups: Seq<Seq<Packet>>, packet: Packet, min: int)
    requires
        min >= 0,
    ensures
        ({
            let all = flatten_groups(groups).push(packet);
            let after = flatten_groups(evicted(T::inserted_groups(groups, packet), min));
            &&& exists|k: int| 0 <= k < all.len() && after == #[trigger] all.subrange(k, all.len() as int)
            &&& after.len() > 0 && after.last() == packet
        }),
{
    let ins = T::inserted_groups(groups, packet);
    T::lemma_inserted_groups(groups, packet);
    let all = flatten_groups(groups).push(packet);
    let n = ins.len() as int;
    let j = evicted_start(ins, min);
    evicted_last_kept(ins, min);
    let e = evicted(ins, min);
    let k = flatten_suffix(ins, j);
    assert(e.last() == ins.last());
    assert(flatten_groups(e) == flatten_groups(e.drop_last()) + e.last());
    assert(flatten_groups(e).last() == packet);
    assert(flatten_groups(e) == all.subrange(k, all.len() as int));
}

/// With a minimum of zero frames or more, eviction never drops the newest
/// group.
proof fn evicted_last_kept(groups: Seq<Seq<Packet>>, min: int)
    requires
        min >= 0,
        groups.len() >= 1,
    ensures
        evicted(groups, min).len() >= 1,
    decreases groups.len(),
{
    let n = groups.len() as int;
    if n == 1 {
        assert(groups.subrange(1, 1) =~= Seq::<Seq<Packet>>::empty());
        assert(flatten_groups(Seq::<Seq<Packet>>::empty()) == Seq::<Packet>::empty());
        assert(packets_duration(Seq::<Packet>::empty()) == 0);
    } else if suffix_duration(groups, 1) > min {
        evicted_last_kept(groups.subrange(1, n), min);
    }
}

/// Inserting keeps the minimum: afterwards the buffer either holds more
/// than the minimum number of frames, or nothing was dropped. And it keeps
/// no group it could do without: dropping the oldest group would leave no
/// more than the minimum.
pub proof fn law_insert_retains_minimum<T: PacketHandler>(groups: Seq<Seq<Packet>>, packet: Packet, min: int)
    ensures
        ({
            let after = evicted(T::inserted_groups(groups, packet), min);
            &&& groups_duration(after) > min || groups_duration(after) == groups_duration(groups)
                + packet.duration
            &&& after.len() == 0 || suffix_duration(after, 1) <= min
        }),
{
    let ins = T::inserted_groups(groups, packet);
    T::lemma_inserted_groups(groups, packet);
    assert(flatten_groups(groups).push(packet).drop_last() =~= flatten_groups(groups));
    let j = evicted_start(ins, min);
    if j == 0 {
        assert(ins.subrange(0, ins.len() as int) =~= ins);
    }
}

/// A copy asking for `m` frames starts at a group from which the newest
/// groups hold at least `m` frames whenever the buffer holds that many,
/// and no later start would do: every shorter copy of at least one group
/// holds fewer than `m` frames.
pub proof fn law_copy_covers_request(groups: Seq<Seq<Packet>>, m: int)
    ensures
        0 <= copy_start(groups, m) <= groups.len(),
        groups.len() > 0 ==> copy_start(groups, m) < groups.len(),
        groups_duration(groups) >= m && groups.len() > 0 ==> suffix_duration(groups, copy_start(groups, m)) >= m,
        forall|j: int| copy_start(groups, m) < j < groups.len() ==> #[trigger] suffix_duration(groups, j) < m,
{
    copy_start_facts(groups, m, groups.len() as int);
    assert(groups.subrange(0, groups.len() as int) =~= groups);
}

proof fn copy_start_facts(groups: Seq<Seq<Packet>>, m: int, k: int)
    requires
        0 <= k <= groups.len(),
    ensures
        0 <= copy_start_below(groups, m, k) <= k,
        k > 0 ==> copy_start_below(groups, m, k) < k,
        k > 0 && suffix_duration(groups, 0) >= m ==> suffix_duration(groups, copy_start_below(groups, m, k)) >= m,
        forall|j: int| copy_start_below(groups, m, k) < j < k ==> #[trigger] suffix_duration(groups, j) < m,
    decreases k,
{
    if k > 0 && suffix_duration(groups, k - 1) < m {
        copy_start_facts(groups, m, k - 1);
    }
}

/// Runs kept by [`KeyFrameStartPacketWrapper`]: every run but the newest
/// ends with a key packet, and no run holds a key packet before its end.
pub open spec fn runs_split_after_keys(groups: Seq<Seq<Packet>>) -> bool {
    &&& forall|i: int| 0 <= i < groups.len() ==> (#[trigger] groups[i]).len() > 0
    &&& forall|i: int, j: int|
        0 <= i < groups.len() && 0 <= j < groups[i].len() - 1 ==> !(#[trigger] groups[i][j]).is_key
    &&& forall|i: int| 0 <= i < groups.len() - 1 ==> (#[trigger] groups[i]).last().is_key
}

/// Inserting into a buffer of key-frame runs keeps the runs split right
/// after key packets.
pub proof fn law_key_frame_runs(groups: Seq<Seq<Packet>>, packet: Packet, min: int)
    requires
        runs_split_after_keys(groups),
    ensures
        runs_split_after_keys(evicted(KeyFrameStartPacketWrapper::inserted_groups(groups, packet), min)),
{
    let ins = KeyFrameStartPacketWrapper::inserted_groups(groups, packet);
    assert(runs_split_after_keys(ins)) by {
        if groups.len() == 0 || groups.last().last().is_key {
            assert forall|i: int, j: int|
                0 <= i < ins.len() && 0 <= j < ins[i].len() - 1 implies !(#[trigger] ins[i][j]).is_key by {
                assert(i < groups.len());
            }
        } else {
            assert forall|i: int, j: int|
                0 <= i < ins.len() && 0 <= j < ins[i].len() - 1 implies !(#[trigger] ins[i][j]).is_key by {
                if i == groups.len() - 1 {
                    assert(ins[i] == groups[i].push(packet));
                    if j == groups[i].len() - 1 {
                        assert(ins[i][j] == groups.last().last());
                    } else {
                        assert(ins[i][j] == groups[i][j]);
                    }
                }
            }
        }
    }
    let j = evicted_start(ins, min);
    let e = evicted(ins, min);
    assert forall|i: int, k: int|
        0 <= i < e.len() && 0 <= k < e[i].len() - 1 implies !(#[trigger] e[i][k]).is_key by {
        assert(e[i] == ins[i + j]);
    }
    assert forall|i: int| 0 <= i < e.len() implies (#[trigger] e[i]).len() > 0 by {
        assert(e[i] == ins[i + j]);
    }
    assert forall|i: int| 0 <= i < e.len() - 1 implies (#[trigger] e[i]).last().is_key by {
        assert(e[i] == ins[i + j]);
    }
}

} // verus!
