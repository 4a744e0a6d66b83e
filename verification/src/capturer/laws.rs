//! What inserting into and slicing the key-frame packet ring guarantee
//! over any sequence of calls.
use vstd::prelude::*;
use crate::capturer::packet_ring_buffer::{
    PacketWrapper, evicted_before, frames_suffix, groups_frames, lemma_placed, placed,
    slice_fits_below, slice_start, slice_start_below,
};
use crate::ring_buffer::traits::{flatten_groups, lemma_flatten_concat};

verus! {

/// Eviction drops a prefix of the groups; returns its length.
proof fn evicted_before_start(groups: Seq<Seq<PacketWrapper>>, incoming: int, min: int) -> (j: int)
    ensures
        0 <= j <= groups.len(),
        evicted_before(groups, incoming, min) == groups.subrange(j, groups.len() as int),
        j > 0 ==> groups_frames(evicted_before(groups, incoming, min)) + incoming > min,
    decreases groups.len(),
{
    let n = groups.len() as int;
    if n == 0 {
        assert(groups.subrange(0, 0) =~= groups);
        0
    } else if frames_suffix(groups, 1) + incoming > min {
        let rest = groups.subrange(1, n);
        let j = evicted_before_start(rest, incoming, min);
        assert(rest.subrange(j, rest.len() as int) =~= groups.subrange(j + 1, n));
        assert(rest.subrange(0, rest.len() as int) =~= rest);
        j + 1
    } else {
        assert(groups.subrange(0, n) =~= groups);
        0
    }
}

/// Inserting never reorders or alters what is held: afterwards the ring
/// holds a suffix of its old packets followed by the new one.
pub proof fn law_wrapped_insert_keeps_order(groups: Seq<Seq<PacketWrapper>>, packet: PacketWrapper, min: int)
    ensures
        ({
            let all = flatten_groups(groups).push(packet);
            let after = flatten_groups(placed(evicted_before(groups, packet.frames(), min), packet));
            &&& exists|k: int| 0 <= k < all.len() && after == #[trigger] all.subrange(k, all.len() as int)
            &&& after.last() == packet
        }),
{
    let n = groups.len() as int;
    let j = evicted_before_start(groups, packet.frames(), min);
    let e = evicted_before(groups, packet.frames(), min);
    lemma_placed(e, packet);
    assert(groups =~= groups.subrange(0, j) + groups.subrange(j, n));
    lemma_flatten_concat(groups.subrange(0, j), groups.subrange(j, n));
    let k = flatten_groups(groups.subrange(0, j)).len() as int;
    let all = flatten_groups(groups).push(packet);
    assert(flatten_groups(e).push(packet) =~= all.subrange(k, all.len() as int));
}

/// Inserting keeps the minimum: afterwards the ring either holds more than
/// the minimum number of frames, or nothing was dropped.
pub proof fn law_wrapped_insert_retains_minimum(groups: Seq<Seq<PacketWrapper>>, packet: PacketWrapper, min: int)
    ensures
        ({
            let after = placed(evicted_before(groups, packet.frames(), min), packet);
            groups_frames(after) > min || groups_frames(after) == groups_frames(groups) + packet.frames()
        }),
{
    let j = evicted_before_start(groups, packet.frames(), min);
    let e = evicted_before(groups, packet.frames(), min);
    lemma_placed(e, packet);
    if j == 0 {
        assert(groups.subrange(0, groups.len() as int) =~= groups);
    }
}

/// Groups of the ring: none is empty, every group but the oldest starts
/// with a key packet, and no group holds a key packet after its first.
pub open spec fn groups_start_at_keys(groups: Seq<Seq<PacketWrapper>>) -> bool {
    &&& forall|i: int| 0 <= i < groups.len() ==> (#[trigger] groups[i]).len() > 0
    &&& forall|i: int| 0 < i < groups.len() ==> (#[trigger] groups[i])[0].packet().is_key
    &&& forall|i: int, j: int|
        0 <= i < groups.len() && 0 < j < groups[i].len() ==> !(#[trigger] groups[i][j]).packet().is_key
}

/// Inserting keeps every group but the oldest starting at a key packet.
pub proof fn law_groups_start_at_keys(groups: Seq<Seq<PacketWrapper>>, packet: PacketWrapper, min: int)
    requires
        groups_start_at_keys(groups),
    ensures
        groups_start_at_keys(placed(evicted_before(groups, packet.frames(), min), packet)),
{
    let j = evicted_before_start(groups, packet.frames(), min);
    let e = evicted_before(groups, packet.frames(), min);
    assert(groups_start_at_keys(e)) by {
        assert forall|i: int| 0 <= i < e.len() implies (#[trigger] e[i]) == groups[i + j] by {}
        assert forall|i: int| 0 < i < e.len() implies (#[trigger] e[i])[0].packet().is_key by {
            assert(e[i] == groups[i + j]);
        }
        assert forall|i: int, k: int|
            0 <= i < e.len() && 0 < k < e[i].len() implies !(#[trigger] e[i][k]).packet().is_key by {
            assert(e[i] == groups[i + j]);
        }
    }
    let p = placed(e, packet);
    if e.len() > 0 && !packet.packet().is_key {
        assert forall|i: int, k: int|
            0 <= i < p.len() && 0 < k < p[i].len() implies !(#[trigger] p[i][k]).packet().is_key by {
            if i == e.len() - 1 && k == e[i].len() {
                assert(p[i][k] == packet);
            } else if i == e.len() - 1 {
                assert(p[i][k] == e[i][k]);
            }
        }
        assert forall|i: int| 0 < i < p.len() implies (#[trigger] p[i])[0].packet().is_key by {
            if i == e.len() - 1 {
                assert(p[i][0] == e[i][0]);
            }
        }
    } else {
        assert forall|i: int| 0 < i < p.len() implies (#[trigger] p[i])[0].packet().is_key by {
            if i == e.len() {
                assert(p[i] == seq![packet]);
            }
        }
    }
}

/// A slice asking for `m` frames holds at least `m` frames, and no
/// shorter slice of whole groups would.
pub proof fn law_slice_covers_request(groups: Seq<Seq<PacketWrapper>>, m: int)
    requires
        slice_fits_below(groups, m, groups.len() as int),
    ensures
        0 <= slice_start(groups, m) <= groups.len(),
        frames_suffix(groups, slice_start(groups, m)) >= m,
        forall|j: int| slice_start(groups, m) < j <= groups.len() ==> #[trigger] frames_suffix(groups, j) < m,
{
    slice_start_facts(groups, m, groups.len() as int);
}

proof fn slice_start_facts(groups: Seq<Seq<PacketWrapper>>, m: int, k: int)
    requires
        0 <= k <= groups.len(),
        slice_fits_below(groups, m, k),
    ensures
        0 <= slice_start_below(groups, m, k) <= k,
        frames_suffix(groups, slice_start_below(groups, m, k)) >= m,
        forall|j: int| slice_start_below(groups, m, k) < j <= k ==> #[trigger] frames_suffix(groups, j) < m,
    decreases k,
{
    if m > frames_suffix(groups, k) {
        slice_start_facts(groups, m, k - 1);
    }
}

} // verus!
