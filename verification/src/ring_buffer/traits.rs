//! The grouping contract of a packet ring buffer and the sequence facts it
//! is stated with.
use std::collections::VecDeque;
use vstd::prelude::*;
use crate::packet::{Packet, packets_duration, running_durations_fit};

verus! {

/// The packets of all groups, group after group.
pub open spec fn flatten_groups<A>(groups: Seq<Seq<A>>) -> Seq<A>
    decreases groups.len(),
{
    if groups.len() == 0 {
        Seq::empty()
    } else {
        flatten_groups(groups.drop_last()) + groups.last()
    }
}

/// The summed duration of all packets of all groups.
pub open spec fn groups_duration(groups: Seq<Seq<Packet>>) -> int {
    packets_duration(flatten_groups(groups))
}

/// The duration of the groups from index `k` to the end.
pub open spec fn suffix_duration(groups: Seq<Seq<Packet>>, k: int) -> int {
    groups_duration(groups.subrange(k, groups.len() as int))
}

/// Whether an integer is a value of `i64`.
pub open spec fn fits_i64(x: int) -> bool {
    i64::MIN <= x <= i64::MAX
}

/// The groups of a sequence of handler items.
pub open spec fn groups_of<T: PacketHandler>(items: Seq<T>) -> Seq<Seq<Packet>> {
    items.map_values(|t: T| t.contents())
}

/// Every item of the sequence keeps its handler's structural invariant.
pub open spec fn all_valid<T: PacketHandler>(items: Seq<T>) -> bool {
    forall|i: int| 0 <= i < items.len() ==> #[trigger] items[i].valid()
}

/// How packets are grouped inside a ring buffer: the buffer evicts and
/// copies out whole groups.
pub trait PacketHandler: Sized {
    /// The packets this item holds, oldest first.
    spec fn contents(&self) -> Seq<Packet>;

    /// The structural invariant of one item.
    spec fn valid(&self) -> bool;

    /// The groups of a container after `packet` has been inserted.
    spec fn inserted_groups(groups: Seq<Seq<Packet>>, packet: Packet) -> Seq<Seq<Packet>>;

    /// Inserting appends the packet to the flattened contents and never
    /// empties the container.
    proof fn lemma_inserted_groups(groups: Seq<Seq<Packet>>, packet: Packet)
        ensures
            flatten_groups(Self::inserted_groups(groups, packet)) == flatten_groups(groups).push(
                packet,
            ),
            Self::inserted_groups(groups, packet).len() >= 1,
            Self::inserted_groups(groups, packet).last().len() >= 1,
            Self::inserted_groups(groups, packet).last().last() == packet,
    ;

    /// Adds `packet` to the container, either to its newest item or as a
    /// new item.
    fn insert(container: &mut VecDeque<Self>, packet: Packet)
        requires
            forall|i: int| 0 <= i < old(container)@.len() ==> #[trigger] old(container)@[i].valid(),
        ensures
            final(container)@.map_values(|t: Self| t.contents()) == Self::inserted_groups(
                old(container)@.map_values(|t: Self| t.contents()),
                packet,
            ),
            forall|i: int| 0 <= i < final(container)@.len() ==> #[trigger] final(container)@[i].valid(),
    ;

    /// The summed duration of the packets of this item.
    fn get_duration(&self) -> (d: i64)
        requires
            self.valid(),
            running_durations_fit(self.contents()),
        ensures
            d == packets_duration(self.contents()),
    ;

    /// The packets of this item, oldest first.
    fn get_contents(&self) -> (c: &[Packet])
        ensures
            c@ == self.contents(),
    ;
}

/// Duration is additive over concatenation.
pub proof fn lemma_duration_concat(a: Seq<Packet>, b: Seq<Packet>)
    ensures
        packets_duration(a + b) == packets_duration(a) + packets_duration(b),
    decreases b.len(),
{
    if b.len() == 0 {
        assert(a + b =~= a);
    } else {
        lemma_duration_concat(a, b.drop_last());
        assert((a + b).drop_last() =~= a + b.drop_last());
    }
}

/// Flattening is additive over concatenation.
pub proof fn lemma_flatten_concat<A>(a: Seq<Seq<A>>, b: Seq<Seq<A>>)
    ensures
        flatten_groups(a + b) == flatten_groups(a) + flatten_groups(b),
    decreases b.len(),
{
    if b.len() == 0 {
        assert(a + b =~= a);
        assert(flatten_groups(a) + flatten_groups(b) =~= flatten_groups(a));
    } else {
        lemma_flatten_concat(a, b.drop_last());
        assert((a + b).drop_last() =~= a + b.drop_last());
        assert(flatten_groups(a + b) =~= flatten_groups(a) + flatten_groups(b));
    }
}

/// The duration of a suffix is its first group's duration plus the
/// duration of the rest.
pub proof fn lemma_suffix_step(groups: Seq<Seq<Packet>>, k: int)
    requires
        0 <= k < groups.len(),
    ensures
        suffix_duration(groups, k) == packets_duration(groups[k]) + suffix_duration(groups, k + 1),
        flatten_groups(groups.subrange(k, groups.len() as int)) == groups[k] + flatten_groups(
            groups.subrange(k + 1, groups.len() as int),
        ),
{
    let n = groups.len() as int;
    let rest = groups.subrange(k + 1, n);
    assert(groups.subrange(k, n) =~= seq![groups[k]] + rest);
    lemma_flatten_concat(seq![groups[k]], rest);
    assert(seq![groups[k]].drop_last() =~= Seq::<Seq<Packet>>::empty());
    assert(flatten_groups(Seq::<Seq<Packet>>::empty()) == Seq::<Packet>::empty());
    assert(flatten_groups(seq![groups[k]]) =~= groups[k]);
    lemma_duration_concat(groups[k], flatten_groups(rest));
}

/// Extending a prefix of groups by one group flattens to the old prefix
/// followed by that group.
pub proof fn lemma_prefix_step<A>(groups: Seq<Seq<A>>, j: int, k: int)
    requires
        0 <= j <= k < groups.len(),
    ensures
        flatten_groups(groups.subrange(j, k + 1)) == flatten_groups(groups.subrange(j, k))
            + groups[k],
{
    assert(groups.subrange(j, k + 1).drop_last() =~= groups.subrange(j, k));
}

/// The groups of a sequence without its first item are the groups without
/// their first group.
pub proof fn lemma_groups_of_skip<T: PacketHandler>(items: Seq<T>, k: int)
    requires
        0 <= k <= items.len(),
    ensures
        groups_of(items.subrange(k, items.len() as int)) == groups_of(items).subrange(
            k,
            items.len() as int,
        ),
{
    assert(groups_of(items.subrange(k, items.len() as int)) =~= groups_of(items).subrange(
        k,
        items.len() as int,
    ));
}

} // verus!
