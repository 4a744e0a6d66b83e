//! The library's model of one encoded media packet.
use vstd::prelude::*;

verus! {

/// What the recorder reads of an encoded packet: its payload, its
/// presentation and decoding timestamps, its duration in stream time-base
/// units and whether it starts a key frame.
pub struct Packet {
    pub data: Vec<u8>,
    pub pts: Option<i64>,
    pub dts: Option<i64>,
    pub duration: i64,
    pub is_key: bool,
}

/// The mathematical value of a [`Packet`].
pub struct PacketView {
    pub data: Seq<u8>,
    pub pts: Option<i64>,
    pub dts: Option<i64>,
    pub duration: i64,
    pub is_key: bool,
}

impl View for Packet {
    type V = PacketView;

    open spec fn view(&self) -> PacketView {
        PacketView {
            data: self.data@,
            pts: self.pts,
            dts: self.dts,
            duration: self.duration,
            is_key: self.is_key,
        }
    }
}

/// The views of a sequence of packets, element by element.
pub open spec fn packet_views(s: Seq<Packet>) -> Seq<PacketView> {
    s.map_values(|p: Packet| p@)
}

/// The summed duration of a sequence of packets.
pub open spec fn packets_duration(s: Seq<Packet>) -> int
    decreases s.len(),
{
    if s.len() == 0 {
        0
    } else {
        packets_duration(s.drop_last()) + s.last().duration
    }
}

/// Every running total of the durations, from the first packet on, fits
/// in an `i64`.
pub open spec fn running_durations_fit(s: Seq<Packet>) -> bool {
    forall|k: int| 0 <= k <= s.len() ==> i64::MIN <= #[trigger] packets_duration(s.take(k)) <= i64::MAX
}

/// Viewing is element-wise, so it distributes over concatenation.
pub proof fn lemma_views_concat(a: Seq<Packet>, b: Seq<Packet>)
    ensures
        packet_views(a + b) == packet_views(a) + packet_views(b),
{
    assert(packet_views(a + b) =~= packet_views(a) + packet_views(b));
}

impl Packet {
    /// Builds a packet from its parts.
    pub fn new(data: Vec<u8>, pts: Option<i64>, dts: Option<i64>, duration: i64, is_key: bool) -> (p: Packet)
        ensures
            p.data@ == data@,
            p.pts == pts,
            p.dts == dts,
            p.duration == duration,
            p.is_key == is_key,
    {
        Packet { data, pts, dts, duration, is_key }
    }

    /// An independent copy of this packet, with the same payload and
    /// metadata.
    pub fn duplicate(&self) -> (p: Packet)
        ensures
            p@ == self@,
    {
        Packet {
            data: self.data.clone(),
            pts: self.pts,
            dts: self.dts,
            duration: self.duration,
            is_key: self.is_key,
        }
    }
}

} // verus!
