use clip_recorder::capturer::packet_ring_buffer::{PacketWrapper, PacketWrappersWrapper, RingBuffer as WrappedRing};
use clip_recorder::packet::Packet;
use clip_recorder::ring_buffer::packet_handlers::KeyFrameStartPacketWrapper;
use clip_recorder::ring_buffer::ring_buffer::RingBuffer;
use clip_recorder::ring_buffer::traits::PacketHandler;
use std::collections::VecDeque;

fn packet(pts: i64, duration: i64, is_key: bool) -> Packet {
    Packet::new(vec![pts as u8, 0xAB], Some(pts), Some(pts), duration, is_key)
}

fn pts_of(packets: &[Packet]) -> Vec<i64> {
    packets.iter().map(|p| p.pts.unwrap()).collect()
}

#[test]
fn single_packet_ring_keeps_minimum_frames() {
    let mut ring: RingBuffer<Packet> = RingBuffer::new(3);
    for pts in 1..=5 {
        ring.insert(packet(pts, 1, false));
    }
    // After the fifth packet the total is 5; dropping the oldest leaves 4 > 3,
    // dropping another would leave 3, which is not more than the minimum.
    assert_eq!(pts_of(&ring.copy_out(None)), vec![2, 3, 4, 5]);
}

#[test]
fn single_packet_ring_copies_the_newest_frames_requested() {
    let mut ring: RingBuffer<Packet> = RingBuffer::new(10);
    for pts in 1..=6 {
        ring.insert(packet(pts, 2, false));
    }
    assert_eq!(pts_of(&ring.copy_out(Some(3))), vec![5, 6]);
    assert_eq!(pts_of(&ring.copy_out(Some(4))), vec![5, 6]);
    assert_eq!(pts_of(&ring.copy_out(Some(5))), vec![4, 5, 6]);
    assert_eq!(pts_of(&ring.copy_out(Some(1000))), vec![1, 2, 3, 4, 5, 6]);
    assert_eq!(pts_of(&ring.copy_out(Some(0))), vec![6]);
}

#[test]
fn copy_out_copies_payload_and_metadata() {
    let mut ring: RingBuffer<Packet> = RingBuffer::new(10);
    ring.insert(Packet::new(vec![1, 2, 3], Some(7), Some(6), 4, true));
    let out = ring.copy_out(None);
    assert_eq!(out.len(), 1);
    assert_eq!(out[0].data, vec![1, 2, 3]);
    assert_eq!(out[0].pts, Some(7));
    assert_eq!(out[0].dts, Some(6));
    assert_eq!(out[0].duration, 4);
    assert!(out[0].is_key);
}

#[test]
fn empty_ring_copies_nothing() {
    let ring: RingBuffer<Packet> = RingBuffer::new(5);
    assert!(ring.copy_out(None).is_empty());
    assert!(ring.copy_out(Some(3)).is_empty());
}

#[test]
fn key_frame_runs_close_after_key_packets() {
    let mut ring: RingBuffer<KeyFrameStartPacketWrapper> = RingBuffer::new(100);
    // Runs: [1k] [2, 3, 4k] [5, 6]
    ring.insert(packet(1, 1, true));
    ring.insert(packet(2, 1, false));
    ring.insert(packet(3, 1, false));
    ring.insert(packet(4, 1, true));
    ring.insert(packet(5, 1, false));
    ring.insert(packet(6, 1, false));
    assert_eq!(pts_of(&ring.copy_out(None)), vec![1, 2, 3, 4, 5, 6]);
    // The newest run holds 2 frames: asking for 2 copies only it.
    assert_eq!(pts_of(&ring.copy_out(Some(2))), vec![5, 6]);
    // Asking for 3 takes the whole previous run too.
    assert_eq!(pts_of(&ring.copy_out(Some(3))), vec![2, 3, 4, 5, 6]);
}

#[test]
fn key_frame_ring_evicts_whole_runs() {
    let mut ring: RingBuffer<KeyFrameStartPacketWrapper> = RingBuffer::new(2);
    // Runs: [1, 2k] [3, 4k] [5]
    ring.insert(packet(1, 1, false));
    ring.insert(packet(2, 1, true));
    ring.insert(packet(3, 1, false));
    ring.insert(packet(4, 1, true));
    // total 4: dropping run [1, 2k] leaves 2, not more than 2: kept.
    assert_eq!(pts_of(&ring.copy_out(None)), vec![1, 2, 3, 4]);
    ring.insert(packet(5, 1, false));
    // total 5: dropping [1, 2k] leaves 3 > 2; dropping [3, 4k] would leave 1.
    assert_eq!(pts_of(&ring.copy_out(None)), vec![3, 4, 5]);
}

#[test]
fn key_frame_wrapper_reports_duration_and_contents() {
    let mut container: VecDeque<KeyFrameStartPacketWrapper> = VecDeque::new();
    KeyFrameStartPacketWrapper::insert(&mut container, packet(1, 3, false));
    KeyFrameStartPacketWrapper::insert(&mut container, packet(2, 4, true));
    KeyFrameStartPacketWrapper::insert(&mut container, packet(3, 5, false));
    assert_eq!(container.len(), 2);
    assert_eq!(container[0].get_duration(), 7);
    assert_eq!(pts_of(container[0].get_contents()), vec![1, 2]);
    assert_eq!(container[1].get_duration(), 5);
    assert!(KeyFrameStartPacketWrapper::new().get_contents().is_empty());
}

#[test]
fn single_packet_handler_is_its_own_group() {
    let mut container: VecDeque<Packet> = VecDeque::new();
    Packet::insert(&mut container, packet(1, 9, true));
    Packet::insert(&mut container, packet(2, 9, true));
    assert_eq!(container.len(), 2);
    assert_eq!(container[1].get_duration(), 9);
    assert_eq!(pts_of(container[1].get_contents()), vec![2]);
}

#[test]
fn wrapped_ring_groups_start_at_key_packets() {
    let mut ring = WrappedRing::new(100);
    // Groups: [1] [2k, 3] [4k]
    ring.insert(PacketWrapper::new(1, packet(1, 0, false)));
    ring.insert(PacketWrapper::new(1, packet(2, 0, true)));
    ring.insert(PacketWrapper::new(1, packet(3, 0, false)));
    ring.insert(PacketWrapper::new(1, packet(4, 0, true)));
    assert_eq!(pts_of(&ring.get_slice(None)), vec![1, 2, 3, 4]);
    assert_eq!(pts_of(&ring.get_slice(Some(1))), vec![4]);
    assert_eq!(pts_of(&ring.get_slice(Some(2))), vec![2, 3, 4]);
    assert_eq!(pts_of(&ring.get_slice(Some(3))), vec![2, 3, 4]);
    assert_eq!(pts_of(&ring.get_slice(Some(4))), vec![1, 2, 3, 4]);
    assert!(ring.get_slice(Some(0)).is_empty());
}

#[test]
fn wrapped_ring_evicts_before_placing_the_packet() {
    let mut ring = WrappedRing::new(2);
    ring.insert(PacketWrapper::new(1, packet(1, 0, true)));
    ring.insert(PacketWrapper::new(1, packet(2, 0, true)));
    // counter 3 with the new packet: dropping [1] leaves 2, not more than 2.
    ring.insert(PacketWrapper::new(1, packet(3, 0, true)));
    assert_eq!(pts_of(&ring.get_slice(None)), vec![1, 2, 3]);
    // counter 4: dropping [1] leaves 3 > 2, dropping [2] leaves 2.
    ring.insert(PacketWrapper::new(1, packet(4, 0, false)));
    assert_eq!(pts_of(&ring.get_slice(None)), vec![2, 3, 4]);
}

#[test]
fn wrapped_ring_starts_a_group_when_everything_was_dropped() {
    let mut ring = WrappedRing::new(0);
    ring.insert(PacketWrapper::new(5, packet(1, 0, true)));
    // counter 10: dropping [1] leaves the new packet's 5 > 0, so the ring
    // empties, and the non-key packet starts a fresh group.
    ring.insert(PacketWrapper::new(5, packet(2, 0, false)));
    assert_eq!(pts_of(&ring.get_slice(None)), vec![2]);
}

#[test]
fn packet_wrapper_accessors() {
    let w = PacketWrapper::new(3, packet(9, 0, true));
    assert_eq!(w.frame_amount(), 3);
    assert!(w.is_key());
    assert_eq!(w.packet_copy().pts, Some(9));
    let mut group = PacketWrappersWrapper::new();
    group.insert(w);
}

#[test]
fn can_insert_checks_signs_and_total() {
    let mut ring: RingBuffer<Packet> = RingBuffer::new(5);
    assert!(ring.can_insert(&packet(1, 3, true)));
    assert!(!ring.can_insert(&packet(1, -1, true)));
    ring.insert(packet(1, i64::MAX - 10, true));
    assert!(ring.can_insert(&packet(2, 10, false)));
    assert!(!ring.can_insert(&packet(2, 11, false)));
    let mut neg: RingBuffer<Packet> = RingBuffer::new(100);
    neg.insert(packet(1, -4, true));
    assert!(!neg.can_insert(&packet(2, 1, false)));
}
