use reticulum_node::ble::fragmentation::BleAddress;
use reticulum_node::ble::fragmentation::Fragment;
use reticulum_node::ble::fragmentation::FragmentError;
use reticulum_node::ble::fragmentation::Fragmenter;
use reticulum_node::ble::fragmentation::FLAG_FIRST_FRAGMENT;
use reticulum_node::ble::fragmentation::FLAG_MORE_FRAGMENTS;
use reticulum_node::ble::reassembly::Reassembler;

const TEST_SOURCE: BleAddress = BleAddress([0x11, 0x22, 0x33, 0x44, 0x55, 0x66]);
const TEST_SOURCE_2: BleAddress = BleAddress([0xAA, 0xBB, 0xCC, 0xDD, 0xEE, 0xFF]);
const FIVE_SECONDS: u64 = 5_000_000;

#[test]
fn test_fragment_serialize_deserialize() {
    let fragment = Fragment::new(42, FLAG_FIRST_FRAGMENT | FLAG_MORE_FRAGMENTS, vec![1, 2, 3]);
    let bytes = fragment.to_bytes();
    assert_eq!(bytes, vec![42, 0x03, 1, 2, 3]);
    let decoded = Fragment::from_bytes(&bytes).unwrap();
    assert_eq!(decoded, fragment);
}

#[test]
fn test_fragment_write_to_buffer() {
    let fragment = Fragment::new(1, FLAG_FIRST_FRAGMENT, vec![10, 20, 30]);
    let mut buf = [0u8; 10];
    let len = fragment.write_to(&mut buf).unwrap();
    assert_eq!(len, 5);
    assert_eq!(&buf[..5], &[1, FLAG_FIRST_FRAGMENT, 10, 20, 30]);
    let mut small_buf = [0u8; 2];
    assert_eq!(fragment.write_to(&mut small_buf), Err(FragmentError::BufferTooSmall));
}

#[test]
fn test_fragment_flags() {
    let first = Fragment::new(0, FLAG_FIRST_FRAGMENT, vec![]);
    assert!(first.is_first());
    assert!(!first.has_more());
    assert!(first.has_valid_flags());
    let middle = Fragment::new(1, FLAG_MORE_FRAGMENTS, vec![]);
    assert!(!middle.is_first());
    assert!(middle.has_more());
    assert!(middle.has_valid_flags());
    let first_with_more = Fragment::new(0, FLAG_FIRST_FRAGMENT | FLAG_MORE_FRAGMENTS, vec![]);
    assert!(first_with_more.is_first());
    assert!(first_with_more.has_more());
    assert!(first_with_more.has_valid_flags());
    let last = Fragment::new(2, 0, vec![]);
    assert!(!last.is_first());
    assert!(!last.has_more());
    assert!(last.has_valid_flags());
    let invalid = Fragment::new(0, 0xFF, vec![]);
    assert!(!invalid.has_valid_flags());
    let invalid2 = Fragment::new(0, 0x04, vec![]);
    assert!(!invalid2.has_valid_flags());
}

#[test]
fn test_fragment_from_bytes_too_short() {
    assert_eq!(Fragment::from_bytes(&[]), Err(FragmentError::TooShort));
    assert_eq!(Fragment::from_bytes(&[0]), Err(FragmentError::TooShort));
    assert!(Fragment::from_bytes(&[0, 0]).is_ok());
}

#[test]
fn test_fragmenter_single_fragment() {
    let mut fragmenter = Fragmenter::new(20);
    let packet = vec![1, 2, 3, 4, 5];
    let fragments = fragmenter.fragment(&packet).unwrap();
    assert_eq!(fragments.len(), 1);
    assert!(fragments[0].is_first());
    assert!(!fragments[0].has_more());
    assert_eq!(fragments[0].payload, packet);
}

#[test]
fn test_fragmenter_multiple_fragments() {
    let mut fragmenter = Fragmenter::new(5);
    let packet = vec![1, 2, 3, 4, 5, 6, 7, 8];
    let fragments = fragmenter.fragment(&packet).unwrap();
    assert_eq!(fragments.len(), 3);
    assert!(fragments[0].is_first());
    assert!(fragments[0].has_more());
    assert_eq!(fragments[0].payload, vec![1, 2, 3]);
    assert!(!fragments[1].is_first());
    assert!(fragments[1].has_more());
    assert_eq!(fragments[1].payload, vec![4, 5, 6]);
    assert!(!fragments[2].is_first());
    assert!(!fragments[2].has_more());
    assert_eq!(fragments[2].payload, vec![7, 8]);
}

#[test]
fn test_fragmenter_exact_fit() {
    let mut fragmenter = Fragmenter::new(5);
    let packet = vec![1, 2, 3, 4, 5, 6];
    let fragments = fragmenter.fragment(&packet).unwrap();
    assert_eq!(fragments.len(), 2);
    assert_eq!(fragments[0].payload, vec![1, 2, 3]);
    assert_eq!(fragments[1].payload, vec![4, 5, 6]);
}

#[test]
fn test_fragmenter_empty_packet() {
    let mut fragmenter = Fragmenter::new(20);
    assert_eq!(fragmenter.fragment(&[]), Err(FragmentError::EmptyPacket));
}

#[test]
fn test_fragmenter_sequence_increment() {
    let mut fragmenter = Fragmenter::new(5);
    let frags1 = fragmenter.fragment(&[1, 2, 3]).unwrap();
    let frags2 = fragmenter.fragment(&[4, 5, 6]).unwrap();
    assert_eq!(frags1[0].sequence + 1, frags2[0].sequence);
}

#[test]
fn test_fragmenter_sequence_wraparound() {
    let mut fragmenter = Fragmenter::new(5);
    fragmenter.set_next_sequence(254);
    let fragments = fragmenter.fragment(&[1, 2, 3, 4, 5, 6, 7, 8, 9]).unwrap();
    assert_eq!(fragments[0].sequence, 254);
    assert_eq!(fragments[1].sequence, 255);
    assert_eq!(fragments[2].sequence, 0);
}

#[test]
fn test_fragmenter_max_payload() {
    let fragmenter = Fragmenter::new(20);
    assert_eq!(fragmenter.max_payload(), 18);
    let fragmenter = Fragmenter::new(512);
    assert_eq!(fragmenter.max_payload(), 510);
}

#[test]
fn test_fragmenter_needs_fragmentation() {
    let fragmenter = Fragmenter::new(20);
    assert!(!fragmenter.needs_fragmentation(10));
    assert!(!fragmenter.needs_fragmentation(18));
    assert!(fragmenter.needs_fragmentation(19));
    assert!(fragmenter.needs_fragmentation(100));
}

#[test]
fn test_fragmenter_mtu_too_small() {
    assert!(matches!(Fragmenter::try_new(0), Err(FragmentError::MtuTooSmall)));
    assert!(matches!(Fragmenter::try_new(1), Err(FragmentError::MtuTooSmall)));
    assert!(matches!(Fragmenter::try_new(2), Err(FragmentError::MtuTooSmall)));
    assert!(Fragmenter::try_new(3).is_ok());
}

#[test]
fn test_reassembler_single_fragment() {
    let mut reassembler = Reassembler::new(FIVE_SECONDS);
    let fragment = Fragment::new(0, FLAG_FIRST_FRAGMENT, vec![1, 2, 3]);
    let result = reassembler.add_fragment(TEST_SOURCE, fragment);
    assert_eq!(result, Some(vec![1, 2, 3]));
    assert_eq!(reassembler.pending_count(), 0);
}

#[test]
fn test_reassembler_multiple_fragments() {
    let mut reassembler = Reassembler::new(FIVE_SECONDS);
    let frag1 = Fragment::new(0, FLAG_FIRST_FRAGMENT | FLAG_MORE_FRAGMENTS, vec![1, 2]);
    let frag2 = Fragment::new(1, FLAG_MORE_FRAGMENTS, vec![3, 4]);
    let frag3 = Fragment::new(2, 0, vec![5, 6]);
    assert_eq!(reassembler.add_fragment(TEST_SOURCE, frag1), None);
    assert_eq!(reassembler.pending_count(), 1);
    assert_eq!(reassembler.add_fragment(TEST_SOURCE, frag2), None);
    assert_eq!(reassembler.pending_count(), 1);
    let result = reassembler.add_fragment(TEST_SOURCE, frag3);
    assert_eq!(result, Some(vec![1, 2, 3, 4, 5, 6]));
    assert_eq!(reassembler.pending_count(), 0);
}

#[test]
fn test_reassembler_out_of_order() {
    let mut reassembler = Reassembler::new(FIVE_SECONDS);
    let frag1 = Fragment::new(0, FLAG_FIRST_FRAGMENT | FLAG_MORE_FRAGMENTS, vec![1, 2]);
    let frag3 = Fragment::new(2, 0, vec![5, 6]);
    let frag2 = Fragment::new(1, FLAG_MORE_FRAGMENTS, vec![3, 4]);
    assert_eq!(reassembler.add_fragment(TEST_SOURCE, frag1), None);
    assert_eq!(reassembler.add_fragment(TEST_SOURCE, frag3), None);
    let result = reassembler.add_fragment(TEST_SOURCE, frag2);
    assert_eq!(result, Some(vec![1, 2, 3, 4, 5, 6]));
}

#[test]
fn test_reassembler_duplicate_fragment() {
    let mut reassembler = Reassembler::new(FIVE_SECONDS);
    let frag1 = Fragment::new(0, FLAG_FIRST_FRAGMENT | FLAG_MORE_FRAGMENTS, vec![1, 2]);
    let frag1_dup = Fragment::new(0, FLAG_FIRST_FRAGMENT | FLAG_MORE_FRAGMENTS, vec![1, 2]);
    let frag2 = Fragment::new(1, 0, vec![3, 4]);
    assert_eq!(reassembler.add_fragment(TEST_SOURCE, frag1), None);
    assert_eq!(reassembler.add_fragment(TEST_SOURCE, frag1_dup), None);
    let result = reassembler.add_fragment(TEST_SOURCE, frag2);
    assert_eq!(result, Some(vec![1, 2, 3, 4]));
}

#[test]
fn test_reassembler_orphan_fragment() {
    let mut reassembler = Reassembler::new(FIVE_SECONDS);
    let orphan = Fragment::new(5, FLAG_MORE_FRAGMENTS, vec![1, 2, 3]);
    assert_eq!(reassembler.add_fragment(TEST_SOURCE, orphan), None);
    assert_eq!(reassembler.pending_count(), 0);
}

#[test]
fn test_reassembler_invalid_flags() {
    let mut reassembler = Reassembler::new(FIVE_SECONDS);
    let invalid = Fragment::new(0, 0xFF, vec![1, 2, 3]);
    assert_eq!(reassembler.add_fragment(TEST_SOURCE, invalid), None);
    assert_eq!(reassembler.pending_count(), 0);
}

#[test]
fn test_reassembler_max_pending_limit() {
    let mut reassembler = Reassembler::with_limits(FIVE_SECONDS, 2, 32);
    let src1 = BleAddress::new([1, 0, 0, 0, 0, 0]);
    let src2 = BleAddress::new([2, 0, 0, 0, 0, 0]);
    let src3 = BleAddress::new([3, 0, 0, 0, 0, 0]);
    reassembler.add_fragment(src1, Fragment::new(0, FLAG_FIRST_FRAGMENT | FLAG_MORE_FRAGMENTS, vec![1]));
    reassembler.add_fragment(src2, Fragment::new(0, FLAG_FIRST_FRAGMENT | FLAG_MORE_FRAGMENTS, vec![2]));
    reassembler.add_fragment(src3, Fragment::new(0, FLAG_FIRST_FRAGMENT | FLAG_MORE_FRAGMENTS, vec![3]));
    assert_eq!(reassembler.pending_count(), 2);
}

#[test]
fn test_reassembler_evicts_the_oldest() {
    let mut reassembler = Reassembler::with_limits(FIVE_SECONDS, 2, 32);
    let src1 = BleAddress::new([1, 0, 0, 0, 0, 0]);
    let src2 = BleAddress::new([2, 0, 0, 0, 0, 0]);
    let src3 = BleAddress::new([3, 0, 0, 0, 0, 0]);
    let open = FLAG_FIRST_FRAGMENT | FLAG_MORE_FRAGMENTS;
    assert_eq!(reassembler.add_fragment_at(src1, Fragment::new(0, open, vec![1]), 20), None);
    assert_eq!(reassembler.add_fragment_at(src2, Fragment::new(0, open, vec![2]), 10), None);
    assert_eq!(reassembler.add_fragment_at(src3, Fragment::new(0, open, vec![3]), 30), None);
    // src2 was opened earliest and is gone; src1 and src3 complete.
    assert_eq!(reassembler.add_fragment_at(src2, Fragment::new(1, 0, vec![9]), 30), None);
    assert_eq!(reassembler.add_fragment_at(src1, Fragment::new(1, 0, vec![9]), 30), Some(vec![1, 9]));
    assert_eq!(reassembler.add_fragment_at(src3, Fragment::new(1, 0, vec![9]), 30), Some(vec![3, 9]));
    assert_eq!(reassembler.pending_count(), 0);
}

#[test]
fn test_reassembler_max_fragments_limit() {
    let mut reassembler = Reassembler::with_limits(FIVE_SECONDS, 8, 2);
    reassembler.add_fragment(TEST_SOURCE, Fragment::new(0, FLAG_FIRST_FRAGMENT | FLAG_MORE_FRAGMENTS, vec![1]));
    reassembler.add_fragment(TEST_SOURCE, Fragment::new(1, FLAG_MORE_FRAGMENTS, vec![2]));
    reassembler.add_fragment(TEST_SOURCE, Fragment::new(2, 0, vec![3]));
    assert_eq!(reassembler.pending_count(), 0);
}

#[test]
fn test_reassembler_clear() {
    let mut reassembler = Reassembler::new(FIVE_SECONDS);
    let frag = Fragment::new(0, FLAG_FIRST_FRAGMENT | FLAG_MORE_FRAGMENTS, vec![1, 2]);
    reassembler.add_fragment(TEST_SOURCE, frag);
    assert_eq!(reassembler.pending_count(), 1);
    reassembler.clear();
    assert_eq!(reassembler.pending_count(), 0);
}

#[test]
fn test_reassembler_timeout_drops_stale_reassembly() {
    let mut reassembler = Reassembler::new(FIVE_SECONDS);
    let open = FLAG_FIRST_FRAGMENT | FLAG_MORE_FRAGMENTS;
    assert_eq!(reassembler.add_fragment_at(TEST_SOURCE, Fragment::new(0, open, vec![1]), 1_000), None);
    // exactly at the timeout the reassembly is still alive
    reassembler.cleanup_expired_at(1_000 + FIVE_SECONDS);
    assert_eq!(reassembler.pending_count(), 1);
    reassembler.cleanup_expired_at(1_001 + FIVE_SECONDS);
    assert_eq!(reassembler.pending_count(), 0);
    assert_eq!(reassembler.add_fragment_at(TEST_SOURCE, Fragment::new(1, 0, vec![2]), 1_002 + FIVE_SECONDS), None);
}

#[test]
fn test_reassembler_drops_fragment_beyond_the_last() {
    let mut reassembler = Reassembler::new(FIVE_SECONDS);
    let open = FLAG_FIRST_FRAGMENT | FLAG_MORE_FRAGMENTS;
    assert_eq!(reassembler.add_fragment_at(TEST_SOURCE, Fragment::new(0, open, vec![1]), 0), None);
    assert_eq!(reassembler.add_fragment_at(TEST_SOURCE, Fragment::new(2, 0, vec![3]), 0), None);
    // sequence 5 lies beyond the last fragment: dropped, nothing changes
    assert_eq!(reassembler.add_fragment_at(TEST_SOURCE, Fragment::new(5, FLAG_MORE_FRAGMENTS, vec![9]), 0), None);
    assert_eq!(reassembler.pending_count(), 1);
    assert_eq!(reassembler.add_fragment_at(TEST_SOURCE, Fragment::new(1, FLAG_MORE_FRAGMENTS, vec![2]), 0), Some(vec![1, 2, 3]));
}

#[test]
fn test_reassembler_ignores_fragment_outside_forward_window() {
    let mut reassembler = Reassembler::new(FIVE_SECONDS);
    let open = FLAG_FIRST_FRAGMENT | FLAG_MORE_FRAGMENTS;
    assert_eq!(reassembler.add_fragment_at(TEST_SOURCE, Fragment::new(10, open, vec![1]), 0), None);
    // 10 + 128 is outside the window, 9 lies behind the first fragment
    assert_eq!(reassembler.add_fragment_at(TEST_SOURCE, Fragment::new(138, 0, vec![2]), 0), None);
    assert_eq!(reassembler.add_fragment_at(TEST_SOURCE, Fragment::new(9, 0, vec![2]), 0), None);
    assert_eq!(reassembler.pending_count(), 1);
    assert_eq!(reassembler.add_fragment_at(TEST_SOURCE, Fragment::new(11, 0, vec![2]), 0), Some(vec![1, 2]));
}

#[test]
fn test_fragment_and_reassemble_roundtrip() {
    let mut fragmenter = Fragmenter::new(10);
    let mut reassembler = Reassembler::new(FIVE_SECONDS);
    let original = vec![1, 2, 3, 4, 5, 6, 7, 8, 9, 10, 11, 12, 13, 14, 15];
    let fragments = fragmenter.fragment(&original).unwrap();
    assert!(fragments.len() > 1);
    let mut result = None;
    for fragment in fragments {
        result = reassembler.add_fragment(TEST_SOURCE, fragment);
    }
    assert_eq!(result, Some(original));
}

#[test]
fn test_multiple_concurrent_reassemblies() {
    let mut fragmenter = Fragmenter::new(5);
    let mut reassembler = Reassembler::new(FIVE_SECONDS);
    let packet1 = vec![1, 2, 3, 4, 5, 6];
    let packet2 = vec![10, 20, 30, 40, 50, 60];
    let frags1 = fragmenter.fragment(&packet1).unwrap();
    let frags2 = fragmenter.fragment(&packet2).unwrap();
    reassembler.add_fragment(TEST_SOURCE, frags1[0].clone());
    reassembler.add_fragment(TEST_SOURCE_2, frags2[0].clone());
    assert_eq!(reassembler.pending_count(), 2);
    let result1 = reassembler.add_fragment(TEST_SOURCE, frags1[1].clone());
    assert_eq!(result1, Some(packet1));
    let result2 = reassembler.add_fragment(TEST_SOURCE_2, frags2[1].clone());
    assert_eq!(result2, Some(packet2));
    assert_eq!(reassembler.pending_count(), 0);
}

#[test]
fn test_large_packet_fragmentation() {
    let mut fragmenter = Fragmenter::new(20);
    let mut reassembler = Reassembler::new(FIVE_SECONDS);
    let original: Vec<u8> = (0..=255).cycle().take(500).collect();
    let fragments = fragmenter.fragment(&original).unwrap();
    assert_eq!(fragments.len(), 28);
    let mut result = None;
    for fragment in fragments {
        result = reassembler.add_fragment(TEST_SOURCE, fragment);
    }
    assert_eq!(result.as_ref().map(|v| v.len()), Some(500));
    assert_eq!(result, Some(original));
}

#[test]
fn test_large_packet_first_then_reverse_order() {
    let mut fragmenter = Fragmenter::new(20);
    let mut reassembler = Reassembler::new(FIVE_SECONDS);
    let original: Vec<u8> = (0..=255).cycle().take(500).collect();
    let fragments = fragmenter.fragment(&original).unwrap();
    assert_eq!(fragments.len(), 28);
    let mut results = Vec::new();
    results.push(reassembler.add_fragment(TEST_SOURCE, fragments[0].clone()));
    for fragment in fragments[1..].iter().rev() {
        results.push(reassembler.add_fragment(TEST_SOURCE, fragment.clone()));
    }
    assert!(results[..27].iter().all(|r| r.is_none()));
    assert_eq!(results[27], Some(original));
    assert_eq!(reassembler.pending_count(), 0);
}

#[test]
fn test_sequence_wraparound_in_reassembly() {
    let mut fragmenter = Fragmenter::new(5);
    fragmenter.set_next_sequence(254);
    let mut reassembler = Reassembler::new(FIVE_SECONDS);
    let packet = vec![1, 2, 3, 4, 5, 6, 7, 8, 9];
    let fragments = fragmenter.fragment(&packet).unwrap();
    assert_eq!(fragments[0].sequence, 254);
    assert_eq!(fragments[1].sequence, 255);
    assert_eq!(fragments[2].sequence, 0);
    let mut result = None;
    for fragment in fragments {
        result = reassembler.add_fragment(TEST_SOURCE, fragment);
    }
    assert_eq!(result, Some(packet));
}

#[test]
fn test_concurrent_reassemblies_same_sequence_different_sources() {
    let mut reassembler = Reassembler::new(FIVE_SECONDS);
    let frag1_src1 = Fragment::new(0, FLAG_FIRST_FRAGMENT | FLAG_MORE_FRAGMENTS, vec![1, 2]);
    let frag2_src1 = Fragment::new(1, 0, vec![3, 4]);
    let frag1_src2 = Fragment::new(0, FLAG_FIRST_FRAGMENT | FLAG_MORE_FRAGMENTS, vec![10, 20]);
    let frag2_src2 = Fragment::new(1, 0, vec![30, 40]);
    assert_eq!(reassembler.add_fragment(TEST_SOURCE, frag1_src1), None);
    assert_eq!(reassembler.add_fragment(TEST_SOURCE_2, frag1_src2), None);
    assert_eq!(reassembler.pending_count(), 2);
    let result2 = reassembler.add_fragment(TEST_SOURCE_2, frag2_src2);
    assert_eq!(result2, Some(vec![10, 20, 30, 40]));
    let result1 = reassembler.add_fragment(TEST_SOURCE, frag2_src1);
    assert_eq!(result1, Some(vec![1, 2, 3, 4]));
    assert_eq!(reassembler.pending_count(), 0);
}

#[test]
fn test_interleaved_delivery_from_two_peers() {
    let mut reassembler = Reassembler::new(FIVE_SECONDS);
    let open = FLAG_FIRST_FRAGMENT | FLAG_MORE_FRAGMENTS;
    assert_eq!(reassembler.add_fragment(TEST_SOURCE, Fragment::new(0, open, vec![1, 2])), None);
    assert_eq!(reassembler.add_fragment(TEST_SOURCE_2, Fragment::new(0, open, vec![10, 20])), None);
    assert_eq!(reassembler.add_fragment(TEST_SOURCE_2, Fragment::new(1, 0, vec![30, 40])), Some(vec![10, 20, 30, 40]));
    assert_eq!(reassembler.add_fragment(TEST_SOURCE, Fragment::new(1, 0, vec![3, 4])), Some(vec![1, 2, 3, 4]));
}

#[test]
fn test_ble_address_accessors() {
    let a = BleAddress::new([1, 2, 3, 4, 5, 6]);
    assert_eq!(a.as_bytes(), &[1, 2, 3, 4, 5, 6]);
    assert_eq!(BleAddress::zero().as_bytes(), &[0; 6]);
    assert!(a.same(&BleAddress::new([1, 2, 3, 4, 5, 6])));
    assert!(!a.same(&BleAddress::zero()));
}

#[test]
fn test_fragments_before_the_first_are_dropped() {
    let mut fragmenter = Fragmenter::new(20);
    let mut reassembler = Reassembler::new(FIVE_SECONDS);
    let packet: Vec<u8> = (0..=255).cycle().take(500).collect();
    let fragments = fragmenter.fragment(&packet).unwrap();
    // in strict reverse order every fragment but the first finds no
    // reassembly to belong to
    for fragment in fragments.iter().rev() {
        assert_eq!(reassembler.add_fragment(TEST_SOURCE, fragment.clone()), None);
    }
    assert_eq!(reassembler.pending_count(), 1);
    // once the first fragment is there the others complete the packet
    let mut results = Vec::new();
    for fragment in fragments[1..].iter().rev() {
        results.push(reassembler.add_fragment(TEST_SOURCE, fragment.clone()));
    }
    assert!(results[..26].iter().all(|r| r.is_none()));
    assert_eq!(results[26], Some(packet));
}

#[test]
fn test_fragment_count_is_length_over_payload_rounded_up() {
    for (mtu, len, count) in [(3usize, 1usize, 1usize), (3, 7, 7), (20, 18, 1), (20, 19, 2), (20, 36, 2), (20, 37, 3), (512, 500, 1)] {
        let mut fragmenter = Fragmenter::new(mtu);
        let packet = vec![7u8; len];
        let fragments = fragmenter.fragment(&packet).unwrap();
        assert_eq!(fragments.len(), count);
        let joined: Vec<u8> = fragments.iter().flat_map(|f| f.payload.clone()).collect();
        assert_eq!(joined, packet);
        assert!(fragments.iter().all(|f| f.has_valid_flags() && f.payload.len() <= mtu - 2));
    }
}
