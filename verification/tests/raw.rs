use skystore::skymap::bitmask::{Bitmask, BITMASK_MASK};
use skystore::skymap::group::{Group, DELETED, EMPTY, WIDTH};
use skystore::skymap::hash::{h1, h2, hash_bytes};
use skystore::skymap::mapalloc::{self_allocate, Allocator, Global, MAX_ARENA};
use skystore::skymap::probe::ProbeSeq;

fn lanes(bits: &[usize]) -> Bitmask {
    let mut word = 0u64;
    for b in bits {
        word |= 1u64 << (8 * b + 7);
    }
    Bitmask::new(word)
}

#[test]
fn bitmask_keeps_only_lane_bits() {
    assert_eq!(Bitmask::new(u64::MAX).lanes(), vec![0, 1, 2, 3, 4, 5, 6, 7]);
    assert_eq!(Bitmask::new(!BITMASK_MASK).lanes(), Vec::<usize>::new());
    assert_eq!(Bitmask::new(0x0000_0000_0080_8000).lanes(), vec![1, 2]);
}

#[test]
fn bitmask_invert_is_the_complement() {
    assert_eq!(lanes(&[0, 1, 3]).invert().lanes(), vec![2, 4, 5, 6, 7]);
    assert_eq!(lanes(&[]).invert().lanes(), vec![0, 1, 2, 3, 4, 5, 6, 7]);
    assert!(!Bitmask::new(BITMASK_MASK).invert().any_bit_set());
}

#[test]
fn bitmask_lowest_bit() {
    assert_eq!(lanes(&[]).lowest_set_bit(), None);
    assert_eq!(lanes(&[5, 2, 7]).lowest_set_bit(), Some(2));
    assert_eq!(lanes(&[5, 2, 7]).lowest_set_bit_nonzero(), 2);
    assert_eq!(lanes(&[5, 2, 7]).remove_lowest_bit().lanes(), vec![5, 7]);
    assert_eq!(lanes(&[]).remove_lowest_bit().lanes(), Vec::<usize>::new());
}

#[test]
fn bitmask_counts_zeros_in_lanes() {
    assert_eq!(lanes(&[]).trailing_zeros(), 8);
    assert_eq!(lanes(&[]).leading_zeros(), 8);
    assert_eq!(lanes(&[3, 4]).trailing_zeros(), 3);
    assert_eq!(lanes(&[3, 4]).leading_zeros(), 3);
    assert_eq!(lanes(&[0]).trailing_zeros(), 0);
    assert_eq!(lanes(&[7]).leading_zeros(), 0);
    assert!(lanes(&[6]).any_bit_set());
    assert!(!lanes(&[]).any_bit_set());
}

#[test]
fn bitmask_flip_toggles_one_lane() {
    let mut m = lanes(&[1, 4]);
    assert!(m.flip(4));
    assert_eq!(m.lanes(), vec![1]);
    assert!(!m.flip(0));
    assert_eq!(m.lanes(), vec![0, 1]);
}

#[test]
fn bitmask_iterates_in_ascending_order() {
    let mut it = lanes(&[6, 0, 3]).into_iter();
    assert_eq!(it.next(), Some(0));
    assert_eq!(it.next(), Some(3));
    assert_eq!(it.next(), Some(6));
    assert_eq!(it.next(), None);
    assert_eq!(it.next(), None);
}

#[test]
fn group_loads_bytes_in_slot_order() {
    let bytes = [9u8, 1, 2, 3, 4, 5, 6, 7, 8, 0x80, 0xff];
    let g = Group::load_unaligned(&bytes, 1);
    for i in 0..WIDTH {
        assert_eq!(g.byte(i), bytes[1 + i]);
    }
    let a = Group::load_aligned(&bytes, 0);
    assert_eq!(a.byte(0), 9);
    assert_eq!(a.byte(7), 7);
}

#[test]
fn group_match_byte_is_exact() {
    // 0x01 next to 0x00 is where a borrow-based scan reports a byte that is not there
    let g = Group::load_unaligned(&[0x00, 0x01, 0x00, 0x02, 0x01, 0x7f, 0x80, 0xff], 0);
    assert_eq!(g.match_byte(0x00).lanes(), vec![0, 2]);
    assert_eq!(g.match_byte(0x01).lanes(), vec![1, 4]);
    assert_eq!(g.match_byte(0x7f).lanes(), vec![5]);
    assert_eq!(g.match_byte(0x33).lanes(), Vec::<usize>::new());
}

#[test]
fn group_tells_the_three_states_apart() {
    let g = Group::load_unaligned(&[EMPTY, DELETED, 0x00, 0x7f, EMPTY, 0x12, DELETED, 0x01], 0);
    assert_eq!(g.match_empty().lanes(), vec![0, 4]);
    assert_eq!(g.match_empty_or_deleted().lanes(), vec![0, 1, 4, 6]);
    assert_eq!(g.match_full().lanes(), vec![2, 3, 5, 7]);
}

#[test]
fn group_transform_buries_the_full_and_empties_the_rest() {
    let g = Group::load_unaligned(&[EMPTY, DELETED, 0x00, 0x7f, EMPTY, 0x12, DELETED, 0x01], 0);
    let t = g.transform_full_to_deleted_and_special_to_empty();
    let want = [EMPTY, EMPTY, DELETED, DELETED, EMPTY, DELETED, EMPTY, DELETED];
    for i in 0..WIDTH {
        assert_eq!(t.byte(i), want[i]);
    }
}

#[test]
fn group_store_writes_eight_bytes() {
    let g = Group::load_unaligned(&[1, 2, 3, 4, 5, 6, 7, 8], 0);
    let mut out = vec![0u8; 24];
    g.store_aligned(&mut out, 8);
    assert_eq!(&out[..8], &[0u8; 8]);
    assert_eq!(&out[8..16], &[1, 2, 3, 4, 5, 6, 7, 8]);
    assert_eq!(&out[16..], &[0u8; 8]);
}

#[test]
fn group_empty_static_is_all_empty() {
    assert_eq!(Group::empty_static(), &[EMPTY; 8]);
    assert_eq!(Group::WIDTH, 8);
    let g = Group::load_aligned(Group::empty_static(), 0);
    assert_eq!(g.match_empty().lanes(), vec![0, 1, 2, 3, 4, 5, 6, 7]);
}

#[test]
fn hash_is_stirred_fnv1a() {
    // FNV-1a gives 0xcbf29ce484222325, 0xaf63dc4c8601ec8c and 0x85944171f73967e8
    assert_eq!(hash_bytes(b""), 0xf52a_15e9_a9b5_e89b);
    assert_eq!(hash_bytes(b"a"), 0x02c0_bdbf_4814_20f8);
    assert_eq!(hash_bytes(b"foobar"), 0x404d_a9e3_b740_78c2);
    let h = hash_bytes(b"foobar");
    assert_eq!(h2(h), 0x42);
    assert_eq!(h1(h), h >> 7);
}

#[test]
fn probe_takes_triangular_steps() {
    let mut p = ProbeSeq::new(13, 8);
    let mut seen = vec![p.pos()];
    for _ in 0..7 {
        p.move_next();
        seen.push(p.pos());
    }
    // 5, then 5 + 1, 5 + 3, 5 + 6, 5 + 10, 5 + 15, 5 + 21, 5 + 28, all mod 8
    assert_eq!(seen, vec![5, 6, 0, 3, 7, 4, 2, 1]);
    assert_eq!(p.stride(), 7);
}

#[test]
fn probe_visits_every_group_once() {
    for groups in [1usize, 2, 4, 64, 1024] {
        let mut p = ProbeSeq::new(0xdead_beef, groups);
        let mut seen = vec![false; groups];
        seen[p.pos()] = true;
        for _ in 1..groups {
            p.move_next();
            assert!(!seen[p.pos()]);
            seen[p.pos()] = true;
        }
        assert!(seen.iter().all(|s| *s));
    }
}

#[test]
fn global_hands_out_empty_arenas() {
    let arena = self_allocate(&Global, 24).unwrap();
    assert_eq!(arena, vec![EMPTY; 24]);
    assert_eq!(Global.allocate(0).unwrap(), Vec::<u8>::new());
    assert_eq!(Global::default().allocate(MAX_ARENA + 1), Err(()));
    Global.deallocate(arena);
}

#[test]
fn bitmask_of_lane_bits() {
    assert_eq!(Bitmask::from_lane_bits(0).lanes(), Vec::<usize>::new());
    assert_eq!(Bitmask::from_lane_bits(0b1000_0101).lanes(), vec![0, 2, 7]);
    assert_eq!(Bitmask::from_lane_bits(0xff).lanes(), vec![0, 1, 2, 3, 4, 5, 6, 7]);
    assert_eq!(Bitmask::from_lane_bits(0b0000_0110).to_word(), 0x0000_0000_0080_8000);
    for bits in 0..=255u8 {
        let want: Vec<usize> = (0..8).filter(|i| bits & (1 << i) != 0).collect();
        assert_eq!(Bitmask::from_lane_bits(bits).lanes(), want);
    }
}

#[test]
fn bitmask_word_has_lane_bits_only() {
    assert_eq!(Bitmask::new(u64::MAX).to_word(), BITMASK_MASK);
    assert_eq!(Bitmask::new(0x0000_0000_0000_80ff).to_word(), 0x8080);
    assert_eq!(lanes(&[1, 3]).invert().to_word() & !BITMASK_MASK, 0);
}
