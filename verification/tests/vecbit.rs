use vecbit::cursor::Cursor;
use vecbit::domain::BitDomain;
use vecbit::indices::BitIdx;
use vecbit::pointer::BitPtr;
use vecbit::store::BitWidth;
use vecbit::vec::VecBit;

fn bv(vals: &[u8]) -> VecBit {
    let bits: Vec<bool> = vals.iter().map(|v| *v != 0).collect();
    VecBit::from_bools(Cursor::LittleEndian, BitWidth::W8, &bits)
}

fn bools(vals: &[u8]) -> Vec<bool> {
    vals.iter().map(|v| *v != 0).collect()
}

#[test]
fn scenario_classifications() {
    // width 8, one element, head 1, length 6: Minor with head 1 and tail 7.
    let data = [0u64];
    let bp = BitPtr::new(64, BitIdx::new(BitWidth::W8, 1).unwrap(), 6).unwrap();
    assert_eq!(bp.head().value(), 1);
    assert_eq!(bp.tail().value(), 7);
    assert!(bp.domain(&data).is_minor());

    // width 16, two elements, head 1, length 28: Major with head 1, tail 13,
    // and an empty interior span.
    let data = [0u64, 0xFFFF];
    let bp = BitPtr::new(64, BitIdx::new(BitWidth::W16, 1).unwrap(), 28).unwrap();
    assert_eq!(bp.head().value(), 1);
    assert_eq!(bp.tail().value(), 13);
    match bp.domain(&data) {
        BitDomain::Major(head, _first, interior, _last, tail) => {
            assert_eq!(head.value(), 1);
            assert_eq!(tail.value(), 13);
            assert!(interior.is_empty());
        }
        _ => panic!("expected a major domain"),
    }

    // width 32, one element, head 4, length 28: PartialHead, tail at the edge.
    let data = [0u64];
    let bp = BitPtr::new(64, BitIdx::new(BitWidth::W32, 4).unwrap(), 28).unwrap();
    assert_eq!(bp.tail().value(), 32);
    assert!(bp.domain(&data).is_partial_head());

    // width 32, two elements, head 4, length 60: PartialHead over both.
    let data = [0u64, 0xFFFF_FFFF];
    let bp = BitPtr::new(64, BitIdx::new(BitWidth::W32, 4).unwrap(), 60).unwrap();
    match bp.domain(&data) {
        BitDomain::PartialHead(head, _first, rest) => {
            assert_eq!(head.value(), 4);
            assert_eq!(rest.len(), 1);
        }
        _ => panic!("expected a partial-head domain"),
    }

    // width 8, one element, head 0, length 8: Spanning.
    let data = [0u64];
    let bp = BitPtr::new(64, BitIdx::new(BitWidth::W8, 0).unwrap(), 8).unwrap();
    assert!(bp.domain(&data).is_spanning());
}

#[test]
fn push_pop_get_set() {
    let mut v = VecBit::new(Cursor::LittleEndian, BitWidth::W8);
    assert!(v.is_empty());
    assert_eq!(v.capacity(), 0);
    v.push(true);
    assert_eq!(v.len(), 1);
    assert!(v.get(0));
    for _ in 0..9 {
        v.push(false);
    }
    assert_eq!(v.len(), 10);
    assert_eq!(v.as_slice().len(), 2);
    v.set(9, true);
    assert!(v.get(9));
    assert_eq!(v.pop(), Some(true));
    assert_eq!(v.len(), 9);
    assert_eq!(v.as_slice().len(), 2);
    assert_eq!(v.pop(), Some(false));
    assert_eq!(v.as_slice().len(), 1);
    let mut empty = VecBit::new(Cursor::BigEndian, BitWidth::W32);
    assert_eq!(empty.pop(), None);
}

#[test]
fn insert_shifts_right() {
    let mut v = bv(&[0, 0, 0, 0]);
    v.insert(2, true);
    assert_eq!(v.to_bools(), bools(&[0, 0, 1, 0, 0]));
    v.insert(5, true);
    assert_eq!(v.to_bools(), bools(&[0, 0, 1, 0, 0, 1]));
}

#[test]
fn remove_shifts_left() {
    let mut v = bv(&[0, 0, 1, 0, 0]);
    assert!(v.remove(2));
    assert_eq!(v.to_bools(), bools(&[0, 0, 0, 0]));
}

#[test]
fn swap_remove_swaps_in_the_tail() {
    let mut v = bv(&[0, 0, 0, 0, 1]);
    assert!(!v.get(2));
    assert_eq!(v.len(), 5);
    assert!(!v.swap_remove(2));
    assert!(v.get(2));
    assert_eq!(v.len(), 4);
}

#[test]
fn retain_keeps_approved_bits() {
    let mut v = bv(&[0, 1, 0, 1, 0, 1]);
    v.retain(|_, b| b);
    assert_eq!(v.to_bools(), bools(&[1, 1, 1]));

    let mut v = bv(&[1, 0, 1, 0, 1]);
    v.retain(|i, _| i % 2 == 0);
    assert_eq!(v.to_bools(), bools(&[1, 1, 1]));
}

#[test]
fn resize_truncates_or_fills() {
    let mut v = bv(&[0, 0, 0, 0]);
    v.resize(8, true);
    assert_eq!(v.to_bools(), bools(&[0, 0, 0, 0, 1, 1, 1, 1]));
    v.resize(5, false);
    assert_eq!(v.to_bools(), bools(&[0, 0, 0, 0, 1]));
}

#[test]
fn append_moves_bits() {
    let mut a = VecBit::from_bools(Cursor::LittleEndian, BitWidth::W8, &vec![false; 10]);
    let mut b = VecBit::from_bools(Cursor::BigEndian, BitWidth::W16, &vec![true; 10]);
    a.append(&mut b);
    assert_eq!(a.len(), 20);
    assert!(a.get(10));
    assert!(b.is_empty());
}

#[test]
fn truncate_only_shortens() {
    let mut v = VecBit::from_bools(Cursor::LittleEndian, BitWidth::W8, &vec![true; 15]);
    v.truncate(10);
    assert_eq!(v.len(), 10);
    v.truncate(15);
    assert_eq!(v.len(), 10);
    v.clear();
    assert!(v.is_empty());
}

#[test]
fn split_off_divides() {
    let mut v = bv(&[0, 0, 0, 1, 1, 1]);
    let tail = v.split_off(3);
    assert_eq!(v.to_bools(), bools(&[0, 0, 0]));
    assert_eq!(tail.to_bools(), bools(&[1, 1, 1]));
}

#[test]
fn drain_removes_the_range() {
    let mut v = bv(&[0, 0, 1, 1, 1, 0, 0]);
    assert_eq!(v.len(), 7);
    let mut d = v.drain(2, 5);
    assert_eq!(d.len(), 3);
    while let Some(bit) = d.next() {
        assert!(bit);
    }
    assert_eq!(v.len(), 4);
    assert_eq!(v.to_bools(), bools(&[0, 0, 0, 0]));
}

#[test]
fn splice_exchanges_the_range() {
    let mut v = bv(&[0, 0, 0, 0, 0, 0]);
    let four_ones = bv(&[1, 1, 1, 1]);
    let mut s = v.splice(2, 4, &four_ones);
    assert_eq!(s.len(), 2);
    assert_eq!(s.next(), Some(false));
    assert_eq!(s.next_back(), Some(false));
    assert_eq!(s.next(), None);
    assert_eq!(v.to_bools(), bools(&[0, 0, 1, 1, 1, 1, 0, 0]));
}

#[test]
fn add_reverse_sums_left_to_right() {
    let a = bv(&[0, 1, 0, 1]);
    let b = bv(&[0, 0, 1, 1]);
    let c = a.add_reverse(&b);
    assert_eq!(c.to_bools(), bools(&[0, 1, 1, 0, 1]));
}

#[test]
fn add_assign_reverse_grows_with_the_addend() {
    let mut a = bv(&[0, 1, 0, 1]);
    let b = bv(&[0, 0, 1, 1]);
    a.add_assign_reverse(&b);
    assert_eq!(a.to_bools(), bools(&[0, 1, 1, 0, 1]));

    // A longer addend zero-extends the sum vector.
    let mut a = bv(&[1]);
    let b = bv(&[1, 0, 0, 1]);
    a.add_assign_reverse(&b);
    assert_eq!(a.to_bools(), bools(&[0, 1, 0, 1]));

    // A full carry ripples out one extra bit.
    let mut a = bv(&[1, 1, 1]);
    let b = bv(&[1]);
    a.add_assign_reverse(&b);
    assert_eq!(a.to_bools(), bools(&[0, 0, 0, 1]));
}

#[test]
fn from_element_spans_every_bit() {
    let v = VecBit::from_element(Cursor::BigEndian, BitWidth::W8, 5);
    assert_eq!(v.len(), 8);
    assert_eq!(v.to_bools().iter().filter(|b| **b).count(), 2);
    assert_eq!(v.to_bools(), bools(&[0, 0, 0, 0, 0, 1, 0, 1]));

    let v = VecBit::from_element(Cursor::LittleEndian, BitWidth::W8, 5);
    assert_eq!(v.to_bools(), bools(&[1, 0, 1, 0, 0, 0, 0, 0]));
}

#[test]
fn from_slice_spans_every_element() {
    let src: [u64; 2] = [5, 10];
    let v = VecBit::from_slice(Cursor::BigEndian, BitWidth::W8, &src);
    assert_eq!(v.len(), 16);
    assert!(v.get(5));
    assert!(v.get(7));
    assert!(v.get(12));
    assert!(v.get(14));
}

#[test]
fn from_vec_keeps_the_elements() {
    let v = VecBit::from_vec(Cursor::BigEndian, BitWidth::W8, vec![1, 2, 4, 8]);
    assert_eq!(v.len(), 32);
    assert_eq!(v.as_slice(), &[1, 2, 4, 8]);
    assert!(v.get(7));
    assert!(v.get(14));
    assert!(v.get(21));
    assert!(v.get(28));
    assert_eq!(v.into_vec(), vec![1, 2, 4, 8]);
    let v = VecBit::from_vec(Cursor::BigEndian, BitWidth::W8, vec![1, 2, 4, 8]);
    let boxed = v.into_boxed_slice();
    assert_eq!(boxed.as_ref(), &[1, 2, 4, 8]);
}

#[test]
fn capacity_management() {
    let v = VecBit::with_capacity(Cursor::LittleEndian, BitWidth::W8, 10);
    assert!(v.is_empty());
    assert!(v.capacity() >= 10);

    let mut v = VecBit::from_bools(Cursor::LittleEndian, BitWidth::W8, &vec![true; 5]);
    assert!(v.capacity() >= 5);
    v.reserve(10);
    assert!(v.capacity() >= 15);
    v.reserve_exact(20);
    assert!(v.capacity() >= 25);
    let cap = v.capacity();
    v.truncate(2);
    v.shrink_to_fit();
    assert!(v.capacity() <= cap);
    assert_eq!(v.len(), 2);
}

#[test]
fn into_iter_walks_both_ends() {
    let v = bv(&[1, 0, 0, 1]);
    let mut it = v.into_iter();
    assert_eq!(it.len(), 4);
    assert_eq!(it.next(), Some(true));
    assert_eq!(it.next_back(), Some(true));
    assert_eq!(it.next(), Some(false));
    assert_eq!(it.next(), Some(false));
    assert_eq!(it.next(), None);
    assert_eq!(it.next_back(), None);
}

#[test]
fn vector_domains() {
    let v = VecBit::new(Cursor::LittleEndian, BitWidth::W8);
    assert!(v.domain().is_empty());

    let v = VecBit::from_element(Cursor::LittleEndian, BitWidth::W8, 0xFF);
    assert!(v.domain().is_spanning());

    let mut v = VecBit::from_element(Cursor::LittleEndian, BitWidth::W8, 0xFF);
    v.truncate(5);
    assert!(v.domain().is_partial_tail());

    let bp = v.bitptr();
    assert_eq!(bp.len(), 5);
    assert_eq!(bp.elements(), 1);
    assert_eq!(bp.head().value(), 0);
    assert_eq!(bp.tail().value(), 5);
}

#[test]
fn ordering_changes_the_packing() {
    let mut big = VecBit::new(Cursor::BigEndian, BitWidth::W8);
    let mut little = VecBit::new(Cursor::LittleEndian, BitWidth::W8);
    big.push(true);
    little.push(true);
    assert_eq!(big.as_slice(), &[0x80]);
    assert_eq!(little.as_slice(), &[0x01]);
}

#[test]
fn default_is_empty() {
    let v = VecBit::default();
    assert!(v.is_empty());
    assert_eq!(v.capacity(), 0);
}

#[test]
fn edge_ranges() {
    // Empty and full drains.
    let mut v = bv(&[1, 0, 1]);
    let mut d = v.drain(1, 1);
    assert_eq!(d.next(), None);
    assert_eq!(v.len(), 3);
    let mut d = v.drain(0, 3);
    assert_eq!(d.len(), 3);
    assert_eq!(d.next(), Some(true));
    assert!(v.is_empty());

    // Splicing an empty replacement is a plain removal.
    let mut v = bv(&[1, 0, 1, 0]);
    let none = VecBit::new(Cursor::LittleEndian, BitWidth::W8);
    let mut s = v.splice(1, 3, &none);
    assert_eq!(s.len(), 2);
    assert_eq!(s.next(), Some(false));
    assert_eq!(s.next(), Some(true));
    assert_eq!(v.to_bools(), bools(&[1, 0]));

    // Splitting at the ends moves everything or nothing.
    let mut v = bv(&[1, 1]);
    let tail = v.split_off(2);
    assert!(tail.is_empty());
    assert_eq!(v.len(), 2);
    let mut v = bv(&[1, 1]);
    let tail = v.split_off(0);
    assert!(v.is_empty());
    assert_eq!(tail.len(), 2);
}

#[test]
fn retain_can_drop_everything() {
    let mut v = bv(&[1, 1, 1]);
    v.retain(|_, _| false);
    assert!(v.is_empty());
    assert_eq!(v.as_slice().len(), 0);
}

#[test]
fn widest_element_boundaries() {
    let mut v = VecBit::new(Cursor::LittleEndian, BitWidth::W64);
    for _ in 0..64 {
        v.push(false);
    }
    assert_eq!(v.as_slice().len(), 1);
    v.set(63, true);
    assert_eq!(v.as_slice(), &[1u64 << 63]);
    v.push(true);
    assert_eq!(v.as_slice().len(), 2);
    assert!(v.get(63));
    assert!(v.get(64));

    let empty = VecBit::from_bools(Cursor::BigEndian, BitWidth::W64, &[]);
    assert!(empty.is_empty());
}

#[test]
fn insert_at_the_ends() {
    let mut v = VecBit::new(Cursor::LittleEndian, BitWidth::W8);
    v.insert(0, true);
    v.insert(0, false);
    v.insert(2, true);
    assert_eq!(v.to_bools(), bools(&[0, 1, 1]));
}

#[test]
fn change_cursor_reinterprets_memory() {
    let v = VecBit::from_element(Cursor::LittleEndian, BitWidth::W8, 1);
    assert!(v.get(0));
    let v = v.change_cursor(Cursor::BigEndian);
    assert_eq!(v.as_slice(), &[1]);
    assert!(!v.get(0));
    assert!(v.get(7));
}

#[test]
fn from_bitslice_clones_the_bits() {
    let mut v = bv(&[1, 0, 1, 1, 0, 1, 0, 0, 1]);
    v.set(0, true);
    let copy = VecBit::from_bitslice(&v);
    assert_eq!(copy.to_bools(), v.to_bools());
    assert_eq!(copy.order(), v.order());
    assert_eq!(copy.width(), v.width());
    assert_eq!(v.order(), Cursor::LittleEndian);
    assert_eq!(v.width(), BitWidth::W8);
}
