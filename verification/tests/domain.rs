use vecbit::indices::BitIdx;
use vecbit::pointer::BitPtr;
use vecbit::store::BitWidth;

#[test]
fn minor() {
    let data: [u64; 1] = [0];
    let bp = BitPtr::new(64, BitIdx::new(BitWidth::W8, 1).unwrap(), 6).unwrap();

    assert!(bp.domain(&data).is_minor());
}

#[test]
fn major() {
    let data: [u64; 2] = [0, 0xFFFF];
    let bp = BitPtr::new(64, BitIdx::new(BitWidth::W16, 1).unwrap(), 28).unwrap();

    assert!(bp.domain(&data).is_major());
}

#[test]
fn partial_head() {
    let data: [u64; 1] = [0];
    let bp = BitPtr::new(64, BitIdx::new(BitWidth::W32, 4).unwrap(), 28).unwrap();

    assert!(bp.domain(&data).is_partial_head());

    let data: [u64; 2] = [0, 0xFFFF_FFFF];
    let bp = BitPtr::new(64, BitIdx::new(BitWidth::W32, 4).unwrap(), 60).unwrap();

    assert!(bp.domain(&data).is_partial_head());
}

#[test]
fn partial_tail() {
    let data: [u64; 1] = [0];
    let bp = BitPtr::new(64, BitIdx::new(BitWidth::W64, 0).unwrap(), 60).unwrap();

    assert!(bp.domain(&data).is_partial_tail());

    let data: [u64; 2] = [0, !0u64];
    let bp = BitPtr::new(64, BitIdx::new(BitWidth::W64, 0).unwrap(), 124).unwrap();

    assert!(bp.domain(&data).is_partial_tail());
}

#[test]
fn spanning() {
    let data: [u64; 1] = [0];
    let bp = BitPtr::new(64, BitIdx::new(BitWidth::W8, 0).unwrap(), 8).unwrap();

    assert!(bp.domain(&data).is_spanning());

    let data: [u64; 2] = [0, 0xFFFF];
    let bp = BitPtr::new(64, BitIdx::new(BitWidth::W16, 0).unwrap(), 32).unwrap();

    assert!(bp.domain(&data).is_spanning());
}

#[test]
fn reconstruction_matches_direct_view() {
    // The parts of each shape reassemble exactly the touched elements.
    let data: [u64; 3] = [0x12, 0x34, 0x56];

    let bp = BitPtr::new(64, BitIdx::new(BitWidth::W8, 3).unwrap(), 18).unwrap();
    match bp.domain(&data) {
        vecbit::domain::BitDomain::Major(_, first, interior, last, _) => {
            let mut rebuilt = vec![*first];
            rebuilt.extend_from_slice(interior);
            rebuilt.push(*last);
            assert_eq!(rebuilt, data.to_vec());
        }
        _ => panic!("expected a major domain"),
    }

    let bp = BitPtr::new(64, BitIdx::new(BitWidth::W8, 0).unwrap(), 21).unwrap();
    match bp.domain(&data) {
        vecbit::domain::BitDomain::PartialTail(front, last, _) => {
            let mut rebuilt = front.to_vec();
            rebuilt.push(*last);
            assert_eq!(rebuilt, data.to_vec());
        }
        _ => panic!("expected a partial-tail domain"),
    }

    let bp = BitPtr::new(64, BitIdx::new(BitWidth::W8, 0).unwrap(), 24).unwrap();
    match bp.domain(&data) {
        vecbit::domain::BitDomain::Spanning(all) => {
            assert_eq!(all.to_vec(), data.to_vec());
        }
        _ => panic!("expected a spanning domain"),
    }
}
