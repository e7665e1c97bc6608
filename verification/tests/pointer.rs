use vecbit::indices::{BitIdx, BitTail};
use vecbit::pointer::{BitPtr, BitPtrError};
use vecbit::store::{BitWidth, MAX_BITS};

#[test]
fn idx_and_tail_validation() {
    assert!(BitIdx::new(BitWidth::W8, 7).is_some());
    assert!(BitIdx::new(BitWidth::W8, 8).is_none());
    assert!(BitIdx::new(BitWidth::W64, 63).is_some());
    assert!(BitIdx::new(BitWidth::W64, 64).is_none());
    assert_eq!(BitIdx::new(BitWidth::W16, 5).unwrap().value(), 5);

    assert!(BitTail::new(BitWidth::W8, 0).is_none());
    assert!(BitTail::new(BitWidth::W8, 8).is_some());
    assert!(BitTail::new(BitWidth::W8, 9).is_none());
    assert_eq!(BitTail::new(BitWidth::W32, 32).unwrap().value(), 32);
}

#[test]
fn span_scenarios() {
    // A zero-length span touches nothing and reinterprets its start.
    let (elts, tail) = BitIdx::new(BitWidth::W8, 3).unwrap().span(0);
    assert_eq!(elts, 0);
    assert_eq!(tail.value(), 3);

    // Filling exactly to the element boundary pins the tail at the width.
    let (elts, tail) = BitIdx::new(BitWidth::W8, 0).unwrap().span(16);
    assert_eq!(elts, 2);
    assert_eq!(tail.value(), 8);

    // The general case.
    let (elts, tail) = BitIdx::new(BitWidth::W16, 1).unwrap().span(28);
    assert_eq!(elts, 2);
    assert_eq!(tail.value(), 13);
}

#[test]
fn round_trip() {
    // Reading back a freshly built descriptor reproduces the inputs, for
    // every width, at the empty case and at an exact boundary too.
    for (width, head, bits) in [
        (BitWidth::W8, 1u8, 6usize),
        (BitWidth::W16, 1, 28),
        (BitWidth::W32, 4, 60),
        (BitWidth::W64, 63, 1),
        (BitWidth::W8, 0, 16),
        (BitWidth::W16, 3, 0),
        (BitWidth::W64, 0, 128),
    ] {
        let idx = BitIdx::new(width, head).unwrap();
        let bp = BitPtr::new(64, idx, bits).unwrap();
        assert_eq!(bp.pointer(), 64);
        assert_eq!(bp.head().value(), head);
        assert_eq!(bp.len(), bits);
        let (elts, tail) = idx.span(bits);
        assert_eq!(bp.elements(), elts);
        assert_eq!(bp.tail().value(), tail.value());
        assert_eq!(bp.is_empty(), bits == 0);
    }
}

#[test]
fn empty_descriptor() {
    let bp = BitPtr::empty(BitWidth::W32);
    assert_eq!(bp.len(), 0);
    assert_eq!(bp.elements(), 0);
    assert_eq!(bp.head().value(), 0);
    assert!(bp.is_empty());
    let data: [u64; 0] = [];
    assert!(bp.domain(&data).is_empty());
}

#[test]
fn construction_errors() {
    let idx = BitIdx::new(BitWidth::W32, 0).unwrap();
    assert_eq!(BitPtr::new(0, idx, 8).unwrap_err(), BitPtrError::Null);
    assert_eq!(BitPtr::new(3, idx, 8).unwrap_err(), BitPtrError::Misaligned);
    assert_eq!(BitPtr::new(64, idx, MAX_BITS + 1).unwrap_err(), BitPtrError::TooLong);
    let crowded = BitIdx::new(BitWidth::W8, 7).unwrap();
    assert_eq!(
        BitPtr::new(64, crowded, MAX_BITS).unwrap_err(),
        BitPtrError::TooManyElements
    );
}

#[test]
fn mutators() {
    let idx = BitIdx::new(BitWidth::W8, 2).unwrap();
    let mut bp = BitPtr::new(64, idx, 6).unwrap();

    bp.incr_tail();
    assert_eq!(bp.len(), 7);
    assert_eq!(bp.elements(), 2);
    assert_eq!(bp.tail().value(), 1);

    bp.decr_tail();
    assert_eq!(bp.len(), 6);
    assert_eq!(bp.elements(), 1);
    assert_eq!(bp.tail().value(), 8);

    bp.set_len(3);
    assert_eq!(bp.len(), 3);
    assert_eq!(bp.head().value(), 2);
    assert_eq!(bp.tail().value(), 5);

    assert_eq!(bp.set_pointer(0), Err(BitPtrError::Null));
    assert_eq!(bp.pointer(), 64);
    assert_eq!(bp.set_pointer(128), Ok(()));
    assert_eq!(bp.pointer(), 128);
    assert_eq!(bp.len(), 3);
}
