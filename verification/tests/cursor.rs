use vecbit::cursor::{Cursor, LOCAL};
use vecbit::indices::BitIdx;
use vecbit::store::BitWidth;

#[test]
fn electrical_positions() {
    let w8_0 = BitIdx::new(BitWidth::W8, 0).unwrap();
    let w8_7 = BitIdx::new(BitWidth::W8, 7).unwrap();
    assert_eq!(Cursor::BigEndian.at(w8_0), 7);
    assert_eq!(Cursor::BigEndian.at(w8_7), 0);
    assert_eq!(Cursor::LittleEndian.at(w8_0), 0);
    assert_eq!(Cursor::LittleEndian.at(w8_7), 7);

    let w64_0 = BitIdx::new(BitWidth::W64, 0).unwrap();
    assert_eq!(Cursor::BigEndian.at(w64_0), 63);
    assert_eq!(LOCAL.at(w64_0), 0);
}

#[test]
fn masks_are_one_hot_and_distinct() {
    for width in [BitWidth::W8, BitWidth::W16, BitWidth::W32, BitWidth::W64] {
        for order in [Cursor::BigEndian, Cursor::LittleEndian] {
            let w = width.bits() as u8;
            let mut seen: Vec<u64> = Vec::new();
            for v in 0..w {
                let mask = order.mask(BitIdx::new(width, v).unwrap());
                assert_eq!(mask.count_ones(), 1);
                assert!(!seen.contains(&mask));
                seen.push(mask);
            }
        }
    }
}

#[test]
fn mask_values() {
    assert_eq!(
        Cursor::BigEndian.mask(BitIdx::new(BitWidth::W8, 0).unwrap()),
        0x80
    );
    assert_eq!(
        Cursor::LittleEndian.mask(BitIdx::new(BitWidth::W8, 0).unwrap()),
        1
    );
    assert_eq!(
        Cursor::BigEndian.mask(BitIdx::new(BitWidth::W16, 1).unwrap()),
        0x4000
    );
}

#[test]
fn place_recovery() {
    for width in [BitWidth::W8, BitWidth::W32] {
        for order in [Cursor::BigEndian, Cursor::LittleEndian] {
            let w = width.bits() as u8;
            for v in 0..w {
                let place = BitIdx::new(width, v).unwrap();
                let mask = order.mask(place);
                let back = order.place_of(width, mask).unwrap();
                assert_eq!(back.value(), v);
            }
        }
    }
    // Masks that are not one-hot inside the width recover nothing.
    assert!(Cursor::BigEndian.place_of(BitWidth::W8, 0).is_none());
    assert!(Cursor::BigEndian.place_of(BitWidth::W8, 3).is_none());
    assert!(Cursor::LittleEndian.place_of(BitWidth::W8, 0x100).is_none());
}
