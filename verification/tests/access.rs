use vecbit::access::BitAccess;
use vecbit::cursor::Cursor;
use vecbit::indices::BitIdx;
use vecbit::store::BitWidth;

#[test]
fn single_bit_round_trip() {
    // Starting from an all-zero element: set, read back, clear, read back,
    // and a double inversion restores the original value.
    for p in 0..8u8 {
        let place = BitIdx::new(BitWidth::W8, p).unwrap();
        let mut cell = BitAccess::new(BitWidth::W8, 0);
        cell.set_bit(Cursor::LittleEndian, place);
        assert!(cell.get(Cursor::LittleEndian, place));
        cell.clear_bit(Cursor::LittleEndian, place);
        assert!(!cell.get(Cursor::LittleEndian, place));

        let before = cell.load();
        cell.invert_bit(Cursor::LittleEndian, place);
        cell.invert_bit(Cursor::LittleEndian, place);
        assert_eq!(cell.load(), before);
    }
}

#[test]
fn set_routes_by_value() {
    let place = BitIdx::new(BitWidth::W16, 3).unwrap();
    let mut cell = BitAccess::new(BitWidth::W16, 0);
    cell.set(Cursor::BigEndian, place, true);
    assert!(cell.get(Cursor::BigEndian, place));
    assert_eq!(cell.load(), 0x1000);
    cell.set(Cursor::BigEndian, place, false);
    assert!(!cell.get(Cursor::BigEndian, place));
    assert_eq!(cell.load(), 0);
}

#[test]
fn mask_writes() {
    let mut cell = BitAccess::new(BitWidth::W8, 0);
    cell.set_bits(0xA5);
    assert_eq!(cell.load(), 0xA5);
    // The mask names the bits that stay; the complement is cleared.
    cell.clear_bits(0x0F);
    assert_eq!(cell.load(), 0x05);
    cell.set_bits(0x50);
    assert_eq!(cell.load(), 0x55);
}

#[test]
fn whole_element_load_store() {
    let mut cell = BitAccess::new(BitWidth::W32, 0xDEAD_BEEF);
    assert_eq!(cell.load(), 0xDEAD_BEEF);
    cell.store(0x1234_5678);
    assert_eq!(cell.load(), 0x1234_5678);
}
