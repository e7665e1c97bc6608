use vecbit::store::{BitWidth, MAX_BITS};

#[test]
fn width_capabilities() {
    assert_eq!(BitWidth::W8.bits(), 8);
    assert_eq!(BitWidth::W16.bits(), 16);
    assert_eq!(BitWidth::W32.bits(), 32);
    assert_eq!(BitWidth::W64.bits(), 64);

    assert_eq!(BitWidth::W8.bytes(), 1);
    assert_eq!(BitWidth::W16.bytes(), 2);
    assert_eq!(BitWidth::W32.bytes(), 4);
    assert_eq!(BitWidth::W64.bytes(), 8);
}

#[test]
fn filled_values() {
    assert_eq!(BitWidth::W8.filled(false), 0);
    assert_eq!(BitWidth::W8.filled(true), 0xFF);
    assert_eq!(BitWidth::W16.filled(true), 0xFFFF);
    assert_eq!(BitWidth::W32.filled(true), 0xFFFF_FFFF);
    assert_eq!(BitWidth::W64.filled(true), u64::MAX);
}

#[test]
fn capacity_ceilings() {
    assert_eq!(MAX_BITS, usize::MAX / 8);
    for width in [BitWidth::W8, BitWidth::W16, BitWidth::W32, BitWidth::W64] {
        assert_eq!(width.max_bits(), MAX_BITS);
        assert_eq!(width.max_elts(), MAX_BITS / (width.bits() as usize) + 1);
    }
}
