use vecbit::cursor::{Cursor, LOCAL};
use vecbit::store::BitWidth;
use vecbit::vec::VecBit;

fn list(order: Cursor, width: BitWidth, vals: &[u8]) -> VecBit {
    let bits: Vec<bool> = vals.iter().map(|v| *v != 0).collect();
    VecBit::from_bools(order, width, &bits)
}

fn repeat(order: Cursor, width: BitWidth, val: u8, rep: usize) -> VecBit {
    let bits: Vec<bool> = std::iter::repeat(val != 0).take(rep).collect();
    VecBit::from_bools(order, width, &bits)
}

#[test]
fn compile_vecbit_macros() {
    list(LOCAL, BitWidth::W64, &[0, 1]);
    list(Cursor::BigEndian, BitWidth::W64, &[0, 1]);
    list(Cursor::LittleEndian, BitWidth::W64, &[0, 1]);
    list(Cursor::BigEndian, BitWidth::W8, &[0, 1]);
    list(Cursor::LittleEndian, BitWidth::W8, &[0, 1]);
    list(Cursor::BigEndian, BitWidth::W16, &[0, 1]);
    list(Cursor::LittleEndian, BitWidth::W16, &[0, 1]);
    list(Cursor::BigEndian, BitWidth::W32, &[0, 1]);
    list(Cursor::LittleEndian, BitWidth::W32, &[0, 1]);
    list(Cursor::BigEndian, BitWidth::W64, &[0, 1]);
    list(Cursor::LittleEndian, BitWidth::W64, &[0, 1]);

    repeat(LOCAL, BitWidth::W64, 1, 70);
    repeat(Cursor::BigEndian, BitWidth::W64, 0, 70);
    repeat(Cursor::LittleEndian, BitWidth::W64, 1, 70);
    repeat(Cursor::BigEndian, BitWidth::W8, 0, 70);
    repeat(Cursor::LittleEndian, BitWidth::W8, 1, 70);
    repeat(Cursor::BigEndian, BitWidth::W16, 0, 70);
    repeat(Cursor::LittleEndian, BitWidth::W16, 1, 70);
    repeat(Cursor::BigEndian, BitWidth::W32, 0, 70);
    repeat(Cursor::LittleEndian, BitWidth::W32, 1, 70);
    repeat(Cursor::BigEndian, BitWidth::W64, 0, 70);
    repeat(Cursor::LittleEndian, BitWidth::W64, 1, 70);
}
