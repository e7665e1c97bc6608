use vecbit::cursor::LOCAL;
use vecbit::store::BitWidth;
use vecbit::vec::VecBit;

#[test]
fn issue_15() {
    // Reserving space on a vector filled exactly to an element boundary must
    // not trip the head/tail validity distinction.
    let mut bv = VecBit::from_bools(LOCAL, BitWidth::W64, &[false; 8]);
    bv.reserve(16);
}
