use flatty::portable::{be, le};
use flatty::traits::{FlatBase, FlatDefault, FlatUnsized};
use flatty::vec::FlatVec;

#[test]
fn primitive() {
    let mut mem = vec![0u8; 2 + 3 * 4];
    let mut flat_vec = FlatVec::<le::I32, le::U16>::default_in_place(mem.as_mut_slice()).unwrap();

    flat_vec.push(le::I32::from_native(0)).unwrap();
    flat_vec.push(le::I32::from_native(1)).unwrap();
    flat_vec.push(le::I32::from_native(2)).unwrap();
    assert!(flat_vec.push(le::I32::from_native(3)).is_err());

    assert_eq!(FlatVec::<le::I32, le::U16>::align(), 1);
    // aligned to a byte, it can be read back from memory that starts anywhere
    let mut shifted = vec![0u8];
    shifted.extend_from_slice(&flat_vec.into_bytes());
    let read = FlatVec::<le::I32, le::U16>::from_bytes(&shifted[1..]).unwrap();
    assert_eq!(read.len(), 3);
}

#[test]
fn portable_native_round_trip() {
    assert_eq!(le::I32::from_native(-123456).to_native(), -123456);
    assert_eq!(be::U16::from_native(0x1234).to_bytes(), [0x12, 0x34]);
    assert_eq!(le::U16::from_native(0x1234).to_bytes(), [0x34, 0x12]);
    assert_eq!(be::I64::from_native(-2).to_native(), -2);
    assert_eq!(le::U32::from_bytes([1, 0, 0, 0]).to_native(), 1);
}
