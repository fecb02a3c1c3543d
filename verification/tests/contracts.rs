use flatty::channel::MessageBuffer;
use flatty::error::{Error, ErrorKind};
use flatty::flex::{DataIter, FlexVec};
use flatty::iter::{MutIter, SingleType, TwoOrMoreTypes};
use flatty::mem::AlignedBytes;
use flatty::portable::{be, le, Float, Int};
use flatty::string::{FlatString, FromStr};
use flatty::traits::{new_in_place, Emplacer, FlatBase, FlatDefault, FlatSized, FlatUnsized, FlatValidate};
use flatty::utils::{ceil_mul, upper_multiple};
use flatty::vec::{FlatVec, FromArray, FromIterator};

type Item = FlatVec<i32, u16>;

#[test]
fn flex_item_error_is_placed_in_the_vector() {
    let mut bytes = AlignedBytes::new(24, 4);
    let mut flex_vec = FlexVec::<Item, u16>::default_in_place(bytes.as_mut_slice()).unwrap();
    flex_vec.push_default().unwrap();
    let mut mem = flex_vec.as_bytes();
    // the item starts after the first link; its length field now claims more than fits
    mem[4] = 0xe8;
    mem[5] = 0x03;
    assert_eq!(
        FlexVec::<Item, u16>::validate_unchecked(&mem),
        Err(Error { kind: ErrorKind::InsufficientSize, pos: 4 + 4 })
    );
}

#[test]
fn from_array_that_does_not_fit_leaves_empty_vector() {
    let mut mem = vec![5u8, 9, 9];
    let r = <FromArray<u8, 3> as Emplacer<FlatVec<u8, u8>>>::emplace(FromArray([1, 2, 3]), &mut mem);
    assert_eq!(r, Err(Error { kind: ErrorKind::InsufficientSize, pos: 0 }));
    assert_eq!(mem, vec![0, 9, 9]);
}

#[test]
fn from_iterator_that_does_not_fit_leaves_full_vector() {
    let mut mem = vec![5u8, 9, 9];
    let r = <FromIterator<u8> as Emplacer<FlatVec<u8, u8>>>::emplace(FromIterator(vec![1, 2, 3]), &mut mem);
    assert_eq!(r, Err(Error { kind: ErrorKind::InsufficientSize, pos: 0 }));
    assert_eq!(mem, vec![2, 1, 2]);
}

#[test]
fn from_str_that_does_not_fit_leaves_empty_string() {
    let mut mem = vec![7u8, b'x', b'y'];
    let r = <FromStr as Emplacer<FlatString<u8>>>::emplace(FromStr("abc"), &mut mem);
    assert_eq!(r, Err(Error { kind: ErrorKind::InsufficientSize, pos: 0 }));
    assert_eq!(mem, vec![0, b'x', b'y']);
}

#[test]
fn rounding_at_the_top_of_the_range() {
    assert_eq!(ceil_mul(usize::MAX - 3, 4), usize::MAX - 3);
    assert_eq!(upper_multiple(usize::MAX - 3, 4), usize::MAX - 3);
    assert_eq!(ceil_mul(usize::MAX - 6, 4), usize::MAX - 3);
}

#[test]
fn failed_push_keeps_the_memory() {
    let mut bytes = AlignedBytes::new(4 + 4 + 4, 4);
    let mut flex_vec = FlexVec::<Item, u16>::default_in_place(bytes.as_mut_slice()).unwrap();
    flex_vec.push_default().unwrap();
    let before = flex_vec.as_bytes();
    assert!(flex_vec.push_default().is_err());
    assert_eq!(flex_vec.as_bytes(), before);
    assert_eq!(flex_vec.len(), 1);
}

#[test]
fn clear_twice_is_clear_once() {
    let mut bytes = AlignedBytes::new(24, 4);
    let mut flex_vec = FlexVec::<Item, u16>::default_in_place(bytes.as_mut_slice()).unwrap();
    flex_vec.push_default().unwrap();
    flex_vec.push_default().unwrap();
    flex_vec.clear();
    let once = flex_vec.as_bytes();
    assert_eq!(flex_vec.len(), 0);
    assert_eq!(flex_vec.size(), FlexVec::<Item, u16>::offset_size());
    flex_vec.clear();
    assert_eq!(flex_vec.as_bytes(), once);
    // popping an empty vector changes nothing
    assert!(flex_vec.pop().is_err());
    assert_eq!(flex_vec.as_bytes(), once);
}

#[test]
fn data_iter_stays_done() {
    let mut bytes = AlignedBytes::new(8, 4);
    let flex_vec = FlexVec::<Item, u16>::default_in_place(bytes.as_mut_slice()).unwrap();
    let mem = flex_vec.as_bytes();
    let mut it = DataIter::<Item, u16>::new();
    assert!(it.next(&mem).is_none());
    assert!(it.next(&mem).is_none());
}

#[test]
fn byte_aligned_types_take_any_start() {
    let mem = vec![0u8, 2, 0, 10, 0, 0, 0, 20, 0, 0, 0];
    let v = FlatVec::<le::I32, le::U16>::from_bytes(&mem[1..]).unwrap();
    assert_eq!(v.len(), 2);
    assert_eq!(v.get(1).unwrap().to_native(), 20);
    assert_eq!(le::U32::validate(&mem[1..3]), Err(Error { kind: ErrorKind::InsufficientSize, pos: 0 }));
}

#[test]
fn reader_takes_message_and_consumes_it() {
    let mut buf = MessageBuffer::<FlatVec<u8, le::U16>>::new(8);
    buf.fill_vacant(&[2, 0, 7, 8, 1, 0]);
    assert_eq!(buf.read_step(), Some(Ok(())));
    let m = buf.take_message().unwrap();
    assert_eq!(m.as_slice(), vec![7, 8]);
    assert_eq!(buf.occupied(), &[1, 0]);
    // the next message is cut short: nothing is taken
    assert_eq!(buf.take_message().err(), Some(Error { kind: ErrorKind::InsufficientSize, pos: 2 }));
    assert_eq!(buf.occupied(), &[1, 0]);
}

#[test]
fn portable_int_equality_and_default() {
    let x = le::U32::from_native(7);
    assert_eq!(le::U32::from_bytes(x.to_bytes()), x);
    assert!(le::U32::from_native(7) != le::U32::from_native(8));
    assert_eq!(Int::<true, 2, false>::default().to_bytes(), [0, 0]);
}

#[test]
fn portable_float_bytes() {
    let x = le::F32::from_bytes(1.5f32.to_le_bytes());
    assert_eq!(f32::from_le_bytes(x.to_bytes()), 1.5);
    let y = be::F64::from_bytes((-2.0f64).to_be_bytes());
    assert_eq!(f64::from_be_bytes(y.to_bytes()), -2.0);
    assert_eq!(Float::<false, 4>::default().to_bytes(), [0; 4]);
    assert_eq!(le::F32::from_bytes(x.to_bytes()), x);
    assert_eq!(le::F32::align(), 1);

    let mut v = FlatVec::<le::F32, le::U16>::default_in_place(&mut [0u8; 2 + 8]).unwrap();
    v.push(x).unwrap();
    v.push(le::F32::from_bytes(0.25f32.to_le_bytes())).unwrap();
    assert!(v.push(x).is_err());
    assert_eq!(f32::from_le_bytes(v.get(1).unwrap().to_bytes()), 0.25);
}

#[test]
fn new_in_place_initializes_the_callers_memory() {
    let mut mem = vec![9u8; 4];
    let v = new_in_place::<FlatVec<u8, u8>, _>(mem.as_mut_slice(), FromArray([1, 2])).unwrap();
    assert_eq!(mem, vec![2, 1, 2, 9]);
    assert_eq!(v.as_slice(), vec![1, 2]);
    let mut mem = vec![9u8; 3];
    let r = new_in_place::<FlatVec<u8, u8>, _>(mem.as_mut_slice(), FromArray([1, 2, 3]));
    assert_eq!(r.err(), Some(Error { kind: ErrorKind::InsufficientSize, pos: 0 }));
    assert_eq!(mem, vec![0, 9, 9]);
    let mut mem = vec![7u8; 3];
    let w = FlatVec::<u8, u8>::default_in_place(mem.as_mut_slice()).unwrap();
    assert_eq!(w.len(), 0);
    assert_eq!(mem, vec![0, 7, 7]);
}

#[test]
fn mut_iter_writes_reach_the_memory() {
    let mut mem = vec![0u8; 3];
    let list = TwoOrMoreTypes::<u8, _>::new(SingleType::<FlatVec<u8, u8>>::new());
    let it = MutIter::new(mem.as_mut_slice(), list).unwrap();
    let (rest, first) = it.next();
    first[0] = 5;
    let last = rest.finalize();
    last[0] = 1;
    last[1] = 6;
    assert_eq!(mem, vec![5, 1, 6]);
}

#[test]
fn flex_size_is_end_link_plus_link_width() {
    let mut bytes = AlignedBytes::new(40, 4);
    let mut flex_vec = FlexVec::<Item, u16>::default_in_place(bytes.as_mut_slice()).unwrap();
    assert_eq!(flex_vec.size(), 4);
    flex_vec.push_default().unwrap();
    flex_vec.push_default().unwrap();
    flex_vec.push_default().unwrap();
    // cutting back to two items ends the chain with a zero link after them
    flex_vec.truncate(2);
    // each default item uses its length field, rounded to the alignment: links of 8
    assert_eq!(flex_vec.size(), 8 + 8 + 4);
}

#[test]
fn native_numbers_use_the_machines_byte_order() {
    assert_eq!(FlatSized::to_bytes(&0x1234u16), 0x1234u16.to_ne_bytes().to_vec());
    assert_eq!(FlatSized::to_bytes(&-5i64), (-5i64).to_ne_bytes().to_vec());
    let bytes = 0x0a0b0c0du32.to_ne_bytes();
    assert_eq!(<u32 as FlatSized>::read_at(&bytes, 0), 0x0a0b0c0d);
}
