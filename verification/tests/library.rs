use flatty::channel::{message_bytes, next_message_of, MessageBuffer};
use flatty::error::{Error, ErrorKind};
use flatty::flex::{self, EmptyError, FlexVec};
use flatty::iter::{FoldSizeIter, InitDefaultIter, RefIter, SingleType, TwoOrMoreTypes, ValidateIter};
use flatty::mem::{AlignedBytes, Unvalidated};
use flatty::portable::le;
use flatty::string::{FlatString, FromStr};
use flatty::traits::{new_in_place, FlatDefault, FlatUnsized, FlatValidate};
use flatty::utils::{ceil_mul, check_layout, floor_mul, lower_multiple, max, min, upper_multiple};
use flatty::vec::{FlatVec, FromArray};

#[test]
fn rounding_exact_values() {
    assert_eq!(ceil_mul(0, 4), 0);
    assert_eq!(ceil_mul(5, 4), 8);
    assert_eq!(ceil_mul(8, 4), 8);
    assert_eq!(floor_mul(7, 4), 4);
    assert_eq!(floor_mul(8, 4), 8);
    assert_eq!(upper_multiple(9, 3), 9);
    assert_eq!(upper_multiple(10, 3), 12);
    assert_eq!(lower_multiple(10, 3), 9);
    assert_eq!(max(3, 7), 7);
    assert_eq!(min(3, 7), 3);
    // rounding twice rounds once
    assert_eq!(ceil_mul(ceil_mul(13, 8), 8), ceil_mul(13, 8));
    assert_eq!(floor_mul(floor_mul(13, 8), 8), floor_mul(13, 8));
}

#[test]
fn layout_errors() {
    assert_eq!(check_layout(0, 8, 4), Ok(()));
    assert_eq!(check_layout(1, 8, 4), Err(Error { kind: ErrorKind::BadAlign, pos: 0 }));
    assert_eq!(check_layout(0, 2, 4), Err(Error { kind: ErrorKind::InsufficientSize, pos: 0 }));
}

#[test]
fn misaligned_memory_is_refused() {
    let mut bytes = AlignedBytes::new(17, 4);
    let misaligned = &mut bytes.as_mut_slice()[1..];
    let r = FlatVec::<i32, u32>::default_in_place(misaligned);
    assert_eq!(r.err(), Some(Error { kind: ErrorKind::BadAlign, pos: 0 }));
    let mut short = AlignedBytes::new(2, 4);
    let r = FlatVec::<i32, u32>::default_in_place(short.as_mut_slice());
    assert_eq!(r.err(), Some(Error { kind: ErrorKind::InsufficientSize, pos: 0 }));
}

#[test]
fn error_offset_composes() {
    let e = Error { kind: ErrorKind::InvalidData, pos: 3 };
    assert_eq!(e.offset(4).offset(5), e.offset(9));
    assert_eq!(e.offset(4).pos, 7);
}

#[test]
fn vec_push_then_pop_restores() {
    let mut bytes = AlignedBytes::new(4 + 4 * 4, 4);
    let mut v = new_in_place::<FlatVec<i32, u32>, _>(bytes.as_mut_slice(), FromArray([7, 8])).unwrap();
    assert_eq!(v.push(9), Ok(()));
    assert_eq!(v.as_slice(), vec![7, 8, 9]);
    assert_eq!(v.pop(), Some(9));
    assert_eq!(v.as_slice(), vec![7, 8]);
    assert_eq!(v.get(1), Some(8));
    assert_eq!(v.get(2), None);
}

#[test]
fn vec_full_push_gives_item_back() {
    let mut bytes = AlignedBytes::new(4 + 4, 4);
    let mut v = FlatVec::<i32, u32>::default_in_place(bytes.as_mut_slice()).unwrap();
    assert_eq!(v.push(1), Ok(()));
    assert_eq!(v.push(2), Err(2));
    assert!(v.is_full());
}

#[test]
fn vec_invalid_length_is_refused() {
    // length 5 but room for 2 items
    let mut bytes = AlignedBytes::from_slice(&[5, 0, 0, 0, 1, 0, 0, 0, 2, 0, 0, 0], 4);
    let r = FlatVec::<i32, u32>::from_bytes(bytes.as_slice());
    assert_eq!(r.err(), Some(Error { kind: ErrorKind::InsufficientSize, pos: 4 }));
}

#[test]
fn vec_from_iterator_emplacer() {
    let mut bytes = AlignedBytes::new(4 + 3 * 4, 4);
    let v = new_in_place::<FlatVec<i32, u32>, _>(bytes.as_mut_slice(), flatty::vec::FromIterator(vec![4, 5, 6])).unwrap();
    assert_eq!(v.as_slice(), vec![4, 5, 6]);
    let r = new_in_place::<FlatVec<i32, u32>, _>(bytes.as_mut_slice(), flatty::vec::FromIterator(vec![1, 2, 3, 4]));
    assert_eq!(r.err(), Some(Error { kind: ErrorKind::InsufficientSize, pos: 0 }));
}

type Item = FlatVec<i32, u16>;

#[test]
fn flex_push_then_pop_restores() {
    let mut bytes = AlignedBytes::new(40, 4);
    let mut f = FlexVec::<Item, u16>::default_in_place(bytes.as_mut_slice()).unwrap();
    assert!(f.is_empty());
    assert_eq!(f.pop(), Err(EmptyError));
    f.push(FromArray([1, 2])).unwrap();
    assert_eq!(f.len(), 1);
    f.push(FromArray([3])).unwrap();
    assert_eq!(f.len(), 2);
    assert_eq!(f.pop(), Ok(()));
    assert_eq!(f.len(), 1);
    assert_eq!(f.get(0).unwrap().as_slice(), vec![1, 2]);
    f.clear();
    assert!(f.is_empty());
}

#[test]
fn flex_push_without_room_fails() {
    let mut bytes = AlignedBytes::new(12, 4);
    let mut f = FlexVec::<Item, u16>::default_in_place(bytes.as_mut_slice()).unwrap();
    f.push(FromArray([1])).unwrap();
    // the first item uses 8 bytes after its link; nothing is left for another link
    let r = f.push(FromArray([2]));
    assert_eq!(r, Err(Error { kind: ErrorKind::InsufficientSize, pos: 12 }));
    assert_eq!(f.len(), 1);
    // an emplacer that does not fit is refused and changes nothing
    let mut bytes = AlignedBytes::new(16, 4);
    let mut g = FlexVec::<Item, u16>::default_in_place(bytes.as_mut_slice()).unwrap();
    let r = g.push(FromArray([1, 2, 3]));
    assert_eq!(r, Err(Error { kind: ErrorKind::InsufficientSize, pos: 0 }));
    assert!(g.is_empty());
}

#[test]
fn flex_from_iterator_and_truncate() {
    let mut bytes = AlignedBytes::new(48, 4);
    let f = new_in_place::<FlexVec<Item, u16>, _>(
        bytes.as_mut_slice(),
        flex::FromIterator::new(vec![FromArray([1]), FromArray([2]), FromArray([3])]),
    )
    .unwrap();
    assert_eq!(f.len(), 3);
    let items = f.iter();
    assert_eq!(items[2].as_slice(), vec![3]);
    let mut f = f;
    f.truncate(1);
    assert_eq!(f.len(), 1);
    assert_eq!(f.get(0).unwrap().as_slice(), vec![1]);
    f.truncate(5);
    assert_eq!(f.len(), 1);
}

#[test]
fn flex_broken_chain_is_refused() {
    // a link of 2 is shorter than the link width (4)
    let mut bytes = AlignedBytes::from_slice(&[2, 0, 0, 0, 0, 0, 0, 0], 4);
    let r = FlexVec::<Item, u16>::from_bytes(bytes.as_slice());
    assert_eq!(r.err(), Some(Error { kind: ErrorKind::InsufficientSize, pos: 4 }));
    // a link past the end of the memory
    let mut bytes = AlignedBytes::from_slice(&[16, 0, 0, 0, 0, 0, 0, 0], 4);
    let r = FlexVec::<Item, u16>::from_bytes(bytes.as_slice());
    assert_eq!(r.err(), Some(Error { kind: ErrorKind::InsufficientSize, pos: 0 }));
}

#[test]
fn string_from_str_law_and_errors() {
    let mut bytes = AlignedBytes::new(2 + 6, 2);
    let s = new_in_place::<FlatString<u16>, _>(bytes.as_mut_slice(), FromStr("héllo")).unwrap();
    assert_eq!(s.as_str(), "héllo");
    assert_eq!(s.len(), 6);
    let r = new_in_place::<FlatString<u16>, _>(bytes.as_mut_slice(), FromStr("too long!"));
    assert_eq!(r.err(), Some(Error { kind: ErrorKind::InsufficientSize, pos: 0 }));
    // invalid UTF-8 after two valid bytes
    let bad = AlignedBytes::from_slice(&[3, 0, b'a', b'b', 0xff, 0], 2);
    let r = FlatString::<u16>::from_bytes(bad.as_slice());
    assert_eq!(r.err(), Some(Error { kind: ErrorKind::InvalidData, pos: 4 }));
    // length beyond the capacity
    let long = AlignedBytes::from_slice(&[9, 0, b'a', b'b'], 2);
    let r = FlatString::<u16>::from_bytes(long.as_slice());
    assert_eq!(r.err(), Some(Error { kind: ErrorKind::InsufficientSize, pos: 2 }));
}

#[test]
fn unvalidated_memory() {
    let mut bytes = AlignedBytes::new(4 + 2 * 4, 4);
    let mut u = Unvalidated::<FlatVec<i32, u32>>::from_bytes(bytes.as_slice()).unwrap();
    assert_eq!(u.as_bytes().len(), 12);
    let v = u.new_in_place(FromArray([5, 6])).unwrap();
    assert_eq!(v.as_slice(), vec![5, 6]);
    assert_eq!(u.validate().unwrap().as_slice(), vec![5, 6]);
    let mut w = Unvalidated::<FlatVec<i32, u32>>::from_bytes(&AlignedBytes::from_slice(&[9, 0, 0, 0, 0, 0, 0, 0], 4).as_slice()).unwrap();
    assert_eq!(w.validate_mut().err(), Some(Error { kind: ErrorKind::InsufficientSize, pos: 4 }));
    assert_eq!(w.default_in_place().unwrap().len(), 0);
}

#[test]
fn aligned_bytes_copy() {
    let b = AlignedBytes::from_slice(&[1, 2, 3], 8);
    assert_eq!(b.as_slice(), &[1, 2, 3]);
    assert_eq!(b.layout(), (3, 8));
    assert_eq!(b.as_slice().as_ptr() as usize % 8, 0);
}

#[test]
fn ref_iter_validates_and_folds() {
    let mut bytes = AlignedBytes::from_slice(&[1, 0, 2, 0, 3, 0, 0, 0], 4);
    let list = TwoOrMoreTypes::<u8, _>::new(TwoOrMoreTypes::<u16, _>::new(SingleType::<u32>::new()));
    let it = RefIter::new(bytes.as_slice(), list).unwrap();
    let (it, first) = it.next();
    assert_eq!(first, &[1, 0]);
    assert_eq!(it.pos(), 2);
    assert_eq!(it.validate_all(), Ok(()));
    let list = TwoOrMoreTypes::<u8, _>::new(TwoOrMoreTypes::<u16, _>::new(SingleType::<u32>::new()));
    let it = RefIter::new(bytes.as_slice(), list).unwrap();
    assert_eq!(it.fold_size(0), 8);
}

#[test]
fn message_buffer_reads_messages() {
    let mut buf = MessageBuffer::<FlatVec<u8, le::U16>>::new(8);
    // nothing received yet: wait for more bytes
    assert_eq!(buf.read_step(), None);
    buf.fill_vacant(&[2, 0, 7]);
    assert_eq!(buf.occupied(), &[2, 0, 7]);
    assert_eq!(buf.vacant_len(), 5);
    // the length says two items but only one arrived
    assert_eq!(buf.message().err(), Some(Error { kind: ErrorKind::InsufficientSize, pos: 2 }));
    assert_eq!(buf.next_message(), None);
    buf.fill_vacant(&[8]);
    let m = buf.message().unwrap();
    assert_eq!(m.as_slice(), vec![7, 8]);
    assert_eq!(message_bytes(&m), vec![2, 0, 7, 8]);
    buf.skip_occupied(4);
    assert_eq!(buf.occupied_len(), 0);
    assert_eq!(buf.preceding_len(), 0);
}

#[test]
fn message_buffer_moves_data_to_front() {
    let mut buf = MessageBuffer::<FlatVec<u8, le::U16>>::new(8);
    buf.fill_vacant(&[1, 0, 5, 9, 9, 9]);
    buf.skip_occupied(3);
    assert_eq!(buf.occupied(), &[9, 9, 9]);
    assert!(buf.try_extend_vacant());
    assert_eq!(buf.occupied(), &[9, 9, 9]);
    assert_eq!(buf.preceding_len(), 0);
    assert!(!buf.try_extend_vacant());
    assert_eq!(buf.extendable_len(), 5);
}

#[test]
fn next_message_decisions() {
    let mut short = Err(Error { kind: ErrorKind::InsufficientSize, pos: 0 });
    assert_eq!(next_message_of(Ok(()), 0, 4), Some(Ok(())));
    assert_eq!(next_message_of(short, 3, 4), None);
    assert_eq!(next_message_of(short, 0, 4), Some(Err(Error { kind: ErrorKind::InsufficientSize, pos: 4 })));
    let bad = Err(Error { kind: ErrorKind::InvalidData, pos: 1 });
    assert_eq!(next_message_of(bad, 3, 4), Some(bad));
}

#[test]
fn flat_values_validate_their_bytes() {
    let mut bytes = AlignedBytes::new(4 + 2 * 4, 4);
    let v = new_in_place::<FlatVec<i32, u32>, _>(bytes.as_mut_slice(), FromArray([1, 2])).unwrap();
    assert_eq!(FlatVec::<i32, u32>::validate(bytes.as_slice()).is_ok(), true);
    assert_eq!(v.as_bytes(), vec![2, 0, 0, 0, 1, 0, 0, 0, 2, 0, 0, 0]);
}

#[test]
fn init_default_list() {
    let mut data = vec![7u8; 4];
    let list = TwoOrMoreTypes::<u8, _>::new(SingleType::<FlatVec<u8, u8>>::new());
    assert_eq!(list.init_default_all(&mut data), Ok(()));
    assert_eq!(data, vec![0, 0, 7, 7]);
    let mut short: Vec<u8> = vec![7u8; 1];
    let list = TwoOrMoreTypes::<u8, _>::new(SingleType::<FlatVec<u8, u8>>::new());
    assert_eq!(
        list.init_default_all(&mut short),
        Err(Error { kind: ErrorKind::InsufficientSize, pos: 0 })
    );
    assert_eq!(short, vec![7]);
}

#[test]
fn values_read_back_from_their_bytes() {
    let mut mem = AlignedBytes::new(4 + 3 * 4, 4);
    let v = new_in_place::<FlatVec<i32, u32>, _>(mem.as_mut_slice(), FromArray([3, 1, 4])).unwrap();
    let copy = AlignedBytes::from_slice(&v.as_bytes(), 4);
    let w = FlatVec::<i32, u32>::from_bytes(copy.as_slice()).unwrap();
    assert!(w.eq(&v));

    let mut mem = AlignedBytes::new(2 + 4, 2);
    let s = new_in_place::<FlatString<u16>, _>(mem.as_mut_slice(), FromStr("ab")).unwrap();
    let copy = AlignedBytes::from_slice(&s.as_bytes(), 2);
    let t = FlatString::<u16>::from_bytes(copy.as_slice()).unwrap();
    assert_eq!(t.as_str(), "ab");

    let mut mem = AlignedBytes::new(40, 4);
    let mut f = FlexVec::<Item, u16>::default_in_place(mem.as_mut_slice()).unwrap();
    f.push(FromArray([1, 2])).unwrap();
    let copy = AlignedBytes::from_slice(&f.as_bytes(), 4);
    let g = FlexVec::<Item, u16>::from_bytes(copy.as_slice()).unwrap();
    assert_eq!(g.len(), 1);
    assert_eq!(g.get(0).unwrap().as_slice(), vec![1, 2]);
}
