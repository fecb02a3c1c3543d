use flatty::flex::FlexVec;
use flatty::mem::AlignedBytes;
use flatty::traits::{FlatBase, FlatDefault, FlatUnsized};
use flatty::vec::FlatVec;

type Item = FlatVec<i32, u16>;

#[test]
fn flex_align() {
    let mut bytes = AlignedBytes::new(10, 4);
    let flex_vec = FlexVec::<Item, u16>::default_in_place(bytes.as_mut_slice()).unwrap();
    assert_eq!(FlexVec::<Item, u16>::offset_size(), 4);

    assert_eq!(FlexVec::<Item, u16>::align(), 4);
    assert_eq!(flex_vec.as_bytes().len(), 8);
    assert_eq!(flex_vec.size(), 4);
}

#[test]
fn push() {
    let mut bytes = AlignedBytes::new((4 + 4) * 3 + 4 * 3 + 4, 4);
    let mut flex_vec = FlexVec::<Item, u16>::default_in_place(bytes.as_mut_slice()).unwrap();
    assert_eq!(FlexVec::<Item, u16>::offset_size(), flex_vec.size());

    flex_vec.push_default().unwrap();
    let mut item = flex_vec.get(0).unwrap();
    assert_eq!(item.extend_from_slice(&[0, 1]), 2);
    flex_vec.set(0, &item);
    flex_vec.push_default().unwrap();
    flex_vec.push_default().unwrap();
    let mut item = flex_vec.get(2).unwrap();
    assert_eq!(item.extend_from_slice(&[2]), 1);
    flex_vec.set(2, &item);

    assert_eq!(flex_vec.len(), 3);
    assert_eq!(flex_vec.get(0).unwrap().as_slice(), vec![0, 1]);
    assert_eq!(flex_vec.get(1).unwrap().as_slice(), Vec::<i32>::new());
    assert_eq!(flex_vec.get(2).unwrap().as_slice(), vec![2]);
    assert!(flex_vec.get(3).is_none());
}

#[test]
fn push_modify() {
    let mut bytes = AlignedBytes::new((4 + 4) * 3 + 4 * 3 + 4, 4);
    let mut flex_vec = FlexVec::<Item, u16>::default_in_place(bytes.as_mut_slice()).unwrap();
    assert_eq!(FlexVec::<Item, u16>::offset_size(), flex_vec.size());

    flex_vec.push_default().unwrap();
    let mut item = flex_vec.get(0).unwrap();
    assert_eq!(item.extend_from_slice(&[0, 1]), 2);
    flex_vec.set(0, &item);
    flex_vec.push_default().unwrap();
    let mut item = flex_vec.get(1).unwrap();
    assert_eq!(item.extend_from_slice(&[2]), 1);
    flex_vec.set(1, &item);

    let mut first = flex_vec.get(0).unwrap();
    assert_eq!(first.pop(), Some(1));
    flex_vec.set(0, &first);

    assert_eq!(flex_vec.len(), 2);
    assert_eq!(flex_vec.get(0).unwrap().as_slice(), vec![0]);
    assert_eq!(flex_vec.get(1).unwrap().as_slice(), vec![2]);
    assert!(flex_vec.get(2).is_none());
}
