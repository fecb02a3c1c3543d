use flatty::mem::AlignedBytes;
use flatty::traits::{new_in_place, FlatBase, FlatDefault, FlatUnsized};
use flatty::vec::{FlatVec, FromArray};

#[test]
fn vec_data_offset() {
    let mut bytes = AlignedBytes::new(4 + 3 * 4, 4);
    let flat_vec = FlatVec::<i32, u16>::default_in_place(bytes.as_mut_slice()).unwrap();

    assert_eq!(FlatVec::<i32, u16>::align(), 4);
    assert_eq!(flat_vec.len(), 0);
}

#[test]
fn vec_align() {
    let mut bytes = AlignedBytes::new(4 + 3 * 2, 4);
    let flat_vec = FlatVec::<i16, u32>::default_in_place(bytes.as_mut_slice()).unwrap();

    assert_eq!(FlatVec::<i16, u32>::align(), 4);
    assert_eq!(flat_vec.capacity(), 2);
    assert_eq!(flat_vec.as_bytes().len(), 8);
}

#[test]
fn vec_len_cap() {
    let mut bytes = AlignedBytes::new(4 + 3 * 4, 4);
    let flat_vec = FlatVec::<i32, u32>::default_in_place(bytes.as_mut_slice()).unwrap();
    assert_eq!(flat_vec.capacity(), 3);
    assert_eq!(flat_vec.len(), 0);
}

#[test]
fn vec_size() {
    let mut bytes = AlignedBytes::new(4 + 3 * 4, 4);
    let mut flat_vec = FlatVec::<i32, u32>::default_in_place(bytes.as_mut_slice()).unwrap();
    assert_eq!(FlatVec::<i32, u32>::data_offset(), flat_vec.size());

    let mut i: i32 = 0;
    loop {
        if flat_vec.push(i).is_err() {
            break;
        }
        i += 1;
    }
    assert_eq!(flat_vec.len(), 3);
    assert_eq!(flat_vec.as_bytes().len(), flat_vec.size());
}

#[test]
fn vec_extend_from_slice() {
    let mut bytes = AlignedBytes::new(4 * 6, 4);
    let mut vec = FlatVec::<i32, u32>::default_in_place(bytes.as_mut_slice()).unwrap();
    assert_eq!(vec.capacity(), 5);
    assert_eq!(vec.len(), 0);
    assert_eq!(vec.remaining(), 5);

    assert_eq!(vec.extend_from_slice(&[1, 2, 3]), 3);
    assert_eq!(vec.len(), 3);
    assert_eq!(vec.remaining(), 2);
    assert_eq!(vec.as_slice(), vec![1, 2, 3]);

    assert_eq!(vec.extend_from_slice(&[4, 5, 6]), 2);
    assert_eq!(vec.len(), 5);
    assert_eq!(vec.remaining(), 0);
    assert_eq!(vec.as_slice(), vec![1, 2, 3, 4, 5]);
}

#[test]
fn vec_eq() {
    let mut mem_a = AlignedBytes::new(4 * 5, 4);
    let vec_a = new_in_place::<FlatVec<i32, u32>, _>(mem_a.as_mut_slice(), FromArray([1, 2, 3, 4])).unwrap();

    let mut mem_b = AlignedBytes::new(4 * 5, 4);
    let mut vec_b = new_in_place::<FlatVec<i32, u32>, _>(mem_b.as_mut_slice(), FromArray([1, 2, 3, 4])).unwrap();

    let mut mem_c = AlignedBytes::new(4 * 3, 4);
    let vec_c = new_in_place::<FlatVec<i32, u32>, _>(mem_c.as_mut_slice(), FromArray([1, 2])).unwrap();

    assert!(vec_a.eq(&vec_b));
    assert!(!vec_a.eq(&vec_c));
    assert!(!vec_b.eq(&vec_c));

    vec_b.set(3, 5);
    assert!(!vec_a.eq(&vec_b));
}
