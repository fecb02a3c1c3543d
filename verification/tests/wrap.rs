use flatty::mem::AlignedBytes;
use flatty::vec::FlatVec;
use flatty::wrap::FlatWrap;

#[test]
fn wrap_wrapped_vec() {
    let mut wrap = FlatWrap::<FlatVec<u8, u16>, _>::default_in_place(AlignedBytes::new(2 + 4, 2)).unwrap();

    assert_eq!(wrap.as_flat().capacity(), 4);
    assert_eq!(wrap.as_flat().len(), 0);
    assert_eq!(wrap.as_flat().remaining(), 4);

    assert_eq!(wrap.as_flat_mut().extend_from_slice(&[1, 2]), 2);
    assert_eq!(wrap.as_flat().len(), 2);
    assert_eq!(wrap.as_flat().remaining(), 2);
    assert_eq!(wrap.as_flat().as_slice(), vec![1, 2]);

    assert_eq!(wrap.as_flat_mut().extend_from_slice(&[3, 4, 5]), 2);
    assert_eq!(wrap.as_flat().len(), 4);
    assert_eq!(wrap.as_flat().remaining(), 0);
    assert_eq!(wrap.as_flat().as_slice(), vec![1, 2, 3, 4]);

    let bytes = wrap.into_inner();
    assert_eq!(bytes.as_slice(), [4, 0, 1, 2, 3, 4].as_slice())
}
