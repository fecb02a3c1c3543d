use flatty::mem::AlignedBytes;
use flatty::string::{FlatString, FromStr};
use flatty::traits::{new_in_place, FlatDefault};

#[test]
fn push_str() {
    let mut bytes = AlignedBytes::new(4 + 8, 4);
    let mut string = FlatString::<u32>::default_in_place(bytes.as_mut_slice()).unwrap();
    assert_eq!(string.capacity(), 8);
    assert_eq!(string.len(), 0);
    assert_eq!(string.remaining(), 8);

    string.push_str("abc").unwrap();
    assert_eq!(string.len(), 3);
    assert_eq!(string.remaining(), 5);
    assert_eq!(string.as_str(), "abc");

    string.push_str("defgh").unwrap();
    assert_eq!(string.len(), 8);
    assert_eq!(string.remaining(), 0);
    assert_eq!(string.as_str(), "abcdefgh");

    assert!(string.push_str("i").is_err());
}

#[test]
fn string_eq() {
    let mut mem_a = AlignedBytes::new(2 + 4, 2);
    let string_a = new_in_place::<FlatString<u16>, _>(mem_a.as_mut_slice(), FromStr("abcd")).unwrap();

    let mut mem_b = AlignedBytes::new(2 + 4, 2);
    let mut string_b = new_in_place::<FlatString<u16>, _>(mem_b.as_mut_slice(), FromStr("abcd")).unwrap();

    let mut mem_c = AlignedBytes::new(2 + 2, 2);
    let string_c = new_in_place::<FlatString<u16>, _>(mem_c.as_mut_slice(), FromStr("ab")).unwrap();

    assert!(string_a.eq(&string_b));
    assert!(!string_a.eq(&string_c));
    assert!(!string_b.eq(&string_c));

    string_b.clear();
    assert!(!string_a.eq(&string_b));
}
