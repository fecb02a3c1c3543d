use flatty::iter::{PosIter, SingleType, TwoOrMoreTypes};

#[test]
fn iter_pos() {
    let iter = PosIter::new(TwoOrMoreTypes::<u8, _>::new(TwoOrMoreTypes::<u16, _>::new(
        SingleType::<u32>::new(),
    )));
    assert_eq!(iter.pos(), 0);
    let iter = iter.next();
    assert_eq!(iter.pos(), 2);
    let iter = iter.next();
    assert_eq!(iter.pos(), 4);
}
