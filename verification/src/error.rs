use vstd::prelude::*;

verus! {

/// Error kinds that can occur while working with flat types.
#[derive(Clone, Copy, Debug, PartialEq, Eq, Structural)]
pub enum ErrorKind {
    /// The byte slice has insufficient size to be interpreted as required type.
    InsufficientSize,
    /// Memory isn't properly aligned to be interpreted as required type.
    BadAlign,
    /// Enum binary representation contains index that doesn't match any of possible enum states.
    InvalidEnumTag,
    /// Invalid binary representation of the type.
    InvalidData,
    /// Any other error.
    Other,
}

/// Flat type operation error.
#[derive(Clone, Copy, Debug, PartialEq, Eq, Structural)]
pub struct Error {
    pub kind: ErrorKind,
    /// An offset from the beginning of flat type memory where error occur.
    pub pos: usize,
}

impl Error {
    /// The error moved by `offset` bytes: same kind, position `pos + offset`.
    pub open spec fn spec_offset(self, offset: int) -> Error {
        Error { kind: self.kind, pos: (self.pos + offset) as usize }
    }

    /// Clone `self` and add `offset` to [`Self::pos`].
    pub fn offset(self, offset: usize) -> (r: Self)
        requires
            self.pos + offset <= usize::MAX,
        ensures
            r == self.spec_offset(offset as int),
            r.kind == self.kind,
            r.pos == self.pos + offset,
    {
        let mut this = self;
        this.pos = this.pos + offset;
        this
    }
}

/// Moving an error by `a` bytes, then by `b`, moves it by `a + b`.
pub proof fn law_offset_compose(e: Error, a: int, b: int)
    requires
        0 <= a,
        0 <= b,
        e.pos + a + b <= usize::MAX,
    ensures
        e.spec_offset(a).spec_offset(b) == e.spec_offset(a + b),
{
}

/// Successful results that carry nothing are all the same value.
pub proof fn lemma_ok_unit(r: Result<(), Error>)
    requires
        r is Ok,
    ensures
        r == Ok::<(), Error>(()),
{
    let u: () = r->Ok_0;
    assert(u == ());
}

} // verus!
