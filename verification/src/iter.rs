use crate::error::{Error, ErrorKind};
use crate::traits::{write_bytes, Emplacer, FlatBase, FlatDefault, FlatSized, FlatUnsized, FlatValidate};
use crate::utils::{
    align_offset, ceil_mul, check_layout, layout_check_outcome, lemma_ceil_mul, lemma_pow2_divides,
    lemma_rounding_laws, max, spec_ceil_mul, spec_check_layout,
};
use core::marker::PhantomData;
use vstd::arithmetic::power2::is_pow2;
use vstd::prelude::*;
use vstd::slice::slice_subrange;

verus! {

/// A list of flat types laid out one after another, each aligned; all but the last are sized.
pub trait TypeIter: Sized {
    /// Alignment of the whole list: the biggest alignment of its types.
    spec fn spec_align(&self) -> nat;

    /// Alignment of the first type of the list.
    spec fn spec_first_align(&self) -> nat;

    /// Where the list ends, at the least, when it starts at `pos`.
    spec fn spec_min_size(&self, pos: nat) -> nat;

    /// The layout facts of the types of the list.
    spec fn spec_layout_ok(&self) -> bool;

    /// The first error of a type of the list laid out in `data` from `pos` on, moved to where
    /// the type starts, or success.
    spec fn spec_validate_list(&self, data: Seq<u8>, pos: nat) -> Result<(), Error>;

    /// Alignments are powers of two; the list's alignment is a multiple of each; its end lies
    /// past the start, and only depends on the start rounded up to the first alignment.
    proof fn lemma_type_iter(&self, pos: nat)
        requires
            self.spec_layout_ok(),
        ensures
            is_pow2(self.spec_align() as int),
            is_pow2(self.spec_first_align() as int),
            0 < self.spec_first_align() <= self.spec_align() <= isize::MAX + 1,
            self.spec_align() % self.spec_first_align() == 0,
            self.spec_min_size(pos) >= spec_ceil_mul(pos as int, self.spec_first_align() as int),
            self.spec_min_size(pos) == self.spec_min_size(
                spec_ceil_mul(pos as int, self.spec_first_align() as int) as nat,
            ),
    ;

    /// End of the list laid out in `data` from `pos` on, when its first type would start
    /// after `size` bytes.
    spec fn spec_fold_list(&self, data: Seq<u8>, pos: nat, size: nat) -> nat;

    /// Where the list ends depends on the size before it only through that size rounded up
    /// to the first alignment.
    proof fn lemma_fold_rounded(&self, data: Seq<u8>, pos: nat, size: nat)
        requires
            self.spec_layout_ok(),
        ensures
            self.spec_fold_list(data, pos, size) == self.spec_fold_list(
                data,
                pos,
                spec_ceil_mul(size as int, self.spec_first_align() as int) as nat,
            ),
    ;

    /// Validate each type of the list laid out in `data` from `pos` on.
    fn validate_list(&self, data: &[u8], pos: usize) -> (r: Result<(), Error>)
        requires
            self.spec_layout_ok(),
            (pos as nat) % self.spec_first_align() == 0,
            self.spec_min_size(pos as nat) <= pos + data@.len(),
            pos + data@.len() <= isize::MAX,
        ensures
            r == self.spec_validate_list(data@, pos as nat),
    ;

    /// End of the valid list laid out in `data` from `pos` on, when its first type would start
    /// after `size` bytes.
    fn fold_list(&self, data: &[u8], pos: usize, size: usize) -> (r: usize)
        requires
            self.spec_layout_ok(),
            (pos as nat) % self.spec_first_align() == 0,
            self.spec_min_size(pos as nat) <= pos + data@.len(),
            pos + data@.len() <= isize::MAX,
            self.spec_validate_list(data@, pos as nat) is Ok,
            size <= pos,
        ensures
            r == self.spec_fold_list(data@, pos as nat, size as nat),
            r <= pos + data@.len(),
    ;

    /// Alignment of the whole list.
    fn align(&self) -> (r: usize)
        ensures
            r == self.spec_align(),
            self.spec_layout_ok(),
    ;

    /// Alignment of the first type of the list.
    fn first_align(&self) -> (r: usize)
        ensures
            r == self.spec_first_align(),
            self.spec_layout_ok(),
    ;

    /// Where the list ends, at the least, when it starts at `pos`.
    fn min_size(&self, pos: usize) -> (r: usize)
        requires
            self.spec_layout_ok(),
            pos <= isize::MAX,
            self.spec_min_size(pos as nat) <= isize::MAX,
        ensures
            r == self.spec_min_size(pos as nat),
    ;

    /// Check that memory is aligned for the list and large enough for it.
    ///
    /// Whether the start of the memory is aligned depends on where it lies; for a list aligned
    /// to one byte every start is, and the result depends on the length alone.
    fn check_align_and_min_size(&self, data: &[u8]) -> (r: Result<(), Error>)
        requires
            self.spec_min_size(0) <= isize::MAX,
        ensures
            self.spec_layout_ok(),
            layout_check_outcome(r, data@.len(), self.spec_min_size(0)),
            self.spec_align() == 1 ==> r == spec_check_layout(
                0,
                data@.len() as usize,
                self.spec_min_size(0) as usize,
            ),
    {
        let align = self.align();
        proof {
            self.lemma_type_iter(0);
        }
        let offset = if align == 1 {
            0
        } else {
            align_offset(data, align)
        };
        check_layout(offset, data.len(), self.min_size(0))
    }
}

/// The list of a single (possibly unsized) type.
pub struct SingleType<T: FlatUnsized> {
    _phantom: PhantomData<T>,
}

impl<T: FlatUnsized> SingleType<T> {
    /// The list of `T` alone.
    pub fn new() -> (r: Self) {
        Self { _phantom: PhantomData }
    }
}

impl<T: FlatUnsized> TypeIter for SingleType<T> {
    open spec fn spec_align(&self) -> nat {
        T::spec_align()
    }

    open spec fn spec_first_align(&self) -> nat {
        T::spec_align()
    }

    open spec fn spec_min_size(&self, pos: nat) -> nat {
        (spec_ceil_mul(pos as int, T::spec_align() as int) + T::spec_min_size()) as nat
    }

    open spec fn spec_layout_ok(&self) -> bool {
        T::spec_layout_ok()
    }

    open spec fn spec_validate_list(&self, data: Seq<u8>, pos: nat) -> Result<(), Error> {
        match T::spec_validate(data) {
            Err(e) => Err(e.spec_offset(pos as int)),
            Ok(()) => Ok(()),
        }
    }

    proof fn lemma_type_iter(&self, pos: nat) {
        assert(self.spec_align() == T::spec_align());
        assert(self.spec_first_align() == T::spec_align());
        assert(self.spec_layout_ok() == T::spec_layout_ok());
        T::lemma_layout();
        lemma_pow2_divides(T::spec_align() as int, T::spec_align() as int);
        lemma_rounding_laws(pos as int, T::spec_align() as int);
        lemma_ceil_mul(pos as int, T::spec_align() as int);
    }

    open spec fn spec_fold_list(&self, data: Seq<u8>, pos: nat, size: nat) -> nat {
        (spec_ceil_mul(size as int, T::spec_align() as int) + T::spec_size(data)) as nat
    }

    proof fn lemma_fold_rounded(&self, data: Seq<u8>, pos: nat, size: nat) {
        T::lemma_layout();
        assert(self.spec_first_align() == T::spec_align());
        lemma_ceil_mul(size as int, T::spec_align() as int);
        lemma_rounding_laws(size as int, T::spec_align() as int);
    }

    fn validate_list(&self, data: &[u8], pos: usize) -> (r: Result<(), Error>) {
        proof {
            T::lemma_layout();
            crate::utils::lemma_rounding_laws(pos as int, T::spec_align() as int);
        }
        match T::validate_unchecked(data) {
            Err(e) => {
                proof {
                    T::lemma_error_pos(data@);
                }
                Err(e.offset(pos))
            },
            Ok(()) => Ok(()),
        }
    }

    fn fold_list(&self, data: &[u8], pos: usize, size: usize) -> (r: usize)
        ensures
            r == spec_ceil_mul(size as int, T::spec_align() as int) + T::spec_size(data@),
            T::spec_min_size() <= r - spec_ceil_mul(size as int, T::spec_align() as int) <= data@.len(),
    {
        proof {
            T::lemma_layout();
            crate::utils::lemma_rounding_laws(pos as int, T::spec_align() as int);
            lemma_ceil_mul(size as int, T::spec_align() as int);
            T::lemma_valid_size(data@);
        }
        ceil_mul(size, T::align()) + T::size_of_bytes(data)
    }

    fn align(&self) -> (r: usize) {
        let r = T::align();
        assert(self.spec_align() == T::spec_align());
        assert(self.spec_layout_ok() == T::spec_layout_ok());
        r
    }

    fn first_align(&self) -> (r: usize) {
        let r = T::align();
        assert(self.spec_first_align() == T::spec_align());
        assert(self.spec_layout_ok() == T::spec_layout_ok());
        r
    }

    fn min_size(&self, pos: usize) -> (r: usize) {
        proof {
            T::lemma_layout();
            lemma_ceil_mul(pos as int, T::spec_align() as int);
        }
        ceil_mul(pos, T::align()) + T::min_size()
    }
}

/// The size folded over the last type of a list ends with the size that its value occupies:
/// the size so far rounded up to the type's alignment, plus the bytes the valid value in
/// `data` takes (for a vector, its header and its items), which is at least the type's minimal
/// size and no more than `data`. Folding from the type's own position, the list ends where
/// its value ends.
pub proof fn law_fold_last<T: FlatUnsized>(list: SingleType<T>, data: Seq<u8>, pos: nat, size: nat)
    requires
        T::spec_layout_ok(),
        pos % T::spec_align() == 0,
        T::spec_min_size() <= data.len(),
        pos + data.len() <= isize::MAX,
        T::spec_validate(data) is Ok,
        size <= pos,
    ensures
        list.spec_fold_list(data, pos, size) == spec_ceil_mul(size as int, T::spec_align() as int)
            + T::spec_size(data),
        T::spec_min_size() <= T::spec_size(data) <= data.len(),
        list.spec_fold_list(data, pos, size) <= pos + data.len(),
        list.spec_fold_list(data, pos, pos) == pos + T::spec_size(data),
{
    T::lemma_layout();
    T::lemma_valid_size(data);
    lemma_ceil_mul(size as int, T::spec_align() as int);
    lemma_rounding_laws(pos as int, T::spec_align() as int);
    assert(spec_ceil_mul(size as int, T::spec_align() as int) <= pos) by {
        lemma_ceil_mul(size as int, T::spec_align() as int);
    }
}

/// Folding a list from its own position over its sized first type goes on from where the next
/// type starts, as if the list began there: the first value takes its size, then the gap up to
/// the next alignment.
pub proof fn law_fold_first<T: FlatSized, I: TypeIter>(
    list: TwoOrMoreTypes<T, I>,
    data: Seq<u8>,
    pos: nat,
)
    requires
        list.spec_layout_ok(),
        pos % T::spec_align() == 0,
    ensures
        ({
            let q = spec_ceil_mul(
                (pos + T::spec_size_of()) as int,
                list.spec_next().spec_first_align() as int,
            );
            &&& pos + T::spec_size_of() <= q
            &&& list.spec_fold_list(data, pos, pos) == list.spec_next().spec_fold_list(
                data.skip(q - pos),
                q as nat,
                q as nat,
            )
        }),
{
    T::lemma_layout();
    T::lemma_sized_layout(Seq::empty());
    let n = list.spec_next();
    n.lemma_type_iter(0);
    lemma_rounding_laws(pos as int, T::spec_align() as int);
    let s = (pos + T::spec_size_of()) as nat;
    lemma_ceil_mul(s as int, n.spec_first_align() as int);
    let q = spec_ceil_mul(s as int, n.spec_first_align() as int);
    lemma_rounding_laws(q, n.spec_first_align() as int);
    n.lemma_fold_rounded(data.skip(q - pos), q as nat, s);
    n.lemma_fold_rounded(data.skip(q - pos), q as nat, q as nat);
}

/// The list of a sized type followed by the types of another list.
pub struct TwoOrMoreTypes<T: FlatSized, I: TypeIter> {
    _phantom: PhantomData<T>,
    next: I,
}

impl<T: FlatSized, I: TypeIter> TwoOrMoreTypes<T, I> {
    /// The list of `T` followed by the types of `next`.
    pub fn new(next: I) -> (r: Self)
        ensures
            r.spec_next() == next,
    {
        Self { _phantom: PhantomData, next }
    }

    /// The list that follows the first type.
    pub closed spec fn spec_next(&self) -> I {
        self.next
    }

    /// The list that follows the first type.
    pub fn next(self) -> (r: I)
        ensures
            r == self.spec_next(),
    {
        self.next
    }
}

impl<T: FlatSized, I: TypeIter> TypeIter for TwoOrMoreTypes<T, I> {
    open spec fn spec_align(&self) -> nat {
        if T::spec_align() >= self.spec_next().spec_align() {
            T::spec_align()
        } else {
            self.spec_next().spec_align()
        }
    }

    open spec fn spec_first_align(&self) -> nat {
        T::spec_align()
    }

    open spec fn spec_min_size(&self, pos: nat) -> nat {
        self.spec_next().spec_min_size(
            (spec_ceil_mul(pos as int, T::spec_align() as int) + T::spec_size_of()) as nat,
        )
    }

    open spec fn spec_layout_ok(&self) -> bool {
        T::spec_layout_ok() && self.spec_next().spec_layout_ok()
    }

    open spec fn spec_validate_list(&self, data: Seq<u8>, pos: nat) -> Result<(), Error> {
        match T::spec_validate(data) {
            Err(e) => Err(e.spec_offset(pos as int)),
            Ok(()) => {
                let q = spec_ceil_mul((pos + T::spec_size_of()) as int, self.spec_next().spec_first_align() as int);
                self.spec_next().spec_validate_list(data.skip(q - pos), q as nat)
            },
        }
    }

    proof fn lemma_type_iter(&self, pos: nat) {
        assert(self.spec_first_align() == T::spec_align());
        assert(self.spec_layout_ok() == (T::spec_layout_ok() && self.spec_next().spec_layout_ok()));
        assert(self.spec_align() == if T::spec_align() >= self.spec_next().spec_align() {
            T::spec_align()
        } else {
            self.spec_next().spec_align()
        });
        T::lemma_layout();
        T::lemma_sized_layout(Seq::empty());
        let a = T::spec_align() as int;
        let c = spec_ceil_mul(pos as int, a);
        self.spec_next().lemma_type_iter((c + T::spec_size_of()) as nat);
        crate::utils::lemma_max_pow2(a, self.spec_next().spec_align() as int);
        lemma_pow2_divides(a, a);
        lemma_rounding_laws(pos as int, a);
        lemma_ceil_mul(pos as int, a);
        let n = self.spec_next();
        lemma_ceil_mul(c + T::spec_size_of(), n.spec_first_align() as int);
        if T::spec_align() < n.spec_align() {
            lemma_pow2_divides(a, n.spec_align() as int);
        }
    }

    open spec fn spec_fold_list(&self, data: Seq<u8>, pos: nat, size: nat) -> nat {
        let q = spec_ceil_mul((pos + T::spec_size_of()) as int, self.spec_next().spec_first_align() as int);
        self.spec_next().spec_fold_list(
            data.skip(q - pos),
            q as nat,
            (spec_ceil_mul(size as int, T::spec_align() as int) + T::spec_size_of()) as nat,
        )
    }

    proof fn lemma_fold_rounded(&self, data: Seq<u8>, pos: nat, size: nat) {
        T::lemma_layout();
        assert(self.spec_first_align() == T::spec_align());
        lemma_ceil_mul(size as int, T::spec_align() as int);
        lemma_rounding_laws(size as int, T::spec_align() as int);
    }

    fn validate_list(&self, data: &[u8], pos: usize) -> (r: Result<(), Error>) {
        proof {
            self.lemma_next_fits(data@, pos as nat);
        }
        match T::validate_unchecked(data) {
            Err(e) => {
                proof {
                    T::lemma_error_pos(data@);
                }
                return Err(e.offset(pos));
            },
            Ok(()) => {},
        }
        proof {
            self.next.lemma_type_iter(0);
        }
        let q = ceil_mul(pos + T::size_of(), self.next.first_align());
        let rest = slice_subrange(data, q - pos, data.len());
        proof {
            assert(rest@ =~= data@.skip(q - pos));
        }
        self.next.validate_list(rest, q)
    }

    fn fold_list(&self, data: &[u8], pos: usize, size: usize) -> (r: usize) {
        proof {
            self.lemma_next_fits(data@, pos as nat);
            T::lemma_layout();
            lemma_ceil_mul(size as int, T::spec_align() as int);
            crate::utils::lemma_rounding_laws(pos as int, T::spec_align() as int);
        }
        proof {
            self.next.lemma_type_iter(0);
        }
        let q = ceil_mul(pos + T::size_of(), self.next.first_align());
        let rest = slice_subrange(data, q - pos, data.len());
        proof {
            assert(rest@ =~= data@.skip(q - pos));
        }
        let size2 = ceil_mul(size, T::align()) + T::size_of();
        self.next.fold_list(rest, q, size2)
    }

    fn align(&self) -> (r: usize) {
        let a = T::align();
        let b = self.next.align();
        assert(self.spec_align() == if T::spec_align() >= self.spec_next().spec_align() {
            T::spec_align()
        } else {
            self.spec_next().spec_align()
        });
        assert(self.spec_layout_ok() == (T::spec_layout_ok() && self.spec_next().spec_layout_ok()));
        max(a, b)
    }

    fn first_align(&self) -> (r: usize) {
        let _ = self.next.align();
        let r = T::align();
        assert(self.spec_first_align() == T::spec_align());
        assert(self.spec_layout_ok() == (T::spec_layout_ok() && self.spec_next().spec_layout_ok()));
        r
    }

    fn min_size(&self, pos: usize) -> (r: usize) {
        proof {
            T::lemma_layout();
            T::lemma_sized_layout(Seq::empty());
            lemma_ceil_mul(pos as int, T::spec_align() as int);
            self.next.lemma_type_iter(
                (spec_ceil_mul(pos as int, T::spec_align() as int) + T::spec_size_of()) as nat,
            );
            lemma_ceil_mul(
                spec_ceil_mul(pos as int, T::spec_align() as int) + T::spec_size_of(),
                self.next.spec_first_align() as int,
            );
        }
        let p = ceil_mul(pos, T::align()) + T::size_of();
        self.next.min_size(p)
    }
}

impl<T: FlatSized, I: TypeIter> TwoOrMoreTypes<T, I> {
    /// Memory with room for the list has room for its first type, and the rest of it for the
    /// rest of the list.
    proof fn lemma_next_fits(&self, data: Seq<u8>, pos: nat)
        requires
            self.spec_layout_ok(),
            pos % self.spec_first_align() == 0,
            self.spec_min_size(pos) <= pos + data.len() <= isize::MAX,
        ensures
            T::spec_layout_ok(),
            T::spec_min_size() <= data.len() <= isize::MAX,
            ({
                let q = spec_ceil_mul((pos + T::spec_size_of()) as int, self.spec_next().spec_first_align() as int);
                &&& pos + T::spec_size_of() <= q <= pos + data.len()
                &&& pos + T::spec_size_of() + self.spec_next().spec_first_align() <= usize::MAX
                &&& self.spec_next().spec_layout_ok()
                &&& (q as nat) % self.spec_next().spec_first_align() == 0
                &&& self.spec_next().spec_min_size(q as nat) <= pos + data.len()
            }),
    {
        let n = self.spec_next();
        let a = T::spec_align() as int;
        let size = T::spec_size_of();
        assert(self.spec_layout_ok() == (T::spec_layout_ok() && n.spec_layout_ok()));
        assert(self.spec_first_align() == T::spec_align());
        assert(self.spec_min_size(pos) == n.spec_min_size(
            (spec_ceil_mul(pos as int, a) + size) as nat,
        ));
        T::lemma_layout();
        T::lemma_sized_layout(Seq::empty());
        crate::utils::lemma_rounding_laws(pos as int, a);
        assert(spec_ceil_mul(pos as int, a) == pos);
        n.lemma_type_iter((pos + size) as nat);
        let fa = n.spec_first_align() as int;
        let q = spec_ceil_mul((pos + size) as int, fa);
        lemma_ceil_mul((pos + size) as int, fa);
        n.lemma_type_iter(q as nat);
        crate::utils::lemma_rounding_laws(q, fa);
        assert(n.spec_min_size(q as nat) <= pos + data.len());
        assert((q as nat) % n.spec_first_align() == 0);
    }
}

/// A position in a list of types.
pub struct PosIter<I: TypeIter> {
    pos: usize,
    iter: I,
}

impl<I: TypeIter> PosIter<I> {
    /// Where the current type starts.
    pub closed spec fn spec_pos(&self) -> usize {
        self.pos
    }

    /// The types from the current one on.
    pub closed spec fn spec_iter(&self) -> I {
        self.iter
    }

    /// The position of the first type of `iter`, at the start of the memory.
    pub fn new(iter: I) -> (r: Self)
        ensures
            r.spec_pos() == 0,
            r.spec_iter() == iter,
    {
        Self { pos: 0, iter }
    }

    /// Where the current type starts.
    pub fn pos(&self) -> (r: usize)
        ensures
            r == self.spec_pos(),
    {
        self.pos
    }
}

impl<T: FlatSized, I: TypeIter> PosIter<TwoOrMoreTypes<T, I>> {
    /// The position of the next type: past the current one, aligned for the next.
    pub fn next(self) -> (r: PosIter<I>)
        requires
            self.spec_iter().spec_layout_ok(),
            self.spec_pos() + T::spec_size_of() + self.spec_iter().spec_next().spec_first_align()
                - 1 <= usize::MAX,
        ensures
            r.spec_pos() == spec_ceil_mul(
                self.spec_pos() + T::spec_size_of(),
                self.spec_iter().spec_next().spec_first_align() as int,
            ),
            r.spec_iter() == self.spec_iter().spec_next(),
    {
        let size = T::size_of();
        let next = self.iter.next();
        let align = next.first_align();
        proof {
            next.lemma_type_iter(0);
        }
        PosIter { pos: ceil_mul(self.pos + size, align), iter: next }
    }
}

impl<T: FlatUnsized> PosIter<SingleType<T>> {
    /// The current type is the last one; nothing is left to check at run time.
    pub fn assert_last(&self) {
    }
}

/// Reads a list of types from memory, one after another.
pub struct RefIter<'a, I: TypeIter> {
    data: &'a [u8],
    iter: PosIter<I>,
}

impl<'a, I: TypeIter> RefIter<'a, I> {
    /// The memory from the current type on.
    pub closed spec fn spec_data(&self) -> Seq<u8> {
        self.data@
    }

    /// Where the current type starts.
    pub closed spec fn spec_pos(&self) -> usize {
        self.iter.spec_pos()
    }

    /// The types from the current one on.
    pub closed spec fn spec_iter(&self) -> I {
        self.iter.spec_iter()
    }

    /// The memory holds the rest of the list, which starts aligned.
    pub open spec fn wf(&self) -> bool {
        &&& self.spec_iter().spec_layout_ok()
        &&& (self.spec_pos() as nat) % self.spec_iter().spec_first_align() == 0
        &&& self.spec_iter().spec_min_size(self.spec_pos() as nat) <= self.spec_pos()
            + self.spec_data().len()
        &&& self.spec_pos() + self.spec_data().len() <= isize::MAX
    }

    /// Reader of `iter` from the start of `data`, which must be aligned and large enough.
    pub fn new(data: &'a [u8], iter: I) -> (r: Result<Self, Error>)
        requires
            data@.len() <= isize::MAX,
            iter.spec_min_size(0) <= isize::MAX,
        ensures
            layout_check_outcome(
                match r {
                    Ok(_) => Ok(()),
                    Err(e) => Err(e),
                },
                data@.len(),
                iter.spec_min_size(0),
            ),
            r matches Ok(it) ==> it.wf() && it.spec_data() == data@ && it.spec_pos() == 0
                && it.spec_iter() == iter,
            iter.spec_align() == 1 ==> (r is Ok <==> data@.len() >= iter.spec_min_size(0)),
    {
        let _ = iter.first_align();
        iter.check_align_and_min_size(data)?;
        proof {
            iter.lemma_type_iter(0);
            vstd::arithmetic::div_mod::lemma_mod_multiples_basic(0, iter.spec_first_align() as int);
        }
        Ok(Self::new_unchecked(data, iter))
    }

    /// Reader of `iter` from the start of `data`, taken to be aligned and large enough.
    pub fn new_unchecked(data: &'a [u8], iter: I) -> (r: Self)
        ensures
            r.spec_data() == data@,
            r.spec_pos() == 0,
            r.spec_iter() == iter,
    {
        Self { data, iter: PosIter::new(iter) }
    }

    /// Where the current type starts.
    pub fn pos(&self) -> (r: usize)
        ensures
            r == self.spec_pos(),
    {
        self.iter.pos()
    }

    /// Memory from the current type on.
    pub fn value(&self) -> (r: &'a [u8])
        ensures
            r@ == self.spec_data(),
    {
        self.data
    }
}

impl<'a, T: FlatSized, I: TypeIter> RefIter<'a, TwoOrMoreTypes<T, I>> {
    /// Split off the memory of the current type; the reader moves on to the next type.
    pub fn next(self) -> (r: (RefIter<'a, I>, &'a [u8]))
        requires
            self.wf(),
        ensures
            r.0.wf(),
            r.0.spec_iter() == self.spec_iter().spec_next(),
            r.0.spec_pos() == spec_ceil_mul(
                self.spec_pos() + T::spec_size_of(),
                self.spec_iter().spec_next().spec_first_align() as int,
            ),
            r.1@ == self.spec_data().take(r.0.spec_pos() - self.spec_pos()),
            r.0.spec_data() == self.spec_data().skip(r.0.spec_pos() - self.spec_pos()),
            r.1@.len() >= T::spec_size_of(),
    {
        let ghost it = self.spec_iter();
        let ghost p = self.spec_pos() as int;
        proof {
            T::lemma_layout();
            T::lemma_sized_layout(Seq::empty());
            it.lemma_type_iter(p as nat);
            let n = it.spec_next();
            let a = T::spec_align() as int;
            crate::utils::lemma_rounding_laws(p, a);
            n.lemma_type_iter((p + T::spec_size_of()) as nat);
            lemma_ceil_mul(p + T::spec_size_of(), n.spec_first_align() as int);
        }
        let prev_pos = self.iter.pos();
        let iter = self.iter.next();
        let next_pos = iter.pos();
        let (prev_data, next_data) = self.data.split_at(next_pos - prev_pos);
        proof {
            let n = it.spec_next();
            let q = next_pos as int;
            n.lemma_type_iter(q as nat);
            crate::utils::lemma_rounding_laws(p + T::spec_size_of(), n.spec_first_align() as int);
            lemma_ceil_mul(q, n.spec_first_align() as int);
        }
        (RefIter { data: next_data, iter }, prev_data)
    }
}

impl<'a, T: FlatUnsized> RefIter<'a, SingleType<T>> {
    /// The current type is the last one; nothing is left to check at run time.
    pub fn assert_last(&self) {
        self.iter.assert_last()
    }

    /// Memory of the last type.
    pub fn finalize(self) -> (r: &'a [u8])
        ensures
            r@ == self.spec_data(),
    {
        self.data
    }
}

/// Goes over a list of types in memory that it may change, one after another.
pub struct MutIter<'a, I: TypeIter> {
    /// The memory from the current type on.
    pub data: &'a mut [u8],
    /// The types from the current one on, and where the current one starts.
    pub iter: PosIter<I>,
}

impl<'a, I: TypeIter> MutIter<'a, I> {
    /// The memory from the current type on.
    pub closed spec fn spec_data(&self) -> Seq<u8> {
        self.data@
    }

    /// Where the current type starts.
    pub closed spec fn spec_pos(&self) -> usize {
        self.iter.spec_pos()
    }

    /// The types from the current one on.
    pub closed spec fn spec_iter(&self) -> I {
        self.iter.spec_iter()
    }

    /// The memory holds the rest of the list, which starts aligned.
    pub open spec fn wf(&self) -> bool {
        &&& self.spec_iter().spec_layout_ok()
        &&& (self.spec_pos() as nat) % self.spec_iter().spec_first_align() == 0
        &&& self.spec_iter().spec_min_size(self.spec_pos() as nat) <= self.spec_pos()
            + self.spec_data().len()
        &&& self.spec_pos() + self.spec_data().len() <= isize::MAX
    }

    /// Iterator over `iter` from the start of `data`, which must be aligned and large enough.
    pub fn new(data: &'a mut [u8], iter: I) -> (r: Result<Self, Error>)
        requires
            old(data)@.len() <= isize::MAX,
            iter.spec_min_size(0) <= isize::MAX,
        ensures
            layout_check_outcome(
                match r {
                    Ok(_) => Ok(()),
                    Err(e) => Err(e),
                },
                old(data)@.len(),
                iter.spec_min_size(0),
            ),
            r matches Ok(it) ==> it.wf() && it.spec_data() == old(data)@ && it.spec_pos() == 0
                && it.spec_iter() == iter,
            iter.spec_align() == 1 ==> (r is Ok <==> old(data)@.len() >= iter.spec_min_size(0)),
    {
        let _ = iter.first_align();
        iter.check_align_and_min_size(data)?;
        proof {
            iter.lemma_type_iter(0);
            vstd::arithmetic::div_mod::lemma_mod_multiples_basic(0, iter.spec_first_align() as int);
        }
        Ok(Self::new_unchecked(data, iter))
    }

    /// Iterator over `iter` from the start of `data`, taken to be aligned and large enough.
    pub fn new_unchecked(data: &'a mut [u8], iter: I) -> (r: Self)
        ensures
            r.spec_data() == old(data)@,
            final(r.data)@ == final(data)@,
            r.spec_pos() == 0,
            r.spec_iter() == iter,
    {
        Self { data, iter: PosIter::new(iter) }
    }

    /// Where the current type starts.
    pub fn pos(&self) -> (r: usize)
        ensures
            r == self.spec_pos(),
    {
        self.iter.pos()
    }
}

impl<'a, T: FlatSized, I: TypeIter> MutIter<'a, TwoOrMoreTypes<T, I>> {
    /// Split off the memory of the current type; the iterator moves on to the next type.
    pub fn next(self) -> (r: (MutIter<'a, I>, &'a mut [u8]))
        requires
            self.wf(),
        ensures
            r.0.wf(),
            r.0.spec_iter() == self.spec_iter().spec_next(),
            r.0.spec_pos() == spec_ceil_mul(
                self.spec_pos() + T::spec_size_of(),
                self.spec_iter().spec_next().spec_first_align() as int,
            ),
            r.1@ == self.spec_data().take(r.0.spec_pos() - self.spec_pos()),
            r.0.spec_data() == self.spec_data().skip(r.0.spec_pos() - self.spec_pos()),
            r.1@.len() >= T::spec_size_of(),
            final(self.data)@ == final(r.1)@ + final(r.0.data)@,
    {
        let ghost it = self.spec_iter();
        let ghost p = self.spec_pos() as int;
        proof {
            T::lemma_layout();
            T::lemma_sized_layout(Seq::empty());
            it.lemma_type_iter(p as nat);
            let n = it.spec_next();
            let a = T::spec_align() as int;
            crate::utils::lemma_rounding_laws(p, a);
            n.lemma_type_iter((p + T::spec_size_of()) as nat);
            lemma_ceil_mul(p + T::spec_size_of(), n.spec_first_align() as int);
        }
        let prev_pos = self.iter.pos();
        let iter = self.iter.next();
        let next_pos = iter.pos();
        let (prev_data, next_data) = self.data.split_at_mut(next_pos - prev_pos);
        proof {
            let n = it.spec_next();
            let q = next_pos as int;
            n.lemma_type_iter(q as nat);
            crate::utils::lemma_rounding_laws(p + T::spec_size_of(), n.spec_first_align() as int);
            lemma_ceil_mul(q, n.spec_first_align() as int);
        }
        (MutIter { data: next_data, iter }, prev_data)
    }
}

impl<'a, T: FlatUnsized> MutIter<'a, SingleType<T>> {
    /// The current type is the last one; nothing is left to check at run time.
    pub fn assert_last(&self) {
        self.iter.assert_last()
    }

    /// Memory of the last type.
    pub fn finalize(self) -> (r: &'a mut [u8])
        ensures
            r@ == self.spec_data(),
            final(r)@ == final(self.data)@,
    {
        self.data
    }
}

/// Validation of each type of a list, in order.
pub trait ValidateIter {
    /// The reader is ready to go over what is left of its list.
    spec fn spec_ready(&self) -> bool;

    /// The first error of a type of the list, moved to where the type starts, or success.
    spec fn spec_validate_all(&self) -> Result<(), Error>;

    /// Validate each type of the list, in order.
    fn validate_all(self) -> (r: Result<(), Error>)
        requires
            self.spec_ready(),
        ensures
            r == self.spec_validate_all(),
    ;
}

impl<'a, I: TypeIter> ValidateIter for RefIter<'a, I> {
    open spec fn spec_ready(&self) -> bool {
        self.wf()
    }

    open spec fn spec_validate_all(&self) -> Result<(), Error> {
        self.spec_iter().spec_validate_list(self.spec_data(), self.spec_pos() as nat)
    }

    fn validate_all(self) -> (r: Result<(), Error>) {
        assert(self.spec_ready() == self.wf());
        self.iter.iter.validate_list(self.data, self.iter.pos)
    }
}

/// The error `e` moved by `offset` bytes, its position saturating at the largest `usize`.
pub open spec fn spec_moved(e: Error, offset: int) -> Error {
    Error {
        kind: e.kind,
        pos: if e.pos + offset <= usize::MAX {
            (e.pos + offset) as usize
        } else {
            usize::MAX
        },
    }
}

/// The error `e` moved by `offset` bytes, its position saturating at the largest `usize`.
fn moved(e: Error, offset: usize) -> (r: Error)
    ensures
        r == spec_moved(e, offset as int),
{
    match e.pos.checked_add(offset) {
        Some(p) => Error { kind: e.kind, pos: p },
        None => Error { kind: e.kind, pos: usize::MAX },
    }
}

/// Initialization of each type of a list, in turn, to its default state.
pub trait InitDefaultIter: TypeIter {
    /// The memory laid out from `pos` on after each type of the list is initialized in turn,
    /// and the first error, moved to where its type starts; the memory of a type that fails
    /// and of those after it is left as it was.
    spec fn spec_init_list(&self, data: Seq<u8>, pos: nat) -> (Seq<u8>, Result<(), Error>);

    /// Initialize each type of the list laid out in `data` from `pos` on.
    fn init_list(&self, data: &mut Vec<u8>, pos: usize) -> (r: Result<(), Error>)
        requires
            self.spec_layout_ok(),
            (pos as nat) % self.spec_first_align() == 0,
            self.spec_min_size(pos as nat) <= pos + old(data)@.len(),
            pos + old(data)@.len() <= isize::MAX,
        ensures
            final(data)@ == self.spec_init_list(old(data)@, pos as nat).0,
            final(data)@.len() == old(data)@.len(),
            r == self.spec_init_list(old(data)@, pos as nat).1,
    ;

    /// Initialize each type of the list laid out from the start of `data`, after checking
    /// that `data` is aligned and large enough.
    fn init_default_all(&self, data: &mut Vec<u8>) -> (r: Result<(), Error>)
        requires
            old(data)@.len() <= isize::MAX,
            self.spec_min_size(0) <= isize::MAX,
        ensures
            old(data)@.len() < self.spec_min_size(0) ==> r is Err && final(data)@ == old(data)@,
            (final(data)@ == old(data)@ && layout_check_outcome(r, old(data)@.len(), self.spec_min_size(0)) && r is Err)
                || (old(data)@.len() >= self.spec_min_size(0) && final(data)@ == self.spec_init_list(
                old(data)@,
                0,
            ).0 && r == self.spec_init_list(old(data)@, 0).1),
            self.spec_align() == 1 && old(data)@.len() >= self.spec_min_size(0) ==> final(data)@
                == self.spec_init_list(old(data)@, 0).0 && r == self.spec_init_list(old(data)@, 0).1,
    {
        let _ = self.first_align();
        self.check_align_and_min_size(data.as_slice())?;
        proof {
            self.lemma_type_iter(0);
            vstd::arithmetic::div_mod::lemma_mod_multiples_basic(0, self.spec_first_align() as int);
        }
        self.init_list(data, 0)
    }
}

impl<T: FlatUnsized + FlatDefault> InitDefaultIter for SingleType<T> {
    open spec fn spec_init_list(&self, data: Seq<u8>, pos: nat) -> (Seq<u8>, Result<(), Error>) {
        match T::spec_default_emplacer().spec_emplace(data) {
            Ok(m) => (m, Ok(())),
            Err(x) => (
                T::spec_default_emplacer().spec_emplace_failed(data),
                Err(spec_moved(x, pos as int)),
            ),
        }
    }

    fn init_list(&self, data: &mut Vec<u8>, pos: usize) -> (r: Result<(), Error>) {
        proof {
            assert(self.spec_layout_ok() == T::spec_layout_ok());
            assert(self.spec_first_align() == T::spec_align());
            assert(self.spec_min_size(pos as nat) == (spec_ceil_mul(pos as int, T::spec_align() as int)
                + T::spec_min_size()) as nat);
            T::lemma_layout();
            crate::utils::lemma_rounding_laws(pos as int, T::spec_align() as int);
            assert(data@.subrange(0, data@.len() as int) =~= data@);
            T::spec_default_emplacer().lemma_emplace(data@);
        }
        let n = data.len();
        let ghost old_data = data@;
        match T::default_emplacer().emplace_unchecked(data, 0, n) {
            Ok(()) => {
                proof {
                    assert(data@ =~= T::spec_default_emplacer().spec_emplace(old_data)->Ok_0);
                }
                Ok(())
            },
            Err(x) => {
                proof {
                    assert(data@ =~= T::spec_default_emplacer().spec_emplace_failed(old_data));
                }
                Err(moved(x, pos))
            },
        }
    }
}

impl<T: FlatSized + FlatDefault, I: InitDefaultIter> InitDefaultIter for TwoOrMoreTypes<T, I> {
    open spec fn spec_init_list(&self, data: Seq<u8>, pos: nat) -> (Seq<u8>, Result<(), Error>) {
        let q = spec_ceil_mul((pos + T::spec_size_of()) as int, self.spec_next().spec_first_align() as int);
        match T::spec_default_emplacer().spec_emplace(data.take(q - pos)) {
            Err(x) => (data, Err(spec_moved(x, pos as int))),
            Ok(h) => {
                let rest = self.spec_next().spec_init_list(data.skip(q - pos), q as nat);
                (h + rest.0, rest.1)
            },
        }
    }

    fn init_list(&self, data: &mut Vec<u8>, pos: usize) -> (r: Result<(), Error>) {
        proof {
            self.lemma_next_fits(data@, pos as nat);
            self.next.lemma_type_iter(0);
            T::lemma_sized_layout(Seq::empty());
        }
        let ghost old_data = data@;
        let q = ceil_mul(pos + T::size_of(), self.next.first_align());
        let k = q - pos;
        let mut head = vstd::slice::slice_to_vec(slice_subrange(data.as_slice(), 0, k));
        proof {
            assert(head@ =~= old_data.take(k as int));
            assert(head@.subrange(0, k as int) =~= head@);
        }
        let ghost old_head = head@;
        match T::default_emplacer().emplace_unchecked(&mut head, 0, k) {
            Err(x) => {
                return Err(moved(x, pos));
            },
            Ok(()) => {},
        }
        proof {
            assert(head@ =~= T::spec_default_emplacer().spec_emplace(old_head)->Ok_0);
            T::spec_default_emplacer().lemma_emplace(old_head);
        }
        let mut rest = vstd::slice::slice_to_vec(slice_subrange(data.as_slice(), k, data.len()));
        proof {
            assert(rest@ =~= old_data.skip(k as int));
        }
        let r = self.next.init_list(&mut rest, q);
        let ghost new_rest = rest@;
        write_bytes(data, 0, head.as_slice());
        write_bytes(data, k, rest.as_slice());
        proof {
            assert(data@ =~= head@ + new_rest);
        }
        r
    }
}

/// Size of a list of types laid out in memory.
pub trait FoldSizeIter {
    /// The reader holds a valid list.
    spec fn spec_valid(&self) -> bool;

    /// End of the list when the current type would start after `size` bytes.
    spec fn spec_fold_size(&self, size: nat) -> nat;

    /// End of the list when the current type would start after `size` bytes (at most its
    /// position in memory).
    fn fold_size(self, size: usize) -> (r: usize)
        requires
            self.spec_valid(),
            size <= self.spec_current_pos(),
        ensures
            r == self.spec_fold_size(size as nat),
    ;

    /// Where the current type starts.
    spec fn spec_current_pos(&self) -> nat;
}

impl<'a, I: TypeIter> FoldSizeIter for RefIter<'a, I> {
    open spec fn spec_valid(&self) -> bool {
        self.wf() && self.spec_validate_all() is Ok
    }

    open spec fn spec_fold_size(&self, size: nat) -> nat {
        self.spec_iter().spec_fold_list(self.spec_data(), self.spec_pos() as nat, size)
    }

    open spec fn spec_current_pos(&self) -> nat {
        self.spec_pos() as nat
    }

    fn fold_size(self, size: usize) -> (r: usize) {
        assert(self.spec_valid() == (self.wf() && self.spec_validate_all() is Ok));
        assert(self.spec_current_pos() == self.spec_pos() as nat);
        assert(self.spec_validate_all() == self.spec_iter().spec_validate_list(
            self.spec_data(),
            self.spec_pos() as nat,
        ));
        self.iter.iter.fold_list(self.data, self.iter.pos, size)
    }
}

} // verus!
