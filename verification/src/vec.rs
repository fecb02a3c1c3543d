use crate::error::{lemma_ok_unit, Error, ErrorKind};
use crate::traits::{
    emplaced, new_in_place, spec_checked, spec_placed, spec_same_verdict, splice, write_bytes, Emplacer, Flat, FlatBase, FlatDefault, FlatLen,
    FlatSized, FlatUnsized, FlatValidate, Portable,
};
use crate::utils::{
    floor_mul, lemma_floor_mul, lemma_max_pow2, lemma_pow2_divides, max, min, spec_floor_mul,
};
use core::marker::PhantomData;
use vstd::arithmetic::div_mod::{lemma_div_pos_is_pos, lemma_fundamental_div_mod};
use vstd::arithmetic::mul::{
    lemma_mul_by_zero_is_zero, lemma_mul_inequality, lemma_mul_is_commutative, lemma_mul_is_distributive_add_other_way,
    lemma_mul_nonnegative,
};
use vstd::arithmetic::power2::is_pow2;
use vstd::prelude::*;
use vstd::slice::slice_subrange;

verus! {

/// Growable flat vector of sized items.
///
/// Its memory holds the length (of type `L`) at the start and the items from
/// [`FlatVec::data_offset`] on; the capacity is what the memory has room for.
pub struct FlatVec<T: FlatSized, L: FlatLen = u32> {
    mem: Vec<u8>,
    _phantom: PhantomData<(T, L)>,
}

/// Bigger of two numbers.
pub open spec fn spec_max(a: nat, b: nat) -> nat {
    if a >= b {
        a
    } else {
        b
    }
}

/// Smaller of two numbers.
pub open spec fn spec_min(a: nat, b: nat) -> nat {
    if a <= b {
        a
    } else {
        b
    }
}

impl<T: FlatSized, L: FlatLen> FlatVec<T, L> {
    /// Offset of the first item: room for the length, aligned for the items.
    pub open spec fn spec_data_offset() -> nat {
        spec_max(L::spec_size_of(), T::spec_align())
    }

    /// Alignment of the vector: that of the length and of the items.
    pub open spec fn spec_vec_align() -> nat {
        spec_max(L::spec_align(), T::spec_align())
    }

    /// Number of items that memory of `len` bytes has room for (the length type limits it too).
    pub open spec fn spec_capacity_of(len: nat) -> nat {
        spec_min(
            (spec_floor_mul(len - Self::spec_data_offset(), Self::spec_vec_align() as int)
                / T::spec_size_of() as int) as nat,
            L::spec_max(),
        )
    }

    /// The length that `bytes` record.
    pub open spec fn spec_len_of(bytes: Seq<u8>) -> nat {
        L::spec_from_bytes(bytes).spec_value()
    }

    /// Offset of item `i`.
    pub open spec fn spec_item_start(i: int) -> int {
        Self::spec_data_offset() + i * T::spec_size_of()
    }

    /// Bytes of item `i`.
    pub open spec fn spec_item_bytes(bytes: Seq<u8>, i: int) -> Seq<u8> {
        bytes.subrange(Self::spec_item_start(i), Self::spec_item_start(i) + T::spec_size_of())
    }

    /// Validity of the first `n` items, with the error of the first invalid one.
    pub open spec fn spec_items_valid(bytes: Seq<u8>, n: nat) -> Result<(), Error>
        decreases n,
    {
        if n == 0 {
            Ok(())
        } else {
            match Self::spec_items_valid(bytes, (n - 1) as nat) {
                Err(e) => Err(e),
                Ok(()) => T::spec_validate(Self::spec_item_bytes(bytes, n - 1)),
            }
        }
    }

    /// The first `n` items that `bytes` hold.
    pub open spec fn spec_items(bytes: Seq<u8>, n: nat) -> Seq<T> {
        Seq::new(n, |i: int| T::spec_from_bytes(Self::spec_item_bytes(bytes, i)))
    }

    /// `bytes` with the length field set to `n`.
    pub open spec fn spec_write_len(bytes: Seq<u8>, n: nat) -> Seq<u8> {
        splice(bytes, 0, L::spec_size_of() as int, L::spec_from_value(n).spec_to_bytes())
    }

    /// `bytes` with item `i` set to `x`.
    pub open spec fn spec_write_item(bytes: Seq<u8>, i: int, x: T) -> Seq<u8> {
        splice(bytes, Self::spec_item_start(i), Self::spec_item_start(i) + T::spec_size_of(), x.spec_to_bytes())
    }

    /// `bytes` after `x` is pushed onto the vector they hold.
    pub open spec fn spec_push_bytes(bytes: Seq<u8>, x: T) -> Seq<u8> {
        let n = Self::spec_len_of(bytes);
        Self::spec_write_len(Self::spec_write_item(bytes, n as int, x), n + 1)
    }

    /// `bytes` after each of `items` is pushed in turn.
    pub open spec fn spec_fill(bytes: Seq<u8>, items: Seq<T>) -> Seq<u8>
        decreases items.len(),
    {
        if items.len() == 0 {
            bytes
        } else {
            Self::spec_push_bytes(Self::spec_fill(bytes, items.drop_last()), items.last())
        }
    }

    /// The items stored in the vector.
    pub open spec fn view(&self) -> Seq<T> {
        Self::spec_items(self.spec_bytes(), self.spec_len())
    }

    /// Number of items stored in the vector.
    pub open spec fn spec_len(&self) -> nat {
        Self::spec_len_of(self.spec_bytes())
    }

    /// Maximum number of items the vector can store.
    pub open spec fn spec_capacity(&self) -> nat {
        Self::spec_capacity_of(self.spec_bytes().len())
    }

    /// Memory of the vector.
    pub closed spec fn spec_bytes(&self) -> Seq<u8> {
        self.mem@
    }

    /// Layout facts the vector's arithmetic rests on.
    proof fn lemma_vec_layout()
        requires
            T::spec_layout_ok(),
            L::spec_layout_ok(),
        ensures
            is_pow2(Self::spec_vec_align() as int),
            0 < Self::spec_vec_align() <= isize::MAX + 1,
            T::spec_size_of() > 0,
            T::spec_size_of() <= isize::MAX,
            L::spec_size_of() <= Self::spec_data_offset() <= isize::MAX,
            Self::spec_data_offset() % Self::spec_vec_align() == 0,
            Self::spec_data_offset() % T::spec_align() == 0,
            Self::spec_vec_align() % T::spec_align() == 0,
            L::spec_max() <= usize::MAX,
            L::spec_size_of() == L::spec_min_size(),
            Self::spec_vec_align() <= Self::spec_data_offset(),
    {
        T::lemma_layout();
        L::lemma_layout();
        T::lemma_sized_layout(Seq::empty());
        L::lemma_sized_layout(Seq::empty());
        L::lemma_len(L::spec_from_bytes(Seq::empty()));
        lemma_max_pow2(L::spec_align() as int, T::spec_align() as int);
        // the item size is a positive multiple of the item alignment
        lemma_fundamental_div_mod(T::spec_size_of() as int, T::spec_align() as int);
        lemma_div_pos_is_pos(T::spec_size_of() as int, T::spec_align() as int);
        assert(T::spec_align() <= T::spec_size_of()) by {
            let q = T::spec_size_of() as int / T::spec_align() as int;
            lemma_mul_is_commutative(T::spec_align() as int, q);
            if q == 0 {
                assert(T::spec_size_of() == 0);
            } else {
                lemma_mul_inequality(1, q, T::spec_align() as int);
            }
        }
        // the length size is a multiple of its alignment and a power of two
        lemma_fundamental_div_mod(L::spec_size_of() as int, L::spec_align() as int);
        let ls = L::spec_size_of() as int;
        let la = L::spec_align() as int;
        let ta = T::spec_align() as int;
        let va = Self::spec_vec_align() as int;
        assert(la <= ls) by {
            let q = ls / la;
            lemma_mul_is_commutative(la, q);
            lemma_div_pos_is_pos(ls, la);
            if q == 0 {
                assert(ls % la == 0);
                assert(ls == la * q + ls % la);
                assert(la * q == 0) by (nonlinear_arith)
                    requires
                        q == 0,
                ;
                assert(ls == 0);
                assert(is_pow2(ls));
                reveal(is_pow2);
            } else {
                lemma_mul_inequality(1, q, la);
            }
        }
        if ls >= ta {
            lemma_pow2_divides(ta, ls);
            lemma_pow2_divides(la, ls);
            if la >= ta {
                assert(va == la);
            } else {
                assert(va == ta);
            }
        } else {
            assert(Self::spec_data_offset() == ta);
            lemma_pow2_divides(la, ta);
            lemma_pow2_divides(ta, ta);
            assert(va == ta);
        }
    }

    /// Items that fit the capacity lie inside the memory, in order and apart.
    proof fn lemma_item_in_bounds(len: nat, i: int)
        requires
            T::spec_layout_ok(),
            L::spec_layout_ok(),
            len >= Self::spec_data_offset(),
            0 <= i < Self::spec_capacity_of(len),
        ensures
            0 <= Self::spec_item_start(i),
            Self::spec_item_start(i) + T::spec_size_of() <= len,
            Self::spec_item_start(i) + T::spec_size_of() == Self::spec_item_start(i + 1),
            Self::spec_data_offset() <= Self::spec_item_start(i),
    {
        Self::lemma_vec_layout();
        let s = T::spec_size_of() as int;
        let va = Self::spec_vec_align() as int;
        let room = len - Self::spec_data_offset();
        lemma_floor_mul(room, va);
        let f = spec_floor_mul(room, va);
        let c = f / s;
        lemma_fundamental_div_mod(f, s);
        lemma_div_pos_is_pos(f, s);
        lemma_mul_is_commutative(s, c);
        lemma_mul_inequality(i + 1, c, s);
        lemma_mul_is_distributive_add_other_way(s, i, 1);
        lemma_mul_nonnegative(i, s);
    }

    /// Items before index `j` end before item `j` starts.
    proof fn lemma_items_apart(i: int, j: int)
        requires
            0 <= i < j,
        ensures
            Self::spec_item_start(i) + T::spec_size_of() <= Self::spec_item_start(j),
    {
        lemma_mul_inequality(i + 1, j, T::spec_size_of() as int);
        lemma_mul_is_distributive_add_other_way(T::spec_size_of() as int, i, 1);
    }

    /// Validity of the first `n` items only depends on their bytes.
    proof fn lemma_items_valid_same(a: Seq<u8>, b: Seq<u8>, n: nat)
        requires
            forall|i: int| 0 <= i < n ==> Self::spec_item_bytes(a, i) == Self::spec_item_bytes(b, i),
        ensures
            Self::spec_items_valid(a, n) == Self::spec_items_valid(b, n),
        decreases n,
    {
        if n > 0 {
            Self::lemma_items_valid_same(a, b, (n - 1) as nat);
            assert(Self::spec_item_bytes(a, n - 1) == Self::spec_item_bytes(b, n - 1));
        }
    }

    /// Once an item is invalid, every longer prefix reports its error.
    proof fn lemma_items_valid_err(bytes: Seq<u8>, k: nat, m: nat)
        requires
            Self::spec_items_valid(bytes, k) is Err,
            k <= m,
        ensures
            Self::spec_items_valid(bytes, m) == Self::spec_items_valid(bytes, k),
        decreases m,
    {
        if m > k {
            Self::lemma_items_valid_err(bytes, k, (m - 1) as nat);
        }
    }

    /// An invalid item reports a position no further than twice the length of the memory.
    proof fn lemma_items_err_pos(bytes: Seq<u8>, n: nat)
        requires
            T::spec_layout_ok(),
            L::spec_layout_ok(),
            Self::spec_data_offset() <= bytes.len() <= isize::MAX,
            n <= Self::spec_capacity_of(bytes.len()),
        ensures
            Self::spec_items_valid(bytes, n) matches Err(e) ==> e.pos <= 2 * bytes.len(),
        decreases n,
    {
        if n > 0 {
            Self::lemma_items_err_pos(bytes, (n - 1) as nat);
            Self::lemma_item_in_bounds(bytes.len(), n - 1);
            T::lemma_sized_layout(Self::spec_item_bytes(bytes, n - 1));
            T::lemma_error_pos(Self::spec_item_bytes(bytes, n - 1));
        }
    }

    /// Every item before the `n`-th is valid when the first `n` are.
    proof fn lemma_items_valid_each(bytes: Seq<u8>, n: nat, i: int)
        requires
            Self::spec_items_valid(bytes, n) is Ok,
            0 <= i < n,
        ensures
            T::spec_validate(Self::spec_item_bytes(bytes, i)) is Ok,
        decreases n,
    {
        if i < n - 1 {
            Self::lemma_items_valid_each(bytes, (n - 1) as nat, i);
        }
    }
}

impl<T: FlatSized, L: FlatLen> FlatBase for FlatVec<T, L> {
    open spec fn spec_align() -> nat {
        Self::spec_vec_align()
    }

    open spec fn spec_min_size() -> nat {
        Self::spec_data_offset()
    }

    open spec fn spec_layout_ok() -> bool {
        T::spec_layout_ok() && L::spec_layout_ok()
    }

    proof fn lemma_layout() {
        Self::lemma_vec_layout();
    }

    fn align() -> (r: usize) {
        let la = L::align();
        let ta = T::align();
        max(la, ta)
    }

    fn min_size() -> (r: usize) {
        let ls = L::size_of();
        let ta = T::align();
        max(ls, ta)
    }
}

impl<T: FlatSized, L: FlatLen> FlatValidate for FlatVec<T, L> {
    open spec fn spec_validate(bytes: Seq<u8>) -> Result<(), Error> {
        match L::spec_validate(bytes) {
            Err(e) => Err(e),
            Ok(()) => if Self::spec_len_of(bytes) > Self::spec_capacity_of(bytes.len()) {
                Err(Error { kind: ErrorKind::InsufficientSize, pos: Self::spec_data_offset() as usize })
            } else {
                Self::spec_items_valid(bytes, Self::spec_len_of(bytes))
            },
        }
    }

    open spec fn spec_size(bytes: Seq<u8>) -> nat {
        Self::spec_data_offset() + T::spec_size_of() * Self::spec_len_of(bytes)
    }

    proof fn lemma_valid_size(bytes: Seq<u8>) {
        Self::lemma_vec_layout();
        let n = Self::spec_len_of(bytes);
        assert(Self::spec_min_size() == Self::spec_data_offset());
        assert(Self::spec_size(bytes) == Self::spec_data_offset() + T::spec_size_of() * n);
        assert(L::spec_validate(bytes) is Ok);
        assert(n <= Self::spec_capacity_of(bytes.len()));
        if n > 0 {
            Self::lemma_item_in_bounds(bytes.len(), n - 1);
            lemma_mul_is_distributive_add_other_way(T::spec_size_of() as int, n - 1, 1);
            assert(1 * T::spec_size_of() == T::spec_size_of());
            assert((n - 1 + 1) * T::spec_size_of() == n * T::spec_size_of());
        } else {
            assert(n == 0);
            lemma_mul_by_zero_is_zero(T::spec_size_of() as int);
        }
        lemma_mul_is_commutative(T::spec_size_of() as int, n as int);
        lemma_mul_nonnegative(T::spec_size_of() as int, n as int);
    }

    proof fn lemma_valid_prefix(bytes: Seq<u8>, k: nat) {
        Self::lemma_vec_layout();
        let n = Self::spec_len_of(bytes);
        let p = bytes.take(k as int);
        let s = T::spec_size_of() as int;
        let va = Self::spec_vec_align() as int;
        let d = Self::spec_data_offset() as int;
        L::lemma_sized_layout(bytes);
        L::lemma_sized_layout(p);
        assert(p.take(L::spec_size_of() as int) =~= bytes.take(L::spec_size_of() as int));
        // the items still fit: (k - d) is a multiple of the alignment and holds them
        lemma_mul_is_commutative(s, n as int);
        lemma_floor_mul(k - d, va);
        assert((k - d) % va == 0) by {
            lemma_fundamental_div_mod(k as int, va);
            lemma_fundamental_div_mod(d, va);
            let qk = k as int / va;
            let qd = d / va;
            vstd::arithmetic::mul::lemma_mul_is_distributive_sub(va, qk, qd);
            vstd::arithmetic::div_mod::lemma_mod_multiples_basic(qk - qd, va);
            lemma_mul_is_commutative(va, qk - qd);
        }
        assert(spec_floor_mul(k - d, va) == k - d);
        let c = (k - d) / s;
        assert(n <= c) by {
            lemma_fundamental_div_mod(k - d, s);
            vstd::arithmetic::div_mod::lemma_mod_bound(k - d, s);
            lemma_mul_is_commutative(s, c);
            if n > c {
                lemma_mul_inequality(c + 1, n as int, s);
                lemma_mul_is_distributive_add_other_way(s, c, 1);
            }
        }
        assert forall|i: int| 0 <= i < n implies Self::spec_item_bytes(p, i)
            == Self::spec_item_bytes(bytes, i) by {
            Self::lemma_items_apart(i, n as int);
            lemma_mul_nonnegative(i, s);
        }
        Self::lemma_items_valid_same(p, bytes, n);
    }

    proof fn lemma_error_pos(bytes: Seq<u8>) {
        Self::lemma_vec_layout();
        L::lemma_sized_layout(bytes);
        L::lemma_error_pos(bytes);
        let n = Self::spec_len_of(bytes);
        if L::spec_validate(bytes) is Ok && n <= Self::spec_capacity_of(bytes.len()) {
            Self::lemma_items_err_pos(bytes, n);
        }
    }

    fn validate_unchecked(bytes: &[u8]) -> (r: Result<(), Error>) {
        proof {
            Self::lemma_vec_layout();
            L::lemma_sized_layout(bytes@);
            assert(Self::spec_min_size() == Self::spec_data_offset());
        }
        let lr = L::validate_unchecked(bytes);
        if lr.is_err() {
            return lr;
        }
        let n = L::read_at(bytes, 0).into_usize();
        proof {
            assert(bytes@.subrange(0, L::spec_size_of() as int) =~= bytes@.take(
                L::spec_size_of() as int,
            ));
        }
        let cap = Self::capacity_of(bytes.len());
        if n > cap {
            return Err(
                Error { kind: ErrorKind::InsufficientSize, pos: Self::data_offset() },
            );
        }
        let d = Self::data_offset();
        let s = T::size_of();
        let mut i: usize = 0;
        while i < n
            invariant
                T::spec_layout_ok(),
                L::spec_layout_ok(),
                n == Self::spec_len_of(bytes@),
                n <= Self::spec_capacity_of(bytes@.len()),
                bytes@.len() >= Self::spec_data_offset(),
                bytes@.len() <= isize::MAX,
                d == Self::spec_data_offset(),
                s == T::spec_size_of(),
                L::spec_validate(bytes@) is Ok,
                i <= n,
                Self::spec_items_valid(bytes@, i as nat) is Ok,
            decreases n - i,
        {
            proof {
                Self::lemma_item_in_bounds(bytes@.len(), i as int);
                T::lemma_sized_layout(Self::spec_item_bytes(bytes@, i as int));
            }
            let start = d + i * s;
            let item = slice_subrange(bytes, start, start + s);
            let r = T::validate_unchecked(item);
            if r.is_err() {
                proof {
                    Self::lemma_items_valid_err(bytes@, (i + 1) as nat, n as nat);
                }
                return r;
            }
            i = i + 1;
        }
        assert(Self::spec_items_valid(bytes@, n as nat) is Ok);
        assert(Self::spec_len_of(bytes@) == n);
        assert(!(Self::spec_len_of(bytes@) > Self::spec_capacity_of(bytes@.len())));
        proof {
            lemma_ok_unit(L::spec_validate(bytes@));
            lemma_ok_unit(Self::spec_items_valid(bytes@, n as nat));
        }
        Ok(())
    }
}

impl<T: FlatSized, L: FlatLen> FlatUnsized for FlatVec<T, L> {
    open spec fn wf(&self) -> bool {
        &&& Self::spec_layout_ok()
        &&& Self::spec_min_size() <= self.spec_bytes().len() <= isize::MAX
        &&& Self::spec_validate(self.spec_bytes()) is Ok
    }

    open spec fn spec_mem(&self) -> Seq<u8> {
        self.spec_bytes()
    }

    open spec fn spec_mem_len(len: nat) -> nat {
        (Self::spec_data_offset() + spec_floor_mul(
            len - Self::spec_data_offset(),
            Self::spec_vec_align() as int,
        )) as nat
    }

    proof fn lemma_wf(&self) {
    }

    proof fn lemma_mem_len(bytes: Seq<u8>) {
        Self::lemma_vec_layout();
        let d = Self::spec_data_offset() as int;
        let va = Self::spec_vec_align() as int;
        let ml = Self::spec_mem_len(bytes.len()) as int;
        let p = bytes.take(ml);
        lemma_floor_mul(bytes.len() - d, va);
        crate::utils::lemma_rounding_laws(bytes.len() - d, va);
        L::lemma_sized_layout(bytes);
        L::lemma_sized_layout(p);
        assert(p.take(L::spec_size_of() as int) =~= bytes.take(L::spec_size_of() as int));
        let n = Self::spec_len_of(bytes);
        assert(Self::spec_capacity_of(p.len()) == Self::spec_capacity_of(bytes.len()));
        if n <= Self::spec_capacity_of(bytes.len()) {
            assert forall|i: int| 0 <= i < n implies Self::spec_item_bytes(p, i)
                == Self::spec_item_bytes(bytes, i) by {
                Self::lemma_item_in_bounds(p.len(), i);
                lemma_mul_nonnegative(i, T::spec_size_of() as int);
            }
            Self::lemma_items_valid_same(p, bytes, n);
        }
    }

    fn from_bytes_unchecked(bytes: &[u8]) -> (r: Self) {
        proof {
            Self::lemma_vec_layout();
            lemma_floor_mul(bytes@.len() - Self::spec_data_offset(), Self::spec_vec_align() as int);
        }
        let d = Self::data_offset();
        let n = d + floor_mul(bytes.len() - d, Self::align());
        let mem = vstd::slice::slice_to_vec(slice_subrange(bytes, 0, n));
        proof {
            assert(mem@ =~= bytes@.take(n as int));
            Self::lemma_mem_len(bytes@);
        }
        FlatVec { mem, _phantom: PhantomData }
    }

    fn as_bytes(&self) -> (r: Vec<u8>) {
        self.mem.clone()
    }

    fn size_of_bytes(bytes: &[u8]) -> (r: usize) {
        proof {
            Self::lemma_valid_size(bytes@);
            Self::lemma_vec_layout();
            L::lemma_sized_layout(bytes@);
            assert(bytes@.subrange(0, L::spec_size_of() as int) =~= bytes@.take(
                L::spec_size_of() as int,
            ));
        }
        let n = L::read_at(bytes, 0).into_usize();
        Self::data_offset() + T::size_of() * n
    }
}

impl<T: FlatSized, L: FlatLen> Flat for FlatVec<T, L> {

}

impl<T: FlatSized + Portable, L: FlatLen + Portable> Portable for FlatVec<T, L> {
    proof fn lemma_portable_align() {
        T::lemma_portable_align();
        L::lemma_portable_align();
    }
}

impl<T: FlatSized, L: FlatLen> FlatVec<T, L> {
    /// Offset of the first item in the memory.
    pub fn data_offset() -> (r: usize)
        ensures
            r == Self::spec_data_offset(),
            T::spec_layout_ok(),
            L::spec_layout_ok(),
    {
        let ls = L::size_of();
        let ta = T::align();
        max(ls, ta)
    }

    /// Number of items that memory of `len` bytes has room for.
    pub fn capacity_of(len: usize) -> (r: usize)
        requires
            T::spec_layout_ok(),
            L::spec_layout_ok(),
            len >= Self::spec_data_offset(),
        ensures
            r == Self::spec_capacity_of(len as nat),
    {
        proof {
            Self::lemma_vec_layout();
        }
        let d = Self::data_offset();
        let va = Self::align();
        let s = T::size_of();
        min(floor_mul(len - d, va) / s, L::max_usize())
    }

    /// Maximum number of items could be stored in this vector.
    ///
    /// The capacity is determined by the length of its memory.
    pub fn capacity(&self) -> (r: usize)
        requires
            self.wf(),
        ensures
            r == self.spec_capacity(),
    {
        Self::capacity_of(self.mem.len())
    }

    /// Number of items stored in the vector.
    pub fn len(&self) -> (r: usize)
        requires
            self.wf(),
        ensures
            r == self.spec_len(),
            r == self@.len(),
            r <= self.spec_capacity(),
    {
        proof {
            Self::lemma_vec_layout();
            L::lemma_sized_layout(self.mem@);
            assert(self.mem@.subrange(0, L::spec_size_of() as int) =~= self.mem@.take(
                L::spec_size_of() as int,
            ));
        }
        L::read_at(self.mem.as_slice(), 0).into_usize()
    }

    /// Number of remaining free places in the vector.
    pub fn remaining(&self) -> (r: usize)
        requires
            self.wf(),
        ensures
            r == self.spec_capacity() - self.spec_len(),
    {
        self.capacity() - self.len()
    }

    /// Whether the vector is empty.
    pub fn is_empty(&self) -> (r: bool)
        requires
            self.wf(),
        ensures
            r == (self.spec_len() == 0),
    {
        self.len() == 0
    }

    /// Whether the vector is full.
    pub fn is_full(&self) -> (r: bool)
        requires
            self.wf(),
        ensures
            r == (self.spec_len() == self.spec_capacity()),
    {
        self.len() == self.capacity()
    }

    /// Item at `index`, if there is one.
    pub fn get(&self, index: usize) -> (r: Option<T>)
        requires
            self.wf(),
        ensures
            index < self@.len() ==> r == Some(self@[index as int]),
            index >= self@.len() ==> r is None,
    {
        let n = self.len();
        if index < n {
            proof {
                Self::lemma_item_in_bounds(self.mem@.len(), index as int);
            }
            let start = Self::data_offset() + index * T::size_of();
            Some(T::read_at(self.mem.as_slice(), start))
        } else {
            None
        }
    }

    /// Return a copy of the stored items.
    pub fn as_slice(&self) -> (r: Vec<T>)
        requires
            self.wf(),
        ensures
            r@ == self@,
    {
        let n = self.len();
        let mut out: Vec<T> = Vec::new();
        let mut i: usize = 0;
        while i < n
            invariant
                self.wf(),
                n == self@.len(),
                i <= n,
                out@ == self@.take(i as int),
            decreases n - i,
        {
            let x = self.get(i);
            out.push(x.unwrap());
            proof {
                assert(self@.take(i + 1) =~= self@.take(i as int).push(self@[i as int]));
            }
            i = i + 1;
        }
        proof {
            assert(self@.take(n as int) =~= self@);
        }
        out
    }

    /// Writes the length `n` into the memory.
    fn set_len(&mut self, n: usize)
        requires
            old(self).wf(),
            n <= old(self).spec_capacity(),
            Self::spec_items_valid(old(self).mem@, n as nat) is Ok,
        ensures
            final(self).wf(),
            final(self).spec_len() == n,
            final(self).mem@.len() == old(self).mem@.len(),
            forall|i: int| 0 <= i < n ==> Self::spec_item_bytes(final(self).mem@, i) == Self::spec_item_bytes(old(self).mem@, i),
            final(self)@ == Self::spec_items(old(self).mem@, n as nat),
            final(self).mem@ == Self::spec_write_len(old(self).mem@, n as nat),
    {
        proof {
            Self::lemma_vec_layout();
            L::lemma_len(L::spec_from_value(n as nat));
        }
        let l = L::from_usize(n).unwrap();
        let bytes = l.to_bytes();
        let ghost old_mem = self.mem@;
        proof {
            L::lemma_sized_value(l);
        }
        write_bytes(&mut self.mem, 0, bytes.as_slice());
        proof {
            let new_mem = self.mem@;
            let ls = L::spec_size_of() as int;
            L::lemma_sized_layout(new_mem);
            assert(new_mem.take(ls) =~= bytes@);
            assert(L::spec_validate(new_mem) is Ok);
            assert(Self::spec_len_of(new_mem) == n);
            assert forall|i: int| 0 <= i < n implies Self::spec_item_bytes(new_mem, i)
                == Self::spec_item_bytes(old_mem, i) by {
                Self::lemma_item_in_bounds(old_mem.len(), i);
                assert(Self::spec_item_bytes(new_mem, i) =~= Self::spec_item_bytes(old_mem, i));
            }
            Self::lemma_items_valid_same(new_mem, old_mem, n as nat);
            assert(self@ =~= Self::spec_items(old_mem, n as nat));
        }
    }

    /// Writes `x` as item `index` (which fits the capacity).
    fn write_item(&mut self, index: usize, x: T)
        requires
            old(self).wf(),
            index < old(self).spec_capacity(),
            index <= old(self).spec_len(),
        ensures
            final(self).mem@.len() == old(self).mem@.len(),
            Self::spec_len_of(final(self).mem@) == old(self).spec_len(),
            L::spec_validate(final(self).mem@) is Ok,
            Self::spec_item_bytes(final(self).mem@, index as int) == x.spec_to_bytes(),
            forall|i: int| 0 <= i < old(self).spec_capacity() && i != index ==> Self::spec_item_bytes(final(self).mem@, i) == Self::spec_item_bytes(old(self).mem@, i),
            final(self).mem@ == Self::spec_write_item(old(self).mem@, index as int, x),
    {
        proof {
            Self::lemma_vec_layout();
            Self::lemma_item_in_bounds(self.mem@.len(), index as int);
            T::lemma_sized_value(x);
        }
        let start = Self::data_offset() + index * T::size_of();
        let bytes = x.to_bytes();
        let ghost old_mem = self.mem@;
        write_bytes(&mut self.mem, start, bytes.as_slice());
        proof {
            let new_mem = self.mem@;
            let ls = L::spec_size_of() as int;
            L::lemma_sized_layout(new_mem);
            L::lemma_sized_layout(old_mem);
            assert(new_mem.take(ls) =~= old_mem.take(ls));
            assert(Self::spec_item_bytes(new_mem, index as int) =~= x.spec_to_bytes());
            assert forall|i: int| 0 <= i < old(self).spec_capacity() && i != index implies Self::spec_item_bytes(new_mem, i)
                == Self::spec_item_bytes(old_mem, i) by {
                Self::lemma_item_in_bounds(old_mem.len(), i);
                if i < index {
                    Self::lemma_items_apart(i, index as int);
                } else {
                    Self::lemma_items_apart(index as int, i);
                }
                assert(Self::spec_item_bytes(new_mem, i) =~= Self::spec_item_bytes(old_mem, i));
            }
        }
    }

    /// Replace the item at `index` with `x`.
    pub fn set(&mut self, index: usize, x: T)
        requires
            old(self).wf(),
            index < old(self)@.len(),
        ensures
            final(self).wf(),
            final(self)@ == old(self)@.update(index as int, x),
            final(self).spec_capacity() == old(self).spec_capacity(),
    {
        let ghost old_self = *self;
        proof {
            Self::lemma_vec_layout();
            T::lemma_sized_value(x);
        }
        self.write_item(index, x);
        proof {
            let n = old_self.spec_len();
            assert(self.mem@.len() >= Self::spec_data_offset());
            assert forall|i: int| 0 <= i < n implies T::spec_validate(Self::spec_item_bytes(self.mem@, i)) is Ok by {
                if i != index {
                    Self::lemma_items_valid_each(old_self.mem@, n, i);
                }
            }
            Self::lemma_items_valid_all(self.mem@, n);
            assert(self@ =~= old_self@.update(index as int, x));
            assert(Self::spec_validate(self.mem@) is Ok);
        }
    }

    /// The first `n` items are valid when each of them is.
    proof fn lemma_items_valid_all(bytes: Seq<u8>, n: nat)
        requires
            forall|i: int| 0 <= i < n ==> T::spec_validate(#[trigger] Self::spec_item_bytes(bytes, i)) is Ok,
        ensures
            Self::spec_items_valid(bytes, n) is Ok,
        decreases n,
    {
        if n > 0 {
            Self::lemma_items_valid_all(bytes, (n - 1) as nat);
            assert(T::spec_validate(Self::spec_item_bytes(bytes, n - 1)) is Ok);
        }
    }

    /// Reading a vector back from the memory that a valid vector occupies gives the same
    /// items.
    pub proof fn law_round_trip(bytes: Seq<u8>)
        requires
            T::spec_layout_ok(),
            L::spec_layout_ok(),
            Self::spec_data_offset() <= bytes.len() <= isize::MAX,
            Self::spec_validate(bytes) is Ok,
        ensures
            ({
                let m = bytes.take(Self::spec_mem_len(bytes.len()) as int);
                &&& Self::spec_validate(m) is Ok
                &&& Self::spec_items(m, Self::spec_len_of(m)) == Self::spec_items(
                    bytes,
                    Self::spec_len_of(bytes),
                )
            }),
    {
        Self::lemma_vec_layout();
        assert(Self::spec_min_size() == Self::spec_data_offset());
        Self::lemma_mem_len(bytes);
        let m = bytes.take(Self::spec_mem_len(bytes.len()) as int);
        L::lemma_sized_layout(bytes);
        L::lemma_sized_layout(m);
        assert(m.take(L::spec_size_of() as int) =~= bytes.take(L::spec_size_of() as int));
        let n = Self::spec_len_of(bytes);
        assert forall|i: int| 0 <= i < n implies #[trigger] Self::spec_items(m, n)[i] == Self::spec_items(
            bytes,
            n,
        )[i] by {
            Self::lemma_item_in_bounds(m.len(), i);
            lemma_mul_nonnegative(i, T::spec_size_of() as int);
            assert(Self::spec_item_bytes(m, i) =~= Self::spec_item_bytes(bytes, i));
        }
        assert(Self::spec_items(m, n) =~= Self::spec_items(bytes, n));
    }

    /// Pushing an item onto a vector that has room for it appends the item; popping right
    /// after gives the item back and leaves the items from before.
    pub proof fn law_push_pop(bytes: Seq<u8>, x: T)
        requires
            T::spec_layout_ok(),
            L::spec_layout_ok(),
            Self::spec_data_offset() <= bytes.len() <= isize::MAX,
            Self::spec_validate(bytes) is Ok,
            Self::spec_len_of(bytes) < Self::spec_capacity_of(bytes.len()),
        ensures
            ({
                let n = Self::spec_len_of(bytes);
                let pushed = Self::spec_push_bytes(bytes, x);
                let popped = Self::spec_write_len(pushed, n);
                &&& Self::spec_validate(pushed) is Ok
                &&& Self::spec_items(pushed, Self::spec_len_of(pushed)) == Self::spec_items(
                    bytes,
                    n,
                ).push(x)
                &&& Self::spec_validate(popped) is Ok
                &&& Self::spec_items(popped, Self::spec_len_of(popped)) == Self::spec_items(bytes, n)
            }),
    {
        let n = Self::spec_len_of(bytes);
        Self::lemma_push_valid(bytes, x);
        let pushed = Self::spec_push_bytes(bytes, x);
        Self::lemma_vec_layout();
        Self::lemma_write_len(pushed, n);
        let popped = Self::spec_write_len(pushed, n);
        assert forall|i: int| 0 <= i < n implies T::spec_validate(
            #[trigger] Self::spec_item_bytes(popped, i),
        ) is Ok by {
            Self::lemma_items_valid_each(pushed, n + 1, i);
        }
        Self::lemma_items_valid_all(popped, n);
        assert(Self::spec_items(popped, n) =~= Self::spec_items(pushed, n + 1).drop_last());
    }

    /// Put a new item to the end of the vector; a full vector gives the item back.
    pub fn push(&mut self, x: T) -> (r: Result<(), T>)
        requires
            old(self).wf(),
        ensures
            final(self).wf(),
            final(self).spec_capacity() == old(self).spec_capacity(),
            old(self).spec_len() < old(self).spec_capacity() ==> r is Ok && final(self)@
                == old(self)@.push(x),
            old(self).spec_len() >= old(self).spec_capacity() ==> r == Err::<(), T>(x)
                && final(self)@ == old(self)@,
            old(self).spec_len() < old(self).spec_capacity() ==> final(self).spec_bytes()
                == Self::spec_push_bytes(old(self).spec_bytes(), x),
            old(self).spec_len() >= old(self).spec_capacity() ==> final(self).spec_bytes()
                == old(self).spec_bytes(),
    {
        let n = self.len();
        if n < self.capacity() {
            let ghost old_self = *self;
            proof {
                T::lemma_sized_value(x);
            }
            self.write_item(n, x);
            proof {
                assert forall|i: int| 0 <= i < n + 1 implies T::spec_validate(#[trigger] Self::spec_item_bytes(self.mem@, i)) is Ok by {
                    if i < n {
                        Self::lemma_items_valid_each(old_self.mem@, n as nat, i);
                    }
                }
                Self::lemma_items_valid_all(self.mem@, (n + 1) as nat);
                Self::lemma_items_valid_all(self.mem@, n as nat);
            }
            self.set_len(n + 1);
            proof {
                assert(self@ =~= old_self@.push(x));
            }
            Ok(())
        } else {
            Err(x)
        }
    }

    /// Take and return an item from the end of the vector.
    pub fn pop(&mut self) -> (r: Option<T>)
        requires
            old(self).wf(),
        ensures
            final(self).wf(),
            final(self).spec_capacity() == old(self).spec_capacity(),
            old(self)@.len() > 0 ==> r == Some(old(self)@.last()) && final(self)@ == old(
                self,
            )@.drop_last(),
            old(self)@.len() == 0 ==> r is None && final(self)@ == old(self)@,
            old(self)@.len() > 0 ==> final(self).spec_bytes() == Self::spec_write_len(
                old(self).spec_bytes(),
                (old(self)@.len() - 1) as nat,
            ),
    {
        let n = self.len();
        if n > 0 {
            let x = self.get(n - 1);
            let ghost old_self = *self;
            proof {
                Self::lemma_vec_layout();
                assert forall|i: int| 0 <= i < n - 1 implies T::spec_validate(
                    #[trigger] Self::spec_item_bytes(self.mem@, i),
                ) is Ok by {
                    Self::lemma_items_valid_each(self.mem@, n as nat, i);
                }
                Self::lemma_items_valid_all(self.mem@, (n - 1) as nat);
            }
            self.set_len(n - 1);
            proof {
                assert(self@ =~= old_self@.drop_last());
            }
            x
        } else {
            None
        }
    }

    /// Appends items of `other` until it ends or the vector is full.
    ///
    /// Returns a number of items being appended.
    pub fn extend_from_slice(&mut self, other: &[T]) -> (r: usize)
        requires
            old(self).wf(),
        ensures
            final(self).wf(),
            final(self).spec_capacity() == old(self).spec_capacity(),
            r == spec_min(other@.len(), (old(self).spec_capacity() - old(self).spec_len()) as nat),
            final(self)@ == old(self)@ + other@.take(r as int),
    {
        let ghost old_view = self@;
        let cap = self.capacity();
        let room = cap - self.len();
        let count = min(other.len(), room);
        let mut counter: usize = 0;
        while counter < count
            invariant
                self.wf(),
                self.spec_capacity() == cap,
                count <= other@.len(),
                count <= cap - old_view.len(),
                counter <= count,
                self@ == old_view + other@.take(counter as int),
                self@.len() == old_view.len() + counter,
                self.spec_len() == self@.len(),
            decreases count - counter,
        {
            let _ = self.push(other[counter]);
            proof {
                assert(other@.take(counter + 1) =~= other@.take(counter as int).push(
                    other@[counter as int],
                ));
            }
            counter += 1;
        }
        counter
    }

    /// Whether two vectors store equal items.
    pub fn eq(&self, other: &Self) -> (r: bool)
        requires
            self.wf(),
            other.wf(),
        ensures
            r == (self@ == other@),
    {
        let n = self.len();
        if n != other.len() {
            return false;
        }
        let mut i: usize = 0;
        while i < n
            invariant
                self.wf(),
                other.wf(),
                n == self@.len() == other@.len(),
                i <= n,
                forall|j: int| 0 <= j < i ==> self@[j] == other@[j],
            decreases n - i,
        {
            proof {
                Self::lemma_item_in_bounds(self.mem@.len(), i as int);
                Self::lemma_item_in_bounds(other.mem@.len(), i as int);
                Self::lemma_items_valid_each(self.mem@, n as nat, i as int);
                Self::lemma_items_valid_each(other.mem@, n as nat, i as int);
                T::lemma_sized_layout(Self::spec_item_bytes(self.mem@, i as int));
                T::lemma_sized_layout(Self::spec_item_bytes(other.mem@, i as int));
            }
            let start = Self::data_offset() + i * T::size_of();
            let a = slice_subrange(self.mem.as_slice(), start, start + T::size_of());
            let b = slice_subrange(other.mem.as_slice(), start, start + T::size_of());
            if !bytes_eq(a, b) {
                proof {
                    assert(self@[i as int] != other@[i as int]);
                }
                return false;
            }
            i += 1;
        }
        proof {
            assert(self@ =~= other@);
        }
        true
    }

    /// Initialize `bytes` with `emplacer` and take the vector they hold.
    pub fn new_in_place<E: Emplacer<Self>>(bytes: &mut [u8], emplacer: E) -> (r: Result<Self, Error>)
        requires
            old(bytes)@.len() <= isize::MAX,
        ensures
            spec_placed(emplacer, old(bytes)@, final(bytes)@, r),
    {
        new_in_place(bytes, emplacer)
    }

    /// Memory the vector occupies, with its length and items.
    pub fn into_bytes(self) -> (r: Vec<u8>)
        ensures
            r@ == self.spec_bytes(),
    {
        self.mem
    }
}

/// Whether two byte slices are equal.
pub fn bytes_eq(a: &[u8], b: &[u8]) -> (r: bool)
    ensures
        r == (a@ == b@),
{
    if a.len() != b.len() {
        return false;
    }
    let mut i: usize = 0;
    while i < a.len()
        invariant
            a@.len() == b@.len(),
            i <= a@.len(),
            forall|j: int| 0 <= j < i ==> a@[j] == b@[j],
        decreases a@.len() - i,
    {
        if a[i] != b[i] {
            return false;
        }
        i += 1;
    }
    proof {
        assert(a@ =~= b@);
    }
    true
}

/// Emplacer of an empty vector: it sets the length to zero and leaves the rest as it is.
pub struct Empty;

impl<T: FlatSized, L: FlatLen> Emplacer<FlatVec<T, L>> for Empty {
    open spec fn spec_emplace(self, region: Seq<u8>) -> Result<Seq<u8>, Error> {
        Ok(FlatVec::<T, L>::spec_write_len(region, 0))
    }

    open spec fn spec_emplace_failed(self, region: Seq<u8>) -> Seq<u8> {
        region
    }

    proof fn lemma_emplace(self, region: Seq<u8>) {
        FlatVec::<T, L>::lemma_empty(region);
    }

    fn emplace_unchecked(self, mem: &mut Vec<u8>, start: usize, end: usize) -> (r: Result<(), Error>) {
        proof {
            FlatVec::<T, L>::lemma_vec_layout();
            L::lemma_len(L::spec_from_value(0));
        }
        let ghost old_mem = mem@;
        let l = L::from_usize(0).unwrap();
        let bytes = l.to_bytes();
        proof {
            L::lemma_sized_value(l);
            assert(FlatVec::<T, L>::spec_min_size() == FlatVec::<T, L>::spec_data_offset());
        }
        write_bytes(mem, start, bytes.as_slice());
        proof {
            let region = old_mem.subrange(start as int, end as int);
            assert(splice(old_mem, start as int, start + bytes@.len(), bytes@) =~= splice(
                old_mem,
                start as int,
                end as int,
                FlatVec::<T, L>::spec_write_len(region, 0),
            ));
        }
        Ok(())
    }
}

impl<T: FlatSized, L: FlatLen> FlatDefault for FlatVec<T, L> {
    type DefaultEmplacer = Empty;

    open spec fn spec_default_emplacer() -> Empty {
        Empty
    }

    fn default_emplacer() -> (r: Empty) {
        Empty
    }
}

impl<T: FlatSized, L: FlatLen> FlatVec<T, L> {
    /// Memory with the length set to zero holds a valid empty vector.
    pub proof fn lemma_empty(region: Seq<u8>)
        requires
            T::spec_layout_ok(),
            L::spec_layout_ok(),
            Self::spec_data_offset() <= region.len() <= isize::MAX,
        ensures
            Self::spec_write_len(region, 0).len() == region.len(),
            Self::spec_validate(Self::spec_write_len(region, 0)) is Ok,
            Self::spec_len_of(Self::spec_write_len(region, 0)) == 0,
    {
        Self::lemma_vec_layout();
        L::lemma_len(L::spec_from_value(0));
        let l = L::spec_from_value(0);
        L::lemma_sized_value(l);
        let new = Self::spec_write_len(region, 0);
        L::lemma_sized_layout(new);
        assert(new.take(L::spec_size_of() as int) =~= l.spec_to_bytes());
        lemma_ok_unit(L::spec_validate(new));
    }

    /// Memory initialized with `items` in turn, or the error if they do not fit.
    fn fill(region: &[u8], items: &[T]) -> (r: Result<Vec<u8>, Error>)
        requires
            T::spec_layout_ok(),
            L::spec_layout_ok(),
            Self::spec_data_offset() <= region@.len() <= isize::MAX,
        ensures
            items@.len() > Self::spec_capacity_of(region@.len()) ==> r == Err::<Vec<u8>, Error>(
                Error { kind: ErrorKind::InsufficientSize, pos: 0 },
            ),
            items@.len() <= Self::spec_capacity_of(region@.len()) ==> (r matches Ok(b) && b@
                == Self::spec_fill(Self::spec_write_len(region@, 0), items@)),
    {
        let cap = Self::capacity_of(region.len());
        if items.len() > cap {
            return Err(Error { kind: ErrorKind::InsufficientSize, pos: 0 });
        }
        let mut mem = vstd::slice::slice_to_vec(region);
        let n = mem.len();
        let r = <Empty as Emplacer<FlatVec<T, L>>>::emplace_unchecked(Empty, &mut mem, 0, n);
        proof {
            Self::lemma_empty(region@);
            assert(region@.subrange(0, n as int) =~= region@);
            assert(mem@ =~= Self::spec_write_len(region@, 0));
        }
        let mut v = FlatVec::<T, L> { mem, _phantom: PhantomData };
        let ghost empty = v.mem@;
        let mut i: usize = 0;
        while i < items.len()
            invariant
                v.wf(),
                v.spec_capacity() == cap,
                items@.len() <= cap,
                i <= items@.len(),
                v.spec_len() == i,
                v.mem@ == Self::spec_fill(empty, items@.take(i as int)),
            decreases items@.len() - i,
        {
            let ghost before = v.mem@;
            assert(v@.len() == v.spec_len());
            let _ = v.push(items[i]);
            assert(v@.len() == v.spec_len());
            proof {
                let t = items@.take(i + 1);
                assert(t.drop_last() =~= items@.take(i as int));
                assert(t.last() == items@[i as int]);
            }
            i += 1;
        }
        proof {
            assert(items@.take(items@.len() as int) =~= items@);
        }
        Ok(v.mem)
    }

    /// Emplace `items` into `mem[start..end]`. When they do not fit, the length is set to
    /// zero first and, if `partial`, as many of the items as fit are pushed before failing.
    fn emplace_items(mem: &mut Vec<u8>, start: usize, end: usize, items: &[T], partial: bool) -> (r:
        Result<(), Error>)
        requires
            T::spec_layout_ok(),
            L::spec_layout_ok(),
            start <= end <= old(mem)@.len() <= isize::MAX,
            end - start >= Self::spec_data_offset(),
        ensures
            emplaced(
                Self::spec_fill_region(old(mem)@.subrange(start as int, end as int), items@),
                Self::spec_fill_failed(old(mem)@.subrange(start as int, end as int), items@, partial),
                old(mem)@,
                final(mem)@,
                start as int,
                end as int,
                r,
            ),
    {
        let region = slice_subrange(mem.as_slice(), start, end);
        let cap = Self::capacity_of(region.len());
        proof {
            Self::lemma_empty(region@);
        }
        if items.len() > cap {
            let kept = if partial {
                slice_subrange(items, 0, cap)
            } else {
                slice_subrange(items, 0, 0)
            };
            proof {
                assert(kept@ =~= items@.take(if partial { cap as int } else { 0 }));
                Self::lemma_fill_valid(Self::spec_write_len(region@, 0), kept@);
            }
            match Self::fill(region, kept) {
                Ok(b) => {
                    write_bytes(mem, start, b.as_slice());
                },
                Err(e) => {
                    return Err(e);
                },
            }
            return Err(Error { kind: ErrorKind::InsufficientSize, pos: 0 });
        }
        let filled = Self::fill(region, items)?;
        proof {
            Self::lemma_fill_valid(Self::spec_write_len(region@, 0), items@);
        }
        write_bytes(mem, start, filled.as_slice());
        Ok(())
    }

    /// What initializing `region` with `items` that do not fit leaves: a zero length, and, if
    /// `partial`, as many of the items as fit.
    pub open spec fn spec_fill_failed(region: Seq<u8>, items: Seq<T>, partial: bool) -> Seq<u8> {
        Self::spec_fill(
            Self::spec_write_len(region, 0),
            items.take(
                if partial {
                    Self::spec_capacity_of(region.len()) as int
                } else {
                    0
                },
            ),
        )
    }

    /// What initializing `region` with `items` gives.
    pub open spec fn spec_fill_region(region: Seq<u8>, items: Seq<T>) -> Result<Seq<u8>, Error> {
        if items.len() > Self::spec_capacity_of(region.len()) {
            Err(Error { kind: ErrorKind::InsufficientSize, pos: 0 })
        } else {
            Ok(Self::spec_fill(Self::spec_write_len(region, 0), items))
        }
    }

    /// Writing an item that fits the capacity changes its bytes only.
    proof fn lemma_write_item(bytes: Seq<u8>, index: int, x: T)
        requires
            T::spec_layout_ok(),
            L::spec_layout_ok(),
            Self::spec_data_offset() <= bytes.len() <= isize::MAX,
            0 <= index < Self::spec_capacity_of(bytes.len()),
        ensures
            Self::spec_write_item(bytes, index, x).len() == bytes.len(),
            Self::spec_len_of(Self::spec_write_item(bytes, index, x)) == Self::spec_len_of(bytes),
            L::spec_validate(Self::spec_write_item(bytes, index, x)) == L::spec_validate(bytes),
            Self::spec_item_bytes(Self::spec_write_item(bytes, index, x), index) == x.spec_to_bytes(),
            forall|i: int|
                0 <= i < Self::spec_capacity_of(bytes.len()) && i != index ==> #[trigger] Self::spec_item_bytes(
                    Self::spec_write_item(bytes, index, x),
                    i,
                ) == Self::spec_item_bytes(bytes, i),
    {
        Self::lemma_vec_layout();
        Self::lemma_item_in_bounds(bytes.len(), index);
        T::lemma_sized_value(x);
        let new = Self::spec_write_item(bytes, index, x);
        let ls = L::spec_size_of() as int;
        L::lemma_sized_layout(new);
        L::lemma_sized_layout(bytes);
        assert(new.take(ls) =~= bytes.take(ls));
        assert(Self::spec_item_bytes(new, index) =~= x.spec_to_bytes());
        assert forall|i: int|
            0 <= i < Self::spec_capacity_of(bytes.len()) && i != index implies #[trigger] Self::spec_item_bytes(new, i)
            == Self::spec_item_bytes(bytes, i) by {
            Self::lemma_item_in_bounds(bytes.len(), i);
            if i < index {
                Self::lemma_items_apart(i, index);
            } else {
                Self::lemma_items_apart(index, i);
            }
            assert(Self::spec_item_bytes(new, i) =~= Self::spec_item_bytes(bytes, i));
        }
    }

    /// Writing a length that fits the capacity changes the length field only.
    proof fn lemma_write_len(bytes: Seq<u8>, n: nat)
        requires
            T::spec_layout_ok(),
            L::spec_layout_ok(),
            Self::spec_data_offset() <= bytes.len() <= isize::MAX,
            n <= Self::spec_capacity_of(bytes.len()),
        ensures
            Self::spec_write_len(bytes, n).len() == bytes.len(),
            Self::spec_len_of(Self::spec_write_len(bytes, n)) == n,
            L::spec_validate(Self::spec_write_len(bytes, n)) is Ok,
            forall|i: int|
                0 <= i < Self::spec_capacity_of(bytes.len()) ==> #[trigger] Self::spec_item_bytes(
                    Self::spec_write_len(bytes, n),
                    i,
                ) == Self::spec_item_bytes(bytes, i),
    {
        Self::lemma_vec_layout();
        L::lemma_len(L::spec_from_value(n));
        let l = L::spec_from_value(n);
        L::lemma_sized_value(l);
        let new = Self::spec_write_len(bytes, n);
        L::lemma_sized_layout(new);
        assert(new.take(L::spec_size_of() as int) =~= l.spec_to_bytes());
        assert forall|i: int|
            0 <= i < Self::spec_capacity_of(bytes.len()) implies #[trigger] Self::spec_item_bytes(new, i)
            == Self::spec_item_bytes(bytes, i) by {
            Self::lemma_item_in_bounds(bytes.len(), i);
            assert(Self::spec_item_bytes(new, i) =~= Self::spec_item_bytes(bytes, i));
        }
    }

    /// Pushing onto a valid vector that is not full gives a valid vector one item longer.
    proof fn lemma_push_valid(bytes: Seq<u8>, x: T)
        requires
            T::spec_layout_ok(),
            L::spec_layout_ok(),
            Self::spec_data_offset() <= bytes.len() <= isize::MAX,
            Self::spec_validate(bytes) is Ok,
            Self::spec_len_of(bytes) < Self::spec_capacity_of(bytes.len()),
        ensures
            Self::spec_push_bytes(bytes, x).len() == bytes.len(),
            Self::spec_validate(Self::spec_push_bytes(bytes, x)) is Ok,
            Self::spec_len_of(Self::spec_push_bytes(bytes, x)) == Self::spec_len_of(bytes) + 1,
            Self::spec_items(Self::spec_push_bytes(bytes, x), Self::spec_len_of(bytes) + 1)
                == Self::spec_items(bytes, Self::spec_len_of(bytes)).push(x),
    {
        let n = Self::spec_len_of(bytes);
        let mid = Self::spec_write_item(bytes, n as int, x);
        Self::lemma_write_item(bytes, n as int, x);
        Self::lemma_write_len(mid, n + 1);
        let new = Self::spec_write_len(mid, n + 1);
        T::lemma_sized_value(x);
        assert forall|i: int| 0 <= i < n + 1 implies T::spec_validate(
            #[trigger] Self::spec_item_bytes(new, i),
        ) is Ok by {
            if i < n {
                Self::lemma_items_valid_each(bytes, n, i);
                assert(Self::spec_item_bytes(new, i) == Self::spec_item_bytes(mid, i));
                assert(Self::spec_item_bytes(mid, i) == Self::spec_item_bytes(bytes, i));
            } else {
                assert(Self::spec_item_bytes(new, i) == Self::spec_item_bytes(mid, i));
            }
        }
        Self::lemma_items_valid_all(new, n + 1);
        lemma_ok_unit(L::spec_validate(new));
        assert(Self::spec_items(new, n + 1) =~= Self::spec_items(bytes, n).push(x)) by {
            assert forall|i: int| 0 <= i < n + 1 implies Self::spec_items(new, n + 1)[i]
                == Self::spec_items(bytes, n).push(x)[i] by {
                if i < n {
                    assert(Self::spec_item_bytes(new, i) == Self::spec_item_bytes(mid, i));
                    assert(Self::spec_item_bytes(mid, i) == Self::spec_item_bytes(bytes, i));
                } else {
                    assert(Self::spec_item_bytes(new, i) == Self::spec_item_bytes(mid, i));
                }
            }
        }
    }

    /// Filling memory that holds a valid vector with items that fit keeps it valid, of the same length.
    proof fn lemma_fill_valid(bytes: Seq<u8>, items: Seq<T>)
        requires
            T::spec_layout_ok(),
            L::spec_layout_ok(),
            Self::spec_data_offset() <= bytes.len() <= isize::MAX,
            Self::spec_validate(bytes) is Ok,
            Self::spec_len_of(bytes) == 0,
            items.len() <= Self::spec_capacity_of(bytes.len()),
        ensures
            Self::spec_fill(bytes, items).len() == bytes.len(),
            Self::spec_validate(Self::spec_fill(bytes, items)) is Ok,
            Self::spec_len_of(Self::spec_fill(bytes, items)) == items.len(),
        decreases items.len(),
    {
        if items.len() > 0 {
            Self::lemma_fill_valid(bytes, items.drop_last());
            let prev = Self::spec_fill(bytes, items.drop_last());
            Self::lemma_push_valid(prev, items.last());
        }
    }
}

/// Emplacer of a vector holding the items of an array.
pub struct FromArray<T, const N: usize>(pub [T; N]);

/// It sets the length to zero first, so that items that do not fit leave an empty vector.
impl<T: FlatSized, L: FlatLen, const N: usize> Emplacer<FlatVec<T, L>> for FromArray<T, N> {
    open spec fn spec_emplace(self, region: Seq<u8>) -> Result<Seq<u8>, Error> {
        FlatVec::<T, L>::spec_fill_region(region, self.0@)
    }

    open spec fn spec_emplace_failed(self, region: Seq<u8>) -> Seq<u8> {
        FlatVec::<T, L>::spec_fill_failed(region, self.0@, false)
    }

    proof fn lemma_emplace(self, region: Seq<u8>) {
        FlatVec::<T, L>::lemma_fill_region(region, self.0@, false);
    }

    fn emplace_unchecked(self, mem: &mut Vec<u8>, start: usize, end: usize) -> (r: Result<(), Error>) {
        FlatVec::<T, L>::emplace_items(mem, start, end, self.0.as_slice(), false)
    }
}

/// Emplacer of a vector holding the items of a sequence, in order.
pub struct FromIterator<T>(pub Vec<T>);

/// It sets the length to zero and pushes the items in turn, so that items that do not fit
/// leave a full vector of the first ones.
impl<T: FlatSized, L: FlatLen> Emplacer<FlatVec<T, L>> for FromIterator<T> {
    open spec fn spec_emplace(self, region: Seq<u8>) -> Result<Seq<u8>, Error> {
        FlatVec::<T, L>::spec_fill_region(region, self.0@)
    }

    open spec fn spec_emplace_failed(self, region: Seq<u8>) -> Seq<u8> {
        FlatVec::<T, L>::spec_fill_failed(region, self.0@, true)
    }

    proof fn lemma_emplace(self, region: Seq<u8>) {
        FlatVec::<T, L>::lemma_fill_region(region, self.0@, true);
    }

    fn emplace_unchecked(self, mem: &mut Vec<u8>, start: usize, end: usize) -> (r: Result<(), Error>) {
        FlatVec::<T, L>::emplace_items(mem, start, end, self.0.as_slice(), true)
    }
}

impl<T: FlatSized, L: FlatLen> FlatVec<T, L> {
    /// Initializing memory with items that fit leaves a valid vector of them; items that do
    /// not fit leave a valid full or empty vector of the first ones.
    pub proof fn lemma_fill_region(region: Seq<u8>, items: Seq<T>, partial: bool)
        requires
            T::spec_layout_ok(),
            L::spec_layout_ok(),
            Self::spec_data_offset() <= region.len() <= isize::MAX,
        ensures
            Self::spec_fill_region(region, items) matches Ok(new) ==> {
                &&& new.len() == region.len()
                &&& Self::spec_validate(new) is Ok
                &&& Self::spec_len_of(new) == items.len()
                &&& Self::spec_items(new, items.len()) == items
            },
            Self::spec_fill_region(region, items) is Err ==> {
                let failed = Self::spec_fill_failed(region, items, partial);
                let k = if partial {
                    Self::spec_capacity_of(region.len())
                } else {
                    0
                };
                &&& failed.len() == region.len()
                &&& Self::spec_validate(failed) is Ok
                &&& Self::spec_len_of(failed) == k
                &&& Self::spec_items(failed, k) == items.take(k as int)
            },
    {
        Self::lemma_empty(region);
        if items.len() <= Self::spec_capacity_of(region.len()) {
            Self::lemma_fill_items(Self::spec_write_len(region, 0), items);
        } else {
            let k = if partial {
                Self::spec_capacity_of(region.len())
            } else {
                0
            };
            Self::lemma_fill_items(Self::spec_write_len(region, 0), items.take(k as int));
        }
    }

    /// The items of memory filled with `items` are `items`.
    proof fn lemma_fill_items(bytes: Seq<u8>, items: Seq<T>)
        requires
            T::spec_layout_ok(),
            L::spec_layout_ok(),
            Self::spec_data_offset() <= bytes.len() <= isize::MAX,
            Self::spec_validate(bytes) is Ok,
            Self::spec_len_of(bytes) == 0,
            items.len() <= Self::spec_capacity_of(bytes.len()),
        ensures
            Self::spec_fill(bytes, items).len() == bytes.len(),
            Self::spec_validate(Self::spec_fill(bytes, items)) is Ok,
            Self::spec_len_of(Self::spec_fill(bytes, items)) == items.len(),
            Self::spec_items(Self::spec_fill(bytes, items), items.len()) == items,
        decreases items.len(),
    {
        Self::lemma_fill_valid(bytes, items);
        if items.len() > 0 {
            Self::lemma_fill_items(bytes, items.drop_last());
            let prev = Self::spec_fill(bytes, items.drop_last());
            Self::lemma_push_valid(prev, items.last());
            assert(items.drop_last().push(items.last()) =~= items);
        } else {
            assert(Self::spec_items(bytes, 0) =~= items);
        }
    }
}

} // verus!
