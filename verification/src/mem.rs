use crate::error::{Error, ErrorKind};
use crate::traits::{Emplacer, FlatDefault, FlatUnsized};
use crate::utils::{align_offset, check_align_and_min_size, floor_mul, lemma_floor_mul, spec_floor_mul};
use core::marker::PhantomData;
use vstd::layout::valid_layout;
use vstd::prelude::*;
use vstd::slice::{slice_subrange, slice_to_vec};

verus! {

/// Memory that can be reinterpreted as `T` but whose contents may be invalid for `T`.
///
/// It is large enough for the smallest `T`, and its length is a multiple of `T`'s alignment.
pub struct Unvalidated<T: FlatUnsized> {
    mem: Vec<u8>,
    _phantom: PhantomData<T>,
}

impl<T: FlatUnsized> Unvalidated<T> {
    /// Bytes of the memory.
    pub closed spec fn view(&self) -> Seq<u8> {
        self.mem@
    }

    /// The memory is large enough for the smallest `T`.
    pub open spec fn wf(&self) -> bool {
        &&& T::spec_layout_ok()
        &&& T::spec_min_size() <= self@.len() <= isize::MAX
    }

    /// Take a copy of `bytes`, cut down to a multiple of `T`'s alignment, taken to be
    /// aligned and large enough.
    pub fn from_bytes_unchecked(bytes: &[u8]) -> (r: Self)
        requires
            T::spec_layout_ok(),
            T::spec_min_size() <= bytes@.len() <= isize::MAX,
        ensures
            r.wf(),
            r@ == bytes@.take(spec_floor_mul(bytes@.len() as int, T::spec_align() as int)),
    {
        proof {
            T::lemma_layout();
            lemma_floor_mul(bytes@.len() as int, T::spec_align() as int);
        }
        let n = floor_mul(bytes.len(), T::align());
        let mem = slice_to_vec(slice_subrange(bytes, 0, n));
        proof {
            assert(mem@ =~= bytes@.take(n as int));
        }
        Unvalidated { mem, _phantom: PhantomData }
    }

    /// Try to take `bytes` as memory for a possibly uninitialized `T`.
    ///
    /// Error returned if the start of `bytes` isn't properly aligned for `T`, or if `bytes`
    /// is too short to hold even the smallest `T`.
    pub fn from_bytes(bytes: &[u8]) -> (r: Result<Self, Error>)
        requires
            bytes@.len() <= isize::MAX,
        ensures
            r matches Ok(u) ==> u.wf() && u@ == bytes@.take(
                spec_floor_mul(bytes@.len() as int, T::spec_align() as int),
            ),
            bytes@.len() < T::spec_min_size() ==> r is Err,
            r matches Err(e) ==> e.pos == 0 && (e.kind == ErrorKind::BadAlign || (e.kind
                == ErrorKind::InsufficientSize && bytes@.len() < T::spec_min_size())),
            T::spec_align() == 1 ==> (r is Ok <==> bytes@.len() >= T::spec_min_size()),
    {
        let _ = T::align();
        check_align_and_min_size::<T>(bytes)?;
        Ok(Self::from_bytes_unchecked(bytes))
    }

    /// Bytes of the memory.
    pub fn as_bytes(&self) -> (r: &[u8])
        ensures
            r@ == self@,
    {
        self.mem.as_slice()
    }

    /// The `T` that the memory holds, or the error that makes it invalid.
    pub fn validate(&self) -> (r: Result<T, Error>)
        requires
            self.wf(),
        ensures
            T::spec_validate(self@) is Ok <==> r is Ok,
            r matches Err(e) ==> T::spec_validate(self@) == Err::<(), Error>(e),
            r matches Ok(v) ==> v.wf() && v.spec_mem() == self@.take(T::spec_mem_len(self@.len()) as int),
    {
        match T::validate_unchecked(self.mem.as_slice()) {
            Err(e) => Err(e),
            Ok(()) => Ok(T::from_bytes_unchecked(self.mem.as_slice())),
        }
    }

    /// The same as [`Unvalidated::validate`].
    pub fn validate_mut(&mut self) -> (r: Result<T, Error>)
        requires
            old(self).wf(),
        ensures
            final(self)@ == old(self)@,
            T::spec_validate(old(self)@) is Ok <==> r is Ok,
            r matches Err(e) ==> T::spec_validate(old(self)@) == Err::<(), Error>(e),
            r matches Ok(v) ==> v.wf() && v.spec_mem() == old(self)@.take(
                T::spec_mem_len(old(self)@.len()) as int,
            ),
    {
        self.validate()
    }

    /// Initialize the memory with `emplacer`, and take the `T` it holds then.
    pub fn new_in_place<E: Emplacer<T>>(&mut self, emplacer: E) -> (r: Result<T, Error>)
        requires
            old(self).wf(),
        ensures
            final(self).wf(),
            match emplacer.spec_emplace(old(self)@) {
                Err(e) => r == Err::<T, Error>(e) && final(self)@ == emplacer.spec_emplace_failed(
                    old(self)@,
                ),
                Ok(m) => final(self)@ == m && (r matches Ok(v) && v.wf() && v.spec_mem() == m.take(
                    T::spec_mem_len(m.len()) as int,
                )),
            },
    {
        let n = self.mem.len();
        let ghost old_mem = self.mem@;
        let ghost e = emplacer;
        proof {
            assert(old_mem.subrange(0, n as int) =~= old_mem);
            e.lemma_emplace(old_mem);
        }
        match emplacer.emplace_unchecked(&mut self.mem, 0, n) {
            Err(x) => {
                proof {
                    assert(self.mem@ =~= e.spec_emplace_failed(old_mem));
                }
                Err(x)
            },
            Ok(()) => {
                proof {
                    assert(self.mem@ =~= e.spec_emplace(old_mem)->Ok_0);
                }
                Ok(T::from_bytes_unchecked(self.mem.as_slice()))
            },
        }
    }

    /// Initialize the memory into the default state of `T`, and take that `T`.
    pub fn default_in_place(&mut self) -> (r: Result<T, Error>)
        where T: FlatDefault,
        requires
            old(self).wf(),
        ensures
            final(self).wf(),
            match T::spec_default_emplacer().spec_emplace(old(self)@) {
                Err(e) => r == Err::<T, Error>(e) && final(self)@
                    == T::spec_default_emplacer().spec_emplace_failed(old(self)@),
                Ok(m) => final(self)@ == m && (r matches Ok(v) && v.wf() && v.spec_mem() == m.take(
                    T::spec_mem_len(m.len()) as int,
                )),
            },
    {
        self.new_in_place(T::default_emplacer())
    }
}

/// Heap memory meant to start at an address aligned as asked.
///
/// It is carved out of a larger buffer at the offset that `<*const u8>::align_offset` gives.
/// That function may decline to give one (its documentation allows it); the memory then starts
/// at the start of the buffer and need not be aligned. Where the memory lies is no part of its
/// view, and its alignment is not stated; its bytes, size and the alignment asked for are.
pub struct AlignedBytes {
    data: Vec<u8>,
    start: usize,
    size: usize,
    align: usize,
}

impl AlignedBytes {
    /// Bytes of the memory.
    pub closed spec fn view(&self) -> Seq<u8> {
        self.data@.subrange(self.start as int, self.start + self.size)
    }

    /// Alignment asked for.
    pub closed spec fn spec_align(&self) -> usize {
        self.align
    }

    /// The memory lies inside its allocation.
    pub closed spec fn wf(&self) -> bool {
        self.start + self.size <= self.data@.len() <= usize::MAX
    }

    /// `size` zeroed bytes, meant to start at an address aligned to `align`, which must make a
    /// valid layout (a power of two alignment, a size that fits the address space).
    pub fn new(size: usize, align: usize) -> (r: Self)
        requires
            valid_layout(size, align),
        ensures
            r.wf(),
            r@ == Seq::new(size as nat, |i: int| 0u8),
            r.spec_align() == align,
    {
        proof {
            crate::utils::lemma_pow2_fits(align as int);
        }
        let n = size + align;
        let mut data: Vec<u8> = Vec::new();
        let mut i: usize = 0;
        while i < n
            invariant
                i <= n,
                data@ == Seq::new(i as nat, |j: int| 0u8),
            decreases n - i,
        {
            data.push(0u8);
            i = i + 1;
            assert(data@ =~= Seq::new(i as nat, |j: int| 0u8));
        }
        let offset = if align == 1 {
            0
        } else {
            align_offset(data.as_slice(), align)
        };
        let start = if offset < align {
            offset
        } else {
            0
        };
        let r = AlignedBytes { data, start, size, align };
        assert(r@ =~= Seq::new(size as nat, |i: int| 0u8));
        r
    }

    /// A copy of `src`, meant to start at an address aligned to `align` (see [`AlignedBytes`]).
    pub fn from_slice(src: &[u8], align: usize) -> (r: Self)
        requires
            valid_layout(src@.len() as usize, align),
        ensures
            r.wf(),
            r@ == src@,
            r.spec_align() == align,
    {
        let mut this = Self::new(src.len(), align);
        let n = src.len();
        let mut i: usize = 0;
        while i < n
            invariant
                this.wf(),
                n == src@.len(),
                this@.len() == n,
                this.spec_align() == align,
                i <= n,
                forall|j: int| 0 <= j < i ==> this@[j] == src@[j],
            decreases n - i,
        {
            this.set(i, src[i]);
            i = i + 1;
        }
        assert(this@ =~= src@);
        this
    }

    /// Size and alignment of the memory.
    pub fn layout(&self) -> (r: (usize, usize))
        requires
            self.wf(),
        ensures
            r.0 == self@.len(),
            r.1 == self.spec_align(),
    {
        (self.size, self.align)
    }

    /// Bytes of the memory.
    pub fn as_slice(&self) -> (r: &[u8])
        requires
            self.wf(),
        ensures
            r@ == self@,
    {
        slice_subrange(self.data.as_slice(), self.start, self.start + self.size)
    }

    /// Bytes of the memory, to change them in place; what is written through them is what
    /// the memory holds afterwards (a slice keeps its length, which the clause spells out).
    pub fn as_mut_slice(&mut self) -> (r: &mut [u8])
        requires
            old(self).wf(),
        ensures
            r@ == old(self)@,
            final(self).spec_align() == old(self).spec_align(),
            final(r)@.len() == r@.len() ==> final(self).wf() && final(self)@ == final(r)@,
    {
        let start = self.start;
        let size = self.size;
        let (_before, rest) = self.data.as_mut_slice().split_at_mut(start);
        let (mid, _after) = rest.split_at_mut(size);
        mid
    }

    /// Write `value` at `index`.
    pub fn set(&mut self, index: usize, value: u8)
        requires
            old(self).wf(),
            index < old(self)@.len(),
        ensures
            final(self).wf(),
            final(self)@ == old(self)@.update(index as int, value),
            final(self).spec_align() == old(self).spec_align(),
    {
        let i = self.start + index;
        self.data.set(i, value);
        assert(self@ =~= old(self)@.update(index as int, value));
    }
}

} // verus!
