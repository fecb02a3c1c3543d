use crate::error::{Error, ErrorKind};
use crate::utils::{check_align_and_min_size, layout_check_outcome};
use vstd::arithmetic::power2::is_pow2;
use vstd::prelude::*;
use vstd::slice::slice_to_vec;

verus! {

/// `mem` with `mem[start..end]` replaced by `region`.
pub open spec fn splice(mem: Seq<u8>, start: int, end: int, region: Seq<u8>) -> Seq<u8> {
    mem.subrange(0, start) + region + mem.subrange(end, mem.len() as int)
}

/// Splicing a region of the same length keeps the length and the bytes around it.
pub proof fn lemma_splice(mem: Seq<u8>, start: int, end: int, region: Seq<u8>)
    requires
        0 <= start <= end <= mem.len(),
        region.len() == end - start,
    ensures
        splice(mem, start, end, region).len() == mem.len(),
        forall|i: int| 0 <= i < start ==> #[trigger] splice(mem, start, end, region)[i] == mem[i],
        forall|i: int| end <= i < mem.len() ==> #[trigger] splice(mem, start, end, region)[i] == mem[i],
        forall|i: int| start <= i < end ==> #[trigger] splice(mem, start, end, region)[i] == region[i - start],
        splice(mem, start, end, region).subrange(start, end) == region,
{
    let m = splice(mem, start, end, region);
    assert(m.subrange(start, end) =~= region);
}

/// What an emplacer leaves in memory: on success `mem[start..end]` holds the region it
/// computed, on failure the bytes it wrote before failing (`failed`); nothing else changes.
pub open spec fn emplaced(
    spec_result: Result<Seq<u8>, Error>,
    failed: Seq<u8>,
    old_mem: Seq<u8>,
    new_mem: Seq<u8>,
    start: int,
    end: int,
    r: Result<(), Error>,
) -> bool {
    match spec_result {
        Ok(region) => r is Ok && new_mem == splice(old_mem, start, end, region),
        Err(e) => r == Err::<(), Error>(e) && new_mem == splice(old_mem, start, end, failed),
    }
}

/// Splicing back the bytes that were there changes nothing.
pub proof fn lemma_splice_same(mem: Seq<u8>, start: int, end: int)
    requires
        0 <= start <= end <= mem.len(),
    ensures
        splice(mem, start, end, mem.subrange(start, end)) == mem,
{
    assert(splice(mem, start, end, mem.subrange(start, end)) =~= mem);
}

/// The verdict on memory of `len` bytes for a type aligned to one byte, whose contents give
/// `contents`: too short for the smallest instance, or what the contents give.
pub open spec fn spec_checked<R>(len: nat, min_size: nat, contents: Result<R, Error>) -> Result<R, Error> {
    if len < min_size {
        Err(Error { kind: ErrorKind::InsufficientSize, pos: 0 })
    } else {
        contents
    }
}

/// `r` is what `verdict` gives: success exactly when it is, with the same error.
pub open spec fn spec_same_verdict<R, S>(r: Result<R, Error>, verdict: Result<S, Error>) -> bool {
    &&& r is Ok <==> verdict is Ok
    &&& verdict matches Err(e) ==> r == Err::<R, Error>(e)
}

/// What checking memory that held `old_mem` for `T`, then initializing it with `emplacer`,
/// gives: the memory now holds `new_mem` and `r` is the outcome.
///
/// Memory too short for the smallest `T` is refused and left as it was; so is memory whose
/// start is misaligned for `T`, which depends on where it lies and cannot happen to a type
/// aligned to one byte. Otherwise the memory holds what the emplacer made of it, or what it
/// left on failure, and the `T` on success occupies its start.
pub open spec fn spec_placed<T: FlatUnsized, E: Emplacer<T>>(
    emplacer: E,
    old_mem: Seq<u8>,
    new_mem: Seq<u8>,
    r: Result<T, Error>,
) -> bool {
    let short = old_mem.len() < T::spec_min_size();
    &&& new_mem.len() == old_mem.len()
    &&& (r matches Ok(v) ==> {
        &&& v.wf()
        &&& !short
        &&& emplacer.spec_emplace(old_mem) == Ok::<Seq<u8>, Error>(new_mem)
        &&& v.spec_mem() == new_mem.take(T::spec_mem_len(new_mem.len()) as int)
    })
    &&& (short ==> r is Err)
    &&& (!short && emplacer.spec_emplace(old_mem) is Err ==> r is Err)
    &&& (r matches Err(e) ==> {
        ||| e == Error { kind: ErrorKind::BadAlign, pos: 0 } && new_mem == old_mem
        ||| short && e == Error { kind: ErrorKind::InsufficientSize, pos: 0 } && new_mem == old_mem
        ||| !short && emplacer.spec_emplace(old_mem) == Err::<Seq<u8>, Error>(e) && new_mem
            == emplacer.spec_emplace_failed(old_mem)
    })
    &&& (T::spec_align() == 1 ==> spec_same_verdict(
        r,
        spec_checked(old_mem.len(), T::spec_min_size(), emplacer.spec_emplace(old_mem)),
    ))
}

/// Copy `src` over `dst`, which is as long.
pub fn copy_into(dst: &mut [u8], src: &[u8])
    requires
        old(dst)@.len() == src@.len(),
    ensures
        final(dst)@ == src@,
{
    let n = src.len();
    let mut i: usize = 0;
    while i < n
        invariant
            n == src@.len(),
            dst@.len() == n,
            i <= n,
            forall|j: int| 0 <= j < i ==> dst@[j] == src@[j],
        decreases n - i,
    {
        dst[i] = src[i];
        i = i + 1;
    }
    assert(dst@ =~= src@);
}

/// Basic flat type properties.
pub trait FlatBase: Sized {
    /// Align of the type.
    spec fn spec_align() -> nat;

    /// Minimal size of an instance of the type.
    spec fn spec_min_size() -> nat;

    /// The layout facts that the compiler guarantees for the type (and those it is built of);
    /// executable code learns them by asking for the alignment or the minimal size.
    spec fn spec_layout_ok() -> bool;

    /// The alignment is a power of two, sizes fit the address space and the minimal size
    /// is a multiple of the alignment.
    proof fn lemma_layout()
        requires
            Self::spec_layout_ok(),
        ensures
            is_pow2(Self::spec_align() as int),
            0 < Self::spec_align() <= isize::MAX + 1,
            Self::spec_min_size() <= isize::MAX,
            Self::spec_min_size() % Self::spec_align() == 0,
            Self::spec_align() <= Self::spec_min_size(),
    ;

    /// Align of the type.
    fn align() -> (r: usize)
        ensures
            r == Self::spec_align(),
            Self::spec_layout_ok(),
    ;

    /// Minimal size of an instance of the type.
    fn min_size() -> (r: usize)
        ensures
            r == Self::spec_min_size(),
            Self::spec_layout_ok(),
    ;
}

/// Flat type runtime checking.
pub trait FlatValidate: FlatBase {
    /// Whether `bytes` (at least the minimal size long) hold a valid instance, and if not,
    /// where the first problem is.
    spec fn spec_validate(bytes: Seq<u8>) -> Result<(), Error>;

    /// Size of the valid instance that `bytes` hold.
    spec fn spec_size(bytes: Seq<u8>) -> nat;

    /// A valid instance takes at least the minimal size and no more than its memory.
    proof fn lemma_valid_size(bytes: Seq<u8>)
        requires
            Self::spec_layout_ok(),
            Self::spec_min_size() <= bytes.len() <= isize::MAX,
            Self::spec_validate(bytes) is Ok,
        ensures
            Self::spec_min_size() <= Self::spec_size(bytes) <= bytes.len(),
    ;

    /// A valid instance stays valid, and keeps its size, in an aligned prefix of its memory
    /// that still holds it.
    proof fn lemma_valid_prefix(bytes: Seq<u8>, k: nat)
        requires
            Self::spec_layout_ok(),
            Self::spec_min_size() <= bytes.len() <= isize::MAX,
            Self::spec_validate(bytes) is Ok,
            Self::spec_size(bytes) <= k <= bytes.len(),
            k % Self::spec_align() == 0,
        ensures
            Self::spec_validate(bytes.take(k as int)) is Ok,
            Self::spec_size(bytes.take(k as int)) == Self::spec_size(bytes),
    ;

    /// Errors point no further than the length of the memory past its end.
    proof fn lemma_error_pos(bytes: Seq<u8>)
        requires
            Self::spec_layout_ok(),
            Self::spec_min_size() <= bytes.len() <= isize::MAX,
        ensures
            Self::spec_validate(bytes) matches Err(e) ==> e.pos <= 2 * bytes.len(),
    ;

    /// Check that memory contents are valid, the memory being large enough.
    fn validate_unchecked(bytes: &[u8]) -> (r: Result<(), Error>)
        requires
            Self::spec_layout_ok(),
            Self::spec_min_size() <= bytes@.len() <= isize::MAX,
        ensures
            r == Self::spec_validate(bytes@),
    ;

    /// Check that `bytes` are aligned, large enough and hold a valid instance.
    fn validate(bytes: &[u8]) -> (r: Result<(), Error>)
        requires
            bytes@.len() <= isize::MAX,
        ensures
            Self::spec_layout_ok(),
            r is Ok ==> bytes@.len() >= Self::spec_min_size() && Self::spec_validate(bytes@) is Ok,
            bytes@.len() < Self::spec_min_size() ==> r is Err,
            bytes@.len() >= Self::spec_min_size() && Self::spec_validate(bytes@) is Err ==> r is Err,
            r matches Err(e) ==> (e.pos == 0 && e.kind == ErrorKind::BadAlign) || (bytes@.len()
                < Self::spec_min_size() && e == Error { kind: ErrorKind::InsufficientSize, pos: 0 })
                || (bytes@.len() >= Self::spec_min_size() && Self::spec_validate(bytes@) == Err::<
                (), Error>(e)),
            Self::spec_align() == 1 ==> r == spec_checked(
                bytes@.len(),
                Self::spec_min_size(),
                Self::spec_validate(bytes@),
            ),
    {
        let _ = Self::align();
        check_align_and_min_size::<Self>(bytes)?;
        Self::validate_unchecked(bytes)
    }
}

/// Flat type whose instances can be made from (and give back) the memory they occupy.
pub trait FlatUnsized: FlatValidate + Sized {
    /// The invariant that every instance keeps.
    spec fn wf(&self) -> bool;

    /// Bytes of the memory the instance occupies.
    spec fn spec_mem(&self) -> Seq<u8>;

    /// How many of `len` bytes given to hold an instance the instance occupies.
    spec fn spec_mem_len(len: nat) -> nat;

    /// An instance is valid in its memory; instances occupy a prefix of what they were given,
    /// and validity of given bytes only depends on that prefix.
    proof fn lemma_wf(&self)
        requires
            self.wf(),
        ensures
            Self::spec_layout_ok(),
            Self::spec_min_size() <= self.spec_mem().len() <= isize::MAX,
            Self::spec_validate(self.spec_mem()) is Ok,
    ;

    /// Instances occupy a prefix of what they were given, and validity of the given bytes
    /// only depends on that prefix.
    proof fn lemma_mem_len(bytes: Seq<u8>)
        requires
            Self::spec_layout_ok(),
            Self::spec_min_size() <= bytes.len() <= isize::MAX,
        ensures
            Self::spec_min_size() <= Self::spec_mem_len(bytes.len()) <= bytes.len(),
            Self::spec_validate(bytes) == Self::spec_validate(
                bytes.take(Self::spec_mem_len(bytes.len()) as int),
            ),
            Self::spec_size(bytes) == Self::spec_size(
                bytes.take(Self::spec_mem_len(bytes.len()) as int),
            ),
    ;

    /// Interpret memory holding a valid instance as that instance.
    fn from_bytes_unchecked(bytes: &[u8]) -> (r: Self)
        requires
            Self::spec_layout_ok(),
            Self::spec_min_size() <= bytes@.len() <= isize::MAX,
            Self::spec_validate(bytes@) is Ok,
        ensures
            r.wf(),
            r.spec_mem() == bytes@.take(Self::spec_mem_len(bytes@.len()) as int),
    ;

    /// Binary representation of `self`.
    fn as_bytes(&self) -> (r: Vec<u8>)
        requires
            self.wf(),
        ensures
            r@ == self.spec_mem(),
    ;

    /// Size of an instance of the type.
    fn size(&self) -> (r: usize)
        requires
            self.wf(),
        ensures
            r == Self::spec_size(self.spec_mem()),
    {
        proof {
            self.lemma_wf();
            Self::lemma_valid_size(self.spec_mem());
        }
        let bytes = self.as_bytes();
        Self::size_of_bytes(bytes.as_slice())
    }

    /// Size of the valid instance that `bytes` hold.
    fn size_of_bytes(bytes: &[u8]) -> (r: usize)
        requires
            Self::spec_layout_ok(),
            Self::spec_min_size() <= bytes@.len() <= isize::MAX,
            Self::spec_validate(bytes@) is Ok,
        ensures
            r == Self::spec_size(bytes@),
    ;

    /// Interpret previously initialized memory as an instance of `Self`.
    ///
    /// Error returned if the memory isn't properly aligned, is too short to hold the
    /// smallest instance, or doesn't hold a valid instance.
    fn from_bytes(bytes: &[u8]) -> (r: Result<Self, Error>)
        requires
            bytes@.len() <= isize::MAX,
        ensures
            r matches Ok(v) ==> v.wf() && bytes@.len() >= Self::spec_min_size()
                && Self::spec_validate(bytes@) is Ok && v.spec_mem() == bytes@.take(
                Self::spec_mem_len(bytes@.len()) as int,
            ),
            bytes@.len() < Self::spec_min_size() ==> r is Err,
            bytes@.len() >= Self::spec_min_size() && Self::spec_validate(bytes@) is Err ==> r is Err,
            r matches Err(e) ==> (e.pos == 0 && e.kind == ErrorKind::BadAlign) || (bytes@.len()
                < Self::spec_min_size() && e == Error { kind: ErrorKind::InsufficientSize, pos: 0 })
                || (bytes@.len() >= Self::spec_min_size() && Self::spec_validate(bytes@) == Err::<
                (),
                Error,
            >(e)),
            Self::spec_align() == 1 ==> spec_same_verdict(
                r,
                spec_checked(bytes@.len(), Self::spec_min_size(), Self::spec_validate(bytes@)),
            ),
    {
        Self::validate(bytes)?;
        Ok(Self::from_bytes_unchecked(bytes))
    }
}

/// Flat type.
///
/// Implementing it states that the type has a stable binary representation, owns no
/// resources outside of its memory and can be copied as bytes.
pub trait Flat: FlatBase + FlatValidate + FlatUnsized {

}

/// Statically-sized flat type.
pub trait FlatSized: FlatUnsized + Copy {
    /// Static size of the type.
    spec fn spec_size_of() -> nat;

    /// Binary representation of a value.
    spec fn spec_to_bytes(self) -> Seq<u8>;

    /// The value that the first [`Self::spec_size_of`] bytes represent.
    spec fn spec_from_bytes(bytes: Seq<u8>) -> Self;

    /// The layout of a sized type: its size is its minimal size, a positive multiple of its
    /// alignment; validity, size and value of given bytes depend on the first `SIZE` of them.
    proof fn lemma_sized_layout(bytes: Seq<u8>)
        requires
            Self::spec_layout_ok(),
        ensures
            Self::spec_size_of() == Self::spec_min_size(),
            Self::spec_size_of() > 0,
            Self::spec_size_of() % Self::spec_align() == 0,
            bytes.len() >= Self::spec_size_of() ==> {
                &&& Self::spec_validate(bytes) == Self::spec_validate(
                    bytes.take(Self::spec_size_of() as int),
                )
                &&& Self::spec_from_bytes(bytes) == Self::spec_from_bytes(
                    bytes.take(Self::spec_size_of() as int),
                )
                &&& Self::spec_size(bytes) == Self::spec_size_of()
                &&& Self::spec_mem_len(bytes.len()) == Self::spec_size_of()
            },
            bytes.len() == Self::spec_size_of() && Self::spec_validate(bytes) is Ok
                ==> Self::spec_from_bytes(bytes).spec_to_bytes() == bytes,
    ;

    /// Every value is well-formed; it is represented by `SIZE` bytes that are valid and
    /// read back as the value.
    proof fn lemma_sized_value(v: Self)
        requires
            Self::spec_layout_ok(),
        ensures
            v.wf(),
            v.spec_to_bytes().len() == Self::spec_size_of(),
            v.spec_mem() == v.spec_to_bytes(),
            Self::spec_validate(v.spec_to_bytes()) is Ok,
            Self::spec_from_bytes(v.spec_to_bytes()) == v,
    ;

    /// Static size of the type.
    fn size_of() -> (r: usize)
        ensures
            r == Self::spec_size_of(),
            Self::spec_layout_ok(),
    ;

    /// Binary representation of `self`.
    fn to_bytes(&self) -> (r: Vec<u8>)
        ensures
            r@ == self.spec_to_bytes(),
    ;

    /// Read the value represented by `bytes[at..at + SIZE]`.
    fn read_at(bytes: &[u8], at: usize) -> (r: Self)
        requires
            Self::spec_layout_ok(),
            at + Self::spec_size_of() <= bytes@.len(),
        ensures
            r == Self::spec_from_bytes(bytes@.subrange(at as int, at + Self::spec_size_of())),
    ;
}

/// Flat types that can be initialized to default state.
pub trait FlatDefault: FlatUnsized {
    /// Emplacer that initializes memory into the default state.
    type DefaultEmplacer: Emplacer<Self>;

    /// The emplacer that [`Self::default_emplacer`] returns.
    spec fn spec_default_emplacer() -> Self::DefaultEmplacer;

    /// Emplacer that initializes memory into the default state.
    fn default_emplacer() -> (r: Self::DefaultEmplacer)
        ensures
            r == Self::spec_default_emplacer(),
    ;

    /// Initialize `bytes` into the default state and take the instance of `Self` they hold.
    ///
    /// Error returned if the memory isn't properly aligned or is too short to hold the
    /// smallest instance, or if initializing fails.
    fn default_in_place(bytes: &mut [u8]) -> (r: Result<Self, Error>)
        requires
            old(bytes)@.len() <= isize::MAX,
        ensures
            spec_placed(Self::spec_default_emplacer(), old(bytes)@, final(bytes)@, r),
    {
        new_in_place(bytes, Self::default_emplacer())
    }
}

/// In-place initializer of flat type.
pub trait Emplacer<T: FlatUnsized>: Sized {
    /// The bytes that initializing `region` turns it into, or the error that stops it.
    spec fn spec_emplace(self, region: Seq<u8>) -> Result<Seq<u8>, Error>;

    /// The bytes that a failed initialization leaves in `region`: what it wrote before it
    /// found that it could not go on.
    spec fn spec_emplace_failed(self, region: Seq<u8>) -> Seq<u8>;

    /// A successful initialization keeps the length of the region and leaves a valid `T`;
    /// a failed one keeps the length too.
    proof fn lemma_emplace(self, region: Seq<u8>)
        requires
            T::spec_layout_ok(),
            T::spec_min_size() <= region.len() <= isize::MAX,
        ensures
            self.spec_emplace(region) matches Ok(new) ==> new.len() == region.len()
                && T::spec_validate(new) is Ok,
            self.spec_emplace(region) is Err ==> self.spec_emplace_failed(region).len() == region.len(),
    ;

    /// Initialize `mem[start..end]`, which is large enough for `T`.
    fn emplace_unchecked(self, mem: &mut Vec<u8>, start: usize, end: usize) -> (r: Result<
        (),
        Error,
    >)
        requires
            T::spec_layout_ok(),
            start <= end <= old(mem)@.len() <= isize::MAX,
            end - start >= T::spec_min_size(),
        ensures
            emplaced(
                self.spec_emplace(old(mem)@.subrange(start as int, end as int)),
                self.spec_emplace_failed(old(mem)@.subrange(start as int, end as int)),
                old(mem)@,
                final(mem)@,
                start as int,
                end as int,
                r,
            ),
    ;

    /// Apply initializer to `mem` after checking its alignment and size.
    ///
    /// Whether the start of the memory is aligned depends on where it lies; for a type aligned
    /// to one byte every start is, and the outcome depends on the bytes alone.
    fn emplace(self, mem: &mut Vec<u8>) -> (r: Result<(), Error>)
        requires
            old(mem)@.len() <= isize::MAX,
        ensures
            old(mem)@.len() >= T::spec_min_size() ==> (r is Ok ==> self.spec_emplace(old(mem)@)
                == Ok::<Seq<u8>, Error>(final(mem)@)),
            old(mem)@.len() < T::spec_min_size() ==> r is Err,
            old(mem)@.len() >= T::spec_min_size() && self.spec_emplace(old(mem)@) is Err ==> r is Err,
            r matches Err(e) ==> (e.pos == 0 && e.kind == ErrorKind::BadAlign && final(mem)@ == old(
                mem,
            )@) || (old(mem)@.len() < T::spec_min_size() && e == Error {
                kind: ErrorKind::InsufficientSize,
                pos: 0,
            } && final(mem)@ == old(mem)@) || (old(mem)@.len() >= T::spec_min_size()
                && self.spec_emplace(old(mem)@) == Err::<Seq<u8>, Error>(e) && final(mem)@
                == self.spec_emplace_failed(old(mem)@)),
            T::spec_align() == 1 ==> if old(mem)@.len() < T::spec_min_size() {
                r == Err::<(), Error>(Error { kind: ErrorKind::InsufficientSize, pos: 0 })
                    && final(mem)@ == old(mem)@
            } else {
                match self.spec_emplace(old(mem)@) {
                    Ok(m) => r is Ok && final(mem)@ == m,
                    Err(e) => r == Err::<(), Error>(e) && final(mem)@ == self.spec_emplace_failed(
                        old(mem)@,
                    ),
                }
            },
    {
        let _ = T::align();
        check_align_and_min_size::<T>(mem.as_slice())?;
        let n = mem.len();
        let ghost old_mem = mem@;
        proof {
            self.lemma_emplace(old_mem);
        }
        let r = self.emplace_unchecked(mem, 0, n);
        proof {
            assert(old_mem.subrange(0, n as int) == old_mem);
            if r is Ok {
                assert(mem@ == old_mem.subrange(0, 0) + self.spec_emplace(old_mem)->Ok_0
                    + old_mem.subrange(n as int, n as int));
                assert(mem@ =~= self.spec_emplace(old_mem)->Ok_0);
            } else {
                assert(mem@ == old_mem.subrange(0, 0) + self.spec_emplace_failed(old_mem)
                    + old_mem.subrange(n as int, n as int));
                assert(mem@ =~= self.spec_emplace_failed(old_mem));
            }
        }
        r
    }
}

/// Emplacer that cannot be instantiated outside this module and used as a placeholder for
/// unused parameters; were one ever applied, it would fail.
pub struct NeverEmplacer {
    _never: (),
}

impl<T: FlatUnsized> Emplacer<T> for NeverEmplacer {
    open spec fn spec_emplace(self, region: Seq<u8>) -> Result<Seq<u8>, Error> {
        Err(Error { kind: ErrorKind::Other, pos: 0 })
    }

    open spec fn spec_emplace_failed(self, region: Seq<u8>) -> Seq<u8> {
        region
    }

    proof fn lemma_emplace(self, region: Seq<u8>) {
    }

    fn emplace_unchecked(self, mem: &mut Vec<u8>, start: usize, end: usize) -> (r: Result<
        (),
        Error,
    >) {
        proof {
            lemma_splice_same(mem@, start as int, end as int);
        }
        Err(Error { kind: ErrorKind::Other, pos: 0 })
    }
}

/// Type that can be safely transferred between different machines: it has the same
/// binary representation on any platform and is aligned to a byte.
pub trait Portable: Flat {
    /// A portable type is aligned to a byte: it can be read from memory at any address.
    proof fn lemma_portable_align()
        requires
            Self::spec_layout_ok(),
        ensures
            Self::spec_align() == 1,
    ;
}

/// Primitive type that can represent a length of some flat sequence.
pub trait FlatLen: FlatSized + Flat + Copy {
    /// The number that a value stands for.
    spec fn spec_value(self) -> nat;

    /// The largest number a value can stand for.
    spec fn spec_max() -> nat;

    /// The value that stands for `n` (when `n` is at most the maximum).
    spec fn spec_from_value(n: nat) -> Self;

    /// Lengths are numbers from zero to the maximum, each with its own value, whose size is
    /// a power of two.
    proof fn lemma_len(v: Self)
        requires
            Self::spec_layout_ok(),
        ensures
            v.spec_value() <= Self::spec_max() <= usize::MAX,
            is_pow2(Self::spec_size_of() as int),
            forall|n: nat| n <= Self::spec_max() ==> (#[trigger] Self::spec_from_value(n)).spec_value() == n,
    ;

    /// The largest number a value can stand for.
    fn max_usize() -> (r: usize)
        ensures
            r == Self::spec_max(),
    ;

    /// The value that stands for `n`, if there is one.
    fn from_usize(n: usize) -> (r: Option<Self>)
        ensures
            n <= Self::spec_max() ==> r == Some(Self::spec_from_value(n as nat)),
            n > Self::spec_max() ==> r is None,
    ;

    /// The number `self` stands for.
    fn into_usize(self) -> (r: usize)
        ensures
            r == self.spec_value(),
    ;
}

/// Initialize `bytes` with `emplacer` and take the instance of `T` they hold.
///
/// Error returned if the memory isn't properly aligned or is too short to hold the
/// smallest instance, or if the emplacer fails.
pub fn new_in_place<T: FlatUnsized, E: Emplacer<T>>(bytes: &mut [u8], emplacer: E) -> (r: Result<
    T,
    Error,
>)
    requires
        old(bytes)@.len() <= isize::MAX,
    ensures
        spec_placed(emplacer, old(bytes)@, final(bytes)@, r),
{
    let _ = T::align();
    check_align_and_min_size::<T>(bytes)?;
    let mut mem = slice_to_vec(bytes);
    let n = mem.len();
    let ghost e = emplacer;
    let ghost old_bytes = mem@;
    proof {
        assert(mem@.subrange(0, n as int) == old_bytes);
        e.lemma_emplace(old_bytes);
    }
    let r = emplacer.emplace_unchecked(&mut mem, 0, n);
    proof {
        if r is Ok {
            assert(mem@ =~= e.spec_emplace(old_bytes)->Ok_0);
        } else {
            assert(mem@ =~= e.spec_emplace_failed(old_bytes));
        }
    }
    copy_into(bytes, mem.as_slice());
    match r {
        Err(x) => Err(x),
        Ok(()) => Ok(T::from_bytes_unchecked(mem.as_slice())),
    }
}

/// Initialize the memory of `this` anew with `emplacer`; on failure `this` is left as it was.
pub fn assign_in_place<T: FlatUnsized, E: Emplacer<T>>(this: &mut T, emplacer: E) -> (r: Result<(), Error>)
    requires
        old(this).wf(),
    ensures
        match emplacer.spec_emplace(old(this).spec_mem()) {
            Err(e) => r == Err::<(), Error>(e) && *final(this) == *old(this),
            Ok(m) => r is Ok && final(this).wf() && final(this).spec_mem() == m.take(
                T::spec_mem_len(m.len()) as int,
            ),
        },
{
    proof {
        this.lemma_wf();
    }
    let mut mem = this.as_bytes();
    let n = mem.len();
    let ghost old_mem = mem@;
    let ghost e = emplacer;
    proof {
        assert(old_mem.subrange(0, n as int) =~= old_mem);
        e.lemma_emplace(old_mem);
    }
    match emplacer.emplace_unchecked(&mut mem, 0, n) {
        Err(x) => Err(x),
        Ok(()) => {
            proof {
                assert(mem@ =~= e.spec_emplace(old_mem)->Ok_0);
            }
            *this = T::from_bytes_unchecked(mem.as_slice());
            Ok(())
        },
    }
}

/// Writes `src` into `mem` at `at`.
pub fn write_bytes(mem: &mut Vec<u8>, at: usize, src: &[u8])
    requires
        at + src@.len() <= old(mem)@.len(),
    ensures
        final(mem)@ == splice(old(mem)@, at as int, at + src@.len(), src@),
{
    let ghost old_mem = mem@;
    assert(old_mem.len() == mem.len());
    let n = src.len();
    let mut i: usize = 0;
    while i < n
        invariant
            i <= n == src@.len(),
            at + n <= old_mem.len() <= usize::MAX,
            mem@.len() == old_mem.len(),
            forall|j: int| 0 <= j < at ==> mem@[j] == old_mem[j],
            forall|j: int| at <= j < at + i ==> mem@[j] == src@[j - at],
            forall|j: int| at + i <= j < old_mem.len() ==> mem@[j] == old_mem[j],
        decreases n - i,
    {
        mem.set(at + i, src[i]);
        i = i + 1;
    }
    assert(mem@ =~= splice(old_mem, at as int, at + n, src@));
}

} // verus!
