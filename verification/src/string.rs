use crate::error::{Error, ErrorKind};
use crate::traits::{
    lemma_splice, splice, write_bytes, Emplacer, Flat, FlatBase, FlatDefault, FlatLen, FlatSized,
    FlatUnsized, FlatValidate,
};
use crate::utils::{floor_mul, lemma_divisor_le, lemma_floor_mul, lemma_mod_trans, min, spec_floor_mul};
use crate::vec::spec_min;
use core::marker::PhantomData;
use vstd::prelude::*;
use vstd::slice::slice_subrange;
use vstd::string::*;
use vstd::utf8::{valid_utf8, valid_utf8_concat, encode_utf8_valid_utf8};

verus! {

/// Length of the longest prefix of the first `n` bytes of `b` that is valid UTF-8.
pub open spec fn spec_valid_prefix(b: Seq<u8>, n: nat) -> nat
    decreases n,
{
    if n == 0 || valid_utf8(b.take(n as int)) {
        n
    } else {
        spec_valid_prefix(b, (n - 1) as nat)
    }
}

/// Index up to which `b` is valid UTF-8: the length of its longest valid prefix.
pub open spec fn spec_valid_up_to(b: Seq<u8>) -> nat {
    spec_valid_prefix(b, b.len())
}

/// Calls `core::str::from_utf8` on `bytes`. Its documentation says that it succeeds exactly
/// when `bytes` are valid UTF-8, giving them as a string, and that otherwise the error's
/// `valid_up_to` is the largest index such that the bytes before it are valid UTF-8; on failure
/// the wrapper returns that index. That its notion of validity agrees with vstd's `valid_utf8`
/// is taken on trust.
#[verifier::external_body]
fn from_utf8(bytes: &[u8]) -> (r: Result<&str, usize>)
    ensures
        r is Ok <==> valid_utf8(bytes@),
        r matches Ok(s) ==> s.spec_bytes() == bytes@,
        r matches Err(k) ==> k == spec_valid_up_to(bytes@),
{
    match core::str::from_utf8(bytes) {
        Ok(s) => Ok(s),
        Err(e) => Err(e.valid_up_to()),
    }
}

/// The longest valid prefix is no longer than the bytes.
proof fn lemma_valid_prefix_bound(b: Seq<u8>, n: nat)
    ensures
        spec_valid_prefix(b, n) <= n,
    decreases n,
{
    if n > 0 {
        lemma_valid_prefix_bound(b, (n - 1) as nat);
    }
}

/// Growable flat string: a length of type `L` followed by UTF-8 bytes.
///
/// It holds its contents in its own memory; the capacity is what that memory has room for.
pub struct FlatString<L: FlatLen = u32> {
    mem: Vec<u8>,
    _phantom: PhantomData<L>,
}

impl<L: FlatLen> FlatString<L> {
    /// Offset of the string bytes: right after the length.
    pub open spec fn spec_data_offset() -> nat {
        L::spec_size_of()
    }

    /// Number of bytes that memory of `len` bytes has room for (the length type limits it too).
    pub open spec fn spec_capacity_of(len: nat) -> nat {
        spec_min(
            spec_floor_mul(len - Self::spec_data_offset(), L::spec_align() as int) as nat,
            L::spec_max(),
        )
    }

    /// The length that `bytes` record.
    pub open spec fn spec_len_of(bytes: Seq<u8>) -> nat {
        L::spec_from_bytes(bytes).spec_value()
    }

    /// The string bytes that `bytes` hold.
    pub open spec fn spec_data(bytes: Seq<u8>) -> Seq<u8> {
        bytes.subrange(
            Self::spec_data_offset() as int,
            (Self::spec_data_offset() + Self::spec_len_of(bytes)) as int,
        )
    }

    /// `bytes` with the length set to `n`.
    pub open spec fn spec_write_len(bytes: Seq<u8>, n: nat) -> Seq<u8> {
        splice(bytes, 0, L::spec_size_of() as int, L::spec_from_value(n).spec_to_bytes())
    }

    /// `bytes` after `s` is appended to the string they hold.
    pub open spec fn spec_push_bytes(bytes: Seq<u8>, s: Seq<u8>) -> Seq<u8> {
        let n = Self::spec_len_of(bytes);
        let at = (Self::spec_data_offset() + n) as int;
        Self::spec_write_len(splice(bytes, at, at + s.len(), s), n + s.len())
    }

    /// Memory of the string.
    pub closed spec fn spec_bytes(&self) -> Seq<u8> {
        self.mem@
    }

    /// The bytes of the string.
    pub open spec fn view(&self) -> Seq<u8> {
        Self::spec_data(self.spec_bytes())
    }

    /// Maximum length of the string.
    pub open spec fn spec_capacity(&self) -> nat {
        Self::spec_capacity_of(self.spec_bytes().len())
    }

    /// Layout facts the string's arithmetic rests on.
    proof fn lemma_string_layout()
        requires
            L::spec_layout_ok(),
        ensures
            0 < L::spec_align() <= L::spec_size_of() <= isize::MAX,
            L::spec_size_of() % L::spec_align() == 0,
            L::spec_size_of() == L::spec_min_size(),
            L::spec_max() <= usize::MAX,
    {
        L::lemma_layout();
        L::lemma_sized_layout(Seq::empty());
        L::lemma_len(L::spec_from_bytes(Seq::empty()));
    }

    /// The length field reads the same from memory and from its first bytes; a valid
    /// string's bytes lie inside its memory.
    proof fn lemma_len_field(bytes: Seq<u8>)
        requires
            L::spec_layout_ok(),
            L::spec_size_of() <= bytes.len() <= isize::MAX,
        ensures
            Self::spec_len_of(bytes) == Self::spec_len_of(bytes.take(L::spec_size_of() as int)),
            Self::spec_len_of(bytes) <= L::spec_max(),
            Self::spec_capacity_of(bytes.len()) <= bytes.len() - L::spec_size_of(),
            L::spec_validate(bytes) == L::spec_validate(bytes.take(L::spec_size_of() as int)),
    {
        Self::lemma_string_layout();
        L::lemma_sized_layout(bytes);
        L::lemma_len(L::spec_from_bytes(bytes));
        lemma_floor_mul(bytes.len() - L::spec_size_of(), L::spec_align() as int);
    }
}

impl<L: FlatLen> FlatBase for FlatString<L> {
    open spec fn spec_align() -> nat {
        L::spec_align()
    }

    open spec fn spec_min_size() -> nat {
        L::spec_size_of()
    }

    open spec fn spec_layout_ok() -> bool {
        L::spec_layout_ok()
    }

    proof fn lemma_layout() {
        Self::lemma_string_layout();
        L::lemma_layout();
    }

    fn align() -> (r: usize) {
        L::align()
    }

    fn min_size() -> (r: usize) {
        L::size_of()
    }
}

impl<L: FlatLen> FlatValidate for FlatString<L> {
    open spec fn spec_validate(bytes: Seq<u8>) -> Result<(), Error> {
        match L::spec_validate(bytes) {
            Err(e) => Err(e),
            Ok(()) => if Self::spec_len_of(bytes) > Self::spec_capacity_of(bytes.len()) {
                Err(Error { kind: ErrorKind::InsufficientSize, pos: Self::spec_data_offset() as usize })
            } else if valid_utf8(Self::spec_data(bytes)) {
                Ok(())
            } else {
                Err(
                    Error {
                        kind: ErrorKind::InvalidData,
                        pos: (Self::spec_data_offset() + spec_valid_up_to(Self::spec_data(bytes))) as usize,
                    },
                )
            },
        }
    }

    open spec fn spec_size(bytes: Seq<u8>) -> nat {
        Self::spec_data_offset() + Self::spec_len_of(bytes)
    }

    proof fn lemma_valid_size(bytes: Seq<u8>) {
        Self::lemma_len_field(bytes);
    }

    proof fn lemma_valid_prefix(bytes: Seq<u8>, k: nat) {
        assert(Self::spec_min_size() == L::spec_size_of());
        assert(Self::spec_align() == L::spec_align());
        Self::lemma_string_layout();
        Self::lemma_len_field(bytes);
        let p = bytes.take(k as int);
        let d = L::spec_size_of() as int;
        let a = L::spec_align() as int;
        Self::lemma_len_field(p);
        assert(p.take(d) =~= bytes.take(d));
        assert((k - d) % a == 0) by {
            vstd::arithmetic::div_mod::lemma_fundamental_div_mod(k as int, a);
            vstd::arithmetic::div_mod::lemma_fundamental_div_mod(d, a);
            vstd::arithmetic::mul::lemma_mul_is_distributive_sub(a, k as int / a, d / a);
            vstd::arithmetic::mul::lemma_mul_is_commutative(a, k as int / a - d / a);
            vstd::arithmetic::div_mod::lemma_mod_multiples_basic(k as int / a - d / a, a);
        }
        lemma_floor_mul(k - d, a);
        lemma_floor_mul(bytes.len() - d, a);
        assert(Self::spec_data(p) =~= Self::spec_data(bytes));
    }

    proof fn lemma_error_pos(bytes: Seq<u8>) {
        Self::lemma_len_field(bytes);
        L::lemma_sized_layout(bytes);
        L::lemma_error_pos(bytes.take(L::spec_size_of() as int));
        lemma_valid_prefix_bound(Self::spec_data(bytes), Self::spec_data(bytes).len());
    }

    fn validate_unchecked(bytes: &[u8]) -> (r: Result<(), Error>) {
        proof {
            assert(Self::spec_min_size() == L::spec_size_of());
            assert(Self::spec_layout_ok() == L::spec_layout_ok());
            Self::lemma_string_layout();
            Self::lemma_len_field(bytes@);
        }
        let lr = L::validate_unchecked(bytes);
        if lr.is_err() {
            return lr;
        }
        let n = L::read_at(bytes, 0).into_usize();
        proof {
            assert(bytes@.subrange(0, L::spec_size_of() as int) =~= bytes@.take(
                L::spec_size_of() as int,
            ));
        }
        let cap = Self::capacity_of(bytes.len());
        let d = L::size_of();
        if n > cap {
            return Err(Error { kind: ErrorKind::InsufficientSize, pos: d });
        }
        let data = slice_subrange(bytes, d, d + n);
        match from_utf8(data) {
            Ok(_) => Ok(()),
            Err(k) => {
                proof {
                    lemma_valid_prefix_bound(data@, data@.len());
                }
                Err(Error { kind: ErrorKind::InvalidData, pos: d + k })
            },
        }
    }
}

impl<L: FlatLen> FlatUnsized for FlatString<L> {
    open spec fn wf(&self) -> bool {
        &&& Self::spec_layout_ok()
        &&& Self::spec_min_size() <= self.spec_bytes().len() <= isize::MAX
        &&& Self::spec_validate(self.spec_bytes()) is Ok
    }

    open spec fn spec_mem(&self) -> Seq<u8> {
        self.spec_bytes()
    }

    open spec fn spec_mem_len(len: nat) -> nat {
        (Self::spec_data_offset() + spec_floor_mul(
            len - Self::spec_data_offset(),
            L::spec_align() as int,
        )) as nat
    }

    proof fn lemma_wf(&self) {
    }

    proof fn lemma_mem_len(bytes: Seq<u8>) {
        assert(Self::spec_min_size() == L::spec_size_of());
        Self::lemma_string_layout();
        Self::lemma_len_field(bytes);
        let d = L::spec_size_of() as int;
        let a = L::spec_align() as int;
        let ml = Self::spec_mem_len(bytes.len()) as int;
        let p = bytes.take(ml);
        lemma_floor_mul(bytes.len() - d, a);
        lemma_floor_mul(ml - d, a);
        crate::utils::lemma_rounding_laws(bytes.len() - d, a);
        Self::lemma_len_field(p);
        assert(p.take(d) =~= bytes.take(d));
        if Self::spec_len_of(bytes) <= Self::spec_capacity_of(bytes.len()) {
            assert(Self::spec_data(p) =~= Self::spec_data(bytes));
        }
    }

    fn from_bytes_unchecked(bytes: &[u8]) -> (r: Self) {
        proof {
            assert(Self::spec_min_size() == L::spec_size_of());
            assert(Self::spec_layout_ok() == L::spec_layout_ok());
            Self::lemma_mem_len(bytes@);
            Self::lemma_string_layout();
            lemma_floor_mul(bytes@.len() - L::spec_size_of(), L::spec_align() as int);
        }
        let d = L::size_of();
        let n = d + floor_mul(bytes.len() - d, L::align());
        let mem = vstd::slice::slice_to_vec(slice_subrange(bytes, 0, n));
        proof {
            assert(mem@ =~= bytes@.take(n as int));
        }
        FlatString { mem, _phantom: PhantomData }
    }

    fn as_bytes(&self) -> (r: Vec<u8>) {
        self.mem.clone()
    }

    fn size_of_bytes(bytes: &[u8]) -> (r: usize) {
        proof {
            Self::lemma_len_field(bytes@);
            assert(bytes@.subrange(0, L::spec_size_of() as int) =~= bytes@.take(
                L::spec_size_of() as int,
            ));
        }
        L::size_of() + L::read_at(bytes, 0).into_usize()
    }
}

impl<L: FlatLen> Flat for FlatString<L> {

}

impl<L: FlatLen> FlatString<L> {
    /// Number of bytes that memory of `len` bytes has room for.
    pub fn capacity_of(len: usize) -> (r: usize)
        requires
            L::spec_layout_ok(),
            len >= L::spec_size_of(),
        ensures
            r == Self::spec_capacity_of(len as nat),
    {
        proof {
            Self::lemma_string_layout();
        }
        let d = L::size_of();
        min(floor_mul(len - d, L::align()), L::max_usize())
    }

    /// Maximum length of the string.
    pub fn capacity(&self) -> (r: usize)
        requires
            self.wf(),
        ensures
            r == self.spec_capacity(),
    {
        Self::capacity_of(self.mem.len())
    }

    /// Length of the string in bytes.
    pub fn len(&self) -> (r: usize)
        requires
            self.wf(),
        ensures
            r == self@.len(),
            r <= self.spec_capacity(),
    {
        proof {
            Self::lemma_len_field(self.mem@);
            assert(self.mem@.subrange(0, L::spec_size_of() as int) =~= self.mem@.take(
                L::spec_size_of() as int,
            ));
        }
        L::read_at(self.mem.as_slice(), 0).into_usize()
    }

    /// Number of bytes that can still be appended.
    pub fn remaining(&self) -> (r: usize)
        requires
            self.wf(),
        ensures
            r == self.spec_capacity() - self@.len(),
    {
        self.capacity() - self.len()
    }

    /// Whether the string is empty.
    pub fn is_empty(&self) -> (r: bool)
        requires
            self.wf(),
        ensures
            r == (self@.len() == 0),
    {
        self.len() == 0
    }

    /// The string.
    pub fn as_str(&self) -> (r: &str)
        requires
            self.wf(),
        ensures
            r.spec_bytes() == self@,
    {
        let n = self.len();
        let d = L::size_of();
        proof {
            Self::lemma_len_field(self.mem@);
        }
        let data = slice_subrange(self.mem.as_slice(), d, d + n);
        match from_utf8(data) {
            Ok(s) => s,
            Err(_) => {
                proof {
                    assert(false);
                }
                ""
            },
        }
    }

    /// Writes the length `n` into the memory.
    fn set_len(&mut self, n: usize)
        requires
            L::spec_layout_ok(),
            L::spec_size_of() <= old(self).mem@.len() <= isize::MAX,
            n <= L::spec_max(),
        ensures
            final(self).mem@ == Self::spec_write_len(old(self).mem@, n as nat),
            Self::spec_len_of(final(self).mem@) == n,
    {
        proof {
            Self::lemma_string_layout();
            L::lemma_len(L::spec_from_value(n as nat));
            L::lemma_sized_value(L::spec_from_value(n as nat));
        }
        let l = L::from_usize(n).unwrap();
        let b = l.to_bytes();
        write_bytes(&mut self.mem, 0, b.as_slice());
        proof {
            L::lemma_sized_layout(self.mem@);
            assert(self.mem@.take(L::spec_size_of() as int) =~= b@);
        }
    }

    /// Appending `s` to a valid string that has room for it keeps it valid.
    proof fn lemma_push(bytes: Seq<u8>, s: Seq<u8>)
        requires
            L::spec_layout_ok(),
            L::spec_size_of() <= bytes.len() <= isize::MAX,
            Self::spec_validate(bytes) is Ok,
            valid_utf8(s),
            Self::spec_len_of(bytes) + s.len() <= Self::spec_capacity_of(bytes.len()),
        ensures
            Self::spec_push_bytes(bytes, s).len() == bytes.len(),
            Self::spec_validate(Self::spec_push_bytes(bytes, s)) is Ok,
            Self::spec_data(Self::spec_push_bytes(bytes, s)) == Self::spec_data(bytes) + s,
    {
        Self::lemma_len_field(bytes);
        let n = Self::spec_len_of(bytes);
        let d = L::spec_size_of() as int;
        let at = d + n;
        let m1 = splice(bytes, at, at + s.len(), s);
        lemma_splice(bytes, at, at + s.len(), s);
        let v = L::spec_from_value(n + s.len());
        L::lemma_len(v);
        L::lemma_sized_value(v);
        let m2 = Self::spec_write_len(m1, n + s.len());
        lemma_splice(m1, 0, d, v.spec_to_bytes());
        L::lemma_sized_layout(m2);
        L::lemma_sized_layout(v.spec_to_bytes());
        assert(m2.take(d) =~= v.spec_to_bytes());
        assert(Self::spec_data(m2) =~= Self::spec_data(bytes) + s);
        valid_utf8_concat(Self::spec_data(bytes), s);
    }

    /// Append `s`, if there is room for it.
    ///
    /// Error returned, and nothing changed, if the string has no room for all of `s`.
    pub fn push_str(&mut self, s: &str) -> (r: Result<(), Error>)
        requires
            old(self).wf(),
        ensures
            final(self).wf(),
            old(self)@.len() + s.spec_bytes().len() <= old(self).spec_capacity() ==> r is Ok
                && final(self)@ == old(self)@ + s.spec_bytes(),
            old(self)@.len() + s.spec_bytes().len() > old(self).spec_capacity() ==> r == Err::<
                (),
                Error,
            >(Error { kind: ErrorKind::InsufficientSize, pos: 0 }) && final(self)@ == old(self)@,
    {
        let b = s.as_bytes();
        let n = self.len();
        let cap = self.capacity();
        if b.len() > cap - n {
            return Err(Error { kind: ErrorKind::InsufficientSize, pos: 0 });
        }
        proof {
            Self::lemma_len_field(self.mem@);
            encode_utf8_valid_utf8(s@);
            Self::lemma_push(self.mem@, b@);
        }
        let d = L::size_of();
        write_bytes(&mut self.mem, d + n, b);
        self.set_len(n + b.len());
        Ok(())
    }

    /// Remove the contents.
    pub fn clear(&mut self)
        requires
            old(self).wf(),
        ensures
            final(self).wf(),
            final(self)@.len() == 0,
            final(self).spec_capacity() == old(self).spec_capacity(),
    {
        proof {
            Self::lemma_len_field(self.mem@);
            Self::lemma_string_layout();
            Self::lemma_empty(self.mem@);
        }
        self.set_len(0);
    }

    /// Whether both strings hold the same contents.
    pub fn eq(&self, other: &Self) -> (r: bool)
        requires
            self.wf(),
            other.wf(),
        ensures
            r == (self@ == other@),
    {
        let a = self.as_str().as_bytes();
        let b = other.as_str().as_bytes();
        crate::vec::bytes_eq(a, b)
    }

    /// The memory of the string.
    pub fn into_bytes(self) -> (r: Vec<u8>)
        ensures
            r@ == self.spec_bytes(),
    {
        self.mem
    }
}

/// Emplacer of an empty string: it sets the length to zero.
pub struct Empty;

impl<L: FlatLen> Emplacer<FlatString<L>> for Empty {
    open spec fn spec_emplace(self, region: Seq<u8>) -> Result<Seq<u8>, Error> {
        Ok(FlatString::<L>::spec_write_len(region, 0))
    }

    open spec fn spec_emplace_failed(self, region: Seq<u8>) -> Seq<u8> {
        region
    }

    proof fn lemma_emplace(self, region: Seq<u8>) {
        FlatString::<L>::lemma_empty(region);
    }

    fn emplace_unchecked(self, mem: &mut Vec<u8>, start: usize, end: usize) -> (r: Result<(), Error>) {
        proof {
            FlatString::<L>::lemma_string_layout();
            L::lemma_len(L::spec_from_value(0));
            L::lemma_sized_value(L::spec_from_value(0));
        }
        let ghost old_mem = mem@;
        let l = L::from_usize(0).unwrap();
        let bytes = l.to_bytes();
        write_bytes(mem, start, bytes.as_slice());
        proof {
            let region = old_mem.subrange(start as int, end as int);
            assert(splice(old_mem, start as int, start + bytes@.len(), bytes@) =~= splice(
                old_mem,
                start as int,
                end as int,
                FlatString::<L>::spec_write_len(region, 0),
            ));
        }
        Ok(())
    }
}

impl<L: FlatLen> FlatDefault for FlatString<L> {
    type DefaultEmplacer = Empty;

    open spec fn spec_default_emplacer() -> Empty {
        Empty
    }

    fn default_emplacer() -> (r: Empty) {
        Empty
    }
}

/// Emplacer of a string holding a copy of the given one.
pub struct FromStr<'a>(pub &'a str);

impl<L: FlatLen> FlatString<L> {
    /// A zero length makes an empty string in any memory that holds the length.
    pub proof fn lemma_empty(region: Seq<u8>)
        requires
            L::spec_layout_ok(),
            L::spec_size_of() <= region.len() <= isize::MAX,
        ensures
            Self::spec_write_len(region, 0).len() == region.len(),
            Self::spec_validate(Self::spec_write_len(region, 0)) is Ok,
            Self::spec_data(Self::spec_write_len(region, 0)).len() == 0,
    {
        Self::lemma_string_layout();
        let v = L::spec_from_value(0);
        L::lemma_len(v);
        L::lemma_sized_value(v);
        let m = Self::spec_write_len(region, 0);
        lemma_splice(region, 0, L::spec_size_of() as int, v.spec_to_bytes());
        L::lemma_sized_layout(m);
        assert(m.take(L::spec_size_of() as int) =~= v.spec_to_bytes());
        Self::lemma_len_field(m);
        assert(Self::spec_data(m) =~= Seq::<u8>::empty());
    }

    /// Reading a string back from the memory that a valid string occupies gives the same
    /// contents.
    pub proof fn law_round_trip(bytes: Seq<u8>)
        requires
            L::spec_layout_ok(),
            L::spec_size_of() <= bytes.len() <= isize::MAX,
            Self::spec_validate(bytes) is Ok,
        ensures
            Self::spec_validate(bytes.take(Self::spec_mem_len(bytes.len()) as int)) is Ok,
            Self::spec_data(bytes.take(Self::spec_mem_len(bytes.len()) as int)) == Self::spec_data(
                bytes,
            ),
    {
        Self::lemma_mem_len(bytes);
        Self::lemma_string_layout();
        let d = L::spec_size_of() as int;
        let ml = Self::spec_mem_len(bytes.len()) as int;
        let p = bytes.take(ml);
        lemma_floor_mul(bytes.len() - d, L::spec_align() as int);
        Self::lemma_len_field(p);
        Self::lemma_len_field(bytes);
        assert(p.take(d) =~= bytes.take(d));
        assert(Self::spec_data(p) =~= Self::spec_data(bytes));
    }

    /// Initializing memory with a copy of a string that fits it gives a valid string with
    /// those contents.
    pub proof fn law_from_str(region: Seq<u8>, s: Seq<u8>)
        requires
            L::spec_layout_ok(),
            L::spec_size_of() <= region.len() <= isize::MAX,
            s.len() <= Self::spec_capacity_of(region.len()),
            valid_utf8(s),
        ensures
            Self::spec_from_str(region, s) is Ok,
            Self::spec_validate(Self::spec_from_str(region, s)->Ok_0) is Ok,
            Self::spec_data(Self::spec_from_str(region, s)->Ok_0) == s,
    {
        Self::lemma_empty(region);
        let z = Self::spec_write_len(region, 0);
        Self::lemma_len_field(z);
        Self::lemma_push(z, s);
        assert(Self::spec_data(z) + s =~= s);
    }

    /// What initializing `region` with a copy of `s` gives.
    pub open spec fn spec_from_str(region: Seq<u8>, s: Seq<u8>) -> Result<Seq<u8>, Error> {
        if s.len() > Self::spec_capacity_of(region.len()) {
            Err(Error { kind: ErrorKind::InsufficientSize, pos: 0 })
        } else {
            Ok(Self::spec_push_bytes(Self::spec_write_len(region, 0), s))
        }
    }
}

/// It sets the length to zero first, so that a string that does not fit leaves an empty one.
impl<'a, L: FlatLen> Emplacer<FlatString<L>> for FromStr<'a> {
    open spec fn spec_emplace(self, region: Seq<u8>) -> Result<Seq<u8>, Error> {
        FlatString::<L>::spec_from_str(region, self.0.spec_bytes())
    }

    open spec fn spec_emplace_failed(self, region: Seq<u8>) -> Seq<u8> {
        FlatString::<L>::spec_write_len(region, 0)
    }

    proof fn lemma_emplace(self, region: Seq<u8>) {
        FlatString::<L>::lemma_empty(region);
        let z = FlatString::<L>::spec_write_len(region, 0);
        FlatString::<L>::lemma_len_field(z);
        encode_utf8_valid_utf8(self.0@);
        if self.0.spec_bytes().len() <= FlatString::<L>::spec_capacity_of(region.len()) {
            FlatString::<L>::lemma_push(z, self.0.spec_bytes());
        }
    }

    fn emplace_unchecked(self, mem: &mut Vec<u8>, start: usize, end: usize) -> (r: Result<(), Error>) {
        let ghost old_mem = mem@;
        let ghost region = old_mem.subrange(start as int, end as int);
        proof {
            FlatString::<L>::lemma_string_layout();
        }
        let b = self.0.as_bytes();
        let cap = FlatString::<L>::capacity_of(end - start);
        if b.len() > cap {
            let _ = <Empty as Emplacer<FlatString<L>>>::emplace_unchecked(Empty, mem, start, end);
            return Err(Error { kind: ErrorKind::InsufficientSize, pos: 0 });
        }
        let mut s = FlatString::<L> {
            mem: vstd::slice::slice_to_vec(slice_subrange(mem.as_slice(), start, end)),
            _phantom: PhantomData,
        };
        proof {
            FlatString::<L>::lemma_empty(region);
            L::lemma_len(L::spec_from_value(0));
            FlatString::<L>::lemma_len_field(region);
            assert(s.mem@ =~= region);
        }
        s.set_len(0);
        let ghost z = s.mem@;
        proof {
            FlatString::<L>::lemma_len_field(z);
            encode_utf8_valid_utf8(self.0@);
            FlatString::<L>::lemma_push(z, b@);
            lemma_splice(z, L::spec_size_of() as int, (L::spec_size_of() + b@.len()) as int, b@);
        }
        let d = L::size_of();
        write_bytes(&mut s.mem, d, b);
        s.set_len(b.len());
        write_bytes(mem, start, s.mem.as_slice());
        proof {
            assert(splice(old_mem, start as int, start + s.mem@.len(), s.mem@) =~= splice(
                old_mem,
                start as int,
                end as int,
                FlatString::<L>::spec_push_bytes(z, b@),
            ));
        }
        Ok(())
    }
}

} // verus!
