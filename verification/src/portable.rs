use crate::error::Error;
use crate::traits::{
    splice, write_bytes, Emplacer, Flat, FlatBase, FlatLen, FlatSized, FlatUnsized, FlatValidate,
    Portable,
};
use vstd::arithmetic::power2::is_pow2;
use vstd::array::{spec_array_fill_for_copy_type, spec_array_update};
use vstd::bytes::*;
use vstd::prelude::*;
use vstd::std_specs::cmp::PartialEqSpecImpl;

pub mod be;
pub mod le;

verus! {

/// Generic portable integer, aligned to a byte.
///
/// Parameters: `BE` is the byte order (`false` for little-endian, `true` for big-endian),
/// `N` the width in bytes, `S` the signedness.
#[derive(Clone, Copy, Debug)]
pub struct Int<const BE: bool, const N: usize, const S: bool> {
    bytes: [u8; N],
}

/// Generic portable floating-point number, aligned to a byte: the bytes of an IEEE 754
/// number of `N` bytes, in little-endian (`BE` is `false`) or big-endian (`BE` is `true`) order.
#[derive(Clone, Copy, Debug)]
pub struct Float<const BE: bool, const N: usize> {
    bytes: [u8; N],
}

/// An array holding the first `k` of `s`, zeros after.
pub open spec fn spec_array_prefix<const N: usize>(s: Seq<u8>, k: nat) -> [u8; N]
    decreases k,
{
    if k == 0 {
        spec_array_fill_for_copy_type::<u8, N>(0u8)
    } else {
        spec_array_update(spec_array_prefix::<N>(s, (k - 1) as nat), k - 1, s[k - 1])
    }
}

/// The array holding the first `N` bytes of `s`.
pub open spec fn spec_array_of<const N: usize>(s: Seq<u8>) -> [u8; N] {
    spec_array_prefix::<N>(s, N as nat)
}

/// The first `k` cells of the array hold the first `k` bytes.
proof fn lemma_array_prefix<const N: usize>(s: Seq<u8>, k: nat)
    requires
        k <= N,
        k <= s.len(),
    ensures
        spec_array_prefix::<N>(s, k)@.len() == N,
        forall|i: int| 0 <= i < k ==> spec_array_prefix::<N>(s, k)@[i] == s[i],
    decreases k,
{
    broadcast use vstd::array::group_array_axioms;
    if k > 0 {
        lemma_array_prefix::<N>(s, (k - 1) as nat);
    }
}

/// The array of `s` holds the first `N` bytes of `s`; arrays with the same bytes are equal.
proof fn lemma_array_of<const N: usize>(s: Seq<u8>)
    requires
        N <= s.len(),
    ensures
        spec_array_of::<N>(s)@ == s.take(N as int),
        forall|a: [u8; N]| a@ == s.take(N as int) ==> a == spec_array_of::<N>(s),
{
    broadcast use vstd::array::group_array_axioms;
    broadcast use vstd::array::lemma_array_index;
    lemma_array_prefix::<N>(s, N as nat);
    assert(spec_array_of::<N>(s)@ =~= s.take(N as int));
    assert forall|a: [u8; N]| a@ == s.take(N as int) implies a == spec_array_of::<N>(s) by {
        assert forall|i: int| 0 <= i < N implies a[i] == spec_array_of::<N>(s)[i] by {
            assert(a@[i] == spec_array_of::<N>(s)@[i]);
        }
        assert(a =~= spec_array_of::<N>(s));
    }
}

/// Copy of `s[at..at + N]`.
pub(crate) fn array_from<const N: usize>(s: &[u8], at: usize) -> (r: [u8; N])
    requires
        at + N <= s@.len(),
    ensures
        r@ == s@.subrange(at as int, at + N),
{
    broadcast use vstd::array::group_array_axioms;
    let _ = s.len();
    let mut a: [u8; N] = vstd::array::array_fill_for_copy_types::<u8, N>(0u8);
    let mut i: usize = 0;
    while i < N
        invariant
            at + N <= s@.len() <= usize::MAX,
            i <= N,
            a@.len() == N,
            forall|j: int| 0 <= j < i ==> a@[j] == s@[at + j],
        decreases N - i,
    {
        a[i] = s[at + i];
        i = i + 1;
    }
    assert(a@ =~= s@.subrange(at as int, at + N));
    a
}

/// `s` in reverse order.
fn reversed(s: &[u8]) -> (r: Vec<u8>)
    ensures
        r@ == s@.reverse(),
{
    let mut v: Vec<u8> = Vec::new();
    let n = s.len();
    let mut i: usize = 0;
    while i < n
        invariant
            n == s@.len(),
            i <= n,
            v@ == s@.reverse().take(i as int),
        decreases n - i,
    {
        v.push(s[n - 1 - i]);
        i = i + 1;
        assert(v@ =~= s@.reverse().take(i as int));
    }
    assert(v@ =~= s@.reverse());
    v
}


impl<const BE: bool, const N: usize, const S: bool> Int<BE, N, S> {
    /// The bytes of the number.
    pub closed spec fn spec_bytes(&self) -> Seq<u8> {
        self.bytes@
    }

    /// The number with the bytes of `s`.
    pub closed spec fn spec_from_seq(s: Seq<u8>) -> Self {
        Int { bytes: spec_array_of::<N>(s) }
    }

    /// Facts about numbers made from bytes.
    proof fn lemma_from_seq(s: Seq<u8>)
        requires
            N <= s.len(),
        ensures
            Self::spec_from_seq(s).spec_bytes() == s.take(N as int),
            Self::spec_from_seq(s) == Self::spec_from_seq(s.take(N as int)),
            forall|x: Self| x.spec_bytes() == s.take(N as int) ==> x == Self::spec_from_seq(s),
    {
        lemma_array_of::<N>(s);
        lemma_array_of::<N>(s.take(N as int));
        assert(s.take(N as int).take(N as int) =~= s.take(N as int));
    }

    /// A number is its bytes: two with the same bytes are the same, and each has `N` of them.
    pub proof fn lemma_bytes_eq(x: Self, y: Self)
        ensures
            x.spec_bytes().len() == N,
            x.spec_bytes() == y.spec_bytes() ==> x == y,
    {
        broadcast use vstd::array::group_array_axioms;
        if x.spec_bytes() == y.spec_bytes() {
            Self::lemma_from_seq(x.spec_bytes());
            assert(x.spec_bytes().take(N as int) =~= x.spec_bytes());
        }
    }

    /// The number with the given bytes.
    pub fn from_bytes(bytes: [u8; N]) -> (r: Self)
        ensures
            r.spec_bytes() == bytes@,
    {
        Int { bytes }
    }

    /// The bytes of the number.
    pub fn to_bytes(self) -> (r: [u8; N])
        ensures
            r@ == self.spec_bytes(),
    {
        self.bytes
    }
}

/// Two numbers are equal when their bytes are.
impl<const BE: bool, const N: usize, const S: bool> PartialEq for Int<BE, N, S> {
    fn eq(&self, other: &Self) -> (r: bool) {
        broadcast use vstd::array::group_array_axioms;
        let mut i: usize = 0;
        while i < N
            invariant
                i <= N,
                self.bytes@.len() == N,
                other.bytes@.len() == N,
                forall|j: int| 0 <= j < i ==> self.bytes@[j] == other.bytes@[j],
            decreases N - i,
        {
            if self.bytes[i] != other.bytes[i] {
                assert(self.bytes@[i as int] != other.bytes@[i as int]);
                return false;
            }
            i = i + 1;
        }
        assert(self.bytes@ =~= other.bytes@);
        true
    }
}

impl<const BE: bool, const N: usize, const S: bool> PartialEqSpecImpl for Int<BE, N, S> {
    open spec fn obeys_eq_spec() -> bool {
        true
    }

    open spec fn eq_spec(&self, other: &Self) -> bool {
        self.spec_bytes() == other.spec_bytes()
    }
}

impl<const BE: bool, const N: usize, const S: bool> Eq for Int<BE, N, S> {

}

/// The number whose bytes are all zero.
impl<const BE: bool, const N: usize, const S: bool> Default for Int<BE, N, S> {
    fn default() -> (r: Self)
        ensures
            r.spec_bytes() == Seq::new(N as nat, |i: int| 0u8),
    {
        broadcast use vstd::array::group_array_axioms;
        let bytes: [u8; N] = vstd::array::array_fill_for_copy_types::<u8, N>(0u8);
        let r = Int { bytes };
        assert(r.spec_bytes() =~= Seq::new(N as nat, |i: int| 0u8));
        r
    }
}

impl<const BE: bool, const N: usize> Float<BE, N> {
    /// The bytes of the float.
    pub closed spec fn spec_bytes(&self) -> Seq<u8> {
        self.bytes@
    }

    /// The float with the bytes of `s`.
    pub closed spec fn spec_from_seq(s: Seq<u8>) -> Self {
        Float { bytes: spec_array_of::<N>(s) }
    }

    /// Facts about floats made from bytes.
    proof fn lemma_from_seq(s: Seq<u8>)
        requires
            N <= s.len(),
        ensures
            Self::spec_from_seq(s).spec_bytes() == s.take(N as int),
            Self::spec_from_seq(s) == Self::spec_from_seq(s.take(N as int)),
            forall|x: Self| x.spec_bytes() == s.take(N as int) ==> x == Self::spec_from_seq(s),
    {
        lemma_array_of::<N>(s);
        lemma_array_of::<N>(s.take(N as int));
        assert(s.take(N as int).take(N as int) =~= s.take(N as int));
    }

    /// A float is its bytes: two with the same bytes are the same, and each has `N` of them.
    pub proof fn lemma_bytes_eq(x: Self, y: Self)
        ensures
            x.spec_bytes().len() == N,
            x.spec_bytes() == y.spec_bytes() ==> x == y,
    {
        broadcast use vstd::array::group_array_axioms;
        if x.spec_bytes() == y.spec_bytes() {
            Self::lemma_from_seq(x.spec_bytes());
            assert(x.spec_bytes().take(N as int) =~= x.spec_bytes());
        }
    }

    /// The float with the given bytes.
    pub fn from_bytes(bytes: [u8; N]) -> (r: Self)
        ensures
            r.spec_bytes() == bytes@,
    {
        Float { bytes }
    }

    /// The bytes of the float.
    pub fn to_bytes(self) -> (r: [u8; N])
        ensures
            r@ == self.spec_bytes(),
    {
        self.bytes
    }
}

/// Two floats are equal when their bytes are.
impl<const BE: bool, const N: usize> PartialEq for Float<BE, N> {
    fn eq(&self, other: &Self) -> (r: bool) {
        broadcast use vstd::array::group_array_axioms;
        let mut i: usize = 0;
        while i < N
            invariant
                i <= N,
                self.bytes@.len() == N,
                other.bytes@.len() == N,
                forall|j: int| 0 <= j < i ==> self.bytes@[j] == other.bytes@[j],
            decreases N - i,
        {
            if self.bytes[i] != other.bytes[i] {
                assert(self.bytes@[i as int] != other.bytes@[i as int]);
                return false;
            }
            i = i + 1;
        }
        assert(self.bytes@ =~= other.bytes@);
        true
    }
}

impl<const BE: bool, const N: usize> PartialEqSpecImpl for Float<BE, N> {
    open spec fn obeys_eq_spec() -> bool {
        true
    }

    open spec fn eq_spec(&self, other: &Self) -> bool {
        self.spec_bytes() == other.spec_bytes()
    }
}

impl<const BE: bool, const N: usize> Eq for Float<BE, N> {

}

/// The float whose bytes are all zero.
impl<const BE: bool, const N: usize> Default for Float<BE, N> {
    fn default() -> (r: Self)
        ensures
            r.spec_bytes() == Seq::new(N as nat, |i: int| 0u8),
    {
        broadcast use vstd::array::group_array_axioms;
        let bytes: [u8; N] = vstd::array::array_fill_for_copy_types::<u8, N>(0u8);
        let r = Float { bytes };
        assert(r.spec_bytes() =~= Seq::new(N as nat, |i: int| 0u8));
        r
    }
}

impl FlatBase for Int<false, 2, false> {
    open spec fn spec_align() -> nat {
        1
    }

    open spec fn spec_min_size() -> nat {
        2
    }

    open spec fn spec_layout_ok() -> bool {
        true
    }

    proof fn lemma_layout() {
        assert(is_pow2(1)) by {
            reveal(is_pow2);
        }
    }

    fn align() -> (r: usize) {
        1
    }

    fn min_size() -> (r: usize) {
        2
    }
}

impl FlatValidate for Int<false, 2, false> {
    open spec fn spec_validate(bytes: Seq<u8>) -> Result<(), Error> {
        Ok(())
    }

    open spec fn spec_size(bytes: Seq<u8>) -> nat {
        2
    }

    proof fn lemma_valid_size(bytes: Seq<u8>) {
    }

    proof fn lemma_valid_prefix(bytes: Seq<u8>, k: nat) {
    }

    proof fn lemma_error_pos(bytes: Seq<u8>) {
    }

    fn validate_unchecked(bytes: &[u8]) -> (r: Result<(), Error>) {
        Ok(())
    }
}

impl FlatUnsized for Int<false, 2, false> {
    open spec fn wf(&self) -> bool {
        true
    }

    open spec fn spec_mem(&self) -> Seq<u8> {
        self.spec_bytes()
    }

    open spec fn spec_mem_len(len: nat) -> nat {
        2
    }

    proof fn lemma_wf(&self) {
        broadcast use vstd::array::group_array_axioms;
    }

    proof fn lemma_mem_len(bytes: Seq<u8>) {
    }

    fn from_bytes_unchecked(bytes: &[u8]) -> (r: Self) {
        let r = Int { bytes: array_from::<2>(bytes, 0) };
        proof {
            assert(bytes@.subrange(0, 2) =~= bytes@.take(2));
        }
        r
    }

    fn as_bytes(&self) -> (r: Vec<u8>) {
        let mut v: Vec<u8> = Vec::new();
        let mut i: usize = 0;
        while i < 2
            invariant
                i <= 2,
                self.spec_bytes().len() == 2,
                v@ == self.spec_bytes().take(i as int),
            decreases 2 - i,
        {
            v.push(self.bytes[i]);
            i = i + 1;
            assert(v@ =~= self.spec_bytes().take(i as int));
        }
        assert(v@ =~= self.spec_bytes());
        v
    }

    fn size_of_bytes(bytes: &[u8]) -> (r: usize) {
        2
    }
}

impl FlatSized for Int<false, 2, false> {
    open spec fn spec_size_of() -> nat {
        2
    }

    open spec fn spec_to_bytes(self) -> Seq<u8> {
        self.spec_bytes()
    }

    open spec fn spec_from_bytes(bytes: Seq<u8>) -> Self {
        Self::spec_from_seq(bytes)
    }

    proof fn lemma_sized_layout(bytes: Seq<u8>) {
        if bytes.len() >= 2 {
            Self::lemma_from_seq(bytes);
            if bytes.len() == 2 {
                assert(bytes.take(2) =~= bytes);
            }
        }
    }

    proof fn lemma_sized_value(v: Self) {
        broadcast use vstd::array::group_array_axioms;
        Self::lemma_from_seq(v.spec_bytes());
        assert(v.spec_bytes().take(2) =~= v.spec_bytes());
    }

    fn size_of() -> (r: usize) {
        2
    }

    fn to_bytes(&self) -> (r: Vec<u8>) {
        self.as_bytes()
    }

    fn read_at(bytes: &[u8], at: usize) -> (r: Self) {
        let r = Int { bytes: array_from::<2>(bytes, at) };
        proof {
            let sub = bytes@.subrange(at as int, at + 2);
            Self::lemma_from_seq(sub);
            assert(sub.take(2) =~= sub);
            assert(r.spec_bytes() == sub.take(2));
        }
        r
    }
}

impl Flat for Int<false, 2, false> {

}

impl Portable for Int<false, 2, false> {
    proof fn lemma_portable_align() {
    }
}


impl Int<false, 2, false> {
    /// The number that the bytes stand for.
    pub open spec fn spec_native(&self) -> u16 {
        spec_u16_from_le_bytes(self.spec_bytes())
    }

    /// The portable number standing for `x`.
    pub open spec fn spec_from_native(x: u16) -> Self {
        Self::spec_from_seq(spec_u16_to_le_bytes(x))
    }

    /// Conversions with the native number are inverse to each other.
    pub proof fn lemma_native(x: u16)
        ensures
            Self::spec_from_native(x).spec_native() == x,
            Self::spec_from_native(x).spec_bytes().len() == 2,
    {
        lemma_auto_spec_u16_to_from_le_bytes();
        let b = spec_u16_to_le_bytes(x);
        Self::lemma_from_seq(b);
        assert(b.take(2) =~= b);
        
    }

    /// The portable number standing for `x`.
    pub fn from_native(x: u16) -> (r: Self)
        ensures
            r == Self::spec_from_native(x),
            r.spec_native() == x,
    {
        let v = u16_to_le_bytes(x);
        
        let r = Int { bytes: array_from::<2>(v.as_slice(), 0) };
        proof {
            Self::lemma_native(x);
            assert(v@.subrange(0, 2) =~= v@);
            Self::lemma_from_seq(v@);
            assert(v@.take(2) =~= v@);
            assert(r.spec_bytes() == v@.take(2));
        }
        r
    }

    /// The number that the bytes stand for.
    pub fn to_native(&self) -> (r: u16)
        ensures
            r == self.spec_native(),
    {
        let b = self.as_bytes();
        
        u16_from_le_bytes(b.as_slice())
    }
}

impl FlatLen for Int<false, 2, false> {
    open spec fn spec_value(self) -> nat {
        self.spec_native() as nat
    }

    open spec fn spec_max() -> nat {
        u16::MAX as nat
    }

    open spec fn spec_from_value(n: nat) -> Self {
        Self::spec_from_native(n as u16)
    }

    proof fn lemma_len(v: Self) {
        assert(Self::spec_size_of() == 2);
        assert(v.spec_value() <= Self::spec_max());
        assert(is_pow2(2)) by {
            reveal_with_fuel(is_pow2, 5);
        }
        assert forall|n: nat| n <= Self::spec_max() implies (#[trigger] Self::spec_from_value(n)).spec_value() == n by {
            Self::lemma_native(n as u16);
        }
    }

    fn max_usize() -> (r: usize) {
        u16::MAX as usize
    }

    fn from_usize(n: usize) -> (r: Option<Self>) {
        if n <= u16::MAX as usize {
            Some(Self::from_native(n as u16))
        } else {
            None
        }
    }

    fn into_usize(self) -> (r: usize) {
        self.to_native() as usize
    }
}

impl FlatBase for Int<false, 4, false> {
    open spec fn spec_align() -> nat {
        1
    }

    open spec fn spec_min_size() -> nat {
        4
    }

    open spec fn spec_layout_ok() -> bool {
        true
    }

    proof fn lemma_layout() {
        assert(is_pow2(1)) by {
            reveal(is_pow2);
        }
    }

    fn align() -> (r: usize) {
        1
    }

    fn min_size() -> (r: usize) {
        4
    }
}

impl FlatValidate for Int<false, 4, false> {
    open spec fn spec_validate(bytes: Seq<u8>) -> Result<(), Error> {
        Ok(())
    }

    open spec fn spec_size(bytes: Seq<u8>) -> nat {
        4
    }

    proof fn lemma_valid_size(bytes: Seq<u8>) {
    }

    proof fn lemma_valid_prefix(bytes: Seq<u8>, k: nat) {
    }

    proof fn lemma_error_pos(bytes: Seq<u8>) {
    }

    fn validate_unchecked(bytes: &[u8]) -> (r: Result<(), Error>) {
        Ok(())
    }
}

impl FlatUnsized for Int<false, 4, false> {
    open spec fn wf(&self) -> bool {
        true
    }

    open spec fn spec_mem(&self) -> Seq<u8> {
        self.spec_bytes()
    }

    open spec fn spec_mem_len(len: nat) -> nat {
        4
    }

    proof fn lemma_wf(&self) {
        broadcast use vstd::array::group_array_axioms;
    }

    proof fn lemma_mem_len(bytes: Seq<u8>) {
    }

    fn from_bytes_unchecked(bytes: &[u8]) -> (r: Self) {
        let r = Int { bytes: array_from::<4>(bytes, 0) };
        proof {
            assert(bytes@.subrange(0, 4) =~= bytes@.take(4));
        }
        r
    }

    fn as_bytes(&self) -> (r: Vec<u8>) {
        let mut v: Vec<u8> = Vec::new();
        let mut i: usize = 0;
        while i < 4
            invariant
                i <= 4,
                self.spec_bytes().len() == 4,
                v@ == self.spec_bytes().take(i as int),
            decreases 4 - i,
        {
            v.push(self.bytes[i]);
            i = i + 1;
            assert(v@ =~= self.spec_bytes().take(i as int));
        }
        assert(v@ =~= self.spec_bytes());
        v
    }

    fn size_of_bytes(bytes: &[u8]) -> (r: usize) {
        4
    }
}

impl FlatSized for Int<false, 4, false> {
    open spec fn spec_size_of() -> nat {
        4
    }

    open spec fn spec_to_bytes(self) -> Seq<u8> {
        self.spec_bytes()
    }

    open spec fn spec_from_bytes(bytes: Seq<u8>) -> Self {
        Self::spec_from_seq(bytes)
    }

    proof fn lemma_sized_layout(bytes: Seq<u8>) {
        if bytes.len() >= 4 {
            Self::lemma_from_seq(bytes);
            if bytes.len() == 4 {
                assert(bytes.take(4) =~= bytes);
            }
        }
    }

    proof fn lemma_sized_value(v: Self) {
        broadcast use vstd::array::group_array_axioms;
        Self::lemma_from_seq(v.spec_bytes());
        assert(v.spec_bytes().take(4) =~= v.spec_bytes());
    }

    fn size_of() -> (r: usize) {
        4
    }

    fn to_bytes(&self) -> (r: Vec<u8>) {
        self.as_bytes()
    }

    fn read_at(bytes: &[u8], at: usize) -> (r: Self) {
        let r = Int { bytes: array_from::<4>(bytes, at) };
        proof {
            let sub = bytes@.subrange(at as int, at + 4);
            Self::lemma_from_seq(sub);
            assert(sub.take(4) =~= sub);
            assert(r.spec_bytes() == sub.take(4));
        }
        r
    }
}

impl Flat for Int<false, 4, false> {

}

impl Portable for Int<false, 4, false> {
    proof fn lemma_portable_align() {
    }
}


impl Int<false, 4, false> {
    /// The number that the bytes stand for.
    pub open spec fn spec_native(&self) -> u32 {
        spec_u32_from_le_bytes(self.spec_bytes())
    }

    /// The portable number standing for `x`.
    pub open spec fn spec_from_native(x: u32) -> Self {
        Self::spec_from_seq(spec_u32_to_le_bytes(x))
    }

    /// Conversions with the native number are inverse to each other.
    pub proof fn lemma_native(x: u32)
        ensures
            Self::spec_from_native(x).spec_native() == x,
            Self::spec_from_native(x).spec_bytes().len() == 4,
    {
        lemma_auto_spec_u32_to_from_le_bytes();
        let b = spec_u32_to_le_bytes(x);
        Self::lemma_from_seq(b);
        assert(b.take(4) =~= b);
        
    }

    /// The portable number standing for `x`.
    pub fn from_native(x: u32) -> (r: Self)
        ensures
            r == Self::spec_from_native(x),
            r.spec_native() == x,
    {
        let v = u32_to_le_bytes(x);
        
        let r = Int { bytes: array_from::<4>(v.as_slice(), 0) };
        proof {
            Self::lemma_native(x);
            assert(v@.subrange(0, 4) =~= v@);
            Self::lemma_from_seq(v@);
            assert(v@.take(4) =~= v@);
            assert(r.spec_bytes() == v@.take(4));
        }
        r
    }

    /// The number that the bytes stand for.
    pub fn to_native(&self) -> (r: u32)
        ensures
            r == self.spec_native(),
    {
        let b = self.as_bytes();
        
        u32_from_le_bytes(b.as_slice())
    }
}

impl FlatLen for Int<false, 4, false> {
    open spec fn spec_value(self) -> nat {
        self.spec_native() as nat
    }

    open spec fn spec_max() -> nat {
        u32::MAX as nat
    }

    open spec fn spec_from_value(n: nat) -> Self {
        Self::spec_from_native(n as u32)
    }

    proof fn lemma_len(v: Self) {
        assert(Self::spec_size_of() == 4);
        assert(v.spec_value() <= Self::spec_max());
        assert(is_pow2(4)) by {
            reveal_with_fuel(is_pow2, 5);
        }
        assert forall|n: nat| n <= Self::spec_max() implies (#[trigger] Self::spec_from_value(n)).spec_value() == n by {
            Self::lemma_native(n as u32);
        }
    }

    fn max_usize() -> (r: usize) {
        u32::MAX as usize
    }

    fn from_usize(n: usize) -> (r: Option<Self>) {
        if n <= u32::MAX as usize {
            Some(Self::from_native(n as u32))
        } else {
            None
        }
    }

    fn into_usize(self) -> (r: usize) {
        self.to_native() as usize
    }
}

impl FlatBase for Int<false, 8, false> {
    open spec fn spec_align() -> nat {
        1
    }

    open spec fn spec_min_size() -> nat {
        8
    }

    open spec fn spec_layout_ok() -> bool {
        true
    }

    proof fn lemma_layout() {
        assert(is_pow2(1)) by {
            reveal(is_pow2);
        }
    }

    fn align() -> (r: usize) {
        1
    }

    fn min_size() -> (r: usize) {
        8
    }
}

impl FlatValidate for Int<false, 8, false> {
    open spec fn spec_validate(bytes: Seq<u8>) -> Result<(), Error> {
        Ok(())
    }

    open spec fn spec_size(bytes: Seq<u8>) -> nat {
        8
    }

    proof fn lemma_valid_size(bytes: Seq<u8>) {
    }

    proof fn lemma_valid_prefix(bytes: Seq<u8>, k: nat) {
    }

    proof fn lemma_error_pos(bytes: Seq<u8>) {
    }

    fn validate_unchecked(bytes: &[u8]) -> (r: Result<(), Error>) {
        Ok(())
    }
}

impl FlatUnsized for Int<false, 8, false> {
    open spec fn wf(&self) -> bool {
        true
    }

    open spec fn spec_mem(&self) -> Seq<u8> {
        self.spec_bytes()
    }

    open spec fn spec_mem_len(len: nat) -> nat {
        8
    }

    proof fn lemma_wf(&self) {
        broadcast use vstd::array::group_array_axioms;
    }

    proof fn lemma_mem_len(bytes: Seq<u8>) {
    }

    fn from_bytes_unchecked(bytes: &[u8]) -> (r: Self) {
        let r = Int { bytes: array_from::<8>(bytes, 0) };
        proof {
            assert(bytes@.subrange(0, 8) =~= bytes@.take(8));
        }
        r
    }

    fn as_bytes(&self) -> (r: Vec<u8>) {
        let mut v: Vec<u8> = Vec::new();
        let mut i: usize = 0;
        while i < 8
            invariant
                i <= 8,
                self.spec_bytes().len() == 8,
                v@ == self.spec_bytes().take(i as int),
            decreases 8 - i,
        {
            v.push(self.bytes[i]);
            i = i + 1;
            assert(v@ =~= self.spec_bytes().take(i as int));
        }
        assert(v@ =~= self.spec_bytes());
        v
    }

    fn size_of_bytes(bytes: &[u8]) -> (r: usize) {
        8
    }
}

impl FlatSized for Int<false, 8, false> {
    open spec fn spec_size_of() -> nat {
        8
    }

    open spec fn spec_to_bytes(self) -> Seq<u8> {
        self.spec_bytes()
    }

    open spec fn spec_from_bytes(bytes: Seq<u8>) -> Self {
        Self::spec_from_seq(bytes)
    }

    proof fn lemma_sized_layout(bytes: Seq<u8>) {
        if bytes.len() >= 8 {
            Self::lemma_from_seq(bytes);
            if bytes.len() == 8 {
                assert(bytes.take(8) =~= bytes);
            }
        }
    }

    proof fn lemma_sized_value(v: Self) {
        broadcast use vstd::array::group_array_axioms;
        Self::lemma_from_seq(v.spec_bytes());
        assert(v.spec_bytes().take(8) =~= v.spec_bytes());
    }

    fn size_of() -> (r: usize) {
        8
    }

    fn to_bytes(&self) -> (r: Vec<u8>) {
        self.as_bytes()
    }

    fn read_at(bytes: &[u8], at: usize) -> (r: Self) {
        let r = Int { bytes: array_from::<8>(bytes, at) };
        proof {
            let sub = bytes@.subrange(at as int, at + 8);
            Self::lemma_from_seq(sub);
            assert(sub.take(8) =~= sub);
            assert(r.spec_bytes() == sub.take(8));
        }
        r
    }
}

impl Flat for Int<false, 8, false> {

}

impl Portable for Int<false, 8, false> {
    proof fn lemma_portable_align() {
    }
}


impl Int<false, 8, false> {
    /// The number that the bytes stand for.
    pub open spec fn spec_native(&self) -> u64 {
        spec_u64_from_le_bytes(self.spec_bytes())
    }

    /// The portable number standing for `x`.
    pub open spec fn spec_from_native(x: u64) -> Self {
        Self::spec_from_seq(spec_u64_to_le_bytes(x))
    }

    /// Conversions with the native number are inverse to each other.
    pub proof fn lemma_native(x: u64)
        ensures
            Self::spec_from_native(x).spec_native() == x,
            Self::spec_from_native(x).spec_bytes().len() == 8,
    {
        lemma_auto_spec_u64_to_from_le_bytes();
        let b = spec_u64_to_le_bytes(x);
        Self::lemma_from_seq(b);
        assert(b.take(8) =~= b);
        
    }

    /// The portable number standing for `x`.
    pub fn from_native(x: u64) -> (r: Self)
        ensures
            r == Self::spec_from_native(x),
            r.spec_native() == x,
    {
        let v = u64_to_le_bytes(x);
        
        let r = Int { bytes: array_from::<8>(v.as_slice(), 0) };
        proof {
            Self::lemma_native(x);
            assert(v@.subrange(0, 8) =~= v@);
            Self::lemma_from_seq(v@);
            assert(v@.take(8) =~= v@);
            assert(r.spec_bytes() == v@.take(8));
        }
        r
    }

    /// The number that the bytes stand for.
    pub fn to_native(&self) -> (r: u64)
        ensures
            r == self.spec_native(),
    {
        let b = self.as_bytes();
        
        u64_from_le_bytes(b.as_slice())
    }
}

impl FlatBase for Int<false, 2, true> {
    open spec fn spec_align() -> nat {
        1
    }

    open spec fn spec_min_size() -> nat {
        2
    }

    open spec fn spec_layout_ok() -> bool {
        true
    }

    proof fn lemma_layout() {
        assert(is_pow2(1)) by {
            reveal(is_pow2);
        }
    }

    fn align() -> (r: usize) {
        1
    }

    fn min_size() -> (r: usize) {
        2
    }
}

impl FlatValidate for Int<false, 2, true> {
    open spec fn spec_validate(bytes: Seq<u8>) -> Result<(), Error> {
        Ok(())
    }

    open spec fn spec_size(bytes: Seq<u8>) -> nat {
        2
    }

    proof fn lemma_valid_size(bytes: Seq<u8>) {
    }

    proof fn lemma_valid_prefix(bytes: Seq<u8>, k: nat) {
    }

    proof fn lemma_error_pos(bytes: Seq<u8>) {
    }

    fn validate_unchecked(bytes: &[u8]) -> (r: Result<(), Error>) {
        Ok(())
    }
}

impl FlatUnsized for Int<false, 2, true> {
    open spec fn wf(&self) -> bool {
        true
    }

    open spec fn spec_mem(&self) -> Seq<u8> {
        self.spec_bytes()
    }

    open spec fn spec_mem_len(len: nat) -> nat {
        2
    }

    proof fn lemma_wf(&self) {
        broadcast use vstd::array::group_array_axioms;
    }

    proof fn lemma_mem_len(bytes: Seq<u8>) {
    }

    fn from_bytes_unchecked(bytes: &[u8]) -> (r: Self) {
        let r = Int { bytes: array_from::<2>(bytes, 0) };
        proof {
            assert(bytes@.subrange(0, 2) =~= bytes@.take(2));
        }
        r
    }

    fn as_bytes(&self) -> (r: Vec<u8>) {
        let mut v: Vec<u8> = Vec::new();
        let mut i: usize = 0;
        while i < 2
            invariant
                i <= 2,
                self.spec_bytes().len() == 2,
                v@ == self.spec_bytes().take(i as int),
            decreases 2 - i,
        {
            v.push(self.bytes[i]);
            i = i + 1;
            assert(v@ =~= self.spec_bytes().take(i as int));
        }
        assert(v@ =~= self.spec_bytes());
        v
    }

    fn size_of_bytes(bytes: &[u8]) -> (r: usize) {
        2
    }
}

impl FlatSized for Int<false, 2, true> {
    open spec fn spec_size_of() -> nat {
        2
    }

    open spec fn spec_to_bytes(self) -> Seq<u8> {
        self.spec_bytes()
    }

    open spec fn spec_from_bytes(bytes: Seq<u8>) -> Self {
        Self::spec_from_seq(bytes)
    }

    proof fn lemma_sized_layout(bytes: Seq<u8>) {
        if bytes.len() >= 2 {
            Self::lemma_from_seq(bytes);
            if bytes.len() == 2 {
                assert(bytes.take(2) =~= bytes);
            }
        }
    }

    proof fn lemma_sized_value(v: Self) {
        broadcast use vstd::array::group_array_axioms;
        Self::lemma_from_seq(v.spec_bytes());
        assert(v.spec_bytes().take(2) =~= v.spec_bytes());
    }

    fn size_of() -> (r: usize) {
        2
    }

    fn to_bytes(&self) -> (r: Vec<u8>) {
        self.as_bytes()
    }

    fn read_at(bytes: &[u8], at: usize) -> (r: Self) {
        let r = Int { bytes: array_from::<2>(bytes, at) };
        proof {
            let sub = bytes@.subrange(at as int, at + 2);
            Self::lemma_from_seq(sub);
            assert(sub.take(2) =~= sub);
            assert(r.spec_bytes() == sub.take(2));
        }
        r
    }
}

impl Flat for Int<false, 2, true> {

}

impl Portable for Int<false, 2, true> {
    proof fn lemma_portable_align() {
    }
}


impl Int<false, 2, true> {
    /// The number that the bytes stand for.
    pub open spec fn spec_native(&self) -> i16 {
        spec_u16_from_le_bytes(self.spec_bytes()) as i16
    }

    /// The portable number standing for `x`.
    pub open spec fn spec_from_native(x: i16) -> Self {
        Self::spec_from_seq(spec_u16_to_le_bytes(x as u16))
    }

    /// Conversions with the native number are inverse to each other.
    pub proof fn lemma_native(x: i16)
        ensures
            Self::spec_from_native(x).spec_native() == x,
            Self::spec_from_native(x).spec_bytes().len() == 2,
    {
        lemma_auto_spec_u16_to_from_le_bytes();
        let b = spec_u16_to_le_bytes(x as u16);
        Self::lemma_from_seq(b);
        assert(b.take(2) =~= b);
        
            assert((x as u16) as i16 == x) by (bit_vector);
    }

    /// The portable number standing for `x`.
    pub fn from_native(x: i16) -> (r: Self)
        ensures
            r == Self::spec_from_native(x),
            r.spec_native() == x,
    {
        let v = u16_to_le_bytes(x as u16);
        
        let r = Int { bytes: array_from::<2>(v.as_slice(), 0) };
        proof {
            Self::lemma_native(x);
            assert(v@.subrange(0, 2) =~= v@);
            Self::lemma_from_seq(v@);
            assert(v@.take(2) =~= v@);
            assert(r.spec_bytes() == v@.take(2));
        }
        r
    }

    /// The number that the bytes stand for.
    pub fn to_native(&self) -> (r: i16)
        ensures
            r == self.spec_native(),
    {
        let b = self.as_bytes();
        
        u16_from_le_bytes(b.as_slice()) as i16
    }
}

impl FlatBase for Int<false, 4, true> {
    open spec fn spec_align() -> nat {
        1
    }

    open spec fn spec_min_size() -> nat {
        4
    }

    open spec fn spec_layout_ok() -> bool {
        true
    }

    proof fn lemma_layout() {
        assert(is_pow2(1)) by {
            reveal(is_pow2);
        }
    }

    fn align() -> (r: usize) {
        1
    }

    fn min_size() -> (r: usize) {
        4
    }
}

impl FlatValidate for Int<false, 4, true> {
    open spec fn spec_validate(bytes: Seq<u8>) -> Result<(), Error> {
        Ok(())
    }

    open spec fn spec_size(bytes: Seq<u8>) -> nat {
        4
    }

    proof fn lemma_valid_size(bytes: Seq<u8>) {
    }

    proof fn lemma_valid_prefix(bytes: Seq<u8>, k: nat) {
    }

    proof fn lemma_error_pos(bytes: Seq<u8>) {
    }

    fn validate_unchecked(bytes: &[u8]) -> (r: Result<(), Error>) {
        Ok(())
    }
}

impl FlatUnsized for Int<false, 4, true> {
    open spec fn wf(&self) -> bool {
        true
    }

    open spec fn spec_mem(&self) -> Seq<u8> {
        self.spec_bytes()
    }

    open spec fn spec_mem_len(len: nat) -> nat {
        4
    }

    proof fn lemma_wf(&self) {
        broadcast use vstd::array::group_array_axioms;
    }

    proof fn lemma_mem_len(bytes: Seq<u8>) {
    }

    fn from_bytes_unchecked(bytes: &[u8]) -> (r: Self) {
        let r = Int { bytes: array_from::<4>(bytes, 0) };
        proof {
            assert(bytes@.subrange(0, 4) =~= bytes@.take(4));
        }
        r
    }

    fn as_bytes(&self) -> (r: Vec<u8>) {
        let mut v: Vec<u8> = Vec::new();
        let mut i: usize = 0;
        while i < 4
            invariant
                i <= 4,
                self.spec_bytes().len() == 4,
                v@ == self.spec_bytes().take(i as int),
            decreases 4 - i,
        {
            v.push(self.bytes[i]);
            i = i + 1;
            assert(v@ =~= self.spec_bytes().take(i as int));
        }
        assert(v@ =~= self.spec_bytes());
        v
    }

    fn size_of_bytes(bytes: &[u8]) -> (r: usize) {
        4
    }
}

impl FlatSized for Int<false, 4, true> {
    open spec fn spec_size_of() -> nat {
        4
    }

    open spec fn spec_to_bytes(self) -> Seq<u8> {
        self.spec_bytes()
    }

    open spec fn spec_from_bytes(bytes: Seq<u8>) -> Self {
        Self::spec_from_seq(bytes)
    }

    proof fn lemma_sized_layout(bytes: Seq<u8>) {
        if bytes.len() >= 4 {
            Self::lemma_from_seq(bytes);
            if bytes.len() == 4 {
                assert(bytes.take(4) =~= bytes);
            }
        }
    }

    proof fn lemma_sized_value(v: Self) {
        broadcast use vstd::array::group_array_axioms;
        Self::lemma_from_seq(v.spec_bytes());
        assert(v.spec_bytes().take(4) =~= v.spec_bytes());
    }

    fn size_of() -> (r: usize) {
        4
    }

    fn to_bytes(&self) -> (r: Vec<u8>) {
        self.as_bytes()
    }

    fn read_at(bytes: &[u8], at: usize) -> (r: Self) {
        let r = Int { bytes: array_from::<4>(bytes, at) };
        proof {
            let sub = bytes@.subrange(at as int, at + 4);
            Self::lemma_from_seq(sub);
            assert(sub.take(4) =~= sub);
            assert(r.spec_bytes() == sub.take(4));
        }
        r
    }
}

impl Flat for Int<false, 4, true> {

}

impl Portable for Int<false, 4, true> {
    proof fn lemma_portable_align() {
    }
}


impl Int<false, 4, true> {
    /// The number that the bytes stand for.
    pub open spec fn spec_native(&self) -> i32 {
        spec_u32_from_le_bytes(self.spec_bytes()) as i32
    }

    /// The portable number standing for `x`.
    pub open spec fn spec_from_native(x: i32) -> Self {
        Self::spec_from_seq(spec_u32_to_le_bytes(x as u32))
    }

    /// Conversions with the native number are inverse to each other.
    pub proof fn lemma_native(x: i32)
        ensures
            Self::spec_from_native(x).spec_native() == x,
            Self::spec_from_native(x).spec_bytes().len() == 4,
    {
        lemma_auto_spec_u32_to_from_le_bytes();
        let b = spec_u32_to_le_bytes(x as u32);
        Self::lemma_from_seq(b);
        assert(b.take(4) =~= b);
        
            assert((x as u32) as i32 == x) by (bit_vector);
    }

    /// The portable number standing for `x`.
    pub fn from_native(x: i32) -> (r: Self)
        ensures
            r == Self::spec_from_native(x),
            r.spec_native() == x,
    {
        let v = u32_to_le_bytes(x as u32);
        
        let r = Int { bytes: array_from::<4>(v.as_slice(), 0) };
        proof {
            Self::lemma_native(x);
            assert(v@.subrange(0, 4) =~= v@);
            Self::lemma_from_seq(v@);
            assert(v@.take(4) =~= v@);
            assert(r.spec_bytes() == v@.take(4));
        }
        r
    }

    /// The number that the bytes stand for.
    pub fn to_native(&self) -> (r: i32)
        ensures
            r == self.spec_native(),
    {
        let b = self.as_bytes();
        
        u32_from_le_bytes(b.as_slice()) as i32
    }
}

impl FlatBase for Int<false, 8, true> {
    open spec fn spec_align() -> nat {
        1
    }

    open spec fn spec_min_size() -> nat {
        8
    }

    open spec fn spec_layout_ok() -> bool {
        true
    }

    proof fn lemma_layout() {
        assert(is_pow2(1)) by {
            reveal(is_pow2);
        }
    }

    fn align() -> (r: usize) {
        1
    }

    fn min_size() -> (r: usize) {
        8
    }
}

impl FlatValidate for Int<false, 8, true> {
    open spec fn spec_validate(bytes: Seq<u8>) -> Result<(), Error> {
        Ok(())
    }

    open spec fn spec_size(bytes: Seq<u8>) -> nat {
        8
    }

    proof fn lemma_valid_size(bytes: Seq<u8>) {
    }

    proof fn lemma_valid_prefix(bytes: Seq<u8>, k: nat) {
    }

    proof fn lemma_error_pos(bytes: Seq<u8>) {
    }

    fn validate_unchecked(bytes: &[u8]) -> (r: Result<(), Error>) {
        Ok(())
    }
}

impl FlatUnsized for Int<false, 8, true> {
    open spec fn wf(&self) -> bool {
        true
    }

    open spec fn spec_mem(&self) -> Seq<u8> {
        self.spec_bytes()
    }

    open spec fn spec_mem_len(len: nat) -> nat {
        8
    }

    proof fn lemma_wf(&self) {
        broadcast use vstd::array::group_array_axioms;
    }

    proof fn lemma_mem_len(bytes: Seq<u8>) {
    }

    fn from_bytes_unchecked(bytes: &[u8]) -> (r: Self) {
        let r = Int { bytes: array_from::<8>(bytes, 0) };
        proof {
            assert(bytes@.subrange(0, 8) =~= bytes@.take(8));
        }
        r
    }

    fn as_bytes(&self) -> (r: Vec<u8>) {
        let mut v: Vec<u8> = Vec::new();
        let mut i: usize = 0;
        while i < 8
            invariant
                i <= 8,
                self.spec_bytes().len() == 8,
                v@ == self.spec_bytes().take(i as int),
            decreases 8 - i,
        {
            v.push(self.bytes[i]);
            i = i + 1;
            assert(v@ =~= self.spec_bytes().take(i as int));
        }
        assert(v@ =~= self.spec_bytes());
        v
    }

    fn size_of_bytes(bytes: &[u8]) -> (r: usize) {
        8
    }
}

impl FlatSized for Int<false, 8, true> {
    open spec fn spec_size_of() -> nat {
        8
    }

    open spec fn spec_to_bytes(self) -> Seq<u8> {
        self.spec_bytes()
    }

    open spec fn spec_from_bytes(bytes: Seq<u8>) -> Self {
        Self::spec_from_seq(bytes)
    }

    proof fn lemma_sized_layout(bytes: Seq<u8>) {
        if bytes.len() >= 8 {
            Self::lemma_from_seq(bytes);
            if bytes.len() == 8 {
                assert(bytes.take(8) =~= bytes);
            }
        }
    }

    proof fn lemma_sized_value(v: Self) {
        broadcast use vstd::array::group_array_axioms;
        Self::lemma_from_seq(v.spec_bytes());
        assert(v.spec_bytes().take(8) =~= v.spec_bytes());
    }

    fn size_of() -> (r: usize) {
        8
    }

    fn to_bytes(&self) -> (r: Vec<u8>) {
        self.as_bytes()
    }

    fn read_at(bytes: &[u8], at: usize) -> (r: Self) {
        let r = Int { bytes: array_from::<8>(bytes, at) };
        proof {
            let sub = bytes@.subrange(at as int, at + 8);
            Self::lemma_from_seq(sub);
            assert(sub.take(8) =~= sub);
            assert(r.spec_bytes() == sub.take(8));
        }
        r
    }
}

impl Flat for Int<false, 8, true> {

}

impl Portable for Int<false, 8, true> {
    proof fn lemma_portable_align() {
    }
}


impl Int<false, 8, true> {
    /// The number that the bytes stand for.
    pub open spec fn spec_native(&self) -> i64 {
        spec_u64_from_le_bytes(self.spec_bytes()) as i64
    }

    /// The portable number standing for `x`.
    pub open spec fn spec_from_native(x: i64) -> Self {
        Self::spec_from_seq(spec_u64_to_le_bytes(x as u64))
    }

    /// Conversions with the native number are inverse to each other.
    pub proof fn lemma_native(x: i64)
        ensures
            Self::spec_from_native(x).spec_native() == x,
            Self::spec_from_native(x).spec_bytes().len() == 8,
    {
        lemma_auto_spec_u64_to_from_le_bytes();
        let b = spec_u64_to_le_bytes(x as u64);
        Self::lemma_from_seq(b);
        assert(b.take(8) =~= b);
        
            assert((x as u64) as i64 == x) by (bit_vector);
    }

    /// The portable number standing for `x`.
    pub fn from_native(x: i64) -> (r: Self)
        ensures
            r == Self::spec_from_native(x),
            r.spec_native() == x,
    {
        let v = u64_to_le_bytes(x as u64);
        
        let r = Int { bytes: array_from::<8>(v.as_slice(), 0) };
        proof {
            Self::lemma_native(x);
            assert(v@.subrange(0, 8) =~= v@);
            Self::lemma_from_seq(v@);
            assert(v@.take(8) =~= v@);
            assert(r.spec_bytes() == v@.take(8));
        }
        r
    }

    /// The number that the bytes stand for.
    pub fn to_native(&self) -> (r: i64)
        ensures
            r == self.spec_native(),
    {
        let b = self.as_bytes();
        
        u64_from_le_bytes(b.as_slice()) as i64
    }
}

impl FlatBase for Int<true, 2, false> {
    open spec fn spec_align() -> nat {
        1
    }

    open spec fn spec_min_size() -> nat {
        2
    }

    open spec fn spec_layout_ok() -> bool {
        true
    }

    proof fn lemma_layout() {
        assert(is_pow2(1)) by {
            reveal(is_pow2);
        }
    }

    fn align() -> (r: usize) {
        1
    }

    fn min_size() -> (r: usize) {
        2
    }
}

impl FlatValidate for Int<true, 2, false> {
    open spec fn spec_validate(bytes: Seq<u8>) -> Result<(), Error> {
        Ok(())
    }

    open spec fn spec_size(bytes: Seq<u8>) -> nat {
        2
    }

    proof fn lemma_valid_size(bytes: Seq<u8>) {
    }

    proof fn lemma_valid_prefix(bytes: Seq<u8>, k: nat) {
    }

    proof fn lemma_error_pos(bytes: Seq<u8>) {
    }

    fn validate_unchecked(bytes: &[u8]) -> (r: Result<(), Error>) {
        Ok(())
    }
}

impl FlatUnsized for Int<true, 2, false> {
    open spec fn wf(&self) -> bool {
        true
    }

    open spec fn spec_mem(&self) -> Seq<u8> {
        self.spec_bytes()
    }

    open spec fn spec_mem_len(len: nat) -> nat {
        2
    }

    proof fn lemma_wf(&self) {
        broadcast use vstd::array::group_array_axioms;
    }

    proof fn lemma_mem_len(bytes: Seq<u8>) {
    }

    fn from_bytes_unchecked(bytes: &[u8]) -> (r: Self) {
        let r = Int { bytes: array_from::<2>(bytes, 0) };
        proof {
            assert(bytes@.subrange(0, 2) =~= bytes@.take(2));
        }
        r
    }

    fn as_bytes(&self) -> (r: Vec<u8>) {
        let mut v: Vec<u8> = Vec::new();
        let mut i: usize = 0;
        while i < 2
            invariant
                i <= 2,
                self.spec_bytes().len() == 2,
                v@ == self.spec_bytes().take(i as int),
            decreases 2 - i,
        {
            v.push(self.bytes[i]);
            i = i + 1;
            assert(v@ =~= self.spec_bytes().take(i as int));
        }
        assert(v@ =~= self.spec_bytes());
        v
    }

    fn size_of_bytes(bytes: &[u8]) -> (r: usize) {
        2
    }
}

impl FlatSized for Int<true, 2, false> {
    open spec fn spec_size_of() -> nat {
        2
    }

    open spec fn spec_to_bytes(self) -> Seq<u8> {
        self.spec_bytes()
    }

    open spec fn spec_from_bytes(bytes: Seq<u8>) -> Self {
        Self::spec_from_seq(bytes)
    }

    proof fn lemma_sized_layout(bytes: Seq<u8>) {
        if bytes.len() >= 2 {
            Self::lemma_from_seq(bytes);
            if bytes.len() == 2 {
                assert(bytes.take(2) =~= bytes);
            }
        }
    }

    proof fn lemma_sized_value(v: Self) {
        broadcast use vstd::array::group_array_axioms;
        Self::lemma_from_seq(v.spec_bytes());
        assert(v.spec_bytes().take(2) =~= v.spec_bytes());
    }

    fn size_of() -> (r: usize) {
        2
    }

    fn to_bytes(&self) -> (r: Vec<u8>) {
        self.as_bytes()
    }

    fn read_at(bytes: &[u8], at: usize) -> (r: Self) {
        let r = Int { bytes: array_from::<2>(bytes, at) };
        proof {
            let sub = bytes@.subrange(at as int, at + 2);
            Self::lemma_from_seq(sub);
            assert(sub.take(2) =~= sub);
            assert(r.spec_bytes() == sub.take(2));
        }
        r
    }
}

impl Flat for Int<true, 2, false> {

}

impl Portable for Int<true, 2, false> {
    proof fn lemma_portable_align() {
    }
}


impl Int<true, 2, false> {
    /// The number that the bytes stand for.
    pub open spec fn spec_native(&self) -> u16 {
        spec_u16_from_le_bytes(self.spec_bytes().reverse())
    }

    /// The portable number standing for `x`.
    pub open spec fn spec_from_native(x: u16) -> Self {
        Self::spec_from_seq(spec_u16_to_le_bytes(x).reverse())
    }

    /// Conversions with the native number are inverse to each other.
    pub proof fn lemma_native(x: u16)
        ensures
            Self::spec_from_native(x).spec_native() == x,
            Self::spec_from_native(x).spec_bytes().len() == 2,
    {
        lemma_auto_spec_u16_to_from_le_bytes();
        let b = spec_u16_to_le_bytes(x).reverse();
        Self::lemma_from_seq(b);
        assert(b.take(2) =~= b);
        assert(b.reverse() =~= spec_u16_to_le_bytes(x));
    }

    /// The portable number standing for `x`.
    pub fn from_native(x: u16) -> (r: Self)
        ensures
            r == Self::spec_from_native(x),
            r.spec_native() == x,
    {
        let v = u16_to_le_bytes(x);
        let v = reversed(v.as_slice());
        let r = Int { bytes: array_from::<2>(v.as_slice(), 0) };
        proof {
            Self::lemma_native(x);
            assert(v@.subrange(0, 2) =~= v@);
            Self::lemma_from_seq(v@);
            assert(v@.take(2) =~= v@);
            assert(r.spec_bytes() == v@.take(2));
        }
        r
    }

    /// The number that the bytes stand for.
    pub fn to_native(&self) -> (r: u16)
        ensures
            r == self.spec_native(),
    {
        let b = self.as_bytes();
        let b = reversed(b.as_slice());
        u16_from_le_bytes(b.as_slice())
    }
}

impl FlatLen for Int<true, 2, false> {
    open spec fn spec_value(self) -> nat {
        self.spec_native() as nat
    }

    open spec fn spec_max() -> nat {
        u16::MAX as nat
    }

    open spec fn spec_from_value(n: nat) -> Self {
        Self::spec_from_native(n as u16)
    }

    proof fn lemma_len(v: Self) {
        assert(Self::spec_size_of() == 2);
        assert(v.spec_value() <= Self::spec_max());
        assert(is_pow2(2)) by {
            reveal_with_fuel(is_pow2, 5);
        }
        assert forall|n: nat| n <= Self::spec_max() implies (#[trigger] Self::spec_from_value(n)).spec_value() == n by {
            Self::lemma_native(n as u16);
        }
    }

    fn max_usize() -> (r: usize) {
        u16::MAX as usize
    }

    fn from_usize(n: usize) -> (r: Option<Self>) {
        if n <= u16::MAX as usize {
            Some(Self::from_native(n as u16))
        } else {
            None
        }
    }

    fn into_usize(self) -> (r: usize) {
        self.to_native() as usize
    }
}

impl FlatBase for Int<true, 4, false> {
    open spec fn spec_align() -> nat {
        1
    }

    open spec fn spec_min_size() -> nat {
        4
    }

    open spec fn spec_layout_ok() -> bool {
        true
    }

    proof fn lemma_layout() {
        assert(is_pow2(1)) by {
            reveal(is_pow2);
        }
    }

    fn align() -> (r: usize) {
        1
    }

    fn min_size() -> (r: usize) {
        4
    }
}

impl FlatValidate for Int<true, 4, false> {
    open spec fn spec_validate(bytes: Seq<u8>) -> Result<(), Error> {
        Ok(())
    }

    open spec fn spec_size(bytes: Seq<u8>) -> nat {
        4
    }

    proof fn lemma_valid_size(bytes: Seq<u8>) {
    }

    proof fn lemma_valid_prefix(bytes: Seq<u8>, k: nat) {
    }

    proof fn lemma_error_pos(bytes: Seq<u8>) {
    }

    fn validate_unchecked(bytes: &[u8]) -> (r: Result<(), Error>) {
        Ok(())
    }
}

impl FlatUnsized for Int<true, 4, false> {
    open spec fn wf(&self) -> bool {
        true
    }

    open spec fn spec_mem(&self) -> Seq<u8> {
        self.spec_bytes()
    }

    open spec fn spec_mem_len(len: nat) -> nat {
        4
    }

    proof fn lemma_wf(&self) {
        broadcast use vstd::array::group_array_axioms;
    }

    proof fn lemma_mem_len(bytes: Seq<u8>) {
    }

    fn from_bytes_unchecked(bytes: &[u8]) -> (r: Self) {
        let r = Int { bytes: array_from::<4>(bytes, 0) };
        proof {
            assert(bytes@.subrange(0, 4) =~= bytes@.take(4));
        }
        r
    }

    fn as_bytes(&self) -> (r: Vec<u8>) {
        let mut v: Vec<u8> = Vec::new();
        let mut i: usize = 0;
        while i < 4
            invariant
                i <= 4,
                self.spec_bytes().len() == 4,
                v@ == self.spec_bytes().take(i as int),
            decreases 4 - i,
        {
            v.push(self.bytes[i]);
            i = i + 1;
            assert(v@ =~= self.spec_bytes().take(i as int));
        }
        assert(v@ =~= self.spec_bytes());
        v
    }

    fn size_of_bytes(bytes: &[u8]) -> (r: usize) {
        4
    }
}

impl FlatSized for Int<true, 4, false> {
    open spec fn spec_size_of() -> nat {
        4
    }

    open spec fn spec_to_bytes(self) -> Seq<u8> {
        self.spec_bytes()
    }

    open spec fn spec_from_bytes(bytes: Seq<u8>) -> Self {
        Self::spec_from_seq(bytes)
    }

    proof fn lemma_sized_layout(bytes: Seq<u8>) {
        if bytes.len() >= 4 {
            Self::lemma_from_seq(bytes);
            if bytes.len() == 4 {
                assert(bytes.take(4) =~= bytes);
            }
        }
    }

    proof fn lemma_sized_value(v: Self) {
        broadcast use vstd::array::group_array_axioms;
        Self::lemma_from_seq(v.spec_bytes());
        assert(v.spec_bytes().take(4) =~= v.spec_bytes());
    }

    fn size_of() -> (r: usize) {
        4
    }

    fn to_bytes(&self) -> (r: Vec<u8>) {
        self.as_bytes()
    }

    fn read_at(bytes: &[u8], at: usize) -> (r: Self) {
        let r = Int { bytes: array_from::<4>(bytes, at) };
        proof {
            let sub = bytes@.subrange(at as int, at + 4);
            Self::lemma_from_seq(sub);
            assert(sub.take(4) =~= sub);
            assert(r.spec_bytes() == sub.take(4));
        }
        r
    }
}

impl Flat for Int<true, 4, false> {

}

impl Portable for Int<true, 4, false> {
    proof fn lemma_portable_align() {
    }
}


impl Int<true, 4, false> {
    /// The number that the bytes stand for.
    pub open spec fn spec_native(&self) -> u32 {
        spec_u32_from_le_bytes(self.spec_bytes().reverse())
    }

    /// The portable number standing for `x`.
    pub open spec fn spec_from_native(x: u32) -> Self {
        Self::spec_from_seq(spec_u32_to_le_bytes(x).reverse())
    }

    /// Conversions with the native number are inverse to each other.
    pub proof fn lemma_native(x: u32)
        ensures
            Self::spec_from_native(x).spec_native() == x,
            Self::spec_from_native(x).spec_bytes().len() == 4,
    {
        lemma_auto_spec_u32_to_from_le_bytes();
        let b = spec_u32_to_le_bytes(x).reverse();
        Self::lemma_from_seq(b);
        assert(b.take(4) =~= b);
        assert(b.reverse() =~= spec_u32_to_le_bytes(x));
    }

    /// The portable number standing for `x`.
    pub fn from_native(x: u32) -> (r: Self)
        ensures
            r == Self::spec_from_native(x),
            r.spec_native() == x,
    {
        let v = u32_to_le_bytes(x);
        let v = reversed(v.as_slice());
        let r = Int { bytes: array_from::<4>(v.as_slice(), 0) };
        proof {
            Self::lemma_native(x);
            assert(v@.subrange(0, 4) =~= v@);
            Self::lemma_from_seq(v@);
            assert(v@.take(4) =~= v@);
            assert(r.spec_bytes() == v@.take(4));
        }
        r
    }

    /// The number that the bytes stand for.
    pub fn to_native(&self) -> (r: u32)
        ensures
            r == self.spec_native(),
    {
        let b = self.as_bytes();
        let b = reversed(b.as_slice());
        u32_from_le_bytes(b.as_slice())
    }
}

impl FlatLen for Int<true, 4, false> {
    open spec fn spec_value(self) -> nat {
        self.spec_native() as nat
    }

    open spec fn spec_max() -> nat {
        u32::MAX as nat
    }

    open spec fn spec_from_value(n: nat) -> Self {
        Self::spec_from_native(n as u32)
    }

    proof fn lemma_len(v: Self) {
        assert(Self::spec_size_of() == 4);
        assert(v.spec_value() <= Self::spec_max());
        assert(is_pow2(4)) by {
            reveal_with_fuel(is_pow2, 5);
        }
        assert forall|n: nat| n <= Self::spec_max() implies (#[trigger] Self::spec_from_value(n)).spec_value() == n by {
            Self::lemma_native(n as u32);
        }
    }

    fn max_usize() -> (r: usize) {
        u32::MAX as usize
    }

    fn from_usize(n: usize) -> (r: Option<Self>) {
        if n <= u32::MAX as usize {
            Some(Self::from_native(n as u32))
        } else {
            None
        }
    }

    fn into_usize(self) -> (r: usize) {
        self.to_native() as usize
    }
}

impl FlatBase for Int<true, 8, false> {
    open spec fn spec_align() -> nat {
        1
    }

    open spec fn spec_min_size() -> nat {
        8
    }

    open spec fn spec_layout_ok() -> bool {
        true
    }

    proof fn lemma_layout() {
        assert(is_pow2(1)) by {
            reveal(is_pow2);
        }
    }

    fn align() -> (r: usize) {
        1
    }

    fn min_size() -> (r: usize) {
        8
    }
}

impl FlatValidate for Int<true, 8, false> {
    open spec fn spec_validate(bytes: Seq<u8>) -> Result<(), Error> {
        Ok(())
    }

    open spec fn spec_size(bytes: Seq<u8>) -> nat {
        8
    }

    proof fn lemma_valid_size(bytes: Seq<u8>) {
    }

    proof fn lemma_valid_prefix(bytes: Seq<u8>, k: nat) {
    }

    proof fn lemma_error_pos(bytes: Seq<u8>) {
    }

    fn validate_unchecked(bytes: &[u8]) -> (r: Result<(), Error>) {
        Ok(())
    }
}

impl FlatUnsized for Int<true, 8, false> {
    open spec fn wf(&self) -> bool {
        true
    }

    open spec fn spec_mem(&self) -> Seq<u8> {
        self.spec_bytes()
    }

    open spec fn spec_mem_len(len: nat) -> nat {
        8
    }

    proof fn lemma_wf(&self) {
        broadcast use vstd::array::group_array_axioms;
    }

    proof fn lemma_mem_len(bytes: Seq<u8>) {
    }

    fn from_bytes_unchecked(bytes: &[u8]) -> (r: Self) {
        let r = Int { bytes: array_from::<8>(bytes, 0) };
        proof {
            assert(bytes@.subrange(0, 8) =~= bytes@.take(8));
        }
        r
    }

    fn as_bytes(&self) -> (r: Vec<u8>) {
        let mut v: Vec<u8> = Vec::new();
        let mut i: usize = 0;
        while i < 8
            invariant
                i <= 8,
                self.spec_bytes().len() == 8,
                v@ == self.spec_bytes().take(i as int),
            decreases 8 - i,
        {
            v.push(self.bytes[i]);
            i = i + 1;
            assert(v@ =~= self.spec_bytes().take(i as int));
        }
        assert(v@ =~= self.spec_bytes());
        v
    }

    fn size_of_bytes(bytes: &[u8]) -> (r: usize) {
        8
    }
}

impl FlatSized for Int<true, 8, false> {
    open spec fn spec_size_of() -> nat {
        8
    }

    open spec fn spec_to_bytes(self) -> Seq<u8> {
        self.spec_bytes()
    }

    open spec fn spec_from_bytes(bytes: Seq<u8>) -> Self {
        Self::spec_from_seq(bytes)
    }

    proof fn lemma_sized_layout(bytes: Seq<u8>) {
        if bytes.len() >= 8 {
            Self::lemma_from_seq(bytes);
            if bytes.len() == 8 {
                assert(bytes.take(8) =~= bytes);
            }
        }
    }

    proof fn lemma_sized_value(v: Self) {
        broadcast use vstd::array::group_array_axioms;
        Self::lemma_from_seq(v.spec_bytes());
        assert(v.spec_bytes().take(8) =~= v.spec_bytes());
    }

    fn size_of() -> (r: usize) {
        8
    }

    fn to_bytes(&self) -> (r: Vec<u8>) {
        self.as_bytes()
    }

    fn read_at(bytes: &[u8], at: usize) -> (r: Self) {
        let r = Int { bytes: array_from::<8>(bytes, at) };
        proof {
            let sub = bytes@.subrange(at as int, at + 8);
            Self::lemma_from_seq(sub);
            assert(sub.take(8) =~= sub);
            assert(r.spec_bytes() == sub.take(8));
        }
        r
    }
}

impl Flat for Int<true, 8, false> {

}

impl Portable for Int<true, 8, false> {
    proof fn lemma_portable_align() {
    }
}


impl Int<true, 8, false> {
    /// The number that the bytes stand for.
    pub open spec fn spec_native(&self) -> u64 {
        spec_u64_from_le_bytes(self.spec_bytes().reverse())
    }

    /// The portable number standing for `x`.
    pub open spec fn spec_from_native(x: u64) -> Self {
        Self::spec_from_seq(spec_u64_to_le_bytes(x).reverse())
    }

    /// Conversions with the native number are inverse to each other.
    pub proof fn lemma_native(x: u64)
        ensures
            Self::spec_from_native(x).spec_native() == x,
            Self::spec_from_native(x).spec_bytes().len() == 8,
    {
        lemma_auto_spec_u64_to_from_le_bytes();
        let b = spec_u64_to_le_bytes(x).reverse();
        Self::lemma_from_seq(b);
        assert(b.take(8) =~= b);
        assert(b.reverse() =~= spec_u64_to_le_bytes(x));
    }

    /// The portable number standing for `x`.
    pub fn from_native(x: u64) -> (r: Self)
        ensures
            r == Self::spec_from_native(x),
            r.spec_native() == x,
    {
        let v = u64_to_le_bytes(x);
        let v = reversed(v.as_slice());
        let r = Int { bytes: array_from::<8>(v.as_slice(), 0) };
        proof {
            Self::lemma_native(x);
            assert(v@.subrange(0, 8) =~= v@);
            Self::lemma_from_seq(v@);
            assert(v@.take(8) =~= v@);
            assert(r.spec_bytes() == v@.take(8));
        }
        r
    }

    /// The number that the bytes stand for.
    pub fn to_native(&self) -> (r: u64)
        ensures
            r == self.spec_native(),
    {
        let b = self.as_bytes();
        let b = reversed(b.as_slice());
        u64_from_le_bytes(b.as_slice())
    }
}

impl FlatBase for Int<true, 2, true> {
    open spec fn spec_align() -> nat {
        1
    }

    open spec fn spec_min_size() -> nat {
        2
    }

    open spec fn spec_layout_ok() -> bool {
        true
    }

    proof fn lemma_layout() {
        assert(is_pow2(1)) by {
            reveal(is_pow2);
        }
    }

    fn align() -> (r: usize) {
        1
    }

    fn min_size() -> (r: usize) {
        2
    }
}

impl FlatValidate for Int<true, 2, true> {
    open spec fn spec_validate(bytes: Seq<u8>) -> Result<(), Error> {
        Ok(())
    }

    open spec fn spec_size(bytes: Seq<u8>) -> nat {
        2
    }

    proof fn lemma_valid_size(bytes: Seq<u8>) {
    }

    proof fn lemma_valid_prefix(bytes: Seq<u8>, k: nat) {
    }

    proof fn lemma_error_pos(bytes: Seq<u8>) {
    }

    fn validate_unchecked(bytes: &[u8]) -> (r: Result<(), Error>) {
        Ok(())
    }
}

impl FlatUnsized for Int<true, 2, true> {
    open spec fn wf(&self) -> bool {
        true
    }

    open spec fn spec_mem(&self) -> Seq<u8> {
        self.spec_bytes()
    }

    open spec fn spec_mem_len(len: nat) -> nat {
        2
    }

    proof fn lemma_wf(&self) {
        broadcast use vstd::array::group_array_axioms;
    }

    proof fn lemma_mem_len(bytes: Seq<u8>) {
    }

    fn from_bytes_unchecked(bytes: &[u8]) -> (r: Self) {
        let r = Int { bytes: array_from::<2>(bytes, 0) };
        proof {
            assert(bytes@.subrange(0, 2) =~= bytes@.take(2));
        }
        r
    }

    fn as_bytes(&self) -> (r: Vec<u8>) {
        let mut v: Vec<u8> = Vec::new();
        let mut i: usize = 0;
        while i < 2
            invariant
                i <= 2,
                self.spec_bytes().len() == 2,
                v@ == self.spec_bytes().take(i as int),
            decreases 2 - i,
        {
            v.push(self.bytes[i]);
            i = i + 1;
            assert(v@ =~= self.spec_bytes().take(i as int));
        }
        assert(v@ =~= self.spec_bytes());
        v
    }

    fn size_of_bytes(bytes: &[u8]) -> (r: usize) {
        2
    }
}

impl FlatSized for Int<true, 2, true> {
    open spec fn spec_size_of() -> nat {
        2
    }

    open spec fn spec_to_bytes(self) -> Seq<u8> {
        self.spec_bytes()
    }

    open spec fn spec_from_bytes(bytes: Seq<u8>) -> Self {
        Self::spec_from_seq(bytes)
    }

    proof fn lemma_sized_layout(bytes: Seq<u8>) {
        if bytes.len() >= 2 {
            Self::lemma_from_seq(bytes);
            if bytes.len() == 2 {
                assert(bytes.take(2) =~= bytes);
            }
        }
    }

    proof fn lemma_sized_value(v: Self) {
        broadcast use vstd::array::group_array_axioms;
        Self::lemma_from_seq(v.spec_bytes());
        assert(v.spec_bytes().take(2) =~= v.spec_bytes());
    }

    fn size_of() -> (r: usize) {
        2
    }

    fn to_bytes(&self) -> (r: Vec<u8>) {
        self.as_bytes()
    }

    fn read_at(bytes: &[u8], at: usize) -> (r: Self) {
        let r = Int { bytes: array_from::<2>(bytes, at) };
        proof {
            let sub = bytes@.subrange(at as int, at + 2);
            Self::lemma_from_seq(sub);
            assert(sub.take(2) =~= sub);
            assert(r.spec_bytes() == sub.take(2));
        }
        r
    }
}

impl Flat for Int<true, 2, true> {

}

impl Portable for Int<true, 2, true> {
    proof fn lemma_portable_align() {
    }
}


impl Int<true, 2, true> {
    /// The number that the bytes stand for.
    pub open spec fn spec_native(&self) -> i16 {
        spec_u16_from_le_bytes(self.spec_bytes().reverse()) as i16
    }

    /// The portable number standing for `x`.
    pub open spec fn spec_from_native(x: i16) -> Self {
        Self::spec_from_seq(spec_u16_to_le_bytes(x as u16).reverse())
    }

    /// Conversions with the native number are inverse to each other.
    pub proof fn lemma_native(x: i16)
        ensures
            Self::spec_from_native(x).spec_native() == x,
            Self::spec_from_native(x).spec_bytes().len() == 2,
    {
        lemma_auto_spec_u16_to_from_le_bytes();
        let b = spec_u16_to_le_bytes(x as u16).reverse();
        Self::lemma_from_seq(b);
        assert(b.take(2) =~= b);
        assert(b.reverse() =~= spec_u16_to_le_bytes(x as u16));
            assert((x as u16) as i16 == x) by (bit_vector);
    }

    /// The portable number standing for `x`.
    pub fn from_native(x: i16) -> (r: Self)
        ensures
            r == Self::spec_from_native(x),
            r.spec_native() == x,
    {
        let v = u16_to_le_bytes(x as u16);
        let v = reversed(v.as_slice());
        let r = Int { bytes: array_from::<2>(v.as_slice(), 0) };
        proof {
            Self::lemma_native(x);
            assert(v@.subrange(0, 2) =~= v@);
            Self::lemma_from_seq(v@);
            assert(v@.take(2) =~= v@);
            assert(r.spec_bytes() == v@.take(2));
        }
        r
    }

    /// The number that the bytes stand for.
    pub fn to_native(&self) -> (r: i16)
        ensures
            r == self.spec_native(),
    {
        let b = self.as_bytes();
        let b = reversed(b.as_slice());
        u16_from_le_bytes(b.as_slice()) as i16
    }
}

impl FlatBase for Int<true, 4, true> {
    open spec fn spec_align() -> nat {
        1
    }

    open spec fn spec_min_size() -> nat {
        4
    }

    open spec fn spec_layout_ok() -> bool {
        true
    }

    proof fn lemma_layout() {
        assert(is_pow2(1)) by {
            reveal(is_pow2);
        }
    }

    fn align() -> (r: usize) {
        1
    }

    fn min_size() -> (r: usize) {
        4
    }
}

impl FlatValidate for Int<true, 4, true> {
    open spec fn spec_validate(bytes: Seq<u8>) -> Result<(), Error> {
        Ok(())
    }

    open spec fn spec_size(bytes: Seq<u8>) -> nat {
        4
    }

    proof fn lemma_valid_size(bytes: Seq<u8>) {
    }

    proof fn lemma_valid_prefix(bytes: Seq<u8>, k: nat) {
    }

    proof fn lemma_error_pos(bytes: Seq<u8>) {
    }

    fn validate_unchecked(bytes: &[u8]) -> (r: Result<(), Error>) {
        Ok(())
    }
}

impl FlatUnsized for Int<true, 4, true> {
    open spec fn wf(&self) -> bool {
        true
    }

    open spec fn spec_mem(&self) -> Seq<u8> {
        self.spec_bytes()
    }

    open spec fn spec_mem_len(len: nat) -> nat {
        4
    }

    proof fn lemma_wf(&self) {
        broadcast use vstd::array::group_array_axioms;
    }

    proof fn lemma_mem_len(bytes: Seq<u8>) {
    }

    fn from_bytes_unchecked(bytes: &[u8]) -> (r: Self) {
        let r = Int { bytes: array_from::<4>(bytes, 0) };
        proof {
            assert(bytes@.subrange(0, 4) =~= bytes@.take(4));
        }
        r
    }

    fn as_bytes(&self) -> (r: Vec<u8>) {
        let mut v: Vec<u8> = Vec::new();
        let mut i: usize = 0;
        while i < 4
            invariant
                i <= 4,
                self.spec_bytes().len() == 4,
                v@ == self.spec_bytes().take(i as int),
            decreases 4 - i,
        {
            v.push(self.bytes[i]);
            i = i + 1;
            assert(v@ =~= self.spec_bytes().take(i as int));
        }
        assert(v@ =~= self.spec_bytes());
        v
    }

    fn size_of_bytes(bytes: &[u8]) -> (r: usize) {
        4
    }
}

impl FlatSized for Int<true, 4, true> {
    open spec fn spec_size_of() -> nat {
        4
    }

    open spec fn spec_to_bytes(self) -> Seq<u8> {
        self.spec_bytes()
    }

    open spec fn spec_from_bytes(bytes: Seq<u8>) -> Self {
        Self::spec_from_seq(bytes)
    }

    proof fn lemma_sized_layout(bytes: Seq<u8>) {
        if bytes.len() >= 4 {
            Self::lemma_from_seq(bytes);
            if bytes.len() == 4 {
                assert(bytes.take(4) =~= bytes);
            }
        }
    }

    proof fn lemma_sized_value(v: Self) {
        broadcast use vstd::array::group_array_axioms;
        Self::lemma_from_seq(v.spec_bytes());
        assert(v.spec_bytes().take(4) =~= v.spec_bytes());
    }

    fn size_of() -> (r: usize) {
        4
    }

    fn to_bytes(&self) -> (r: Vec<u8>) {
        self.as_bytes()
    }

    fn read_at(bytes: &[u8], at: usize) -> (r: Self) {
        let r = Int { bytes: array_from::<4>(bytes, at) };
        proof {
            let sub = bytes@.subrange(at as int, at + 4);
            Self::lemma_from_seq(sub);
            assert(sub.take(4) =~= sub);
            assert(r.spec_bytes() == sub.take(4));
        }
        r
    }
}

impl Flat for Int<true, 4, true> {

}

impl Portable for Int<true, 4, true> {
    proof fn lemma_portable_align() {
    }
}


impl Int<true, 4, true> {
    /// The number that the bytes stand for.
    pub open spec fn spec_native(&self) -> i32 {
        spec_u32_from_le_bytes(self.spec_bytes().reverse()) as i32
    }

    /// The portable number standing for `x`.
    pub open spec fn spec_from_native(x: i32) -> Self {
        Self::spec_from_seq(spec_u32_to_le_bytes(x as u32).reverse())
    }

    /// Conversions with the native number are inverse to each other.
    pub proof fn lemma_native(x: i32)
        ensures
            Self::spec_from_native(x).spec_native() == x,
            Self::spec_from_native(x).spec_bytes().len() == 4,
    {
        lemma_auto_spec_u32_to_from_le_bytes();
        let b = spec_u32_to_le_bytes(x as u32).reverse();
        Self::lemma_from_seq(b);
        assert(b.take(4) =~= b);
        assert(b.reverse() =~= spec_u32_to_le_bytes(x as u32));
            assert((x as u32) as i32 == x) by (bit_vector);
    }

    /// The portable number standing for `x`.
    pub fn from_native(x: i32) -> (r: Self)
        ensures
            r == Self::spec_from_native(x),
            r.spec_native() == x,
    {
        let v = u32_to_le_bytes(x as u32);
        let v = reversed(v.as_slice());
        let r = Int { bytes: array_from::<4>(v.as_slice(), 0) };
        proof {
            Self::lemma_native(x);
            assert(v@.subrange(0, 4) =~= v@);
            Self::lemma_from_seq(v@);
            assert(v@.take(4) =~= v@);
            assert(r.spec_bytes() == v@.take(4));
        }
        r
    }

    /// The number that the bytes stand for.
    pub fn to_native(&self) -> (r: i32)
        ensures
            r == self.spec_native(),
    {
        let b = self.as_bytes();
        let b = reversed(b.as_slice());
        u32_from_le_bytes(b.as_slice()) as i32
    }
}

impl FlatBase for Int<true, 8, true> {
    open spec fn spec_align() -> nat {
        1
    }

    open spec fn spec_min_size() -> nat {
        8
    }

    open spec fn spec_layout_ok() -> bool {
        true
    }

    proof fn lemma_layout() {
        assert(is_pow2(1)) by {
            reveal(is_pow2);
        }
    }

    fn align() -> (r: usize) {
        1
    }

    fn min_size() -> (r: usize) {
        8
    }
}

impl FlatValidate for Int<true, 8, true> {
    open spec fn spec_validate(bytes: Seq<u8>) -> Result<(), Error> {
        Ok(())
    }

    open spec fn spec_size(bytes: Seq<u8>) -> nat {
        8
    }

    proof fn lemma_valid_size(bytes: Seq<u8>) {
    }

    proof fn lemma_valid_prefix(bytes: Seq<u8>, k: nat) {
    }

    proof fn lemma_error_pos(bytes: Seq<u8>) {
    }

    fn validate_unchecked(bytes: &[u8]) -> (r: Result<(), Error>) {
        Ok(())
    }
}

impl FlatUnsized for Int<true, 8, true> {
    open spec fn wf(&self) -> bool {
        true
    }

    open spec fn spec_mem(&self) -> Seq<u8> {
        self.spec_bytes()
    }

    open spec fn spec_mem_len(len: nat) -> nat {
        8
    }

    proof fn lemma_wf(&self) {
        broadcast use vstd::array::group_array_axioms;
    }

    proof fn lemma_mem_len(bytes: Seq<u8>) {
    }

    fn from_bytes_unchecked(bytes: &[u8]) -> (r: Self) {
        let r = Int { bytes: array_from::<8>(bytes, 0) };
        proof {
            assert(bytes@.subrange(0, 8) =~= bytes@.take(8));
        }
        r
    }

    fn as_bytes(&self) -> (r: Vec<u8>) {
        let mut v: Vec<u8> = Vec::new();
        let mut i: usize = 0;
        while i < 8
            invariant
                i <= 8,
                self.spec_bytes().len() == 8,
                v@ == self.spec_bytes().take(i as int),
            decreases 8 - i,
        {
            v.push(self.bytes[i]);
            i = i + 1;
            assert(v@ =~= self.spec_bytes().take(i as int));
        }
        assert(v@ =~= self.spec_bytes());
        v
    }

    fn size_of_bytes(bytes: &[u8]) -> (r: usize) {
        8
    }
}

impl FlatSized for Int<true, 8, true> {
    open spec fn spec_size_of() -> nat {
        8
    }

    open spec fn spec_to_bytes(self) -> Seq<u8> {
        self.spec_bytes()
    }

    open spec fn spec_from_bytes(bytes: Seq<u8>) -> Self {
        Self::spec_from_seq(bytes)
    }

    proof fn lemma_sized_layout(bytes: Seq<u8>) {
        if bytes.len() >= 8 {
            Self::lemma_from_seq(bytes);
            if bytes.len() == 8 {
                assert(bytes.take(8) =~= bytes);
            }
        }
    }

    proof fn lemma_sized_value(v: Self) {
        broadcast use vstd::array::group_array_axioms;
        Self::lemma_from_seq(v.spec_bytes());
        assert(v.spec_bytes().take(8) =~= v.spec_bytes());
    }

    fn size_of() -> (r: usize) {
        8
    }

    fn to_bytes(&self) -> (r: Vec<u8>) {
        self.as_bytes()
    }

    fn read_at(bytes: &[u8], at: usize) -> (r: Self) {
        let r = Int { bytes: array_from::<8>(bytes, at) };
        proof {
            let sub = bytes@.subrange(at as int, at + 8);
            Self::lemma_from_seq(sub);
            assert(sub.take(8) =~= sub);
            assert(r.spec_bytes() == sub.take(8));
        }
        r
    }
}

impl Flat for Int<true, 8, true> {

}

impl Portable for Int<true, 8, true> {
    proof fn lemma_portable_align() {
    }
}


impl Int<true, 8, true> {
    /// The number that the bytes stand for.
    pub open spec fn spec_native(&self) -> i64 {
        spec_u64_from_le_bytes(self.spec_bytes().reverse()) as i64
    }

    /// The portable number standing for `x`.
    pub open spec fn spec_from_native(x: i64) -> Self {
        Self::spec_from_seq(spec_u64_to_le_bytes(x as u64).reverse())
    }

    /// Conversions with the native number are inverse to each other.
    pub proof fn lemma_native(x: i64)
        ensures
            Self::spec_from_native(x).spec_native() == x,
            Self::spec_from_native(x).spec_bytes().len() == 8,
    {
        lemma_auto_spec_u64_to_from_le_bytes();
        let b = spec_u64_to_le_bytes(x as u64).reverse();
        Self::lemma_from_seq(b);
        assert(b.take(8) =~= b);
        assert(b.reverse() =~= spec_u64_to_le_bytes(x as u64));
            assert((x as u64) as i64 == x) by (bit_vector);
    }

    /// The portable number standing for `x`.
    pub fn from_native(x: i64) -> (r: Self)
        ensures
            r == Self::spec_from_native(x),
            r.spec_native() == x,
    {
        let v = u64_to_le_bytes(x as u64);
        let v = reversed(v.as_slice());
        let r = Int { bytes: array_from::<8>(v.as_slice(), 0) };
        proof {
            Self::lemma_native(x);
            assert(v@.subrange(0, 8) =~= v@);
            Self::lemma_from_seq(v@);
            assert(v@.take(8) =~= v@);
            assert(r.spec_bytes() == v@.take(8));
        }
        r
    }

    /// The number that the bytes stand for.
    pub fn to_native(&self) -> (r: i64)
        ensures
            r == self.spec_native(),
    {
        let b = self.as_bytes();
        let b = reversed(b.as_slice());
        u64_from_le_bytes(b.as_slice()) as i64
    }
}

impl FlatBase for Float<false, 4> {
    open spec fn spec_align() -> nat {
        1
    }

    open spec fn spec_min_size() -> nat {
        4
    }

    open spec fn spec_layout_ok() -> bool {
        true
    }

    proof fn lemma_layout() {
        assert(is_pow2(1)) by {
            reveal(is_pow2);
        }
    }

    fn align() -> (r: usize) {
        1
    }

    fn min_size() -> (r: usize) {
        4
    }
}

impl FlatValidate for Float<false, 4> {
    open spec fn spec_validate(bytes: Seq<u8>) -> Result<(), Error> {
        Ok(())
    }

    open spec fn spec_size(bytes: Seq<u8>) -> nat {
        4
    }

    proof fn lemma_valid_size(bytes: Seq<u8>) {
    }

    proof fn lemma_valid_prefix(bytes: Seq<u8>, k: nat) {
    }

    proof fn lemma_error_pos(bytes: Seq<u8>) {
    }

    fn validate_unchecked(bytes: &[u8]) -> (r: Result<(), Error>) {
        Ok(())
    }
}

impl FlatUnsized for Float<false, 4> {
    open spec fn wf(&self) -> bool {
        true
    }

    open spec fn spec_mem(&self) -> Seq<u8> {
        self.spec_bytes()
    }

    open spec fn spec_mem_len(len: nat) -> nat {
        4
    }

    proof fn lemma_wf(&self) {
        broadcast use vstd::array::group_array_axioms;
    }

    proof fn lemma_mem_len(bytes: Seq<u8>) {
    }

    fn from_bytes_unchecked(bytes: &[u8]) -> (r: Self) {
        let r = Float { bytes: array_from::<4>(bytes, 0) };
        proof {
            assert(bytes@.subrange(0, 4) =~= bytes@.take(4));
        }
        r
    }

    fn as_bytes(&self) -> (r: Vec<u8>) {
        let mut v: Vec<u8> = Vec::new();
        let mut i: usize = 0;
        while i < 4
            invariant
                i <= 4,
                self.spec_bytes().len() == 4,
                v@ == self.spec_bytes().take(i as int),
            decreases 4 - i,
        {
            v.push(self.bytes[i]);
            i = i + 1;
            assert(v@ =~= self.spec_bytes().take(i as int));
        }
        assert(v@ =~= self.spec_bytes());
        v
    }

    fn size_of_bytes(bytes: &[u8]) -> (r: usize) {
        4
    }
}

impl FlatSized for Float<false, 4> {
    open spec fn spec_size_of() -> nat {
        4
    }

    open spec fn spec_to_bytes(self) -> Seq<u8> {
        self.spec_bytes()
    }

    open spec fn spec_from_bytes(bytes: Seq<u8>) -> Self {
        Self::spec_from_seq(bytes)
    }

    proof fn lemma_sized_layout(bytes: Seq<u8>) {
        if bytes.len() >= 4 {
            Self::lemma_from_seq(bytes);
            if bytes.len() == 4 {
                assert(bytes.take(4) =~= bytes);
            }
        }
    }

    proof fn lemma_sized_value(v: Self) {
        broadcast use vstd::array::group_array_axioms;
        Self::lemma_from_seq(v.spec_bytes());
        assert(v.spec_bytes().take(4) =~= v.spec_bytes());
    }

    fn size_of() -> (r: usize) {
        4
    }

    fn to_bytes(&self) -> (r: Vec<u8>) {
        self.as_bytes()
    }

    fn read_at(bytes: &[u8], at: usize) -> (r: Self) {
        let r = Float { bytes: array_from::<4>(bytes, at) };
        proof {
            let sub = bytes@.subrange(at as int, at + 4);
            Self::lemma_from_seq(sub);
            assert(sub.take(4) =~= sub);
            assert(r.spec_bytes() == sub.take(4));
        }
        r
    }
}

impl Flat for Float<false, 4> {

}

impl Portable for Float<false, 4> {
    proof fn lemma_portable_align() {
    }
}


impl FlatBase for Float<false, 8> {
    open spec fn spec_align() -> nat {
        1
    }

    open spec fn spec_min_size() -> nat {
        8
    }

    open spec fn spec_layout_ok() -> bool {
        true
    }

    proof fn lemma_layout() {
        assert(is_pow2(1)) by {
            reveal(is_pow2);
        }
    }

    fn align() -> (r: usize) {
        1
    }

    fn min_size() -> (r: usize) {
        8
    }
}

impl FlatValidate for Float<false, 8> {
    open spec fn spec_validate(bytes: Seq<u8>) -> Result<(), Error> {
        Ok(())
    }

    open spec fn spec_size(bytes: Seq<u8>) -> nat {
        8
    }

    proof fn lemma_valid_size(bytes: Seq<u8>) {
    }

    proof fn lemma_valid_prefix(bytes: Seq<u8>, k: nat) {
    }

    proof fn lemma_error_pos(bytes: Seq<u8>) {
    }

    fn validate_unchecked(bytes: &[u8]) -> (r: Result<(), Error>) {
        Ok(())
    }
}

impl FlatUnsized for Float<false, 8> {
    open spec fn wf(&self) -> bool {
        true
    }

    open spec fn spec_mem(&self) -> Seq<u8> {
        self.spec_bytes()
    }

    open spec fn spec_mem_len(len: nat) -> nat {
        8
    }

    proof fn lemma_wf(&self) {
        broadcast use vstd::array::group_array_axioms;
    }

    proof fn lemma_mem_len(bytes: Seq<u8>) {
    }

    fn from_bytes_unchecked(bytes: &[u8]) -> (r: Self) {
        let r = Float { bytes: array_from::<8>(bytes, 0) };
        proof {
            assert(bytes@.subrange(0, 8) =~= bytes@.take(8));
        }
        r
    }

    fn as_bytes(&self) -> (r: Vec<u8>) {
        let mut v: Vec<u8> = Vec::new();
        let mut i: usize = 0;
        while i < 8
            invariant
                i <= 8,
                self.spec_bytes().len() == 8,
                v@ == self.spec_bytes().take(i as int),
            decreases 8 - i,
        {
            v.push(self.bytes[i]);
            i = i + 1;
            assert(v@ =~= self.spec_bytes().take(i as int));
        }
        assert(v@ =~= self.spec_bytes());
        v
    }

    fn size_of_bytes(bytes: &[u8]) -> (r: usize) {
        8
    }
}

impl FlatSized for Float<false, 8> {
    open spec fn spec_size_of() -> nat {
        8
    }

    open spec fn spec_to_bytes(self) -> Seq<u8> {
        self.spec_bytes()
    }

    open spec fn spec_from_bytes(bytes: Seq<u8>) -> Self {
        Self::spec_from_seq(bytes)
    }

    proof fn lemma_sized_layout(bytes: Seq<u8>) {
        if bytes.len() >= 8 {
            Self::lemma_from_seq(bytes);
            if bytes.len() == 8 {
                assert(bytes.take(8) =~= bytes);
            }
        }
    }

    proof fn lemma_sized_value(v: Self) {
        broadcast use vstd::array::group_array_axioms;
        Self::lemma_from_seq(v.spec_bytes());
        assert(v.spec_bytes().take(8) =~= v.spec_bytes());
    }

    fn size_of() -> (r: usize) {
        8
    }

    fn to_bytes(&self) -> (r: Vec<u8>) {
        self.as_bytes()
    }

    fn read_at(bytes: &[u8], at: usize) -> (r: Self) {
        let r = Float { bytes: array_from::<8>(bytes, at) };
        proof {
            let sub = bytes@.subrange(at as int, at + 8);
            Self::lemma_from_seq(sub);
            assert(sub.take(8) =~= sub);
            assert(r.spec_bytes() == sub.take(8));
        }
        r
    }
}

impl Flat for Float<false, 8> {

}

impl Portable for Float<false, 8> {
    proof fn lemma_portable_align() {
    }
}


impl FlatBase for Float<true, 4> {
    open spec fn spec_align() -> nat {
        1
    }

    open spec fn spec_min_size() -> nat {
        4
    }

    open spec fn spec_layout_ok() -> bool {
        true
    }

    proof fn lemma_layout() {
        assert(is_pow2(1)) by {
            reveal(is_pow2);
        }
    }

    fn align() -> (r: usize) {
        1
    }

    fn min_size() -> (r: usize) {
        4
    }
}

impl FlatValidate for Float<true, 4> {
    open spec fn spec_validate(bytes: Seq<u8>) -> Result<(), Error> {
        Ok(())
    }

    open spec fn spec_size(bytes: Seq<u8>) -> nat {
        4
    }

    proof fn lemma_valid_size(bytes: Seq<u8>) {
    }

    proof fn lemma_valid_prefix(bytes: Seq<u8>, k: nat) {
    }

    proof fn lemma_error_pos(bytes: Seq<u8>) {
    }

    fn validate_unchecked(bytes: &[u8]) -> (r: Result<(), Error>) {
        Ok(())
    }
}

impl FlatUnsized for Float<true, 4> {
    open spec fn wf(&self) -> bool {
        true
    }

    open spec fn spec_mem(&self) -> Seq<u8> {
        self.spec_bytes()
    }

    open spec fn spec_mem_len(len: nat) -> nat {
        4
    }

    proof fn lemma_wf(&self) {
        broadcast use vstd::array::group_array_axioms;
    }

    proof fn lemma_mem_len(bytes: Seq<u8>) {
    }

    fn from_bytes_unchecked(bytes: &[u8]) -> (r: Self) {
        let r = Float { bytes: array_from::<4>(bytes, 0) };
        proof {
            assert(bytes@.subrange(0, 4) =~= bytes@.take(4));
        }
        r
    }

    fn as_bytes(&self) -> (r: Vec<u8>) {
        let mut v: Vec<u8> = Vec::new();
        let mut i: usize = 0;
        while i < 4
            invariant
                i <= 4,
                self.spec_bytes().len() == 4,
                v@ == self.spec_bytes().take(i as int),
            decreases 4 - i,
        {
            v.push(self.bytes[i]);
            i = i + 1;
            assert(v@ =~= self.spec_bytes().take(i as int));
        }
        assert(v@ =~= self.spec_bytes());
        v
    }

    fn size_of_bytes(bytes: &[u8]) -> (r: usize) {
        4
    }
}

impl FlatSized for Float<true, 4> {
    open spec fn spec_size_of() -> nat {
        4
    }

    open spec fn spec_to_bytes(self) -> Seq<u8> {
        self.spec_bytes()
    }

    open spec fn spec_from_bytes(bytes: Seq<u8>) -> Self {
        Self::spec_from_seq(bytes)
    }

    proof fn lemma_sized_layout(bytes: Seq<u8>) {
        if bytes.len() >= 4 {
            Self::lemma_from_seq(bytes);
            if bytes.len() == 4 {
                assert(bytes.take(4) =~= bytes);
            }
        }
    }

    proof fn lemma_sized_value(v: Self) {
        broadcast use vstd::array::group_array_axioms;
        Self::lemma_from_seq(v.spec_bytes());
        assert(v.spec_bytes().take(4) =~= v.spec_bytes());
    }

    fn size_of() -> (r: usize) {
        4
    }

    fn to_bytes(&self) -> (r: Vec<u8>) {
        self.as_bytes()
    }

    fn read_at(bytes: &[u8], at: usize) -> (r: Self) {
        let r = Float { bytes: array_from::<4>(bytes, at) };
        proof {
            let sub = bytes@.subrange(at as int, at + 4);
            Self::lemma_from_seq(sub);
            assert(sub.take(4) =~= sub);
            assert(r.spec_bytes() == sub.take(4));
        }
        r
    }
}

impl Flat for Float<true, 4> {

}

impl Portable for Float<true, 4> {
    proof fn lemma_portable_align() {
    }
}


impl FlatBase for Float<true, 8> {
    open spec fn spec_align() -> nat {
        1
    }

    open spec fn spec_min_size() -> nat {
        8
    }

    open spec fn spec_layout_ok() -> bool {
        true
    }

    proof fn lemma_layout() {
        assert(is_pow2(1)) by {
            reveal(is_pow2);
        }
    }

    fn align() -> (r: usize) {
        1
    }

    fn min_size() -> (r: usize) {
        8
    }
}

impl FlatValidate for Float<true, 8> {
    open spec fn spec_validate(bytes: Seq<u8>) -> Result<(), Error> {
        Ok(())
    }

    open spec fn spec_size(bytes: Seq<u8>) -> nat {
        8
    }

    proof fn lemma_valid_size(bytes: Seq<u8>) {
    }

    proof fn lemma_valid_prefix(bytes: Seq<u8>, k: nat) {
    }

    proof fn lemma_error_pos(bytes: Seq<u8>) {
    }

    fn validate_unchecked(bytes: &[u8]) -> (r: Result<(), Error>) {
        Ok(())
    }
}

impl FlatUnsized for Float<true, 8> {
    open spec fn wf(&self) -> bool {
        true
    }

    open spec fn spec_mem(&self) -> Seq<u8> {
        self.spec_bytes()
    }

    open spec fn spec_mem_len(len: nat) -> nat {
        8
    }

    proof fn lemma_wf(&self) {
        broadcast use vstd::array::group_array_axioms;
    }

    proof fn lemma_mem_len(bytes: Seq<u8>) {
    }

    fn from_bytes_unchecked(bytes: &[u8]) -> (r: Self) {
        let r = Float { bytes: array_from::<8>(bytes, 0) };
        proof {
            assert(bytes@.subrange(0, 8) =~= bytes@.take(8));
        }
        r
    }

    fn as_bytes(&self) -> (r: Vec<u8>) {
        let mut v: Vec<u8> = Vec::new();
        let mut i: usize = 0;
        while i < 8
            invariant
                i <= 8,
                self.spec_bytes().len() == 8,
                v@ == self.spec_bytes().take(i as int),
            decreases 8 - i,
        {
            v.push(self.bytes[i]);
            i = i + 1;
            assert(v@ =~= self.spec_bytes().take(i as int));
        }
        assert(v@ =~= self.spec_bytes());
        v
    }

    fn size_of_bytes(bytes: &[u8]) -> (r: usize) {
        8
    }
}

impl FlatSized for Float<true, 8> {
    open spec fn spec_size_of() -> nat {
        8
    }

    open spec fn spec_to_bytes(self) -> Seq<u8> {
        self.spec_bytes()
    }

    open spec fn spec_from_bytes(bytes: Seq<u8>) -> Self {
        Self::spec_from_seq(bytes)
    }

    proof fn lemma_sized_layout(bytes: Seq<u8>) {
        if bytes.len() >= 8 {
            Self::lemma_from_seq(bytes);
            if bytes.len() == 8 {
                assert(bytes.take(8) =~= bytes);
            }
        }
    }

    proof fn lemma_sized_value(v: Self) {
        broadcast use vstd::array::group_array_axioms;
        Self::lemma_from_seq(v.spec_bytes());
        assert(v.spec_bytes().take(8) =~= v.spec_bytes());
    }

    fn size_of() -> (r: usize) {
        8
    }

    fn to_bytes(&self) -> (r: Vec<u8>) {
        self.as_bytes()
    }

    fn read_at(bytes: &[u8], at: usize) -> (r: Self) {
        let r = Float { bytes: array_from::<8>(bytes, at) };
        proof {
            let sub = bytes@.subrange(at as int, at + 8);
            Self::lemma_from_seq(sub);
            assert(sub.take(8) =~= sub);
            assert(r.spec_bytes() == sub.take(8));
        }
        r
    }
}

impl Flat for Float<true, 8> {

}

impl Portable for Float<true, 8> {
    proof fn lemma_portable_align() {
    }
}


} // verus!
