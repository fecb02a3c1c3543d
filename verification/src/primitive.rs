use crate::error::Error;
use crate::traits::{
    splice, write_bytes, Emplacer, Flat, FlatBase, FlatDefault, FlatLen, FlatSized, FlatUnsized,
    FlatValidate, Portable,
};
use crate::portable::array_from;
use crate::utils::{lemma_divisor_le, lemma_pow2_fits};
use vstd::arithmetic::power2::is_pow2;
use vstd::bytes::*;
use vstd::endian::{endianness, Endian};
use vstd::layout::{align_of, layout_for_type_is_valid, size_of, valid_layout};
use vstd::prelude::*;
use vstd::slice::{slice_subrange, slice_to_vec};

verus! {

broadcast use vstd::layout::layout_of_primitives;

/// `le`, the little-endian bytes of a number, in the byte order of the machine (vstd's
/// `endianness`): as they are on a little-endian machine, reversed on a big-endian one.
pub open spec fn spec_host_order(le: Seq<u8>) -> Seq<u8> {
    match endianness() {
        Endian::Little => le,
        Endian::Big => le.reverse(),
    }
}

/// Putting bytes in the machine's order keeps their number and, done twice, gives them back.
pub proof fn lemma_host_order(s: Seq<u8>)
    ensures
        spec_host_order(s).len() == s.len(),
        spec_host_order(spec_host_order(s)) == s,
{
    match endianness() {
        Endian::Little => {},
        Endian::Big => {
            assert(s.reverse().reverse() =~= s);
        },
    }
}

/// Calls `u16::to_ne_bytes`: the bytes of `x` in the machine's byte order, which its
/// documentation calls native and vstd's `endianness` names.
#[verifier::external_body]
fn u16_to_ne_bytes(x: u16) -> (r: [u8; 2])
    ensures
        r@ == spec_host_order(spec_u16_to_le_bytes(x)),
{
    x.to_ne_bytes()
}

/// Calls `u16::from_ne_bytes`: the number whose bytes in the machine's byte order are `b`.
#[verifier::external_body]
fn u16_from_ne_bytes(b: [u8; 2]) -> (r: u16)
    ensures
        r == spec_u16_from_le_bytes(spec_host_order(b@)),
{
    u16::from_ne_bytes(b)
}

/// Calls `u32::to_ne_bytes`: the bytes of `x` in the machine's byte order, which its
/// documentation calls native and vstd's `endianness` names.
#[verifier::external_body]
fn u32_to_ne_bytes(x: u32) -> (r: [u8; 4])
    ensures
        r@ == spec_host_order(spec_u32_to_le_bytes(x)),
{
    x.to_ne_bytes()
}

/// Calls `u32::from_ne_bytes`: the number whose bytes in the machine's byte order are `b`.
#[verifier::external_body]
fn u32_from_ne_bytes(b: [u8; 4]) -> (r: u32)
    ensures
        r == spec_u32_from_le_bytes(spec_host_order(b@)),
{
    u32::from_ne_bytes(b)
}

/// Calls `u64::to_ne_bytes`: the bytes of `x` in the machine's byte order, which its
/// documentation calls native and vstd's `endianness` names.
#[verifier::external_body]
fn u64_to_ne_bytes(x: u64) -> (r: [u8; 8])
    ensures
        r@ == spec_host_order(spec_u64_to_le_bytes(x)),
{
    x.to_ne_bytes()
}

/// Calls `u64::from_ne_bytes`: the number whose bytes in the machine's byte order are `b`.
#[verifier::external_body]
fn u64_from_ne_bytes(b: [u8; 8]) -> (r: u64)
    ensures
        r == spec_u64_from_le_bytes(spec_host_order(b@)),
{
    u64::from_ne_bytes(b)
}

impl FlatBase for u8 {
    open spec fn spec_align() -> nat {
        align_of::<u8>()
    }

    open spec fn spec_min_size() -> nat {
        1
    }

    open spec fn spec_layout_ok() -> bool {
        &&& valid_layout(size_of::<u8>() as usize, align_of::<u8>() as usize)
        &&& size_of::<u8>() as usize as nat == size_of::<u8>()
        &&& align_of::<u8>() as usize as nat == align_of::<u8>()
        &&& align_of::<u8>() != 0
        &&& size_of::<u8>() % align_of::<u8>() == 0
    }

    proof fn lemma_layout() {
        assert(size_of::<u8>() == 1);
        lemma_pow2_fits(align_of::<u8>() as int);
        lemma_divisor_le(align_of::<u8>() as int, 1);
    }

    fn align() -> (r: usize) {
        layout_for_type_is_valid::<u8>();
        core::mem::align_of::<u8>()
    }

    fn min_size() -> (r: usize) {
        layout_for_type_is_valid::<u8>();
        core::mem::size_of::<u8>()
    }
}

impl FlatValidate for u8 {
    open spec fn spec_validate(bytes: Seq<u8>) -> Result<(), Error> {
        Ok(())
    }

    open spec fn spec_size(bytes: Seq<u8>) -> nat {
        1
    }

    proof fn lemma_valid_size(bytes: Seq<u8>) {
        assert(Self::spec_size_of() == 1 && Self::spec_min_size() == 1 && Self::spec_mem_len(0) == 1);
    }

    proof fn lemma_error_pos(bytes: Seq<u8>) {
    }

    proof fn lemma_valid_prefix(bytes: Seq<u8>, k: nat) {
        assert(Self::spec_size_of() == 1 && Self::spec_min_size() == 1 && Self::spec_mem_len(0) == 1);
        assert(Self::spec_validate(bytes.take(k as int)) is Ok);
        assert(Self::spec_size(bytes.take(k as int)) == 1);
    }

    fn validate_unchecked(bytes: &[u8]) -> (r: Result<(), Error>) {
        Ok(())
    }
}

impl FlatUnsized for u8 {
    open spec fn wf(&self) -> bool {
        Self::spec_layout_ok()
    }

    open spec fn spec_mem(&self) -> Seq<u8> {
        seq![*self]
    }

    open spec fn spec_mem_len(len: nat) -> nat {
        1
    }

    proof fn lemma_wf(&self) {
        Self::lemma_sized_value(*self);
        Self::lemma_layout();
        assert(Self::spec_size_of() == 1 && Self::spec_min_size() == 1 && Self::spec_mem_len(0) == 1);
        assert(Self::spec_validate(self.spec_mem()) is Ok);
    }

    proof fn lemma_mem_len(bytes: Seq<u8>) {
        assert(Self::spec_size_of() == 1 && Self::spec_min_size() == 1 && Self::spec_mem_len(0) == 1);
        assert(Self::spec_mem_len(bytes.len()) == 1);
        assert(Self::spec_validate(bytes.take(1)) is Ok);
    }

    fn from_bytes_unchecked(bytes: &[u8]) -> (r: Self) {
        assert(Self::spec_size_of() == 1 && Self::spec_min_size() == 1 && Self::spec_mem_len(0) == 1);
        let r = Self::read_at(bytes, 0);
        proof {
            Self::lemma_sized_value(r);
            assert(bytes@.subrange(0, 1)[0] == bytes@[0]);
            assert(r.spec_to_bytes() =~= bytes@.take(1));
        }
        r
    }

    fn as_bytes(&self) -> (r: Vec<u8>) {
        self.to_bytes()
    }

    fn size_of_bytes(bytes: &[u8]) -> (r: usize) {
        assert(Self::spec_size_of() == 1 && Self::spec_min_size() == 1 && Self::spec_mem_len(0) == 1);
        1
    }
}

impl FlatSized for u8 {
    open spec fn spec_size_of() -> nat {
        1
    }

    open spec fn spec_to_bytes(self) -> Seq<u8> {
        seq![self]
    }

    open spec fn spec_from_bytes(bytes: Seq<u8>) -> Self {
        bytes[0]
    }

    proof fn lemma_sized_layout(bytes: Seq<u8>) {
        assert(Self::spec_size_of() == 1 && Self::spec_min_size() == 1 && Self::spec_mem_len(0) == 1);
        assert(size_of::<u8>() == 1);
        if bytes.len() >= 1 {
            assert(bytes.take(1)[0] == bytes[0]);
            assert(Self::spec_validate(bytes) == Self::spec_validate(bytes.take(1)));
            assert(Self::spec_size(bytes) == 1);
            assert(Self::spec_mem_len(bytes.len()) == 1);
        }
        if bytes.len() == 1 {
            assert(Self::spec_from_bytes(bytes).spec_to_bytes() =~= bytes);
        }
    }

    proof fn lemma_sized_value(v: Self) {
        assert(Self::spec_size_of() == 1 && Self::spec_min_size() == 1 && Self::spec_mem_len(0) == 1);
        assert(v.spec_to_bytes()[0] == v as u8);
        assert(Self::spec_from_bytes(v.spec_to_bytes()) == v);
        assert(Self::spec_validate(v.spec_to_bytes()) is Ok);
        assert(v.spec_mem() == v.spec_to_bytes());
    }

    fn size_of() -> (r: usize) {
        layout_for_type_is_valid::<u8>();
        core::mem::size_of::<u8>()
    }

    fn to_bytes(&self) -> (r: Vec<u8>) {
        let mut v: Vec<u8> = Vec::new();
        v.push(*self);
        proof {
            assert(v@ =~= self.spec_to_bytes());
        }
        v
    }

    fn read_at(bytes: &[u8], at: usize) -> (r: Self) {
        assert(Self::spec_size_of() == 1 && Self::spec_min_size() == 1 && Self::spec_mem_len(0) == 1);
        let b = bytes[at];
        proof {
            assert(bytes@.subrange(at as int, at + 1)[0] == b);
        }
        let r = b;
        assert(r == Self::spec_from_bytes(bytes@.subrange(at as int, at + 1)));
        r
    }
}

impl Flat for u8 {

}

impl FlatDefault for u8 {
    type DefaultEmplacer = u8;

    open spec fn spec_default_emplacer() -> u8 {
        0
    }

    fn default_emplacer() -> (r: u8) {
        0
    }
}

impl FlatLen for u8 {
    open spec fn spec_value(self) -> nat {
        self as nat
    }

    open spec fn spec_max() -> nat {
        u8::MAX as nat
    }

    open spec fn spec_from_value(n: nat) -> Self {
        n as u8
    }

    proof fn lemma_len(v: Self) {
        assert(Self::spec_size_of() == 1 && Self::spec_min_size() == 1 && Self::spec_mem_len(0) == 1);
        assert(is_pow2(1)) by {
            reveal_with_fuel(is_pow2, 4);
        }
    }

    fn max_usize() -> (r: usize) {
        u8::MAX as usize
    }

    fn from_usize(n: usize) -> (r: Option<Self>) {
        if n <= u8::MAX as usize {
            Some(n as u8)
        } else {
            None
        }
    }

    fn into_usize(self) -> (r: usize) {
        self as usize
    }
}

impl Portable for u8 {
    proof fn lemma_portable_align() {
        assert(size_of::<u8>() == 1);
        lemma_divisor_le(align_of::<u8>() as int, 1);
    }
}

impl FlatBase for u16 {
    open spec fn spec_align() -> nat {
        align_of::<u16>()
    }

    open spec fn spec_min_size() -> nat {
        2
    }

    open spec fn spec_layout_ok() -> bool {
        &&& valid_layout(size_of::<u16>() as usize, align_of::<u16>() as usize)
        &&& size_of::<u16>() as usize as nat == size_of::<u16>()
        &&& align_of::<u16>() as usize as nat == align_of::<u16>()
        &&& align_of::<u16>() != 0
        &&& size_of::<u16>() % align_of::<u16>() == 0
    }

    proof fn lemma_layout() {
        assert(size_of::<u16>() == 2);
        lemma_pow2_fits(align_of::<u16>() as int);
        lemma_divisor_le(align_of::<u16>() as int, 2);
    }

    fn align() -> (r: usize) {
        layout_for_type_is_valid::<u16>();
        core::mem::align_of::<u16>()
    }

    fn min_size() -> (r: usize) {
        layout_for_type_is_valid::<u16>();
        core::mem::size_of::<u16>()
    }
}

impl FlatValidate for u16 {
    open spec fn spec_validate(bytes: Seq<u8>) -> Result<(), Error> {
        Ok(())
    }

    open spec fn spec_size(bytes: Seq<u8>) -> nat {
        2
    }

    proof fn lemma_valid_size(bytes: Seq<u8>) {
        assert(Self::spec_size_of() == 2 && Self::spec_min_size() == 2 && Self::spec_mem_len(0) == 2);
    }

    proof fn lemma_error_pos(bytes: Seq<u8>) {
    }

    proof fn lemma_valid_prefix(bytes: Seq<u8>, k: nat) {
        assert(Self::spec_size_of() == 2 && Self::spec_min_size() == 2 && Self::spec_mem_len(0) == 2);
        assert(Self::spec_validate(bytes.take(k as int)) is Ok);
        assert(Self::spec_size(bytes.take(k as int)) == 2);
    }

    fn validate_unchecked(bytes: &[u8]) -> (r: Result<(), Error>) {
        Ok(())
    }
}

impl FlatUnsized for u16 {
    open spec fn wf(&self) -> bool {
        Self::spec_layout_ok()
    }

    open spec fn spec_mem(&self) -> Seq<u8> {
        spec_host_order(spec_u16_to_le_bytes(*self))
    }

    open spec fn spec_mem_len(len: nat) -> nat {
        2
    }

    proof fn lemma_wf(&self) {
        Self::lemma_sized_value(*self);
        Self::lemma_layout();
        assert(Self::spec_size_of() == 2 && Self::spec_min_size() == 2 && Self::spec_mem_len(0) == 2);
        assert(Self::spec_validate(self.spec_mem()) is Ok);
    }

    proof fn lemma_mem_len(bytes: Seq<u8>) {
        assert(Self::spec_size_of() == 2 && Self::spec_min_size() == 2 && Self::spec_mem_len(0) == 2);
        assert(Self::spec_mem_len(bytes.len()) == 2);
        assert(Self::spec_validate(bytes.take(2)) is Ok);
    }

    fn from_bytes_unchecked(bytes: &[u8]) -> (r: Self) {
        assert(Self::spec_size_of() == 2 && Self::spec_min_size() == 2 && Self::spec_mem_len(0) == 2);
        let r = Self::read_at(bytes, 0);
        proof {
            Self::lemma_sized_value(r);
            lemma_auto_spec_u16_to_from_le_bytes();
            let sub = bytes@.subrange(0, 2);
            assert(sub =~= bytes@.take(2));
            assert(sub.subrange(0, 2) =~= sub);
            lemma_host_order(sub);
            let w = spec_u16_from_le_bytes(spec_host_order(sub));
            assert(r == Self::spec_from_bytes(sub));
            assert(spec_u16_to_le_bytes(w) == spec_host_order(sub));
            assert(r == w);
            assert(r == w);
            assert(r.spec_to_bytes() == spec_host_order(spec_u16_to_le_bytes(r)));
            assert(r.spec_to_bytes() =~= bytes@.take(2));
        }
        r
    }

    fn as_bytes(&self) -> (r: Vec<u8>) {
        self.to_bytes()
    }

    fn size_of_bytes(bytes: &[u8]) -> (r: usize) {
        assert(Self::spec_size_of() == 2 && Self::spec_min_size() == 2 && Self::spec_mem_len(0) == 2);
        2
    }
}

impl FlatSized for u16 {
    open spec fn spec_size_of() -> nat {
        2
    }

    open spec fn spec_to_bytes(self) -> Seq<u8> {
        spec_host_order(spec_u16_to_le_bytes(self))
    }

    open spec fn spec_from_bytes(bytes: Seq<u8>) -> Self {
        spec_u16_from_le_bytes(spec_host_order(bytes.subrange(0, 2)))
    }

    proof fn lemma_sized_layout(bytes: Seq<u8>) {
        assert(Self::spec_size_of() == 2 && Self::spec_min_size() == 2 && Self::spec_mem_len(0) == 2);
        assert(size_of::<u16>() == 2);
        if bytes.len() >= 2 {
            assert(bytes.take(2).subrange(0, 2) =~= bytes.subrange(0, 2));
            assert(Self::spec_validate(bytes) == Self::spec_validate(bytes.take(2)));
            assert(Self::spec_size(bytes) == 2);
            assert(Self::spec_mem_len(bytes.len()) == 2);
        }
        if bytes.len() == 2 {
            lemma_auto_spec_u16_to_from_le_bytes();
            assert(bytes.subrange(0, 2) =~= bytes);
            lemma_host_order(bytes);
            let w = spec_u16_from_le_bytes(spec_host_order(bytes));
            assert(spec_u16_to_le_bytes(w) == spec_host_order(bytes));
            assert(Self::spec_from_bytes(bytes).spec_to_bytes() == spec_host_order(spec_u16_to_le_bytes(w)));
        }
    }

    proof fn lemma_sized_value(v: Self) {
        assert(Self::spec_size_of() == 2 && Self::spec_min_size() == 2 && Self::spec_mem_len(0) == 2);
        lemma_auto_spec_u16_to_from_le_bytes();
        let le = spec_u16_to_le_bytes(v);
        lemma_host_order(le);
        assert(v.spec_to_bytes().subrange(0, 2) =~= v.spec_to_bytes());
        assert(spec_u16_from_le_bytes(le) == v);
        assert(Self::spec_from_bytes(v.spec_to_bytes()) == v);
        assert(Self::spec_validate(v.spec_to_bytes()) is Ok);
        assert(v.spec_mem() == v.spec_to_bytes());
    }

    fn size_of() -> (r: usize) {
        layout_for_type_is_valid::<u16>();
        core::mem::size_of::<u16>()
    }

    fn to_bytes(&self) -> (r: Vec<u8>) {
        broadcast use vstd::array::group_array_axioms;
        let a = u16_to_ne_bytes(*self);
        slice_to_vec(a.as_slice())
    }

    fn read_at(bytes: &[u8], at: usize) -> (r: Self) {
        assert(Self::spec_size_of() == 2 && Self::spec_min_size() == 2 && Self::spec_mem_len(0) == 2);
        let a = array_from::<2>(bytes, at);
        let r = u16_from_ne_bytes(a);
        proof {
            let sub = bytes@.subrange(at as int, at + 2);
            assert(sub.subrange(0, 2) =~= sub);
        }
        r
    }
}

impl Flat for u16 {

}

impl FlatDefault for u16 {
    type DefaultEmplacer = u16;

    open spec fn spec_default_emplacer() -> u16 {
        0
    }

    fn default_emplacer() -> (r: u16) {
        0
    }
}

impl FlatLen for u16 {
    open spec fn spec_value(self) -> nat {
        self as nat
    }

    open spec fn spec_max() -> nat {
        u16::MAX as nat
    }

    open spec fn spec_from_value(n: nat) -> Self {
        n as u16
    }

    proof fn lemma_len(v: Self) {
        assert(Self::spec_size_of() == 2 && Self::spec_min_size() == 2 && Self::spec_mem_len(0) == 2);
        assert(is_pow2(2)) by {
            reveal_with_fuel(is_pow2, 4);
        }
    }

    fn max_usize() -> (r: usize) {
        u16::MAX as usize
    }

    fn from_usize(n: usize) -> (r: Option<Self>) {
        if n <= u16::MAX as usize {
            Some(n as u16)
        } else {
            None
        }
    }

    fn into_usize(self) -> (r: usize) {
        self as usize
    }
}

impl FlatBase for u32 {
    open spec fn spec_align() -> nat {
        align_of::<u32>()
    }

    open spec fn spec_min_size() -> nat {
        4
    }

    open spec fn spec_layout_ok() -> bool {
        &&& valid_layout(size_of::<u32>() as usize, align_of::<u32>() as usize)
        &&& size_of::<u32>() as usize as nat == size_of::<u32>()
        &&& align_of::<u32>() as usize as nat == align_of::<u32>()
        &&& align_of::<u32>() != 0
        &&& size_of::<u32>() % align_of::<u32>() == 0
    }

    proof fn lemma_layout() {
        assert(size_of::<u32>() == 4);
        lemma_pow2_fits(align_of::<u32>() as int);
        lemma_divisor_le(align_of::<u32>() as int, 4);
    }

    fn align() -> (r: usize) {
        layout_for_type_is_valid::<u32>();
        core::mem::align_of::<u32>()
    }

    fn min_size() -> (r: usize) {
        layout_for_type_is_valid::<u32>();
        core::mem::size_of::<u32>()
    }
}

impl FlatValidate for u32 {
    open spec fn spec_validate(bytes: Seq<u8>) -> Result<(), Error> {
        Ok(())
    }

    open spec fn spec_size(bytes: Seq<u8>) -> nat {
        4
    }

    proof fn lemma_valid_size(bytes: Seq<u8>) {
        assert(Self::spec_size_of() == 4 && Self::spec_min_size() == 4 && Self::spec_mem_len(0) == 4);
    }

    proof fn lemma_error_pos(bytes: Seq<u8>) {
    }

    proof fn lemma_valid_prefix(bytes: Seq<u8>, k: nat) {
        assert(Self::spec_size_of() == 4 && Self::spec_min_size() == 4 && Self::spec_mem_len(0) == 4);
        assert(Self::spec_validate(bytes.take(k as int)) is Ok);
        assert(Self::spec_size(bytes.take(k as int)) == 4);
    }

    fn validate_unchecked(bytes: &[u8]) -> (r: Result<(), Error>) {
        Ok(())
    }
}

impl FlatUnsized for u32 {
    open spec fn wf(&self) -> bool {
        Self::spec_layout_ok()
    }

    open spec fn spec_mem(&self) -> Seq<u8> {
        spec_host_order(spec_u32_to_le_bytes(*self))
    }

    open spec fn spec_mem_len(len: nat) -> nat {
        4
    }

    proof fn lemma_wf(&self) {
        Self::lemma_sized_value(*self);
        Self::lemma_layout();
        assert(Self::spec_size_of() == 4 && Self::spec_min_size() == 4 && Self::spec_mem_len(0) == 4);
        assert(Self::spec_validate(self.spec_mem()) is Ok);
    }

    proof fn lemma_mem_len(bytes: Seq<u8>) {
        assert(Self::spec_size_of() == 4 && Self::spec_min_size() == 4 && Self::spec_mem_len(0) == 4);
        assert(Self::spec_mem_len(bytes.len()) == 4);
        assert(Self::spec_validate(bytes.take(4)) is Ok);
    }

    fn from_bytes_unchecked(bytes: &[u8]) -> (r: Self) {
        assert(Self::spec_size_of() == 4 && Self::spec_min_size() == 4 && Self::spec_mem_len(0) == 4);
        let r = Self::read_at(bytes, 0);
        proof {
            Self::lemma_sized_value(r);
            lemma_auto_spec_u32_to_from_le_bytes();
            let sub = bytes@.subrange(0, 4);
            assert(sub =~= bytes@.take(4));
            assert(sub.subrange(0, 4) =~= sub);
            lemma_host_order(sub);
            let w = spec_u32_from_le_bytes(spec_host_order(sub));
            assert(r == Self::spec_from_bytes(sub));
            assert(spec_u32_to_le_bytes(w) == spec_host_order(sub));
            assert(r == w);
            assert(r == w);
            assert(r.spec_to_bytes() == spec_host_order(spec_u32_to_le_bytes(r)));
            assert(r.spec_to_bytes() =~= bytes@.take(4));
        }
        r
    }

    fn as_bytes(&self) -> (r: Vec<u8>) {
        self.to_bytes()
    }

    fn size_of_bytes(bytes: &[u8]) -> (r: usize) {
        assert(Self::spec_size_of() == 4 && Self::spec_min_size() == 4 && Self::spec_mem_len(0) == 4);
        4
    }
}

impl FlatSized for u32 {
    open spec fn spec_size_of() -> nat {
        4
    }

    open spec fn spec_to_bytes(self) -> Seq<u8> {
        spec_host_order(spec_u32_to_le_bytes(self))
    }

    open spec fn spec_from_bytes(bytes: Seq<u8>) -> Self {
        spec_u32_from_le_bytes(spec_host_order(bytes.subrange(0, 4)))
    }

    proof fn lemma_sized_layout(bytes: Seq<u8>) {
        assert(Self::spec_size_of() == 4 && Self::spec_min_size() == 4 && Self::spec_mem_len(0) == 4);
        assert(size_of::<u32>() == 4);
        if bytes.len() >= 4 {
            assert(bytes.take(4).subrange(0, 4) =~= bytes.subrange(0, 4));
            assert(Self::spec_validate(bytes) == Self::spec_validate(bytes.take(4)));
            assert(Self::spec_size(bytes) == 4);
            assert(Self::spec_mem_len(bytes.len()) == 4);
        }
        if bytes.len() == 4 {
            lemma_auto_spec_u32_to_from_le_bytes();
            assert(bytes.subrange(0, 4) =~= bytes);
            lemma_host_order(bytes);
            let w = spec_u32_from_le_bytes(spec_host_order(bytes));
            assert(spec_u32_to_le_bytes(w) == spec_host_order(bytes));
            assert(Self::spec_from_bytes(bytes).spec_to_bytes() == spec_host_order(spec_u32_to_le_bytes(w)));
        }
    }

    proof fn lemma_sized_value(v: Self) {
        assert(Self::spec_size_of() == 4 && Self::spec_min_size() == 4 && Self::spec_mem_len(0) == 4);
        lemma_auto_spec_u32_to_from_le_bytes();
        let le = spec_u32_to_le_bytes(v);
        lemma_host_order(le);
        assert(v.spec_to_bytes().subrange(0, 4) =~= v.spec_to_bytes());
        assert(spec_u32_from_le_bytes(le) == v);
        assert(Self::spec_from_bytes(v.spec_to_bytes()) == v);
        assert(Self::spec_validate(v.spec_to_bytes()) is Ok);
        assert(v.spec_mem() == v.spec_to_bytes());
    }

    fn size_of() -> (r: usize) {
        layout_for_type_is_valid::<u32>();
        core::mem::size_of::<u32>()
    }

    fn to_bytes(&self) -> (r: Vec<u8>) {
        broadcast use vstd::array::group_array_axioms;
        let a = u32_to_ne_bytes(*self);
        slice_to_vec(a.as_slice())
    }

    fn read_at(bytes: &[u8], at: usize) -> (r: Self) {
        assert(Self::spec_size_of() == 4 && Self::spec_min_size() == 4 && Self::spec_mem_len(0) == 4);
        let a = array_from::<4>(bytes, at);
        let r = u32_from_ne_bytes(a);
        proof {
            let sub = bytes@.subrange(at as int, at + 4);
            assert(sub.subrange(0, 4) =~= sub);
        }
        r
    }
}

impl Flat for u32 {

}

impl FlatDefault for u32 {
    type DefaultEmplacer = u32;

    open spec fn spec_default_emplacer() -> u32 {
        0
    }

    fn default_emplacer() -> (r: u32) {
        0
    }
}

impl FlatLen for u32 {
    open spec fn spec_value(self) -> nat {
        self as nat
    }

    open spec fn spec_max() -> nat {
        u32::MAX as nat
    }

    open spec fn spec_from_value(n: nat) -> Self {
        n as u32
    }

    proof fn lemma_len(v: Self) {
        assert(Self::spec_size_of() == 4 && Self::spec_min_size() == 4 && Self::spec_mem_len(0) == 4);
        assert(is_pow2(4)) by {
            reveal_with_fuel(is_pow2, 4);
        }
    }

    fn max_usize() -> (r: usize) {
        u32::MAX as usize
    }

    fn from_usize(n: usize) -> (r: Option<Self>) {
        if n <= u32::MAX as usize {
            Some(n as u32)
        } else {
            None
        }
    }

    fn into_usize(self) -> (r: usize) {
        self as usize
    }
}

impl FlatBase for u64 {
    open spec fn spec_align() -> nat {
        align_of::<u64>()
    }

    open spec fn spec_min_size() -> nat {
        8
    }

    open spec fn spec_layout_ok() -> bool {
        &&& valid_layout(size_of::<u64>() as usize, align_of::<u64>() as usize)
        &&& size_of::<u64>() as usize as nat == size_of::<u64>()
        &&& align_of::<u64>() as usize as nat == align_of::<u64>()
        &&& align_of::<u64>() != 0
        &&& size_of::<u64>() % align_of::<u64>() == 0
    }

    proof fn lemma_layout() {
        assert(size_of::<u64>() == 8);
        lemma_pow2_fits(align_of::<u64>() as int);
        lemma_divisor_le(align_of::<u64>() as int, 8);
    }

    fn align() -> (r: usize) {
        layout_for_type_is_valid::<u64>();
        core::mem::align_of::<u64>()
    }

    fn min_size() -> (r: usize) {
        layout_for_type_is_valid::<u64>();
        core::mem::size_of::<u64>()
    }
}

impl FlatValidate for u64 {
    open spec fn spec_validate(bytes: Seq<u8>) -> Result<(), Error> {
        Ok(())
    }

    open spec fn spec_size(bytes: Seq<u8>) -> nat {
        8
    }

    proof fn lemma_valid_size(bytes: Seq<u8>) {
        assert(Self::spec_size_of() == 8 && Self::spec_min_size() == 8 && Self::spec_mem_len(0) == 8);
    }

    proof fn lemma_error_pos(bytes: Seq<u8>) {
    }

    proof fn lemma_valid_prefix(bytes: Seq<u8>, k: nat) {
        assert(Self::spec_size_of() == 8 && Self::spec_min_size() == 8 && Self::spec_mem_len(0) == 8);
        assert(Self::spec_validate(bytes.take(k as int)) is Ok);
        assert(Self::spec_size(bytes.take(k as int)) == 8);
    }

    fn validate_unchecked(bytes: &[u8]) -> (r: Result<(), Error>) {
        Ok(())
    }
}

impl FlatUnsized for u64 {
    open spec fn wf(&self) -> bool {
        Self::spec_layout_ok()
    }

    open spec fn spec_mem(&self) -> Seq<u8> {
        spec_host_order(spec_u64_to_le_bytes(*self))
    }

    open spec fn spec_mem_len(len: nat) -> nat {
        8
    }

    proof fn lemma_wf(&self) {
        Self::lemma_sized_value(*self);
        Self::lemma_layout();
        assert(Self::spec_size_of() == 8 && Self::spec_min_size() == 8 && Self::spec_mem_len(0) == 8);
        assert(Self::spec_validate(self.spec_mem()) is Ok);
    }

    proof fn lemma_mem_len(bytes: Seq<u8>) {
        assert(Self::spec_size_of() == 8 && Self::spec_min_size() == 8 && Self::spec_mem_len(0) == 8);
        assert(Self::spec_mem_len(bytes.len()) == 8);
        assert(Self::spec_validate(bytes.take(8)) is Ok);
    }

    fn from_bytes_unchecked(bytes: &[u8]) -> (r: Self) {
        assert(Self::spec_size_of() == 8 && Self::spec_min_size() == 8 && Self::spec_mem_len(0) == 8);
        let r = Self::read_at(bytes, 0);
        proof {
            Self::lemma_sized_value(r);
            lemma_auto_spec_u64_to_from_le_bytes();
            let sub = bytes@.subrange(0, 8);
            assert(sub =~= bytes@.take(8));
            assert(sub.subrange(0, 8) =~= sub);
            lemma_host_order(sub);
            let w = spec_u64_from_le_bytes(spec_host_order(sub));
            assert(r == Self::spec_from_bytes(sub));
            assert(spec_u64_to_le_bytes(w) == spec_host_order(sub));
            assert(r == w);
            assert(r == w);
            assert(r.spec_to_bytes() == spec_host_order(spec_u64_to_le_bytes(r)));
            assert(r.spec_to_bytes() =~= bytes@.take(8));
        }
        r
    }

    fn as_bytes(&self) -> (r: Vec<u8>) {
        self.to_bytes()
    }

    fn size_of_bytes(bytes: &[u8]) -> (r: usize) {
        assert(Self::spec_size_of() == 8 && Self::spec_min_size() == 8 && Self::spec_mem_len(0) == 8);
        8
    }
}

impl FlatSized for u64 {
    open spec fn spec_size_of() -> nat {
        8
    }

    open spec fn spec_to_bytes(self) -> Seq<u8> {
        spec_host_order(spec_u64_to_le_bytes(self))
    }

    open spec fn spec_from_bytes(bytes: Seq<u8>) -> Self {
        spec_u64_from_le_bytes(spec_host_order(bytes.subrange(0, 8)))
    }

    proof fn lemma_sized_layout(bytes: Seq<u8>) {
        assert(Self::spec_size_of() == 8 && Self::spec_min_size() == 8 && Self::spec_mem_len(0) == 8);
        assert(size_of::<u64>() == 8);
        if bytes.len() >= 8 {
            assert(bytes.take(8).subrange(0, 8) =~= bytes.subrange(0, 8));
            assert(Self::spec_validate(bytes) == Self::spec_validate(bytes.take(8)));
            assert(Self::spec_size(bytes) == 8);
            assert(Self::spec_mem_len(bytes.len()) == 8);
        }
        if bytes.len() == 8 {
            lemma_auto_spec_u64_to_from_le_bytes();
            assert(bytes.subrange(0, 8) =~= bytes);
            lemma_host_order(bytes);
            let w = spec_u64_from_le_bytes(spec_host_order(bytes));
            assert(spec_u64_to_le_bytes(w) == spec_host_order(bytes));
            assert(Self::spec_from_bytes(bytes).spec_to_bytes() == spec_host_order(spec_u64_to_le_bytes(w)));
        }
    }

    proof fn lemma_sized_value(v: Self) {
        assert(Self::spec_size_of() == 8 && Self::spec_min_size() == 8 && Self::spec_mem_len(0) == 8);
        lemma_auto_spec_u64_to_from_le_bytes();
        let le = spec_u64_to_le_bytes(v);
        lemma_host_order(le);
        assert(v.spec_to_bytes().subrange(0, 8) =~= v.spec_to_bytes());
        assert(spec_u64_from_le_bytes(le) == v);
        assert(Self::spec_from_bytes(v.spec_to_bytes()) == v);
        assert(Self::spec_validate(v.spec_to_bytes()) is Ok);
        assert(v.spec_mem() == v.spec_to_bytes());
    }

    fn size_of() -> (r: usize) {
        layout_for_type_is_valid::<u64>();
        core::mem::size_of::<u64>()
    }

    fn to_bytes(&self) -> (r: Vec<u8>) {
        broadcast use vstd::array::group_array_axioms;
        let a = u64_to_ne_bytes(*self);
        slice_to_vec(a.as_slice())
    }

    fn read_at(bytes: &[u8], at: usize) -> (r: Self) {
        assert(Self::spec_size_of() == 8 && Self::spec_min_size() == 8 && Self::spec_mem_len(0) == 8);
        let a = array_from::<8>(bytes, at);
        let r = u64_from_ne_bytes(a);
        proof {
            let sub = bytes@.subrange(at as int, at + 8);
            assert(sub.subrange(0, 8) =~= sub);
        }
        r
    }
}

impl Flat for u64 {

}

impl FlatDefault for u64 {
    type DefaultEmplacer = u64;

    open spec fn spec_default_emplacer() -> u64 {
        0
    }

    fn default_emplacer() -> (r: u64) {
        0
    }
}

impl FlatBase for i8 {
    open spec fn spec_align() -> nat {
        align_of::<i8>()
    }

    open spec fn spec_min_size() -> nat {
        1
    }

    open spec fn spec_layout_ok() -> bool {
        &&& valid_layout(size_of::<i8>() as usize, align_of::<i8>() as usize)
        &&& size_of::<i8>() as usize as nat == size_of::<i8>()
        &&& align_of::<i8>() as usize as nat == align_of::<i8>()
        &&& align_of::<i8>() != 0
        &&& size_of::<i8>() % align_of::<i8>() == 0
    }

    proof fn lemma_layout() {
        assert(size_of::<i8>() == 1);
        lemma_pow2_fits(align_of::<i8>() as int);
        lemma_divisor_le(align_of::<i8>() as int, 1);
    }

    fn align() -> (r: usize) {
        layout_for_type_is_valid::<i8>();
        core::mem::align_of::<i8>()
    }

    fn min_size() -> (r: usize) {
        layout_for_type_is_valid::<i8>();
        core::mem::size_of::<i8>()
    }
}

impl FlatValidate for i8 {
    open spec fn spec_validate(bytes: Seq<u8>) -> Result<(), Error> {
        Ok(())
    }

    open spec fn spec_size(bytes: Seq<u8>) -> nat {
        1
    }

    proof fn lemma_valid_size(bytes: Seq<u8>) {
        assert(Self::spec_size_of() == 1 && Self::spec_min_size() == 1 && Self::spec_mem_len(0) == 1);
    }

    proof fn lemma_error_pos(bytes: Seq<u8>) {
    }

    proof fn lemma_valid_prefix(bytes: Seq<u8>, k: nat) {
        assert(Self::spec_size_of() == 1 && Self::spec_min_size() == 1 && Self::spec_mem_len(0) == 1);
        assert(Self::spec_validate(bytes.take(k as int)) is Ok);
        assert(Self::spec_size(bytes.take(k as int)) == 1);
    }

    fn validate_unchecked(bytes: &[u8]) -> (r: Result<(), Error>) {
        Ok(())
    }
}

impl FlatUnsized for i8 {
    open spec fn wf(&self) -> bool {
        Self::spec_layout_ok()
    }

    open spec fn spec_mem(&self) -> Seq<u8> {
        seq![*self as u8]
    }

    open spec fn spec_mem_len(len: nat) -> nat {
        1
    }

    proof fn lemma_wf(&self) {
        Self::lemma_sized_value(*self);
        Self::lemma_layout();
        assert(Self::spec_size_of() == 1 && Self::spec_min_size() == 1 && Self::spec_mem_len(0) == 1);
        assert(Self::spec_validate(self.spec_mem()) is Ok);
    }

    proof fn lemma_mem_len(bytes: Seq<u8>) {
        assert(Self::spec_size_of() == 1 && Self::spec_min_size() == 1 && Self::spec_mem_len(0) == 1);
        assert(Self::spec_mem_len(bytes.len()) == 1);
        assert(Self::spec_validate(bytes.take(1)) is Ok);
    }

    fn from_bytes_unchecked(bytes: &[u8]) -> (r: Self) {
        assert(Self::spec_size_of() == 1 && Self::spec_min_size() == 1 && Self::spec_mem_len(0) == 1);
        let r = Self::read_at(bytes, 0);
        proof {
            Self::lemma_sized_value(r);
            let b0 = bytes@[0];
            assert((b0 as i8) as u8 == b0) by (bit_vector);
            assert(bytes@.subrange(0, 1)[0] == bytes@[0]);
            assert(r.spec_to_bytes() =~= bytes@.take(1));
        }
        r
    }

    fn as_bytes(&self) -> (r: Vec<u8>) {
        self.to_bytes()
    }

    fn size_of_bytes(bytes: &[u8]) -> (r: usize) {
        assert(Self::spec_size_of() == 1 && Self::spec_min_size() == 1 && Self::spec_mem_len(0) == 1);
        1
    }
}

impl FlatSized for i8 {
    open spec fn spec_size_of() -> nat {
        1
    }

    open spec fn spec_to_bytes(self) -> Seq<u8> {
        seq![self as u8]
    }

    open spec fn spec_from_bytes(bytes: Seq<u8>) -> Self {
        bytes[0] as i8
    }

    proof fn lemma_sized_layout(bytes: Seq<u8>) {
        assert(Self::spec_size_of() == 1 && Self::spec_min_size() == 1 && Self::spec_mem_len(0) == 1);
        assert(size_of::<i8>() == 1);
        if bytes.len() >= 1 {
            assert(bytes.take(1)[0] == bytes[0]);
            assert(Self::spec_validate(bytes) == Self::spec_validate(bytes.take(1)));
            assert(Self::spec_size(bytes) == 1);
            assert(Self::spec_mem_len(bytes.len()) == 1);
        }
        if bytes.len() == 1 {
            let b0 = bytes[0];
            assert((b0 as i8) as u8 == b0) by (bit_vector);
            assert(Self::spec_from_bytes(bytes).spec_to_bytes() =~= bytes);
        }
    }

    proof fn lemma_sized_value(v: Self) {
        assert(Self::spec_size_of() == 1 && Self::spec_min_size() == 1 && Self::spec_mem_len(0) == 1);
        assert((v as u8) as i8 == v) by (bit_vector);
        assert(v.spec_to_bytes()[0] == v as u8);
        assert(Self::spec_from_bytes(v.spec_to_bytes()) == v);
        assert(Self::spec_validate(v.spec_to_bytes()) is Ok);
        assert(v.spec_mem() == v.spec_to_bytes());
    }

    fn size_of() -> (r: usize) {
        layout_for_type_is_valid::<i8>();
        core::mem::size_of::<i8>()
    }

    fn to_bytes(&self) -> (r: Vec<u8>) {
        let mut v: Vec<u8> = Vec::new();
        v.push(*self as u8);
        proof {
            assert(v@ =~= self.spec_to_bytes());
        }
        v
    }

    fn read_at(bytes: &[u8], at: usize) -> (r: Self) {
        assert(Self::spec_size_of() == 1 && Self::spec_min_size() == 1 && Self::spec_mem_len(0) == 1);
        let b = bytes[at];
        proof {
            assert(bytes@.subrange(at as int, at + 1)[0] == b);
        }
        let r = b as i8;
        assert(r == Self::spec_from_bytes(bytes@.subrange(at as int, at + 1)));
        r
    }
}

impl Flat for i8 {

}

impl FlatDefault for i8 {
    type DefaultEmplacer = i8;

    open spec fn spec_default_emplacer() -> i8 {
        0
    }

    fn default_emplacer() -> (r: i8) {
        0
    }
}

impl Portable for i8 {
    proof fn lemma_portable_align() {
        assert(size_of::<i8>() == 1);
        lemma_divisor_le(align_of::<i8>() as int, 1);
    }
}

impl FlatBase for i16 {
    open spec fn spec_align() -> nat {
        align_of::<i16>()
    }

    open spec fn spec_min_size() -> nat {
        2
    }

    open spec fn spec_layout_ok() -> bool {
        &&& valid_layout(size_of::<i16>() as usize, align_of::<i16>() as usize)
        &&& size_of::<i16>() as usize as nat == size_of::<i16>()
        &&& align_of::<i16>() as usize as nat == align_of::<i16>()
        &&& align_of::<i16>() != 0
        &&& size_of::<i16>() % align_of::<i16>() == 0
    }

    proof fn lemma_layout() {
        assert(size_of::<i16>() == 2);
        lemma_pow2_fits(align_of::<i16>() as int);
        lemma_divisor_le(align_of::<i16>() as int, 2);
    }

    fn align() -> (r: usize) {
        layout_for_type_is_valid::<i16>();
        core::mem::align_of::<i16>()
    }

    fn min_size() -> (r: usize) {
        layout_for_type_is_valid::<i16>();
        core::mem::size_of::<i16>()
    }
}

impl FlatValidate for i16 {
    open spec fn spec_validate(bytes: Seq<u8>) -> Result<(), Error> {
        Ok(())
    }

    open spec fn spec_size(bytes: Seq<u8>) -> nat {
        2
    }

    proof fn lemma_valid_size(bytes: Seq<u8>) {
        assert(Self::spec_size_of() == 2 && Self::spec_min_size() == 2 && Self::spec_mem_len(0) == 2);
    }

    proof fn lemma_error_pos(bytes: Seq<u8>) {
    }

    proof fn lemma_valid_prefix(bytes: Seq<u8>, k: nat) {
        assert(Self::spec_size_of() == 2 && Self::spec_min_size() == 2 && Self::spec_mem_len(0) == 2);
        assert(Self::spec_validate(bytes.take(k as int)) is Ok);
        assert(Self::spec_size(bytes.take(k as int)) == 2);
    }

    fn validate_unchecked(bytes: &[u8]) -> (r: Result<(), Error>) {
        Ok(())
    }
}

impl FlatUnsized for i16 {
    open spec fn wf(&self) -> bool {
        Self::spec_layout_ok()
    }

    open spec fn spec_mem(&self) -> Seq<u8> {
        spec_host_order(spec_u16_to_le_bytes(*self as u16))
    }

    open spec fn spec_mem_len(len: nat) -> nat {
        2
    }

    proof fn lemma_wf(&self) {
        Self::lemma_sized_value(*self);
        Self::lemma_layout();
        assert(Self::spec_size_of() == 2 && Self::spec_min_size() == 2 && Self::spec_mem_len(0) == 2);
        assert(Self::spec_validate(self.spec_mem()) is Ok);
    }

    proof fn lemma_mem_len(bytes: Seq<u8>) {
        assert(Self::spec_size_of() == 2 && Self::spec_min_size() == 2 && Self::spec_mem_len(0) == 2);
        assert(Self::spec_mem_len(bytes.len()) == 2);
        assert(Self::spec_validate(bytes.take(2)) is Ok);
    }

    fn from_bytes_unchecked(bytes: &[u8]) -> (r: Self) {
        assert(Self::spec_size_of() == 2 && Self::spec_min_size() == 2 && Self::spec_mem_len(0) == 2);
        let r = Self::read_at(bytes, 0);
        proof {
            Self::lemma_sized_value(r);
            lemma_auto_spec_u16_to_from_le_bytes();
            let sub = bytes@.subrange(0, 2);
            assert(sub =~= bytes@.take(2));
            assert(sub.subrange(0, 2) =~= sub);
            lemma_host_order(sub);
            let w = spec_u16_from_le_bytes(spec_host_order(sub));
            assert(r == Self::spec_from_bytes(sub));
            assert((w as i16) as u16 == w) by (bit_vector);
            assert(spec_u16_to_le_bytes(w) == spec_host_order(sub));
            assert(r == w as i16);
            assert(r as u16 == w);
            assert(r.spec_to_bytes() == spec_host_order(spec_u16_to_le_bytes(r as u16)));
            assert(r.spec_to_bytes() =~= bytes@.take(2));
        }
        r
    }

    fn as_bytes(&self) -> (r: Vec<u8>) {
        self.to_bytes()
    }

    fn size_of_bytes(bytes: &[u8]) -> (r: usize) {
        assert(Self::spec_size_of() == 2 && Self::spec_min_size() == 2 && Self::spec_mem_len(0) == 2);
        2
    }
}

impl FlatSized for i16 {
    open spec fn spec_size_of() -> nat {
        2
    }

    open spec fn spec_to_bytes(self) -> Seq<u8> {
        spec_host_order(spec_u16_to_le_bytes(self as u16))
    }

    open spec fn spec_from_bytes(bytes: Seq<u8>) -> Self {
        spec_u16_from_le_bytes(spec_host_order(bytes.subrange(0, 2))) as i16
    }

    proof fn lemma_sized_layout(bytes: Seq<u8>) {
        assert(Self::spec_size_of() == 2 && Self::spec_min_size() == 2 && Self::spec_mem_len(0) == 2);
        assert(size_of::<i16>() == 2);
        if bytes.len() >= 2 {
            assert(bytes.take(2).subrange(0, 2) =~= bytes.subrange(0, 2));
            assert(Self::spec_validate(bytes) == Self::spec_validate(bytes.take(2)));
            assert(Self::spec_size(bytes) == 2);
            assert(Self::spec_mem_len(bytes.len()) == 2);
        }
        if bytes.len() == 2 {
            lemma_auto_spec_u16_to_from_le_bytes();
            assert(bytes.subrange(0, 2) =~= bytes);
            lemma_host_order(bytes);
            let w = spec_u16_from_le_bytes(spec_host_order(bytes));
            assert((w as i16) as u16 == w) by (bit_vector);
            assert(spec_u16_to_le_bytes(w) == spec_host_order(bytes));
            assert(Self::spec_from_bytes(bytes).spec_to_bytes() == spec_host_order(spec_u16_to_le_bytes(w)));
        }
    }

    proof fn lemma_sized_value(v: Self) {
        assert(Self::spec_size_of() == 2 && Self::spec_min_size() == 2 && Self::spec_mem_len(0) == 2);
        lemma_auto_spec_u16_to_from_le_bytes();
        let le = spec_u16_to_le_bytes(v as u16);
        lemma_host_order(le);
        assert(v.spec_to_bytes().subrange(0, 2) =~= v.spec_to_bytes());
        assert((v as u16) as i16 == v) by (bit_vector);
        assert(spec_u16_from_le_bytes(le) == v as u16);
        assert(Self::spec_from_bytes(v.spec_to_bytes()) == v);
        assert(Self::spec_validate(v.spec_to_bytes()) is Ok);
        assert(v.spec_mem() == v.spec_to_bytes());
    }

    fn size_of() -> (r: usize) {
        layout_for_type_is_valid::<i16>();
        core::mem::size_of::<i16>()
    }

    fn to_bytes(&self) -> (r: Vec<u8>) {
        broadcast use vstd::array::group_array_axioms;
        let a = u16_to_ne_bytes(*self as u16);
        slice_to_vec(a.as_slice())
    }

    fn read_at(bytes: &[u8], at: usize) -> (r: Self) {
        assert(Self::spec_size_of() == 2 && Self::spec_min_size() == 2 && Self::spec_mem_len(0) == 2);
        let a = array_from::<2>(bytes, at);
        let r = u16_from_ne_bytes(a) as i16;
        proof {
            let sub = bytes@.subrange(at as int, at + 2);
            assert(sub.subrange(0, 2) =~= sub);
            let w = spec_u16_from_le_bytes(spec_host_order(sub));
            assert(r == w as i16);
        }
        r
    }
}

impl Flat for i16 {

}

impl FlatDefault for i16 {
    type DefaultEmplacer = i16;

    open spec fn spec_default_emplacer() -> i16 {
        0
    }

    fn default_emplacer() -> (r: i16) {
        0
    }
}

impl FlatBase for i32 {
    open spec fn spec_align() -> nat {
        align_of::<i32>()
    }

    open spec fn spec_min_size() -> nat {
        4
    }

    open spec fn spec_layout_ok() -> bool {
        &&& valid_layout(size_of::<i32>() as usize, align_of::<i32>() as usize)
        &&& size_of::<i32>() as usize as nat == size_of::<i32>()
        &&& align_of::<i32>() as usize as nat == align_of::<i32>()
        &&& align_of::<i32>() != 0
        &&& size_of::<i32>() % align_of::<i32>() == 0
    }

    proof fn lemma_layout() {
        assert(size_of::<i32>() == 4);
        lemma_pow2_fits(align_of::<i32>() as int);
        lemma_divisor_le(align_of::<i32>() as int, 4);
    }

    fn align() -> (r: usize) {
        layout_for_type_is_valid::<i32>();
        core::mem::align_of::<i32>()
    }

    fn min_size() -> (r: usize) {
        layout_for_type_is_valid::<i32>();
        core::mem::size_of::<i32>()
    }
}

impl FlatValidate for i32 {
    open spec fn spec_validate(bytes: Seq<u8>) -> Result<(), Error> {
        Ok(())
    }

    open spec fn spec_size(bytes: Seq<u8>) -> nat {
        4
    }

    proof fn lemma_valid_size(bytes: Seq<u8>) {
        assert(Self::spec_size_of() == 4 && Self::spec_min_size() == 4 && Self::spec_mem_len(0) == 4);
    }

    proof fn lemma_error_pos(bytes: Seq<u8>) {
    }

    proof fn lemma_valid_prefix(bytes: Seq<u8>, k: nat) {
        assert(Self::spec_size_of() == 4 && Self::spec_min_size() == 4 && Self::spec_mem_len(0) == 4);
        assert(Self::spec_validate(bytes.take(k as int)) is Ok);
        assert(Self::spec_size(bytes.take(k as int)) == 4);
    }

    fn validate_unchecked(bytes: &[u8]) -> (r: Result<(), Error>) {
        Ok(())
    }
}

impl FlatUnsized for i32 {
    open spec fn wf(&self) -> bool {
        Self::spec_layout_ok()
    }

    open spec fn spec_mem(&self) -> Seq<u8> {
        spec_host_order(spec_u32_to_le_bytes(*self as u32))
    }

    open spec fn spec_mem_len(len: nat) -> nat {
        4
    }

    proof fn lemma_wf(&self) {
        Self::lemma_sized_value(*self);
        Self::lemma_layout();
        assert(Self::spec_size_of() == 4 && Self::spec_min_size() == 4 && Self::spec_mem_len(0) == 4);
        assert(Self::spec_validate(self.spec_mem()) is Ok);
    }

    proof fn lemma_mem_len(bytes: Seq<u8>) {
        assert(Self::spec_size_of() == 4 && Self::spec_min_size() == 4 && Self::spec_mem_len(0) == 4);
        assert(Self::spec_mem_len(bytes.len()) == 4);
        assert(Self::spec_validate(bytes.take(4)) is Ok);
    }

    fn from_bytes_unchecked(bytes: &[u8]) -> (r: Self) {
        assert(Self::spec_size_of() == 4 && Self::spec_min_size() == 4 && Self::spec_mem_len(0) == 4);
        let r = Self::read_at(bytes, 0);
        proof {
            Self::lemma_sized_value(r);
            lemma_auto_spec_u32_to_from_le_bytes();
            let sub = bytes@.subrange(0, 4);
            assert(sub =~= bytes@.take(4));
            assert(sub.subrange(0, 4) =~= sub);
            lemma_host_order(sub);
            let w = spec_u32_from_le_bytes(spec_host_order(sub));
            assert(r == Self::spec_from_bytes(sub));
            assert((w as i32) as u32 == w) by (bit_vector);
            assert(spec_u32_to_le_bytes(w) == spec_host_order(sub));
            assert(r == w as i32);
            assert(r as u32 == w);
            assert(r.spec_to_bytes() == spec_host_order(spec_u32_to_le_bytes(r as u32)));
            assert(r.spec_to_bytes() =~= bytes@.take(4));
        }
        r
    }

    fn as_bytes(&self) -> (r: Vec<u8>) {
        self.to_bytes()
    }

    fn size_of_bytes(bytes: &[u8]) -> (r: usize) {
        assert(Self::spec_size_of() == 4 && Self::spec_min_size() == 4 && Self::spec_mem_len(0) == 4);
        4
    }
}

impl FlatSized for i32 {
    open spec fn spec_size_of() -> nat {
        4
    }

    open spec fn spec_to_bytes(self) -> Seq<u8> {
        spec_host_order(spec_u32_to_le_bytes(self as u32))
    }

    open spec fn spec_from_bytes(bytes: Seq<u8>) -> Self {
        spec_u32_from_le_bytes(spec_host_order(bytes.subrange(0, 4))) as i32
    }

    proof fn lemma_sized_layout(bytes: Seq<u8>) {
        assert(Self::spec_size_of() == 4 && Self::spec_min_size() == 4 && Self::spec_mem_len(0) == 4);
        assert(size_of::<i32>() == 4);
        if bytes.len() >= 4 {
            assert(bytes.take(4).subrange(0, 4) =~= bytes.subrange(0, 4));
            assert(Self::spec_validate(bytes) == Self::spec_validate(bytes.take(4)));
            assert(Self::spec_size(bytes) == 4);
            assert(Self::spec_mem_len(bytes.len()) == 4);
        }
        if bytes.len() == 4 {
            lemma_auto_spec_u32_to_from_le_bytes();
            assert(bytes.subrange(0, 4) =~= bytes);
            lemma_host_order(bytes);
            let w = spec_u32_from_le_bytes(spec_host_order(bytes));
            assert((w as i32) as u32 == w) by (bit_vector);
            assert(spec_u32_to_le_bytes(w) == spec_host_order(bytes));
            assert(Self::spec_from_bytes(bytes).spec_to_bytes() == spec_host_order(spec_u32_to_le_bytes(w)));
        }
    }

    proof fn lemma_sized_value(v: Self) {
        assert(Self::spec_size_of() == 4 && Self::spec_min_size() == 4 && Self::spec_mem_len(0) == 4);
        lemma_auto_spec_u32_to_from_le_bytes();
        let le = spec_u32_to_le_bytes(v as u32);
        lemma_host_order(le);
        assert(v.spec_to_bytes().subrange(0, 4) =~= v.spec_to_bytes());
        assert((v as u32) as i32 == v) by (bit_vector);
        assert(spec_u32_from_le_bytes(le) == v as u32);
        assert(Self::spec_from_bytes(v.spec_to_bytes()) == v);
        assert(Self::spec_validate(v.spec_to_bytes()) is Ok);
        assert(v.spec_mem() == v.spec_to_bytes());
    }

    fn size_of() -> (r: usize) {
        layout_for_type_is_valid::<i32>();
        core::mem::size_of::<i32>()
    }

    fn to_bytes(&self) -> (r: Vec<u8>) {
        broadcast use vstd::array::group_array_axioms;
        let a = u32_to_ne_bytes(*self as u32);
        slice_to_vec(a.as_slice())
    }

    fn read_at(bytes: &[u8], at: usize) -> (r: Self) {
        assert(Self::spec_size_of() == 4 && Self::spec_min_size() == 4 && Self::spec_mem_len(0) == 4);
        let a = array_from::<4>(bytes, at);
        let r = u32_from_ne_bytes(a) as i32;
        proof {
            let sub = bytes@.subrange(at as int, at + 4);
            assert(sub.subrange(0, 4) =~= sub);
            let w = spec_u32_from_le_bytes(spec_host_order(sub));
            assert(r == w as i32);
        }
        r
    }
}

impl Flat for i32 {

}

impl FlatDefault for i32 {
    type DefaultEmplacer = i32;

    open spec fn spec_default_emplacer() -> i32 {
        0
    }

    fn default_emplacer() -> (r: i32) {
        0
    }
}

impl FlatBase for i64 {
    open spec fn spec_align() -> nat {
        align_of::<i64>()
    }

    open spec fn spec_min_size() -> nat {
        8
    }

    open spec fn spec_layout_ok() -> bool {
        &&& valid_layout(size_of::<i64>() as usize, align_of::<i64>() as usize)
        &&& size_of::<i64>() as usize as nat == size_of::<i64>()
        &&& align_of::<i64>() as usize as nat == align_of::<i64>()
        &&& align_of::<i64>() != 0
        &&& size_of::<i64>() % align_of::<i64>() == 0
    }

    proof fn lemma_layout() {
        assert(size_of::<i64>() == 8);
        lemma_pow2_fits(align_of::<i64>() as int);
        lemma_divisor_le(align_of::<i64>() as int, 8);
    }

    fn align() -> (r: usize) {
        layout_for_type_is_valid::<i64>();
        core::mem::align_of::<i64>()
    }

    fn min_size() -> (r: usize) {
        layout_for_type_is_valid::<i64>();
        core::mem::size_of::<i64>()
    }
}

impl FlatValidate for i64 {
    open spec fn spec_validate(bytes: Seq<u8>) -> Result<(), Error> {
        Ok(())
    }

    open spec fn spec_size(bytes: Seq<u8>) -> nat {
        8
    }

    proof fn lemma_valid_size(bytes: Seq<u8>) {
        assert(Self::spec_size_of() == 8 && Self::spec_min_size() == 8 && Self::spec_mem_len(0) == 8);
    }

    proof fn lemma_error_pos(bytes: Seq<u8>) {
    }

    proof fn lemma_valid_prefix(bytes: Seq<u8>, k: nat) {
        assert(Self::spec_size_of() == 8 && Self::spec_min_size() == 8 && Self::spec_mem_len(0) == 8);
        assert(Self::spec_validate(bytes.take(k as int)) is Ok);
        assert(Self::spec_size(bytes.take(k as int)) == 8);
    }

    fn validate_unchecked(bytes: &[u8]) -> (r: Result<(), Error>) {
        Ok(())
    }
}

impl FlatUnsized for i64 {
    open spec fn wf(&self) -> bool {
        Self::spec_layout_ok()
    }

    open spec fn spec_mem(&self) -> Seq<u8> {
        spec_host_order(spec_u64_to_le_bytes(*self as u64))
    }

    open spec fn spec_mem_len(len: nat) -> nat {
        8
    }

    proof fn lemma_wf(&self) {
        Self::lemma_sized_value(*self);
        Self::lemma_layout();
        assert(Self::spec_size_of() == 8 && Self::spec_min_size() == 8 && Self::spec_mem_len(0) == 8);
        assert(Self::spec_validate(self.spec_mem()) is Ok);
    }

    proof fn lemma_mem_len(bytes: Seq<u8>) {
        assert(Self::spec_size_of() == 8 && Self::spec_min_size() == 8 && Self::spec_mem_len(0) == 8);
        assert(Self::spec_mem_len(bytes.len()) == 8);
        assert(Self::spec_validate(bytes.take(8)) is Ok);
    }

    fn from_bytes_unchecked(bytes: &[u8]) -> (r: Self) {
        assert(Self::spec_size_of() == 8 && Self::spec_min_size() == 8 && Self::spec_mem_len(0) == 8);
        let r = Self::read_at(bytes, 0);
        proof {
            Self::lemma_sized_value(r);
            lemma_auto_spec_u64_to_from_le_bytes();
            let sub = bytes@.subrange(0, 8);
            assert(sub =~= bytes@.take(8));
            assert(sub.subrange(0, 8) =~= sub);
            lemma_host_order(sub);
            let w = spec_u64_from_le_bytes(spec_host_order(sub));
            assert(r == Self::spec_from_bytes(sub));
            assert((w as i64) as u64 == w) by (bit_vector);
            assert(spec_u64_to_le_bytes(w) == spec_host_order(sub));
            assert(r == w as i64);
            assert(r as u64 == w);
            assert(r.spec_to_bytes() == spec_host_order(spec_u64_to_le_bytes(r as u64)));
            assert(r.spec_to_bytes() =~= bytes@.take(8));
        }
        r
    }

    fn as_bytes(&self) -> (r: Vec<u8>) {
        self.to_bytes()
    }

    fn size_of_bytes(bytes: &[u8]) -> (r: usize) {
        assert(Self::spec_size_of() == 8 && Self::spec_min_size() == 8 && Self::spec_mem_len(0) == 8);
        8
    }
}

impl FlatSized for i64 {
    open spec fn spec_size_of() -> nat {
        8
    }

    open spec fn spec_to_bytes(self) -> Seq<u8> {
        spec_host_order(spec_u64_to_le_bytes(self as u64))
    }

    open spec fn spec_from_bytes(bytes: Seq<u8>) -> Self {
        spec_u64_from_le_bytes(spec_host_order(bytes.subrange(0, 8))) as i64
    }

    proof fn lemma_sized_layout(bytes: Seq<u8>) {
        assert(Self::spec_size_of() == 8 && Self::spec_min_size() == 8 && Self::spec_mem_len(0) == 8);
        assert(size_of::<i64>() == 8);
        if bytes.len() >= 8 {
            assert(bytes.take(8).subrange(0, 8) =~= bytes.subrange(0, 8));
            assert(Self::spec_validate(bytes) == Self::spec_validate(bytes.take(8)));
            assert(Self::spec_size(bytes) == 8);
            assert(Self::spec_mem_len(bytes.len()) == 8);
        }
        if bytes.len() == 8 {
            lemma_auto_spec_u64_to_from_le_bytes();
            assert(bytes.subrange(0, 8) =~= bytes);
            lemma_host_order(bytes);
            let w = spec_u64_from_le_bytes(spec_host_order(bytes));
            assert((w as i64) as u64 == w) by (bit_vector);
            assert(spec_u64_to_le_bytes(w) == spec_host_order(bytes));
            assert(Self::spec_from_bytes(bytes).spec_to_bytes() == spec_host_order(spec_u64_to_le_bytes(w)));
        }
    }

    proof fn lemma_sized_value(v: Self) {
        assert(Self::spec_size_of() == 8 && Self::spec_min_size() == 8 && Self::spec_mem_len(0) == 8);
        lemma_auto_spec_u64_to_from_le_bytes();
        let le = spec_u64_to_le_bytes(v as u64);
        lemma_host_order(le);
        assert(v.spec_to_bytes().subrange(0, 8) =~= v.spec_to_bytes());
        assert((v as u64) as i64 == v) by (bit_vector);
        assert(spec_u64_from_le_bytes(le) == v as u64);
        assert(Self::spec_from_bytes(v.spec_to_bytes()) == v);
        assert(Self::spec_validate(v.spec_to_bytes()) is Ok);
        assert(v.spec_mem() == v.spec_to_bytes());
    }

    fn size_of() -> (r: usize) {
        layout_for_type_is_valid::<i64>();
        core::mem::size_of::<i64>()
    }

    fn to_bytes(&self) -> (r: Vec<u8>) {
        broadcast use vstd::array::group_array_axioms;
        let a = u64_to_ne_bytes(*self as u64);
        slice_to_vec(a.as_slice())
    }

    fn read_at(bytes: &[u8], at: usize) -> (r: Self) {
        assert(Self::spec_size_of() == 8 && Self::spec_min_size() == 8 && Self::spec_mem_len(0) == 8);
        let a = array_from::<8>(bytes, at);
        let r = u64_from_ne_bytes(a) as i64;
        proof {
            let sub = bytes@.subrange(at as int, at + 8);
            assert(sub.subrange(0, 8) =~= sub);
            let w = spec_u64_from_le_bytes(spec_host_order(sub));
            assert(r == w as i64);
        }
        r
    }
}

impl Flat for i64 {

}

impl FlatDefault for i64 {
    type DefaultEmplacer = i64;

    open spec fn spec_default_emplacer() -> i64 {
        0
    }

    fn default_emplacer() -> (r: i64) {
        0
    }
}

/// A sized value initializes memory by writing its binary representation at the start.
impl<T: FlatSized> Emplacer<T> for T {
    open spec fn spec_emplace(self, region: Seq<u8>) -> Result<Seq<u8>, Error> {
        Ok(self.spec_to_bytes() + region.skip(T::spec_size_of() as int))
    }

    open spec fn spec_emplace_failed(self, region: Seq<u8>) -> Seq<u8> {
        region
    }

    proof fn lemma_emplace(self, region: Seq<u8>) {
        T::lemma_sized_value(self);
        T::lemma_sized_layout(region);
        let new = self.spec_to_bytes() + region.skip(T::spec_size_of() as int);
        T::lemma_sized_layout(new);
        assert(new.take(T::spec_size_of() as int) =~= self.spec_to_bytes());
    }

    fn emplace_unchecked(self, mem: &mut Vec<u8>, start: usize, end: usize) -> (r: Result<(), Error>) {
        let ghost old_mem = mem@;
        let bytes = self.to_bytes();
        proof {
            T::lemma_sized_value(self);
            T::lemma_sized_layout(old_mem.subrange(start as int, end as int));
        }
        write_bytes(mem, start, bytes.as_slice());
        proof {
            let region = old_mem.subrange(start as int, end as int);
            assert(splice(old_mem, start as int, start + bytes@.len(), bytes@) =~= splice(
                old_mem,
                start as int,
                end as int,
                bytes@ + region.skip(T::spec_size_of() as int),
            ));
        }
        Ok(())
    }
}

} // verus!
