use crate::error::{Error, ErrorKind};
use crate::traits::FlatBase;
use vstd::arithmetic::power2::is_pow2;
use vstd::arithmetic::div_mod::{
    lemma_div_pos_is_pos, lemma_fundamental_div_mod, lemma_mod_bound, lemma_mod_multiples_basic,
    lemma_mod_pos_bound,
};
use vstd::arithmetic::mul::{
    lemma_mul_inequality, lemma_mul_is_associative, lemma_mul_is_commutative, lemma_mul_is_distributive_add_other_way,
    lemma_mul_is_distributive_sub_other_way, lemma_mul_nonnegative,
    lemma_mul_strict_inequality_converse,
};
use vstd::prelude::*;

verus! {

/// Smallest multiple of `m` that is greater or equal to `x`.
pub open spec fn spec_ceil_mul(x: int, m: int) -> int {
    ((x + m - 1) / m) * m
}

/// Biggest multiple of `m` that is lower or equal to `x`.
pub open spec fn spec_floor_mul(x: int, m: int) -> int {
    (x / m) * m
}

/// `const` version of [`usize::max`].
pub fn max(a: usize, b: usize) -> (r: usize)
    ensures
        r == if a >= b { a } else { b },
{
    if a >= b {
        a
    } else {
        b
    }
}

/// `const` version of [`usize::min`].
pub fn min(a: usize, b: usize) -> (r: usize)
    ensures
        r == if a <= b { a } else { b },
{
    if a <= b {
        a
    } else {
        b
    }
}


/// Facts about [`spec_ceil_mul`]: a multiple of `m`, at least `x`, below `x + m`,
/// and no greater than any other multiple of `m` that is at least `x`.
pub proof fn lemma_ceil_mul(x: int, m: int)
    requires
        x >= 0,
        m > 0,
    ensures
        spec_ceil_mul(x, m) % m == 0,
        x <= spec_ceil_mul(x, m) < x + m,
        forall|y: int| #![trigger y % m] y >= x && y % m == 0 ==> spec_ceil_mul(x, m) <= y,
{
    let q = (x + m - 1) / m;
    let r = (x + m - 1) % m;
    lemma_fundamental_div_mod(x + m - 1, m);
    lemma_mod_bound(x + m - 1, m);
    lemma_mul_is_commutative(m, q);
    lemma_mod_multiples_basic(q, m);
    assert forall|y: int| #![trigger y % m] y >= x && y % m == 0 implies q * m <= y by {
        let k = y / m;
        lemma_fundamental_div_mod(y, m);
        lemma_mul_is_commutative(m, k);
        lemma_mul_is_distributive_sub_other_way(m, q, 1);
        assert((q - 1) * m < k * m);
        lemma_mul_strict_inequality_converse(q - 1, k, m);
        lemma_mul_inequality(q, k, m);
    }
}

/// Facts about [`spec_floor_mul`]: a multiple of `m`, at most `x`, above `x - m`,
/// and no lower than any other multiple of `m` that is at most `x`.
pub proof fn lemma_floor_mul(x: int, m: int)
    requires
        x >= 0,
        m > 0,
    ensures
        spec_floor_mul(x, m) % m == 0,
        x - m < spec_floor_mul(x, m) <= x,
        spec_floor_mul(x, m) >= 0,
        forall|y: int| #![trigger y % m] 0 <= y <= x && y % m == 0 ==> y <= spec_floor_mul(x, m),
{
    let q = x / m;
    let r = x % m;
    lemma_fundamental_div_mod(x, m);
    lemma_mod_pos_bound(x, m);
    lemma_mul_is_commutative(m, q);
    lemma_mod_multiples_basic(q, m);
    lemma_div_pos_is_pos(x, m);
    lemma_mul_nonnegative(q, m);
    assert forall|y: int| #![trigger y % m] 0 <= y <= x && y % m == 0 implies y <= q * m by {
        let k = y / m;
        lemma_fundamental_div_mod(y, m);
        lemma_mul_is_commutative(m, k);
        lemma_mul_is_distributive_add_other_way(m, q, 1);
        assert(k * m < (q + 1) * m);
        lemma_mul_strict_inequality_converse(k, q + 1, m);
        lemma_mul_inequality(k, q, m);
    }
}

/// Smallest number that is both greater or equal to `x` and a multiple of `m`.
pub fn ceil_mul(x: usize, m: usize) -> (r: usize)
    requires
        m > 0,
        x + m - 1 <= usize::MAX,
    ensures
        r == spec_ceil_mul(x as int, m as int),
        r % m == 0,
        x <= r < x + m,
        forall|y: int| #![trigger y % (m as int)] y >= x && y % (m as int) == 0 ==> r <= y,
{
    proof {
        lemma_ceil_mul(x as int, m as int);
    }
    ((x + (m - 1)) / m) * m
}

/// Biggest number that is both lower or equal to `x` and a multiple of `m`.
pub fn floor_mul(x: usize, m: usize) -> (r: usize)
    requires
        m > 0,
    ensures
        r == spec_floor_mul(x as int, m as int),
        r % m == 0,
        x - m < r <= x,
        forall|y: int| #![trigger y % (m as int)] 0 <= y <= x && y % (m as int) == 0 ==> y <= r,
{
    proof {
        lemma_floor_mul(x as int, m as int);
    }
    (x / m) * m
}

/// Smallest number that is both greater or equal to `x` and a multiple of `m`;
/// the same as [`ceil_mul`].
pub fn upper_multiple(x: usize, m: usize) -> (r: usize)
    requires
        m > 0,
        x + m - 1 <= usize::MAX,
    ensures
        r == spec_ceil_mul(x as int, m as int),
        r % m == 0,
        x <= r < x + m,
{
    ceil_mul(x, m)
}

/// Biggest number that is both lower or equal to `x` and a multiple of `m`;
/// the same as [`floor_mul`].
pub fn lower_multiple(x: usize, m: usize) -> (r: usize)
    requires
        m > 0,
    ensures
        r == spec_floor_mul(x as int, m as int),
        r % m == 0,
        x - m < r <= x,
{
    floor_mul(x, m)
}

/// Rounding up to a multiple is idempotent and rounding down never passes rounding up.
pub proof fn lemma_rounding_laws(x: int, m: int)
    requires
        x >= 0,
        m > 0,
    ensures
        spec_ceil_mul(spec_ceil_mul(x, m), m) == spec_ceil_mul(x, m),
        spec_floor_mul(spec_floor_mul(x, m), m) == spec_floor_mul(x, m),
        spec_floor_mul(x, m) <= x <= spec_ceil_mul(x, m),
        x % m == 0 ==> spec_ceil_mul(x, m) == x && spec_floor_mul(x, m) == x,
{
    lemma_ceil_mul(x, m);
    lemma_floor_mul(x, m);
    let c = spec_ceil_mul(x, m);
    let f = spec_floor_mul(x, m);
    lemma_ceil_mul(c, m);
    lemma_floor_mul(f, m);
    assert(c % m == 0);
    assert(spec_ceil_mul(c, m) <= c);
    assert(f <= spec_floor_mul(f, m));
}


/// Result of checking memory that starts `align_offset` bytes before the next
/// `align`-aligned address and is `len` bytes long against a minimal size.
pub open spec fn spec_check_layout(align_offset: usize, len: usize, min_size: usize) -> Result<(), Error> {
    if align_offset != 0 {
        Err(Error { kind: ErrorKind::BadAlign, pos: 0 })
    } else if len < min_size {
        Err(Error { kind: ErrorKind::InsufficientSize, pos: 0 })
    } else {
        Ok(())
    }
}

/// Decide whether memory is suitable given how far its start is from alignment.
pub fn check_layout(align_offset: usize, len: usize, min_size: usize) -> (r: Result<(), Error>)
    ensures
        r == spec_check_layout(align_offset, len, min_size),
{
    if align_offset != 0 {
        Err(Error { kind: ErrorKind::BadAlign, pos: 0 })
    } else if len < min_size {
        Err(Error { kind: ErrorKind::InsufficientSize, pos: 0 })
    } else {
        Ok(())
    }
}

/// What a layout check reports, whatever the address of the memory is.
pub open spec fn layout_check_outcome(r: Result<(), Error>, len: nat, min_size: nat) -> bool {
    &&& r is Ok ==> len >= min_size
    &&& len < min_size ==> r is Err
    &&& r matches Err(e) ==> e.pos == 0 && (e.kind == ErrorKind::BadAlign || (e.kind
        == ErrorKind::InsufficientSize && len < min_size))
}

/// Calls `<*const u8>::align_offset` on the start of `bytes`: how many bytes past the start
/// the next `align`-aligned address is. The result depends on where the memory lies, so no
/// clause states it; the call panics unless `align` is a power of two, which `requires` rules out.
/// Callers never ask it about an alignment of one byte, which every address meets.
#[verifier::external_body]
pub(crate) fn align_offset(bytes: &[u8], align: usize) -> usize
    requires
        is_pow2(align as int),
{
    bytes.as_ptr().align_offset(align)
}

/// Check that memory size and alignment are suitable for `T`.
///
/// Whether the start of the memory is aligned depends on where it lies; for a type aligned
/// to one byte every start is, and the result depends on the length alone.
pub fn check_align_and_min_size<T: FlatBase>(bytes: &[u8]) -> (r: Result<(), Error>)
    ensures
        T::spec_layout_ok(),
        layout_check_outcome(r, bytes@.len(), T::spec_min_size()),
        T::spec_align() == 1 ==> r == spec_check_layout(
            0,
            bytes@.len() as usize,
            T::spec_min_size() as usize,
        ),
{
    let align = T::align();
    proof {
        T::lemma_layout();
    }
    let offset = if align == 1 {
        0
    } else {
        align_offset(bytes, align)
    };
    check_layout(offset, bytes.len(), T::min_size())
}


/// A multiple of a multiple of `a` is a multiple of `a`.
pub proof fn lemma_mod_trans(x: int, a: int, b: int)
    requires
        a > 0,
        b > 0,
        b % a == 0,
        x % b == 0,
    ensures
        x % a == 0,
{
    vstd::arithmetic::div_mod::lemma_fundamental_div_mod(x, b);
    vstd::arithmetic::div_mod::lemma_fundamental_div_mod(b, a);
    let qx = x / b;
    let qb = b / a;
    vstd::arithmetic::mul::lemma_mul_is_associative(a, qb, qx);
    vstd::arithmetic::mul::lemma_mul_is_commutative(a, qb * qx);
    vstd::arithmetic::div_mod::lemma_mod_multiples_basic(qb * qx, a);
}

/// The sum of two multiples of `m` is a multiple of `m`.
pub proof fn lemma_mod_sum(x: int, y: int, m: int)
    requires
        m > 0,
        x % m == 0,
        y % m == 0,
    ensures
        (x + y) % m == 0,
{
    vstd::arithmetic::div_mod::lemma_fundamental_div_mod(x, m);
    vstd::arithmetic::div_mod::lemma_fundamental_div_mod(y, m);
    let qx = x / m;
    let qy = y / m;
    vstd::arithmetic::mul::lemma_mul_is_distributive_add(m, qx, qy);
    vstd::arithmetic::mul::lemma_mul_is_commutative(m, qx + qy);
    vstd::arithmetic::div_mod::lemma_mod_multiples_basic(qx + qy, m);
}

/// A positive divisor of a positive number is at most that number.
pub proof fn lemma_divisor_le(a: int, b: int)
    requires
        a > 0,
        b > 0,
        b % a == 0,
    ensures
        a <= b,
{
    vstd::arithmetic::div_mod::lemma_fundamental_div_mod(b, a);
    let q = b / a;
    vstd::arithmetic::div_mod::lemma_div_pos_is_pos(b, a);
    if q == 0 {
        vstd::arithmetic::mul::lemma_mul_by_zero_is_zero(a);
    } else {
        vstd::arithmetic::mul::lemma_mul_inequality(1, q, a);
        vstd::arithmetic::mul::lemma_mul_is_commutative(a, q);
    }
}

/// Of two powers of two, one below twice the other is at most the other.
pub proof fn lemma_pow2_below_double(n: int, m: int)
    requires
        is_pow2(n),
        is_pow2(m),
        n < 2 * m,
    ensures
        n <= m,
    decreases n,
{
    reveal(is_pow2);
    if n > 1 && m > 1 {
        lemma_pow2_below_double(n / 2, m / 2);
    }
}

/// A power of two divides every power of two that is not smaller.
pub proof fn lemma_pow2_divides(a: int, b: int)
    requires
        is_pow2(a),
        is_pow2(b),
        a <= b,
    ensures
        b % a == 0,
    decreases b,
{
    reveal(is_pow2);
    if a < b {
        assert(b > 1);
        assert(is_pow2(b / 2));
        lemma_pow2_below_double(a, b / 2);
        lemma_pow2_divides(a, b / 2);
        let k = (b / 2) / a;
        lemma_fundamental_div_mod(b / 2, a);
        lemma_mul_is_commutative(a, k);
        lemma_fundamental_div_mod(b, 2);
        lemma_mul_is_associative(2, k, a);
        lemma_mod_multiples_basic(2 * k, a);
    } else {
        lemma_mod_multiples_basic(1, a);
    }
}

/// The two values `isize::MAX + 1` can have are powers of two.
proof fn lemma_half_address_space_pow2()
    ensures
        is_pow2(0x8000_0000),
        is_pow2(0x8000_0000_0000_0000),
{
    reveal_with_fuel(is_pow2, 65);
}

/// A power of two that fits a `usize` is at most `isize::MAX + 1`, so adding it to a length
/// that fits `isize` cannot overflow.
pub proof fn lemma_pow2_fits(n: int)
    requires
        is_pow2(n),
        n <= usize::MAX,
    ensures
        0 < n <= isize::MAX + 1,
{
    let h: int = isize::MAX + 1;
    assert(usize::MAX == 0xffff_ffff || usize::MAX == 0xffff_ffff_ffff_ffff);
    lemma_half_address_space_pow2();
    assert(is_pow2(h));
    assert(n > 0) by {
        reveal(is_pow2);
    }
    lemma_pow2_below_double(n, h);
}

/// The larger of two powers of two is a power of two that both divide.
pub proof fn lemma_max_pow2(a: int, b: int)
    requires
        is_pow2(a),
        is_pow2(b),
    ensures
        is_pow2(if a >= b { a } else { b }),
        (if a >= b { a } else { b }) % a == 0,
        (if a >= b { a } else { b }) % b == 0,
{
    if a >= b {
        lemma_pow2_divides(b, a);
        lemma_pow2_divides(a, a);
    } else {
        lemma_pow2_divides(a, b);
        lemma_pow2_divides(b, b);
    }
}

} // verus!
