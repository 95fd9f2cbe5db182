//! Rounding of addresses to alignments.
use vstd::prelude::*;

verus! {

use vstd::arithmetic::div_mod::{
    lemma_fundamental_div_mod, lemma_mod_bound, lemma_mod_multiples_basic,
};
use vstd::arithmetic::power2::is_pow2;

/// The smallest multiple of `align` that is at least `addr`.
pub open spec fn round_up(addr: int, align: int) -> int {
    if addr % align == 0 {
        addr
    } else {
        addr + (align - addr % align)
    }
}

/// The largest multiple of `align` that is at most `addr`.
pub open spec fn round_down(addr: int, align: int) -> int {
    addr - addr % align
}

/// Rounding up gives a multiple of `align` in `[addr, addr + align)`.
pub proof fn lemma_round_up(addr: int, align: int)
    requires
        align > 0,
    ensures
        round_up(addr, align) % align == 0,
        addr <= round_up(addr, align) < addr + align,
        addr % align == 0 ==> round_up(addr, align) == addr,
{
    lemma_mod_bound(addr, align);
    lemma_fundamental_div_mod(addr, align);
    if addr % align != 0 {
        let q = addr / align;
        assert(round_up(addr, align) == (q + 1) * align) by (nonlinear_arith)
            requires
                addr == align * q + addr % align,
                round_up(addr, align) == addr + (align - addr % align),
        ;
        lemma_mod_multiples_basic(q + 1, align);
    }
}

/// Rounding down gives a multiple of `align` in `(addr - align, addr]`.
pub proof fn lemma_round_down(addr: int, align: int)
    requires
        align > 0,
    ensures
        round_down(addr, align) % align == 0,
        addr - align < round_down(addr, align) <= addr,
        addr >= 0 ==> round_down(addr, align) >= 0,
        addr % align == 0 ==> round_down(addr, align) == addr,
{
    lemma_mod_bound(addr, align);
    lemma_fundamental_div_mod(addr, align);
    let q = addr / align;
    assert(round_down(addr, align) == q * align) by (nonlinear_arith)
        requires
            addr == align * q + addr % align,
            round_down(addr, align) == addr - addr % align,
    ;
    lemma_mod_multiples_basic(q, align);
}

/// A multiple of `b` is a multiple of every divisor of `b`.
pub proof fn lemma_mod_transitive(x: int, b: int, a: int)
    requires
        a > 0,
        b > 0,
        x % b == 0,
        b % a == 0,
    ensures
        x % a == 0,
{
    lemma_fundamental_div_mod(x, b);
    lemma_fundamental_div_mod(b, a);
    let k = x / b;
    let m = b / a;
    assert(x == (k * m) * a) by (nonlinear_arith)
        requires
            x == b * k,
            b == a * m,
    ;
    lemma_mod_multiples_basic(k * m, a);
}

/// Of two powers of two, the larger is a multiple of the smaller.
pub proof fn lemma_pow2_divides(a: int, b: int)
    requires
        is_pow2(a),
        is_pow2(b),
        a <= b,
    ensures
        b % a == 0,
    decreases a,
{
    reveal(is_pow2);
    if a == 1 {
    } else {
        assert(b != 1);
        lemma_pow2_divides(a / 2, b / 2);
        lemma_fundamental_div_mod(b / 2, a / 2);
        let k = (b / 2) / (a / 2);
        assert(b == k * a) by (nonlinear_arith)
            requires
                b / 2 == (a / 2) * k,
                b == 2 * (b / 2),
                a == 2 * (a / 2),
        ;
        lemma_mod_multiples_basic(k, a);
    }
}

/// Rounding to a power of two also rounds to every smaller power of two.
pub proof fn lemma_aligned_to_smaller_pow2(x: int, big: int, small: int)
    requires
        is_pow2(big),
        is_pow2(small),
        small <= big,
        x % big == 0,
    ensures
        x % small == 0,
{
    reveal(is_pow2);
    lemma_pow2_divides(small, big);
    lemma_mod_transitive(x, big, small);
}

/// Whether `n` is a power of two.
pub fn check_power_of_two(n: usize) -> (r: bool)
    ensures
        r == is_pow2(n as int),
{
    proof {
        reveal(is_pow2);
    }
    if n == 0 {
        return false;
    }
    let mut m = n;
    while m != 1
        invariant
            m > 0,
            is_pow2(n as int) == is_pow2(m as int),
        decreases m,
    {
        proof {
            reveal(is_pow2);
        }
        if m % 2 != 0 {
            return false;
        }
        proof {
            reveal(is_pow2);
        }
        m = m / 2;
    }
    true
}

} // verus!
