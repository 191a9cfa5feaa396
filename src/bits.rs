use vstd::prelude::*;

verus! {

/// Gathers the bits of `src` that lie under the set bits of `mask`, lowest first,
/// into the low bits of the result.
pub open spec fn extract(src: nat, mask: nat) -> nat
    decreases mask,
{
    if mask == 0 {
        0
    } else if mask % 2 == 1 {
        src % 2 + 2 * extract(src / 2, mask / 2)
    } else {
        extract(src / 2, mask / 2)
    }
}

/// Scatters the low bits of `v`, lowest first, onto the set bits of `mask`.
pub open spec fn deposit(v: nat, mask: nat) -> nat
    decreases mask,
{
    if mask == 0 {
        0
    } else if mask % 2 == 1 {
        v % 2 + 2 * deposit(v / 2, mask / 2)
    } else {
        2 * deposit(v, mask / 2)
    }
}

/// Number of set bits.
pub open spec fn popcount(x: nat) -> nat
    decreases x,
{
    if x == 0 {
        0
    } else {
        x % 2 + popcount(x / 2)
    }
}

pub proof fn lemma_extract_le_mask(src: nat, mask: nat)
    ensures
        extract(src, mask) <= mask,
    decreases mask,
{
    if mask != 0 {
        lemma_extract_le_mask(src / 2, mask / 2);
    }
}

pub proof fn lemma_deposit_le_mask(v: nat, mask: nat)
    ensures
        deposit(v, mask) <= mask,
    decreases mask,
{
    if mask != 0 {
        if mask % 2 == 1 {
            lemma_deposit_le_mask(v / 2, mask / 2);
        } else {
            lemma_deposit_le_mask(v, mask / 2);
        }
    }
}

/// Extracting under a mask what was deposited under it gives back the value,
/// for every value that fits in as many bits as the mask has.
pub proof fn lemma_extract_deposit(v: nat, mask: nat)
    requires
        v < vstd::arithmetic::power2::pow2(popcount(mask)),
    ensures
        extract(deposit(v, mask), mask) == v,
    decreases mask,
{
    reveal(vstd::arithmetic::power2::pow2);
    if mask == 0 {
        vstd::arithmetic::power2::lemma2_to64();
        assert(v == 0);
        assert(deposit(v, mask) == 0);
    } else if mask % 2 == 1 {
        let p = popcount(mask / 2);
        assert(popcount(mask) == p + 1);
        vstd::arithmetic::power2::lemma_pow2_unfold(p + 1);
        assert(v / 2 < vstd::arithmetic::power2::pow2(p));
        lemma_extract_deposit(v / 2, mask / 2);
        let d = deposit(v / 2, mask / 2);
        assert((v % 2 + 2 * d) % 2 == v % 2);
        assert((v % 2 + 2 * d) / 2 == d);
        assert(deposit(v, mask) == v % 2 + 2 * d);
        assert(extract(deposit(v, mask), mask) == v % 2 + 2 * extract(d, mask / 2));
    } else {
        assert(popcount(mask) == popcount(mask / 2));
        lemma_extract_deposit(v, mask / 2);
        let d = deposit(v, mask / 2);
        assert((2 * d) / 2 == d);
        assert((2 * d) % 2 == 0);
        assert(deposit(v, mask) == 2 * d);
        assert(extract(deposit(v, mask), mask) == extract(d, mask / 2));
    }
}

/// Splitting a number into a high part `a` and a low part `b` of `k` bits splits
/// its set bits the same way.
pub proof fn lemma_popcount_split(a: nat, b: nat, k: nat)
    requires
        b < vstd::arithmetic::power2::pow2(k),
    ensures
        popcount(a * vstd::arithmetic::power2::pow2(k) + b) == popcount(a) + popcount(b),
    decreases k,
{
    vstd::arithmetic::power2::lemma2_to64();
    if k == 0 {
        assert(b == 0);
        assert(a * 1 == a);
    } else {
        let p = vstd::arithmetic::power2::pow2((k - 1) as nat);
        vstd::arithmetic::power2::lemma_pow2_unfold(k);
        let m = a * p;
        assert(a * vstd::arithmetic::power2::pow2(k) == 2 * m) by (nonlinear_arith)
            requires
                vstd::arithmetic::power2::pow2(k) == 2 * p,
                m == a * p,
        ;
        let x = 2 * m + b;
        assert(b / 2 < p);
        lemma_popcount_split(a, b / 2, (k - 1) as nat);
        assert(x % 2 == b % 2);
        assert(x / 2 == m + b / 2);
        if x != 0 {
            assert(popcount(x) == x % 2 + popcount(x / 2));
        }
        if b != 0 {
            assert(popcount(b) == b % 2 + popcount(b / 2));
        } else {
            assert(popcount(0) == 0);
            assert(popcount(m) == popcount(a * p + 0));
        }
    }
}

/// Dropping the low bits, or the high bits, of a number keeps at most its set bits.
pub proof fn lemma_popcount_div_mod(x: nat, k: nat)
    ensures
        popcount(x / vstd::arithmetic::power2::pow2(k)) <= popcount(x),
        popcount(x % vstd::arithmetic::power2::pow2(k)) <= popcount(x),
{
    let q = vstd::arithmetic::power2::pow2(k);
    vstd::arithmetic::power2::lemma_pow2_pos(k);
    vstd::arithmetic::div_mod::lemma_fundamental_div_mod(x as int, q as int);
    assert(x == (x / q) * q + x % q) by (nonlinear_arith)
        requires
            x == q * (x / q) + x % q,
    ;
    lemma_popcount_split(x / q, x % q, k);
}

/// Shifting a 64-bit value either way keeps at most its set bits.
pub proof fn lemma_popcount_shift(x: u64, k: u64)
    requires
        k < 64,
    ensures
        popcount((x >> k) as nat) <= popcount(x as nat),
        popcount((x << k) as nat) <= popcount(x as nat),
{
    vstd::arithmetic::power2::lemma2_to64();
    vstd::arithmetic::power2::lemma2_to64_rest();
    vstd::bits::lemma_u64_shr_is_div(x, k);
    lemma_popcount_div_mod(x as nat, k as nat);
    let y = x << k;
    let z = y >> k;
    if k == 0 {
        assert(x << 0 == x) by (bit_vector);
    } else {
        let w: u64 = (64 - k) as u64;
        assert((y >> k) << k == y) by (bit_vector)
            requires
                y == x << k,
                k < 64,
        ;
        vstd::bits::lemma_u64_pow2_no_overflow(w as nat);
        vstd::bits::lemma_u64_shl_is_mul(1, w);
        let m: u64 = ((1u64 << w) - 1) as u64;
        assert(y >> k == x & m) by (bit_vector)
            requires
                y == x << k,
                0 < k < 64,
                w == 64 - k,
                m == ((1u64 << w) - 1) as u64,
        ;
        vstd::bits::lemma_u64_low_bits_mask_is_mod(x, w as nat);
        vstd::bits::lemma_u64_shr_is_div(y, k);
        vstd::arithmetic::power2::lemma_pow2_pos(k as nat);
        let p = vstd::arithmetic::power2::pow2(k as nat);
        assert((y as nat / p) * p <= y) by (nonlinear_arith)
            requires
                p > 0,
        ;
        vstd::bits::lemma_u64_shl_is_mul(z, k);
        lemma_popcount_split(z as nat, 0, k as nat);
        lemma_popcount_div_mod(x as nat, w as nat);
    }
}

/// A number with a set bit has at least one.
pub proof fn lemma_popcount_nonzero(x: nat)
    requires
        x != 0,
    ensures
        popcount(x) >= 1,
    decreases x,
{
    if x % 2 == 0 {
        lemma_popcount_nonzero(x / 2);
    }
}

/// What is extracted under a mask fits in as many bits as the mask has.
pub proof fn lemma_extract_bound(src: nat, mask: nat)
    ensures
        extract(src, mask) < vstd::arithmetic::power2::pow2(popcount(mask)),
    decreases mask,
{
    vstd::arithmetic::power2::lemma2_to64();
    if mask != 0 {
        lemma_extract_bound(src / 2, mask / 2);
        if mask % 2 == 1 {
            vstd::arithmetic::power2::lemma_pow2_unfold(popcount(mask / 2) + 1);
        }
    }
}

/// Bit extract: the bits of `src` under `mask`, packed into the low bits.
pub fn pext(src: u64, mask: u64) -> (r: u64)
    ensures
        r == extract(src as nat, mask as nat),
    decreases mask,
{
    if mask == 0 {
        0
    } else {
        let rest = pext(src / 2, mask / 2);
        proof {
            lemma_extract_le_mask(src as nat / 2, mask as nat / 2);
        }
        if mask % 2 == 1 {
            src % 2 + 2 * rest
        } else {
            rest
        }
    }
}

/// Bit deposit: the low bits of `src`, spread onto the set bits of `mask`.
pub fn pdep(src: u64, mask: u64) -> (r: u64)
    ensures
        r == deposit(src as nat, mask as nat),
    decreases mask,
{
    if mask == 0 {
        0
    } else if mask % 2 == 1 {
        let rest = pdep(src / 2, mask / 2);
        proof {
            lemma_deposit_le_mask(src as nat / 2, mask as nat / 2);
        }
        src % 2 + 2 * rest
    } else {
        let rest = pdep(src, mask / 2);
        proof {
            lemma_deposit_le_mask(src as nat, mask as nat / 2);
        }
        2 * rest
    }
}

} // verus!
