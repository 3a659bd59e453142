use vstd::prelude::*;

verus! {

/// `10` raised to the power `n`.
pub open spec fn pow10(n: nat) -> nat
    decreases n,
{
    if n == 0 {
        1
    } else {
        10 * pow10((n - 1) as nat)
    }
}

/// The number of decimal digits of `v` minus one, that is `floor(log10(v))`
/// for `v >= 1` (and `0` for `v == 0`).
pub open spec fn log10_floor(v: nat) -> nat
    decreases v,
{
    if v < 10 {
        0
    } else {
        1 + log10_floor(v / 10)
    }
}

/// Index of the bucket holding `v` in a histogram of precision `p`.
///
/// Values up to `10^p` each have a bucket of their own. Above that, every
/// decade `[10^e, 10^(e+1))` is split into `9 * 10^(p-1)` buckets of equal
/// width `10^(e-p+1)`, numbered consecutively after the exact range.
pub open spec fn bucket_index(p: nat, v: nat) -> nat {
    if v <= pow10(p) {
        v
    } else {
        let e = log10_floor(v);
        let step = pow10((e - p + 1) as nat);
        (pow10(p) + 9 * pow10((p - 1) as nat) * (e - p) + v / step - pow10((p - 1) as nat)) as nat
    }
}

/// Smallest value that maps to bucket `i` in a histogram of precision `p`.
pub open spec fn bucket_lower(p: nat, i: nat) -> nat {
    if i <= pow10(p) {
        i
    } else {
        let width: int = 9 * pow10((p - 1) as nat) as int;
        let off: int = i - pow10(p);
        let k = off / width;
        ((off % width + pow10((p - 1) as nat)) * pow10((k + 1) as nat)) as nat
    }
}

pub proof fn lemma_pow10_pos(n: nat)
    ensures
        pow10(n) >= 1,
    decreases n,
{
    if n > 0 {
        lemma_pow10_pos((n - 1) as nat);
    }
}

pub proof fn lemma_pow10_add(a: nat, b: nat)
    ensures
        pow10(a + b) == pow10(a) * pow10(b),
    decreases a,
{
    if a == 0 {
        assert(pow10(a) == 1);
        assert(1 * pow10(b) == pow10(b));
    } else {
        lemma_pow10_add((a - 1) as nat, b);
        assert(((a - 1) as nat + b) == (a + b - 1) as nat);
        assert(pow10(a + b) == 10 * pow10(((a - 1) as nat + b) as nat));
        assert(10 * (pow10((a - 1) as nat) * pow10(b)) == (10 * pow10((a - 1) as nat)) * pow10(b))
            by (nonlinear_arith);
    }
}

pub proof fn lemma_pow10_mono(a: nat, b: nat)
    requires
        a <= b,
    ensures
        pow10(a) <= pow10(b),
    decreases b,
{
    if a < b {
        lemma_pow10_mono(a, (b - 1) as nat);
        lemma_pow10_pos((b - 1) as nat);
    }
}

pub proof fn lemma_pow10_strict(a: nat, b: nat)
    requires
        a < b,
    ensures
        pow10(a) < pow10(b),
    decreases b,
{
    lemma_pow10_pos(a);
    if a + 1 < b {
        lemma_pow10_strict(a, (b - 1) as nat);
    }
}

/// `log10_floor` picks the decade that holds `v`.
pub proof fn lemma_log10_floor(v: nat)
    requires
        v >= 1,
    ensures
        pow10(log10_floor(v)) <= v < pow10(log10_floor(v) + 1),
    decreases v,
{
    if v >= 10 {
        lemma_log10_floor(v / 10);
    }
}

/// A value inside a decade determines `log10_floor`.
pub proof fn lemma_log10_floor_unique(v: nat, e: nat)
    requires
        pow10(e) <= v < pow10(e + 1),
    ensures
        log10_floor(v) == e,
{
    lemma_pow10_pos(e);
    lemma_log10_floor(v);
    let f = log10_floor(v);
    if f < e {
        lemma_pow10_mono(f + 1, e);
    } else if f > e {
        lemma_pow10_mono(e + 1, f);
    }
}

pub proof fn lemma_div_bounds(v: nat, d: nat, lo: nat, hi: nat)
    requires
        d > 0,
        lo * d <= v < hi * d,
    ensures
        lo <= v / d < hi,
{
    assert(lo <= v / d < hi) by (nonlinear_arith)
        requires
            d > 0,
            lo * d <= v,
            v < hi * d,
    {
        let q = v / d;
        assert(v == d * q + v % d);
        assert(0 <= v % d < d);
        if q < lo {
            assert(q + 1 <= lo);
            assert(d * (q + 1) <= d * lo);
        }
        if q >= hi {
            assert(d * hi <= d * q);
        }
    }
}

/// Above the exact range the quotient used for the bucket lies in
/// `[10^(p-1), 10^p)`.
pub proof fn lemma_quotient_range(p: nat, v: nat)
    requires
        p >= 1,
        v > pow10(p),
    ensures
        log10_floor(v) >= p,
        pow10((p - 1) as nat) <= v / pow10((log10_floor(v) - p + 1) as nat) < pow10(p),
{
    lemma_pow10_pos(p);
    lemma_log10_floor(v);
    let e = log10_floor(v);
    if e < p {
        lemma_pow10_mono(e + 1, p);
    }
    let d = pow10((e - p + 1) as nat);
    lemma_pow10_pos((e - p + 1) as nat);
    lemma_pow10_add((p - 1) as nat, (e - p + 1) as nat);
    lemma_pow10_add(p, (e - p + 1) as nat);
    assert((p - 1) as nat + (e - p + 1) as nat == e);
    assert(p + (e - p + 1) as nat == e + 1);
    lemma_div_bounds(v, d, pow10((p - 1) as nat), pow10(p));
}


pub proof fn lemma_log10_floor_mono(v1: nat, v2: nat)
    requires
        1 <= v1 <= v2,
    ensures
        log10_floor(v1) <= log10_floor(v2),
{
    lemma_log10_floor(v1);
    lemma_log10_floor(v2);
    let e1 = log10_floor(v1);
    let e2 = log10_floor(v2);
    if e1 > e2 {
        lemma_pow10_mono(e2 + 1, e1);
    }
}

/// Above the exact range, the bucket of `v` lies in the block of buckets
/// that belongs to the decade of `v`, offset by the quotient.
pub proof fn lemma_index_decomposed(p: nat, v: nat)
    requires
        p >= 1,
        v > pow10(p),
    ensures
        log10_floor(v) >= p,
        pow10(p) == 10 * pow10((p - 1) as nat),
        bucket_index(p, v) == pow10(p) + 9 * pow10((p - 1) as nat) * (log10_floor(v) - p)
            + (v / pow10((log10_floor(v) - p + 1) as nat) - pow10((p - 1) as nat)),
        0 <= v / pow10((log10_floor(v) - p + 1) as nat) - pow10((p - 1) as nat)
            < 9 * pow10((p - 1) as nat),
{
    lemma_quotient_range(p, v);
}

pub proof fn lemma_mul_le(a: int, b: int, c: int)
    requires
        0 <= a,
        b <= c,
    ensures
        a * b <= a * c,
{
    assert(a * b <= a * c) by (nonlinear_arith)
        requires
            0 <= a,
            b <= c,
    ;
}

/// Bucket indices grow with the value.
pub proof fn lemma_index_mono(p: nat, v1: nat, v2: nat)
    requires
        v1 <= v2,
        p >= 1 || v2 <= pow10(p),
    ensures
        bucket_index(p, v1) <= bucket_index(p, v2),
{
    if v2 <= pow10(p) {
    } else if v1 <= pow10(p) {
        lemma_index_decomposed(p, v2);
        let w = 9 * pow10((p - 1) as nat);
        lemma_mul_le(w as int, 0, log10_floor(v2) - p);
    } else {
        lemma_index_decomposed(p, v1);
        lemma_index_decomposed(p, v2);
        lemma_pow10_pos(p);
        lemma_log10_floor_mono(v1, v2);
        let e1 = log10_floor(v1);
        let e2 = log10_floor(v2);
        let w = 9 * pow10((p - 1) as nat);
        if e1 == e2 {
            let d = pow10((e1 - p + 1) as nat);
            lemma_pow10_pos((e1 - p + 1) as nat);
            assert(v1 / d <= v2 / d) by (nonlinear_arith)
                requires
                    d > 0,
                    v1 <= v2,
            ;
        } else {
            lemma_mul_le(w as int, e1 - p + 1, e2 - p);
            assert(w * (e1 - p + 1) == w * (e1 - p) + w) by (nonlinear_arith);
        }
    }
}

/// The lowest value of the bucket that holds `v` is `v` rounded down to a
/// multiple of the bucket width.
pub proof fn lemma_lower_of_index(p: nat, v: nat)
    requires
        p >= 1,
        v > pow10(p),
    ensures
        bucket_lower(p, bucket_index(p, v)) == (v / pow10((log10_floor(v) - p + 1) as nat))
            * pow10((log10_floor(v) - p + 1) as nat),
        bucket_lower(p, bucket_index(p, v)) <= v,
{
    lemma_index_decomposed(p, v);
    let e = log10_floor(v);
    let d = pow10((e - p + 1) as nat);
    let s = pow10((p - 1) as nat);
    let w = 9 * s;
    let r = v / d;
    let i = bucket_index(p, v);
    lemma_pow10_pos((e - p + 1) as nat);
    lemma_pow10_pos((p - 1) as nat);
    assert(r * d <= v) by (nonlinear_arith)
        requires
            d > 0,
            r == v / d,
    {
        assert(v == d * (v / d) + v % d);
    }
    if i <= pow10(p) {
        // only possible in the first decade, with the smallest quotient
        assert(e - p == 0) by {
            if e - p > 0 {
                lemma_mul_le(w as int, 1, e - p);
            }
        }
        assert(r == s);
        reveal_with_fuel(pow10, 2);
        assert(d == 10);
        assert(r * d == 10 * s) by (nonlinear_arith)
            requires
                r == s,
                d == 10,
        ;
        assert(i == pow10(p));
    } else {
        let off: int = i - pow10(p);
        assert(off == w * (e - p) + (r - s));
        assert(w * (e - p) == (e - p) * w) by (nonlinear_arith);
        vstd::arithmetic::div_mod::lemma_fundamental_div_mod_converse(off, w as int, e - p, r - s);
        assert(off / (w as int) == e - p);
        assert(off % (w as int) == r - s);
        assert(((e - p) + 1) as nat == (e - p + 1) as nat);
        assert(bucket_lower(p, i) == ((r - s + s) * d) as nat);
    }
}

/// The bucket after the one holding `v` starts above `v`.
pub proof fn lemma_next_lower(p: nat, v: nat)
    requires
        p >= 1 || v < pow10(p),
    ensures
        v < bucket_lower(p, bucket_index(p, v) + 1),
{
    let s = pow10((p - 1) as nat);
    let w = 9 * s;
    lemma_pow10_pos((p - 1) as nat);
    lemma_pow10_pos(p);
    if v < pow10(p) {
    } else if v == pow10(p) {
        assert(pow10(p) == 10 * s);
        let off: int = 1;
        assert(0 * w == 0);
        vstd::arithmetic::div_mod::lemma_fundamental_div_mod_converse(off, w as int, 0, 1);
        reveal_with_fuel(pow10, 2);
        assert(pow10(1) == 10);
        assert(bucket_index(p, v) == v);
        assert(1int / (w as int) == 0);
        assert(1int % (w as int) == 1);
        assert(bucket_lower(p, v + 1) == ((1 + s) * pow10(1)) as nat);
        assert(v < bucket_lower(p, v + 1));
    } else {
        lemma_index_decomposed(p, v);
        let e = log10_floor(v);
        let d = pow10((e - p + 1) as nat);
        let r = v / d;
        let i = bucket_index(p, v);
        lemma_pow10_pos((e - p + 1) as nat);
        assert(v < (r + 1) * d) by (nonlinear_arith)
            requires
                d > 0,
                r == v / d,
        {
            assert(v == d * (v / d) + v % d);
        }
        let off: int = i + 1 - pow10(p);
        if r + 1 < pow10(p) {
            assert(off == w * (e - p) + (r + 1 - s));
            assert(w * (e - p) == (e - p) * w) by (nonlinear_arith);
            vstd::arithmetic::div_mod::lemma_fundamental_div_mod_converse(off, w as int, e - p, r + 1 - s);
            assert(((e - p) + 1) as nat == (e - p + 1) as nat);
            assert(bucket_lower(p, i + 1) == ((r + 1 - s + s) * d) as nat);
            assert(v < bucket_lower(p, i + 1));
        } else {
            assert(off == w * (e - p) + w);
            assert(w * (e - p) + w == (e - p + 1) * w) by (nonlinear_arith);
            vstd::arithmetic::div_mod::lemma_fundamental_div_mod_converse(off, w as int, e - p + 1, 0);
            lemma_log10_floor(v);
            lemma_pow10_add((p - 1) as nat, (e - p + 2) as nat);
            assert((p - 1) as nat + (e - p + 2) as nat == e + 1);
            assert(((e - p + 1) + 1) as nat == (e - p + 2) as nat);
            assert(bucket_lower(p, i + 1) == ((0 + s) * pow10((e - p + 2) as nat)) as nat);
            assert(v < bucket_lower(p, i + 1));
        }
    }
}

/// Every bucket past the exact range starts at a value that maps back to it.
pub proof fn lemma_index_of_lower(p: nat, i: nat)
    requires
        p >= 1,
        i > pow10(p),
    ensures
        bucket_lower(p, i) > pow10(p),
        bucket_index(p, bucket_lower(p, i)) == i,
{
    let s = pow10((p - 1) as nat);
    let w: int = 9 * s as int;
    lemma_pow10_pos((p - 1) as nat);
    assert(pow10(p) == 10 * s);
    let off: int = i - pow10(p);
    let k = off / w;
    let j = off % w;
    assert(off == w * k + j && 0 <= j < w) by {
        vstd::arithmetic::div_mod::lemma_fundamental_div_mod(off, w);
    }
    assert(k >= 0) by (nonlinear_arith)
        requires
            off >= 0,
            w > 0,
            k == off / w,
    ;
    let q = (k + 1) as nat;
    let lw = bucket_lower(p, i);
    assert(lw == (j + s) * pow10(q));
    lemma_pow10_pos(q);
    lemma_pow10_add((p - 1) as nat, q);
    lemma_pow10_add(p, q);
    assert((p - 1) as nat + q == p + k);
    assert(p + q == p + k + 1);
    assert(lw >= pow10((p - 1) as nat) * pow10(q)) by (nonlinear_arith)
        requires
            lw == (j + s) * pow10(q),
            j >= 0,
            s == pow10((p - 1) as nat),
            pow10(q) > 0,
    ;
    assert(lw < pow10(p) * pow10(q)) by (nonlinear_arith)
        requires
            lw == (j + s) * pow10(q),
            j + s < 10 * s,
            pow10(p) == 10 * s,
            pow10(q) > 0,
    ;
    lemma_log10_floor_unique(lw, (p + k) as nat);
    if k >= 1 {
        lemma_pow10_strict(p, (p + k) as nat);
    } else {
        assert(w * k == 0) by (nonlinear_arith)
            requires
                k == 0,
        ;
        assert(j >= 1);
        reveal_with_fuel(pow10, 2);
        assert(pow10(q) == 10);
    }
    assert(lw > pow10(p));
    assert((j + s + 1) * pow10(q) == lw + pow10(q)) by (nonlinear_arith)
        requires
            lw == (j + s) * pow10(q),
    ;
    lemma_div_bounds(lw, pow10(q), (j + s) as nat, (j + s + 1) as nat);
}


/// Lower bounds of consecutive buckets past the exact range strictly grow.
pub proof fn lemma_lower_strict(p: nat, i: nat)
    requires
        p >= 1,
        i > pow10(p),
    ensures
        bucket_lower(p, i) < bucket_lower(p, i + 1),
{
    lemma_index_of_lower(p, i);
    lemma_index_of_lower(p, i + 1);
    if bucket_lower(p, i + 1) <= bucket_lower(p, i) {
        lemma_index_mono(p, bucket_lower(p, i + 1), bucket_lower(p, i));
    }
}

/// A bucket that lies before the bucket of `v` starts at or below `v`.
pub proof fn lemma_lower_below(p: nat, i: nat, v: nat)
    requires
        p >= 1,
        i > pow10(p),
        i < bucket_index(p, v),
    ensures
        bucket_lower(p, i) < v,
{
    lemma_index_of_lower(p, i);
    if bucket_lower(p, i) >= v {
        lemma_index_mono(p, v, bucket_lower(p, i));
    }
}

/// The bucket index of a value above the exact range of a histogram of
/// precision `p`.
pub fn index_above(p: u32, v: u64) -> (r: u64)
    requires
        1 <= p <= 19,
        v > pow10(p as nat),
    ensures
        r == bucket_index(p as nat, v as nat),
{
    proof {
        lemma_pow10_fits(p as nat);
        lemma_index_decomposed(p as nat, v as nat);
        lemma_log10_floor(v as nat);
    }
    let e = log10_floor_u64(v);
    proof {
        lemma_pow10_mono((e - p + 1) as nat, e as nat);
        lemma_pow10_mono((p - 1) as nat, p as nat);
        lemma_pow10_pos((e - p + 1) as nat);
    }
    let exact = pow10_u64(p);
    let divisor = pow10_u64(e - p + 1);
    let shift = pow10_u64(p - 1);
    let remainder = v / divisor;
    let width = 9 * shift;
    let ghost idx = bucket_index(p as nat, v as nat);
    proof {
        lemma_index_mono(p as nat, v as nat, u64::MAX as nat);
        assert(idx <= v) by {
            lemma_index_le_value(p as nat, v as nat);
        }
        assert(width * ((e - p) as u64) <= idx);
    }
    let power_offset = width * ((e - p) as u64);
    exact + power_offset + (remainder - shift)
}

/// A bucket index is never above the value it holds.
pub proof fn lemma_index_le_value(p: nat, v: nat)
    requires
        p >= 1,
    ensures
        bucket_index(p, v) <= v,
{
    if v > pow10(p) {
        lemma_lower_of_index(p, v);
        let i = bucket_index(p, v);
        if i > v {
            lemma_index_of_lower(p, i);
            lemma_lower_le_index_free(p, i);
        }
    }
}

/// The lower bound of a bucket past the exact range is at least its index.
pub proof fn lemma_lower_le_index_free(p: nat, i: nat)
    requires
        p >= 1,
        i > pow10(p),
    ensures
        bucket_lower(p, i) >= i,
{
    let s = pow10((p - 1) as nat);
    let w: int = 9 * s as int;
    lemma_pow10_pos((p - 1) as nat);
    assert(pow10(p) == 10 * s);
    let off: int = i - pow10(p);
    let k = off / w;
    let j = off % w;
    vstd::arithmetic::div_mod::lemma_fundamental_div_mod(off, w);
    vstd::arithmetic::div_mod::lemma_mod_bound(off, w);
    lemma_pow10_ge_linear((k + 1) as nat);
    assert(bucket_lower(p, i) == (j + s) * pow10((k + 1) as nat));
    assert((j + s) * pow10((k + 1) as nat) >= (j + s) * (9 * k + 10)) by (nonlinear_arith)
        requires
            pow10((k + 1) as nat) >= 9 * k + 10,
            j + s >= 1,
    ;
    assert((j + s) * (9 * k + 10) >= i) by (nonlinear_arith)
        requires
            i == 10 * s + w * k + j,
            w == 9 * s,
            s >= 1,
            j >= 0,
            k >= 0,
    ;
}

/// `10^(n)` grows at least as `9n + 1`.
pub proof fn lemma_pow10_ge_linear(n: nat)
    ensures
        pow10(n) >= 9 * n + 1,
    decreases n,
{
    if n > 0 {
        lemma_pow10_ge_linear((n - 1) as nat);
        lemma_pow10_pos((n - 1) as nat);
    }
}

/// The lower bound of bucket `i`, past the exact range of a histogram of
/// precision `p`.
pub fn lower_above(p: u32, i: u64) -> (r: u64)
    requires
        1 <= p <= 19,
        i > pow10(p as nat),
        bucket_lower(p as nat, i as nat) <= u64::MAX,
    ensures
        r == bucket_lower(p as nat, i as nat),
{
    let ghost pn = p as nat;
    proof {
        lemma_index_of_lower(pn, i as nat);
        lemma_pow10_mono((pn - 1) as nat, pn);
        lemma_pow10_pos((pn - 1) as nat);
        lemma_pow10_fits(pn);
    }
    let exact = pow10_u64(p);
    let shift = pow10_u64(p - 1);
    let width = 9 * shift;
    let offset = i - exact;
    let k = offset / width;
    proof {
        vstd::arithmetic::div_mod::lemma_fundamental_div_mod(offset as int, width as int);
        assert(width * k <= offset) by (nonlinear_arith)
            requires
                width > 0,
                k == offset / width,
                offset == width * (offset / width) + offset % width,
                offset % width >= 0,
        ;
    }
    let j = offset - width * k;
    let ghost lw = bucket_lower(pn, i as nat);
    proof {
        vstd::arithmetic::div_mod::lemma_fundamental_div_mod(offset as int, width as int);
        assert(j == offset as int % width as int);
        assert(lw == (j + shift) * pow10((k + 1) as nat));
        lemma_pow10_pos((k + 1) as nat);
        assert(pow10((k + 1) as nat) <= lw) by (nonlinear_arith)
            requires
                lw == (j + shift) * pow10((k + 1) as nat),
                j + shift >= 1,
        ;
        lemma_pow10_bounded_exponent((k + 1) as nat);
    }
    let scale = pow10_u64((k + 1) as u32);
    (j + shift) * scale
}

/// `10^n` computed with a loop; `n` is small enough for the result to fit.
pub fn pow10_u64(n: u32) -> (r: u64)
    requires
        pow10(n as nat) <= u64::MAX,
    ensures
        r == pow10(n as nat),
{
    let mut r: u64 = 1;
    let mut i: u32 = 0;
    while i < n
        invariant
            i <= n,
            r == pow10(i as nat),
            pow10(n as nat) <= u64::MAX,
        decreases n - i,
    {
        proof {
            lemma_pow10_mono((i + 1) as nat, n as nat);
        }
        r = r * 10;
        i = i + 1;
    }
    r
}

/// `floor(log10(v))` computed by counting decimal digits.
pub fn log10_floor_u64(v: u64) -> (r: u32)
    ensures
        r == log10_floor(v as nat),
        r <= 19,
{
    let mut t = v;
    let mut e: u32 = 0;
    proof {
        lemma_log10_floor_bound(v as nat);
    }
    while t >= 10
        invariant
            log10_floor(v as nat) == e + log10_floor(t as nat),
            e + log10_floor(t as nat) <= 19,
        decreases t,
    {
        t = t / 10;
        e = e + 1;
    }
    e
}

pub proof fn lemma_log10_floor_bound(v: nat)
    requires
        v <= u64::MAX,
    ensures
        log10_floor(v) <= 19,
{
    if v >= 1 {
        lemma_log10_floor(v);
        if log10_floor(v) > 19 {
            lemma_pow10_mono(20, log10_floor(v));
            reveal_with_fuel(pow10, 21);
        }
    }
}


/// Powers of ten up to `10^19` fit in a `u64`.
pub proof fn lemma_pow10_fits(n: nat)
    requires
        n <= 19,
    ensures
        1 <= pow10(n) <= pow10(19),
        pow10(19) == 10_000_000_000_000_000_000,
        pow10(19) <= u64::MAX,
{
    reveal_with_fuel(pow10, 20);
    lemma_pow10_mono(n, 19);
    lemma_pow10_pos(n);
}


/// Only exponents up to 19 give powers of ten within `u64`.
pub proof fn lemma_pow10_bounded_exponent(n: nat)
    requires
        pow10(n) <= u64::MAX,
    ensures
        n <= 19,
{
    if n > 19 {
        lemma_pow10_mono(20, n);
        reveal_with_fuel(pow10, 21);
    }
}

} // verus!
