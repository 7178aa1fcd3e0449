//! Exact scalar arithmetic for the matrix engine.
//!
//! Every element of a matrix is a two's-complement 64-bit integer and all
//! arithmetic wraps modulo 2^64.  The spec function [`wrap`] maps an
//! unbounded integer to its representative in the range of `i64`; the
//! congruence lemmas below state that wrapping may be applied eagerly or
//! lazily without changing the result, which is what makes the algebraic
//! laws of the matrix operations (associativity, commutativity,
//! distribution over sums) hold exactly.

use vstd::prelude::*;
use vstd::arithmetic::div_mod::{
    lemma_fundamental_div_mod, lemma_mod_multiples_vanish, lemma_small_mod, lemma_div_of0,
    lemma_div_pos_is_pos, lemma_div_nonincreasing,
};

verus! {

/// 2^64, the modulus of the scalar arithmetic.
pub open spec fn two_to_64() -> int {
    0x1_0000_0000_0000_0000
}

/// The representative of `x` modulo 2^64 inside the range of `i64`.
pub open spec fn wrap(x: int) -> i64 {
    if x % two_to_64() >= 0x8000_0000_0000_0000 {
        (x % two_to_64() - two_to_64()) as i64
    } else {
        (x % two_to_64()) as i64
    }
}

/// Truncating integer division, rounding toward zero, as `/` does on `i64`.
pub open spec fn tdiv(a: int, b: int) -> int {
    if a >= 0 {
        a / b
    } else {
        -((-a) / b)
    }
}

proof fn lemma_mod_band(x: int)
    requires
        -two_to_64() <= x < two_to_64(),
    ensures
        x % two_to_64() == if x >= 0 { x } else { x + two_to_64() },
{
    if x >= 0 {
        lemma_small_mod(x as nat, two_to_64() as nat);
    } else {
        lemma_mod_multiples_vanish(1, x, two_to_64());
        lemma_small_mod((x + two_to_64()) as nat, two_to_64() as nat);
    }
}

/// Wrapping is the identity on values that already fit in `i64`.
pub proof fn lemma_wrap_id(x: int)
    requires
        i64::MIN <= x <= i64::MAX,
    ensures
        wrap(x) == x,
{
    lemma_mod_band(x);
}

/// Shifting by a multiple of the modulus does not change the wrapped value.
pub proof fn lemma_wrap_shift(x: int, k: int)
    ensures
        wrap(x + k * two_to_64()) == wrap(x),
{
    lemma_mod_multiples_vanish(k, x, two_to_64());
}

/// How many multiples of 2^64 separate `x` from `wrap(x)`.
pub open spec fn wrap_off(x: int) -> int {
    if x % two_to_64() >= 0x8000_0000_0000_0000 {
        -(x / two_to_64()) - 1
    } else {
        -(x / two_to_64())
    }
}

/// Every wrapped value differs from its argument by a multiple of 2^64.
pub proof fn lemma_wrap_is_congruent(x: int)
    ensures
        wrap(x) == x + wrap_off(x) * two_to_64(),
{
    lemma_fundamental_div_mod(x, two_to_64());
}

/// Sums may be wrapped before or after adding.
pub proof fn lemma_wrap_add(x: int, y: int)
    ensures
        wrap(wrap(x) + wrap(y)) == wrap(x + y),
{
    lemma_wrap_is_congruent(x);
    lemma_wrap_is_congruent(y);
    let kx = wrap_off(x);
    let ky = wrap_off(y);
    assert(wrap(x) + wrap(y) == (x + y) + (kx + ky) * two_to_64());
    lemma_wrap_shift(x + y, kx + ky);
}

#[verifier::rlimit(60)]
proof fn lemma_shifted_product(x: int, y: int, kx: int, ky: int, r: int)
    by (nonlinear_arith)
    ensures
        (x + kx * r) * (y + ky * r) == x * y + (x * ky + y * kx + kx * ky * r) * r,
{
}

/// Products may be wrapped before or after multiplying.
pub proof fn lemma_wrap_mul(x: int, y: int)
    ensures
        wrap(wrap(x) * wrap(y)) == wrap(x * y),
{
    lemma_wrap_is_congruent(x);
    lemma_wrap_is_congruent(y);
    let kx = wrap_off(x);
    let ky = wrap_off(y);
    let r = two_to_64();
    lemma_shifted_product(x, y, kx, ky, r);
    lemma_wrap_shift(x * y, x * ky + y * kx + kx * ky * r);
}

/// The sum `f(0) + f(1) + ... + f(n-1)` over unbounded integers.
pub open spec fn sum(n: nat, f: spec_fn(int) -> int) -> int
    decreases n,
{
    if n == 0 {
        0
    } else {
        sum((n - 1) as nat, f) + f(n - 1)
    }
}

/// Sums agree when their summands agree below `n`.
pub proof fn lemma_sum_ext(n: nat, f: spec_fn(int) -> int, g: spec_fn(int) -> int)
    requires
        forall|k: int| 0 <= k < n ==> #[trigger] f(k) == g(k),
    ensures
        sum(n, f) == sum(n, g),
    decreases n,
{
    if n > 0 {
        lemma_sum_ext((n - 1) as nat, f, g);
    }
}

/// A sum of zeros is zero.
pub proof fn lemma_sum_zero(n: nat, f: spec_fn(int) -> int)
    requires
        forall|k: int| 0 <= k < n ==> #[trigger] f(k) == 0,
    ensures
        sum(n, f) == 0,
    decreases n,
{
    if n > 0 {
        lemma_sum_zero((n - 1) as nat, f);
    }
}

/// Wrapped sums agree when their summands agree modulo 2^64.
pub proof fn lemma_sum_congruent(n: nat, f: spec_fn(int) -> int, g: spec_fn(int) -> int)
    requires
        forall|k: int| 0 <= k < n ==> wrap(#[trigger] f(k)) == wrap(#[trigger] g(k)),
    ensures
        wrap(sum(n, f)) == wrap(sum(n, g)),
    decreases n,
{
    if n > 0 {
        let m = (n - 1) as nat;
        lemma_sum_congruent(m, f, g);
        lemma_wrap_add(sum(m, f), f(n - 1));
        lemma_wrap_add(sum(m, g), g(n - 1));
    }
}

/// A sum of pointwise sums splits into two sums.
pub proof fn lemma_sum_add(
    n: nat,
    f: spec_fn(int) -> int,
    g: spec_fn(int) -> int,
    h: spec_fn(int) -> int,
)
    requires
        forall|k: int| 0 <= k < n ==> #[trigger] h(k) == f(k) + g(k),
    ensures
        sum(n, h) == sum(n, f) + sum(n, g),
    decreases n,
{
    if n > 0 {
        lemma_sum_add((n - 1) as nat, f, g, h);
    }
}

/// A common right factor moves out of a sum.
pub proof fn lemma_sum_scale(n: nat, f: spec_fn(int) -> int, g: spec_fn(int) -> int, c: int)
    requires
        forall|k: int| 0 <= k < n ==> #[trigger] g(k) == f(k) * c,
    ensures
        sum(n, g) == sum(n, f) * c,
    decreases n,
{
    if n > 0 {
        let m = (n - 1) as nat;
        lemma_sum_scale(m, f, g, c);
        assert((sum(m, f) + f(n - 1)) * c == sum(m, f) * c + f(n - 1) * c) by (nonlinear_arith);
    }
}

/// The order of a double sum can be exchanged.
pub proof fn lemma_sum_swap(
    m: nat,
    n: nat,
    f: spec_fn(int, int) -> int,
    rowsum: spec_fn(int) -> int,
    colsum: spec_fn(int) -> int,
)
    requires
        forall|i: int| 0 <= i < m ==> #[trigger] rowsum(i) == sum(n, |j: int| f(i, j)),
        forall|j: int| 0 <= j < n ==> #[trigger] colsum(j) == sum(m, |i: int| f(i, j)),
    ensures
        sum(m, rowsum) == sum(n, colsum),
    decreases m,
{
    if m == 0 {
        assert forall|j: int| 0 <= j < n implies #[trigger] colsum(j) == 0 by {
            assert(colsum(j) == sum(0, |i: int| f(i, j)));
        }
        lemma_sum_zero(n, colsum);
    } else {
        let m1 = (m - 1) as nat;
        let colsum1 = |j: int| sum(m1, |i: int| f(i, j));
        lemma_sum_swap(m1, n, f, rowsum, colsum1);
        let lastrow = |j: int| f(m1 as int, j);
        assert forall|j: int| 0 <= j < n implies #[trigger] colsum(j) == colsum1(j) + lastrow(j) by {
            assert(colsum(j) == sum(m, |i: int| f(i, j)));
            assert(sum(m, |i: int| f(i, j)) == sum(m1, |i: int| f(i, j)) + f(m1 as int, j));
        }
        lemma_sum_add(n, colsum1, lastrow, colsum);
        assert(rowsum(m1 as int) == sum(n, |j: int| f(m1 as int, j)));
        lemma_sum_ext(n, |j: int| f(m1 as int, j), lastrow);
    }
}

/// Wrapping addition of two scalars.
pub fn wadd(a: i64, b: i64) -> (r: i64)
    ensures
        r == wrap(a + b),
{
    proof {
        lemma_mod_band(a + b);
    }
    a.wrapping_add(b)
}

/// Wrapping subtraction of two scalars.
pub fn wsub(a: i64, b: i64) -> (r: i64)
    ensures
        r == wrap(a - b),
{
    proof {
        lemma_mod_band(a - b);
    }
    a.wrapping_sub(b)
}

/// Wrapping multiplication of two scalars.
pub fn wmul(a: i64, b: i64) -> (r: i64)
    ensures
        r == wrap(a * b),
{
    a.wrapping_mul(b)
}

/// Truncating division of a scalar by a positive scalar; never overflows.
pub fn sdiv(a: i64, b: i64) -> (r: i64)
    requires
        1 <= b,
    ensures
        r == tdiv(a as int, b as int),
{
    let q = a.checked_div(b);
    proof {
        let x = a as int;
        let d = b as int;
        lemma_div_of0(d);
        if x > 0 {
            lemma_div_pos_is_pos(x, d);
            lemma_div_nonincreasing(x, d);
            assert(0 <= x / d <= x);
            assert(tdiv(x, d) == x / d);
        } else if x < 0 {
            lemma_div_pos_is_pos(-x, d);
            lemma_div_nonincreasing(-x, d);
            assert(0 <= (-x) / d <= -x);
            assert(x * -1 == -x);
            assert(tdiv(x, d) == ((x * -1) / d) * -1);
        } else {
            assert(tdiv(x, d) == 0int / d);
        }
        assert(q is Some);
        assert(q->0 == tdiv(x, d));
    }
    q.unwrap()
}

} // verus!
