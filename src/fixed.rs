use vstd::prelude::*;

verus! {

/// Upper end of the search range of `ceil_sqrt_u128`; its square fits in 128 bits.
pub const SQRT_HI: u128 = 18_446_744_073_709_551_615;

/// Integer division rounding toward zero, as Rust's `/` does.
pub open spec fn trunc_div(a: int, d: int) -> int {
    if a >= 0 {
        a / d
    } else {
        -((-a) / d)
    }
}

/// `r` is the least non-negative integer whose square is at least `s`.
pub open spec fn is_ceil_sqrt(s: int, r: int) -> bool {
    &&& r >= 0
    &&& r * r >= s
    &&& (r == 0 || (r - 1) * (r - 1) < s)
}

/// The ceiling of the square root of `s`.
pub open spec fn ceil_sqrt(s: int) -> int {
    choose|r: int| #[trigger] is_ceil_sqrt(s, r)
}

pub proof fn lemma_ceil_sqrt_unique(s: int, r1: int, r2: int)
    requires
        is_ceil_sqrt(s, r1),
        is_ceil_sqrt(s, r2),
    ensures
        r1 == r2,
{
    if r1 < r2 {
        assert((r2 - 1) * (r2 - 1) >= r1 * r1) by (nonlinear_arith)
            requires 0 <= r1 <= r2 - 1;
    } else if r2 < r1 {
        assert((r1 - 1) * (r1 - 1) >= r2 * r2) by (nonlinear_arith)
            requires 0 <= r2 <= r1 - 1;
    }
}

/// A truncated quotient, scaled back by the divisor, is no longer than the dividend.
pub proof fn lemma_trunc_div_sq(a: int, d: int)
    requires
        d > 0,
    ensures
        trunc_div(a, d) * trunc_div(a, d) * (d * d) <= a * a,
        (a >= 0 ==> 0 <= trunc_div(a, d) <= a),
        (a < 0 ==> a <= trunc_div(a, d) <= 0),
{
    let n = if a >= 0 { a } else { -a };
    let q = n / d;
    assert(q * d <= n && q >= 0) by (nonlinear_arith)
        requires d > 0, n >= 0, q == n / d;
    assert(q <= n) by (nonlinear_arith)
        requires d > 0, n >= 0, q >= 0, q * d <= n;
    assert(q * q * (d * d) <= n * n) by (nonlinear_arith)
        requires 0 <= q * d <= n, q >= 0, d > 0;
    assert(n * n == a * a) by (nonlinear_arith)
        requires n == a || n == -a;
    assert(trunc_div(a, d) * trunc_div(a, d) == q * q) by (nonlinear_arith)
        requires trunc_div(a, d) == q || trunc_div(a, d) == -q;
}

/// Scaling a vector by `b / r`, where `r` is at least its length, leaves it
/// no longer than `b`.
pub proof fn lemma_scaled_within(m0: int, m1: int, m2: int, b: int, r: int)
    requires
        b >= 0,
        r > 0,
        r * r >= m0 * m0 + m1 * m1 + m2 * m2,
    ensures
        ({
            let t0 = trunc_div(m0 * b, r);
            let t1 = trunc_div(m1 * b, r);
            let t2 = trunc_div(m2 * b, r);
            t0 * t0 + t1 * t1 + t2 * t2 <= b * b
        }),
{
    let s = m0 * m0 + m1 * m1 + m2 * m2;
    lemma_trunc_div_sq(m0 * b, r);
    lemma_trunc_div_sq(m1 * b, r);
    lemma_trunc_div_sq(m2 * b, r);
    let t0 = trunc_div(m0 * b, r);
    let t1 = trunc_div(m1 * b, r);
    let t2 = trunc_div(m2 * b, r);
    let rr = r * r;
    let bb = b * b;
    assert((m0 * b) * (m0 * b) == (m0 * m0) * bb) by (nonlinear_arith)
        requires bb == b * b;
    assert((m1 * b) * (m1 * b) == (m1 * m1) * bb) by (nonlinear_arith)
        requires bb == b * b;
    assert((m2 * b) * (m2 * b) == (m2 * m2) * bb) by (nonlinear_arith)
        requires bb == b * b;
    let tt = t0 * t0 + t1 * t1 + t2 * t2;
    assert(tt * rr == t0 * t0 * rr + t1 * t1 * rr + t2 * t2 * rr) by (nonlinear_arith)
        requires tt == t0 * t0 + t1 * t1 + t2 * t2;
    assert(s * bb == (m0 * m0) * bb + (m1 * m1) * bb + (m2 * m2) * bb) by (nonlinear_arith)
        requires s == m0 * m0 + m1 * m1 + m2 * m2;
    assert(tt * rr <= s * bb);
    assert(bb >= 0) by (nonlinear_arith)
        requires bb == b * b;
    assert(s * bb <= rr * bb) by (nonlinear_arith)
        requires s <= rr, bb >= 0;
    assert(rr > 0) by (nonlinear_arith)
        requires r > 0, rr == r * r;
    assert(tt <= bb) by (nonlinear_arith)
        requires tt * rr <= rr * bb, rr > 0;
}

/// Truncation loses less than the divisor: `(r * t)^2 >= a^2 - 2 * r * |a|`
/// for `t` the truncated quotient of `a` by `r`.
pub proof fn lemma_trunc_div_lower(a: int, r: int)
    requires
        r > 0,
    ensures
        ({
            let t = trunc_div(a, r);
            let n = if a >= 0 { a } else { -a };
            (r * t) * (r * t) >= a * a - 2 * r * n
        }),
{
    let n = if a >= 0 { a } else { -a };
    let q = n / r;
    let t = trunc_div(a, r);
    assert(q * r <= n && n < q * r + r && q >= 0) by (nonlinear_arith)
        requires r > 0, n >= 0, q == n / r;
    assert((r * t) * (r * t) == (q * r) * (q * r)) by (nonlinear_arith)
        requires t == q || t == -q;
    assert(n * n == a * a) by (nonlinear_arith)
        requires n == a || n == -a;
    if n >= r {
        assert((q * r) * (q * r) >= n * n - 2 * r * n) by (nonlinear_arith)
            requires q * r > n - r, n - r >= 0;
    } else {
        assert((q * r) * (q * r) >= n * n - 2 * r * n) by (nonlinear_arith)
            requires 0 <= n < r;
    }
}

/// Scaling by `k / r` and truncating, where `r` is at least the vector's
/// length, shortens the squared length by at most `3.465 * k * r * r`
/// (scaled by a thousand): `1000 r^2 T >= 1000 k^2 S - 3465 k r^2`.
pub proof fn lemma_scaled_lower(m0: int, m1: int, m2: int, k: int, r: int)
    requires
        k >= 0,
        r > 0,
        r * r >= m0 * m0 + m1 * m1 + m2 * m2,
    ensures
        ({
            let t0 = trunc_div(m0 * k, r);
            let t1 = trunc_div(m1 * k, r);
            let t2 = trunc_div(m2 * k, r);
            1000 * (r * r) * (t0 * t0 + t1 * t1 + t2 * t2) >= 1000 * (k * k) * (m0 * m0 + m1 * m1
                + m2 * m2) - 3465 * k * (r * r)
        }),
{
    let s = m0 * m0 + m1 * m1 + m2 * m2;
    let t0 = trunc_div(m0 * k, r);
    let t1 = trunc_div(m1 * k, r);
    let t2 = trunc_div(m2 * k, r);
    lemma_trunc_div_lower(m0 * k, r);
    lemma_trunc_div_lower(m1 * k, r);
    lemma_trunc_div_lower(m2 * k, r);
    let x = if m0 >= 0 { m0 } else { -m0 };
    let y = if m1 >= 0 { m1 } else { -m1 };
    let z = if m2 >= 0 { m2 } else { -m2 };
    assert((if m0 * k >= 0 { m0 * k } else { -(m0 * k) }) == x * k) by (nonlinear_arith)
        requires k >= 0, x == m0 || x == -m0, x >= 0;
    assert((if m1 * k >= 0 { m1 * k } else { -(m1 * k) }) == y * k) by (nonlinear_arith)
        requires k >= 0, y == m1 || y == -m1, y >= 0;
    assert((if m2 * k >= 0 { m2 * k } else { -(m2 * k) }) == z * k) by (nonlinear_arith)
        requires k >= 0, z == m2 || z == -m2, z >= 0;
    let a = x + y + z;
    assert(x * x == m0 * m0 && y * y == m1 * m1 && z * z == m2 * m2) by (nonlinear_arith)
        requires x == m0 || x == -m0, y == m1 || y == -m1, z == m2 || z == -m2;
    assert(a * a <= 3 * s) by (nonlinear_arith)
        requires a == x + y + z, s == x * x + y * y + z * z;
    let rr = r * r;
    assert((2000 * a) * (2000 * a) <= (3465 * r) * (3465 * r)) by (nonlinear_arith)
        requires a * a <= 3 * s, s <= rr, rr == r * r;
    assert(a >= 0);
    lemma_sq_bound(2000 * a, 3465 * r);
    let kk = k * k;
    let tt = t0 * t0 + t1 * t1 + t2 * t2;
    assert((m0 * k) * (m0 * k) == kk * (m0 * m0)) by (nonlinear_arith)
        requires kk == k * k;
    assert((m1 * k) * (m1 * k) == kk * (m1 * m1)) by (nonlinear_arith)
        requires kk == k * k;
    assert((m2 * k) * (m2 * k) == kk * (m2 * m2)) by (nonlinear_arith)
        requires kk == k * k;
    assert(kk * (m0 * m0) + kk * (m1 * m1) + kk * (m2 * m2) == kk * s) by (nonlinear_arith)
        requires s == m0 * m0 + m1 * m1 + m2 * m2;
    assert((r * t0) * (r * t0) == rr * (t0 * t0)) by (nonlinear_arith)
        requires rr == r * r;
    assert((r * t1) * (r * t1) == rr * (t1 * t1)) by (nonlinear_arith)
        requires rr == r * r;
    assert((r * t2) * (r * t2) == rr * (t2 * t2)) by (nonlinear_arith)
        requires rr == r * r;
    assert(rr * (t0 * t0) + rr * (t1 * t1) + rr * (t2 * t2) == rr * tt) by (nonlinear_arith)
        requires tt == t0 * t0 + t1 * t1 + t2 * t2;
    assert(2 * r * (x * k) + 2 * r * (y * k) + 2 * r * (z * k) == 2 * r * k * a) by (nonlinear_arith)
        requires a == x + y + z;
    assert(rr * tt >= kk * s - 2 * r * k * a);
    assert(1000 * (2 * r * k * a) <= 3465 * k * rr) by (nonlinear_arith)
        requires 2000 * a <= 3465 * r, k >= 0, r > 0, rr == r * r;
    let p = rr * tt;
    let q = kk * s;
    let w = 2 * r * k * a;
    let v = k * rr;
    assert(3465 * k * rr == 3465 * v) by (nonlinear_arith)
        requires v == k * rr;
    assert(1000 * w <= 3465 * v);
    assert(1000 * p >= 1000 * q - 3465 * v) by (nonlinear_arith)
        requires p >= q - w, 1000 * w <= 3465 * v;
    assert(1000 * rr * tt == 1000 * p && 1000 * kk * s == 1000 * q && 3465 * k * rr == 3465 * v) by (nonlinear_arith)
        requires p == rr * tt, q == kk * s, v == k * rr;
}

/// Billionths in a unit: the scale of a normalized vector.
pub const BILLION: i64 = 1_000_000_000;

/// `t` is `a / len` at a scale of a billion, where `len * len == s`, rounded
/// toward zero to within 101 billionths: it has the sign of `a`, never
/// passes `a / len`, and falls short of it by less than 101.
pub open spec fn unit_component(a: int, s: int, t: int) -> bool {
    let n = if t >= 0 { t } else { -t };
    &&& (a > 0 ==> t >= 0)
    &&& (a < 0 ==> t <= 0)
    &&& (a == 0 ==> t == 0)
    &&& t * t * s <= a * a * (BILLION * BILLION)
    &&& (n + 101) * (n + 101) * s > a * a * (BILLION * BILLION)
}

/// One component of `m` scaled by a billion over `r`, the ceiling root of
/// the squared length of `m`, once `r` is at least a hundred million.
pub proof fn lemma_unit_component(m: int, sm: int, r: int)
    requires
        r >= 100_000_000,
        is_ceil_sqrt(sm, r),
        m * m <= sm,
    ensures
        unit_component(m, sm, trunc_div(m * BILLION, r)),
{
    let k = BILLION as int;
    let t = trunc_div(m * k, r);
    let n = if t >= 0 { t } else { -t };
    let a = if m >= 0 { m } else { -m };
    let rr = r * r;
    lemma_trunc_div_sq(m * k, r);
    assert(m * k >= 0 <==> m >= 0) by (nonlinear_arith)
        requires k > 0;
    assert(m * k == 0 <==> m == 0) by (nonlinear_arith)
        requires k > 0;
    assert(t * t * rr <= (m * k) * (m * k));
    assert((m * k) * (m * k) == m * m * (k * k)) by (nonlinear_arith);
    assert(t * t * sm <= t * t * rr) by (nonlinear_arith)
        requires sm <= rr;
    // the truncated quotient falls short of the exact one by less than one
    let ak = a * k;
    if m < 0 {
        assert(ak == -(m * k)) by (nonlinear_arith)
            requires ak == a * k, a == -m;
    }
    if m * k >= 0 {
        assert(ak == m * k);
        assert(t == ak / r);
        assert(n == ak / r);
    } else {
        assert(ak == -(m * k));
        assert(t == -(ak / r));
        assert(ak / r >= 0) by (nonlinear_arith)
            requires ak >= 0, r > 0;
        assert(n == ak / r);
    }
    assert(ak < (n + 1) * r) by (nonlinear_arith)
        requires n == ak / r, r > 0, ak >= 0;
    assert(ak * ak < (n + 1) * (n + 1) * rr) by (nonlinear_arith)
        requires 0 <= ak < (n + 1) * r, rr == r * r, n >= 0;
    assert(ak * ak == m * m * (k * k)) by (nonlinear_arith)
        requires ak == a * k, a == m || a == -m;
    // and r * r is below sm + 2 r
    assert(rr < sm + 2 * r) by (nonlinear_arith)
        requires (r - 1) * (r - 1) < sm, rr == r * r;
    assert(n * n == t * t) by (nonlinear_arith)
        requires n == t || n == -t;
    assert(n * n <= k * k) by (nonlinear_arith)
        requires n * n * sm <= m * m * (k * k), m * m <= sm, sm > 0, n == t || n == -t;
    assert(sm > 0) by (nonlinear_arith)
        requires rr < sm + 2 * r, (r - 1) * (r - 1) < sm, rr == r * r, r >= 1;
    lemma_sq_bound(n, k);
    let u = n + 1;
    assert(100 * sm >= r * u) by (nonlinear_arith)
        requires sm >= (r - 1) * (r - 1) + 1, r >= 100_000_000, 1 <= u <= 1_000_000_001;
    assert((u + 100) * (u + 100) * sm >= u * u * (sm + 2 * r)) by (nonlinear_arith)
        requires 100 * sm >= r * u, u >= 1, sm > 0, r > 0;
    assert(u * u * rr <= u * u * (sm + 2 * r)) by (nonlinear_arith)
        requires rr < sm + 2 * r, u >= 1;
}

/// Scaling the vector by `c` and its squared length by `c * c` does not
/// change which components are its normalized ones.
pub proof fn lemma_unit_component_unscaled(v: int, s: int, t: int, c: int)
    requires
        c > 0,
        unit_component(c * v, c * c * s, t),
    ensures
        unit_component(v, s, t),
{
    let n = if t >= 0 { t } else { -t };
    let bb = BILLION * BILLION;
    let cc = c * c;
    assert(c * v > 0 <==> v > 0) by (nonlinear_arith)
        requires c > 0;
    assert(c * v < 0 <==> v < 0) by (nonlinear_arith)
        requires c > 0;
    assert(c * v == 0 <==> v == 0) by (nonlinear_arith)
        requires c > 0;
    assert(cc > 0) by (nonlinear_arith)
        requires c > 0, cc == c * c;
    assert(t * t * (cc * s) == cc * (t * t * s)) by (nonlinear_arith);
    assert((c * v) * (c * v) * bb == cc * (v * v * bb)) by (nonlinear_arith)
        requires cc == c * c;
    assert((n + 101) * (n + 101) * (cc * s) == cc * ((n + 101) * (n + 101) * s)) by (nonlinear_arith);
    assert(t * t * s <= v * v * bb) by (nonlinear_arith)
        requires cc * (t * t * s) <= cc * (v * v * bb), cc > 0;
    assert((n + 101) * (n + 101) * s > v * v * bb) by (nonlinear_arith)
        requires cc * ((n + 101) * (n + 101) * s) > cc * (v * v * bb), cc > 0;
}

/// The length, in billionths, of a vector normalized by its ceiling root
/// of at least a hundred million lies within a thousand billionths of a
/// unit.
pub proof fn lemma_unit_length(m0: int, m1: int, m2: int, r: int)
    requires
        r >= 100_000_000,
        is_ceil_sqrt(m0 * m0 + m1 * m1 + m2 * m2, r),
    ensures
        ({
            let t0 = trunc_div(m0 * BILLION, r);
            let t1 = trunc_div(m1 * BILLION, r);
            let t2 = trunc_div(m2 * BILLION, r);
            &&& (BILLION - 1000) * (BILLION - 1000) <= t0 * t0 + t1 * t1 + t2 * t2
            &&& t0 * t0 + t1 * t1 + t2 * t2 <= BILLION * BILLION
        }),
{
    let k = BILLION as int;
    let s = m0 * m0 + m1 * m1 + m2 * m2;
    lemma_scaled_lower(m0, m1, m2, k, r);
    lemma_scaled_within(m0, m1, m2, k, r);
    let t0 = trunc_div(m0 * k, r);
    let t1 = trunc_div(m1 * k, r);
    let t2 = trunc_div(m2 * k, r);
    let tt = t0 * t0 + t1 * t1 + t2 * t2;
    let rr = r * r;
    assert(1000 * rr * tt >= 1000 * (k * k) * s - 3465 * k * rr);
    assert(s >= (r - 1) * (r - 1) + 1);
    assert(1000 * (k * k) * s >= 1000 * (k * k) * ((r - 1) * (r - 1))) by (nonlinear_arith)
        requires s >= (r - 1) * (r - 1) + 1;
    if tt < (k - 1000) * (k - 1000) {
        assert(rr > 0) by (nonlinear_arith)
            requires rr == r * r, r > 0;
        assert(1000 * rr * tt <= 1000 * rr * ((k - 1000) * (k - 1000) - 1)) by (nonlinear_arith)
            requires tt <= (k - 1000) * (k - 1000) - 1, rr > 0;
        assert(false) by (nonlinear_arith)
            requires
                1000 * rr * tt >= 1000 * (k * k) * ((r - 1) * (r - 1)) - 3465 * k * rr,
                1000 * rr * tt <= 1000 * rr * ((k - 1000) * (k - 1000) - 1),
                rr == r * r,
                r >= 100_000_000,
                k == 1_000_000_000,
        ;
    }
}

/// A square bounded by `b * b` bounds the value by `b`.
pub proof fn lemma_sq_bound(x: int, b: int)
    requires
        b >= 0,
        x * x <= b * b,
    ensures
        -b <= x <= b,
{
    if x > b {
        assert(x * x > b * b) by (nonlinear_arith)
            requires x > b, b >= 0;
    }
    if x < -b {
        assert(x * x > b * b) by (nonlinear_arith)
            requires x < -b, b >= 0;
    }
}

/// Every non-negative integer has a ceiling square root.
pub proof fn lemma_ceil_sqrt_exists(s: int)
    requires
        s >= 0,
    ensures
        exists|k: int| #[trigger] is_ceil_sqrt(s, k),
    decreases s,
{
    if s == 0 {
        assert(is_ceil_sqrt(0, 0));
    } else {
        lemma_ceil_sqrt_exists(s - 1);
        let k = choose|k: int| #[trigger] is_ceil_sqrt(s - 1, k);
        if k * k >= s {
            assert(is_ceil_sqrt(s, k));
        } else {
            assert(k * k == s - 1);
            assert((k + 1) * (k + 1) >= s) by (nonlinear_arith)
                requires k >= 0, k * k == s - 1;
            assert(is_ceil_sqrt(s, k + 1));
        }
    }
}

/// Scaling by a fraction `f / d` of at most one keeps a value's sign and
/// does not lengthen it.
pub proof fn lemma_trunc_div_scaled(a: int, f: int, d: int)
    requires
        d > 0,
        0 <= f <= d,
    ensures
        a >= 0 ==> 0 <= trunc_div(a * f, d) <= a,
        a < 0 ==> a <= trunc_div(a * f, d) <= 0,
{
    if a >= 0 {
        let q = (a * f) / d;
        assert(q * d <= a * f && a * f <= a * d && q >= 0) by (nonlinear_arith)
            requires d > 0, a >= 0, 0 <= f <= d, q == (a * f) / d;
        assert(q <= a) by (nonlinear_arith)
            requires q * d <= a * d, d > 0;
    } else {
        let n = -a;
        assert(-(a * f) == n * f) by (nonlinear_arith)
            requires n == -a;
        let q = (n * f) / d;
        assert(q * d <= n * f && n * f <= n * d && q >= 0) by (nonlinear_arith)
            requires d > 0, n >= 0, 0 <= f <= d, q == (n * f) / d;
        assert(q <= n) by (nonlinear_arith)
            requires q * d <= n * d, d > 0;
    }
}

/// The remainder of `v` by `d` in `[0, d)`, for a negative `v` given by its
/// magnitude's remainder.
pub proof fn lemma_mod_of_negative(n: int, d: int)
    requires
        n > 0,
        d > 0,
    ensures
        (-n) % d == (if n % d == 0 { 0 } else { d - n % d }),
{
    let q = n / d;
    let k = n % d;
    vstd::arithmetic::div_mod::lemma_fundamental_div_mod(n, d);
    assert(0 <= k < d) by {
        vstd::arithmetic::div_mod::lemma_mod_bound(n, d);
    }
    if k == 0 {
        assert(-n == (-q) * d + 0) by (nonlinear_arith)
            requires n == d * q + k, k == 0;
        vstd::arithmetic::div_mod::lemma_fundamental_div_mod_converse(-n, d, -q, 0);
    } else {
        assert(-n == (-q - 1) * d + (d - k)) by (nonlinear_arith)
            requires n == d * q + k;
        vstd::arithmetic::div_mod::lemma_fundamental_div_mod_converse(-n, d, -q - 1, d - k);
    }
}

/// `a / d` rounded toward zero.
pub fn trunc_div_i128(a: i128, d: i128) -> (r: i128)
    requires
        d > 0,
        a > i128::MIN,
    ensures
        r == trunc_div(a as int, d as int),
{
    if a >= 0 {
        ((a as u128) / (d as u128)) as i128
    } else {
        let n = (-a) as u128;
        let q = n / (d as u128);
        assert(q <= n) by (nonlinear_arith)
            requires d > 0, q == n / (d as u128);
        -(q as i128)
    }
}

/// The ceiling of the square root, by bisection.
pub fn ceil_sqrt_u128(s: u128) -> (r: u128)
    requires
        s <= SQRT_HI * SQRT_HI,
    ensures
        is_ceil_sqrt(s as int, r as int),
        r as int == ceil_sqrt(s as int),
        r <= SQRT_HI,
{
    if s == 0 {
        assert(is_ceil_sqrt(0, 0));
        proof {
            lemma_ceil_sqrt_unique(0, 0, ceil_sqrt(0));
        }
        return 0;
    }
    let mut lo: u128 = 0;
    let mut hi: u128 = SQRT_HI;
    while hi - lo > 1
        invariant
            lo < hi <= SQRT_HI,
            lo * lo < s,
            s <= hi * hi,
            s <= SQRT_HI * SQRT_HI,
        decreases hi - lo,
    {
        let mid = lo + (hi - lo) / 2;
        assert(mid * mid <= SQRT_HI * SQRT_HI) by (nonlinear_arith)
            requires mid <= SQRT_HI;
        if mid * mid < s {
            lo = mid;
        } else {
            hi = mid;
        }
    }
    assert(is_ceil_sqrt(s as int, hi as int));
    proof {
        lemma_ceil_sqrt_unique(s as int, hi as int, ceil_sqrt(s as int));
    }
    hi
}

} // verus!
