//! Integer arithmetic of the machine. Numbers are kept as 48-bit two's
//! complement integers (what fits in the payload of a boxed value), so every
//! result is reduced with `wrap48`.
use vstd::prelude::*;
use vstd::arithmetic::div_mod::lemma_fundamental_div_mod_converse;
use vstd::arithmetic::div_mod::lemma_fundamental_div_mod;
use vstd::arithmetic::div_mod::lemma_mul_mod_noop_left;
use vstd::arithmetic::div_mod::lemma_mod_bound;

verus! {

pub open spec fn two48() -> int {
    0x1_0000_0000_0000
}

/// `x` reduced to a 48-bit two's complement integer.
pub open spec fn wrap48(x: int) -> int {
    let m = x % two48();
    if m >= 0x8000_0000_0000 {
        m - two48()
    } else {
        m
    }
}

/// `x` reduced to a 64-bit two's complement integer (what a wrapping `i64`
/// operation gives).
pub open spec fn wrap64(x: int) -> int {
    let m = x % 0x1_0000_0000_0000_0000;
    if m >= 0x8000_0000_0000_0000 {
        m - 0x1_0000_0000_0000_0000
    } else {
        m
    }
}

/// Rust's integer division: the quotient rounded toward zero.
pub open spec fn tdiv(a: int, b: int) -> int {
    let q = abs(a) / abs(b);
    if (a < 0) != (b < 0) {
        -q
    } else {
        q
    }
}

/// Rust's remainder: it has the sign of the dividend.
pub open spec fn tmod(a: int, b: int) -> int {
    a - b * tdiv(a, b)
}

pub open spec fn abs(a: int) -> int {
    if a < 0 {
        -a
    } else {
        a
    }
}

/// `b` to the power `e`.
pub open spec fn ipow(b: int, e: nat) -> int
    decreases e,
{
    if e == 0 {
        1
    } else {
        ipow(b, (e - 1) as nat) * b
    }
}

/// Whether `n` is a 48-bit two's complement integer.
pub open spec fn in48(n: int) -> bool {
    -0x8000_0000_0000 <= n < 0x8000_0000_0000
}

pub proof fn lemma_mod_of_neg(x: int, m: int)
    requires
        x < 0,
        m > 0,
    ensures
        ((-x) % m == 0 ==> x % m == 0),
        ((-x) % m != 0 ==> x % m == m - (-x) % m),
{
    let y = -x;
    lemma_fundamental_div_mod(y, m);
    lemma_mod_bound(y, m);
    let q = y / m;
    let t = y % m;
    assert(y == m * q + t);
    if t == 0 {
        assert(x == (-q) * m + 0) by (nonlinear_arith)
            requires
                y == m * q + t,
                t == 0,
                x == -y,
        ;
        lemma_fundamental_div_mod_converse(x, m, -q, 0);
    } else {
        assert(x == (-q - 1) * m + (m - t)) by (nonlinear_arith)
            requires
                y == m * q + t,
                x == -y,
        ;
        lemma_fundamental_div_mod_converse(x, m, -q - 1, m - t);
    }
}

pub proof fn lemma_wrap48_range(x: int)
    ensures
        in48(wrap48(x)),
{
    lemma_mod_bound(x, two48());
}

/// Reducing again changes nothing.
pub proof fn lemma_wrap48_idem(x: int)
    requires
        in48(x),
    ensures
        wrap48(x) == x,
{
    if x >= 0 {
        lemma_fundamental_div_mod_converse(x, two48(), 0, x);
    } else {
        lemma_fundamental_div_mod_converse(x, two48(), -1, x + two48());
    }
}

/// A 64-bit integer is its own 64-bit reduction.
pub proof fn lemma_wrap64_idem(x: int)
    requires
        -0x8000_0000_0000_0000 <= x < 0x8000_0000_0000_0000,
    ensures
        wrap64(x) == x,
{
    if x >= 0 {
        lemma_fundamental_div_mod_converse(x, 0x1_0000_0000_0000_0000, 0, x);
    } else {
        lemma_fundamental_div_mod_converse(x, 0x1_0000_0000_0000_0000, -1, x + 0x1_0000_0000_0000_0000);
    }
}

/// `wrap48(x)` differs from `x` by a multiple of 2^48.
pub proof fn lemma_wrap48_mod(x: int)
    ensures
        wrap48(x) % two48() == x % two48(),
{
    let m = x % two48();
    lemma_mod_bound(x, two48());
    lemma_fundamental_div_mod_converse(m, two48(), 0, m);
    if m >= 0x8000_0000_0000 {
        lemma_fundamental_div_mod_converse(m - two48(), two48(), -1, m);
    }
}

/// Two integers with the same residue modulo 2^48 reduce to the same value.
pub proof fn lemma_wrap48_same(x: int, y: int)
    requires
        x % two48() == y % two48(),
    ensures
        wrap48(x) == wrap48(y),
{
}

/// Reducing a factor first does not change the reduced product.
pub proof fn lemma_wrap48_mul_left(x: int, y: int)
    ensures
        wrap48(wrap48(x) * y) == wrap48(x * y),
{
    lemma_wrap48_mod(x);
    lemma_mul_mod_noop_left(wrap48(x), y, two48());
    lemma_mul_mod_noop_left(x, y, two48());
    lemma_wrap48_same(wrap48(x) * y, x * y);
}

/// Computes `wrap48(x)`.
pub fn wrap48_exec(x: i128) -> (r: i64)
    requires
        x > i128::MIN,
    ensures
        r == wrap48(x as int),
        in48(r as int),
{
    let m: i128 = 0x1_0000_0000_0000;
    let r: i128 = if x >= 0 {
        x % m
    } else {
        let t = (-x) % m;
        if t == 0 {
            0
        } else {
            m - t
        }
    };
    proof {
        if x < 0 {
            lemma_mod_of_neg(x as int, two48());
        }
        lemma_mod_bound(x as int, two48());
        lemma_wrap48_range(x as int);
    }
    if r >= 0x8000_0000_0000 {
        (r - m) as i64
    } else {
        r as i64
    }
}

/// Computes `wrap64(x)`.
pub fn wrap64_exec(x: i128) -> (r: i64)
    requires
        x > i128::MIN,
    ensures
        r == wrap64(x as int),
{
    let m: i128 = 0x1_0000_0000_0000_0000;
    let r: i128 = if x >= 0 {
        x % m
    } else {
        let t = (-x) % m;
        if t == 0 {
            0
        } else {
            m - t
        }
    };
    proof {
        if x < 0 {
            lemma_mod_of_neg(x as int, 0x1_0000_0000_0000_0000);
        }
        lemma_mod_bound(x as int, 0x1_0000_0000_0000_0000);
    }
    if r >= 0x8000_0000_0000_0000 {
        (r - m) as i64
    } else {
        r as i64
    }
}

/// A remainder is smaller than the divisor.
pub proof fn lemma_tmod_bound(a: int, b: int)
    requires
        b != 0,
    ensures
        abs(tmod(a, b)) < abs(b),
{
    let ua = abs(a);
    let ub = abs(b);
    let q = ua / ub;
    lemma_fundamental_div_mod(ua, ub);
    lemma_mod_bound(ua, ub);
    assert(abs(tmod(a, b)) == ua - ub * q) by (nonlinear_arith)
        requires
            ub == abs(b),
            ua == abs(a),
            q >= 0,
            ub * q <= ua,
            tdiv(a, b) == (if (a < 0) != (b < 0) { -q } else { q }),
            tmod(a, b) == a - b * tdiv(a, b),
    ;
}

/// Rust's `a / b` on integers, computed without overflow.
pub fn tdiv_exec(a: i64, b: i64) -> (r: i128)
    requires
        b != 0,
    ensures
        r == tdiv(a as int, b as int),
        -0x1_0000_0000_0000_0000 < r < 0x1_0000_0000_0000_0000,
{
    let ua: i128 = if a < 0 { -(a as i128) } else { a as i128 };
    let ub: i128 = if b < 0 { -(b as i128) } else { b as i128 };
    let q = ua / ub;
    assert(q <= ua) by (nonlinear_arith)
        requires
            ua >= 0,
            ub >= 1,
            q == ua / ub,
    ;
    if (a < 0) != (b < 0) {
        -q
    } else {
        q
    }
}

/// Rust's `a % b` on integers, computed without overflow.
pub fn tmod_exec(a: i64, b: i64) -> (r: i128)
    requires
        b != 0,
    ensures
        r == tmod(a as int, b as int),
{
    let q = tdiv_exec(a, b);
    proof {
        let ua = abs(a as int);
        let ub = abs(b as int);
        let qq = ua / ub;
        lemma_fundamental_div_mod(ua, ub);
        lemma_mod_bound(ua, ub);
        assert(ub * qq <= ua);
        assert(abs(b * tdiv(a as int, b as int)) == ub * qq) by (nonlinear_arith)
            requires
                ub == abs(b as int),
                qq >= 0,
                tdiv(a as int, b as int) == qq || tdiv(a as int, b as int) == -qq,
        ;
    }
    let p: i128 = (b as i128) * q;
    (a as i128) - p
}

} // verus!
