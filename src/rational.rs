//! Exact non-negative rational numbers.
//!
//! Amounts in a formula are held as fractions of two machine integers, so
//! that every conversion is exact. [`Frac`] is their mathematical model: a
//! numerator over a positive denominator, compared by cross multiplication.
use vstd::arithmetic::div_mod::lemma_fundamental_div_mod;
use vstd::arithmetic::mul::lemma_mul_equality_converse;
use vstd::prelude::*;

verus! {

/// The mathematical value of an amount: `n / d`.
pub struct Frac {
    pub n: int,
    pub d: int,
}

/// The whole number `n` as a fraction.
pub open spec fn whole(n: int) -> Frac {
    Frac { n, d: 1 }
}

impl Frac {
    /// A non-negative fraction with a positive denominator.
    pub open spec fn valid(self) -> bool {
        self.n >= 0 && self.d > 0
    }

    pub open spec fn plus(self, o: Frac) -> Frac {
        Frac { n: self.n * o.d + o.n * self.d, d: self.d * o.d }
    }

    pub open spec fn minus(self, o: Frac) -> Frac {
        Frac { n: self.n * o.d - o.n * self.d, d: self.d * o.d }
    }

    pub open spec fn times(self, o: Frac) -> Frac {
        Frac { n: self.n * o.n, d: self.d * o.d }
    }

    pub open spec fn over(self, o: Frac) -> Frac {
        Frac { n: self.n * o.d, d: self.d * o.n }
    }

    /// Equal as numbers.
    pub open spec fn eqv(self, o: Frac) -> bool {
        self.n * o.d == o.n * self.d
    }

    pub open spec fn at_most(self, o: Frac) -> bool {
        self.n * o.d <= o.n * self.d
    }

    pub open spec fn below(self, o: Frac) -> bool {
        self.n * o.d < o.n * self.d
    }

    pub open spec fn is_zero(self) -> bool {
        self.n == 0
    }
}

pub proof fn lemma_valid_ops(a: Frac, b: Frac)
    requires
        a.valid(),
        b.valid(),
    ensures
        a.plus(b).valid(),
        a.times(b).valid(),
        b.n > 0 ==> a.over(b).valid(),
        b.at_most(a) ==> a.minus(b).valid(),
{
    assert(a.d * b.d > 0) by (nonlinear_arith)
        requires
            a.d > 0,
            b.d > 0,
    ;
    assert(a.n * b.d >= 0 && b.n * a.d >= 0 && a.n * b.n >= 0) by (nonlinear_arith)
        requires
            a.valid(),
            b.valid(),
    ;
    if b.n > 0 {
        assert(a.d * b.n > 0) by (nonlinear_arith)
            requires
                a.d > 0,
                b.n > 0,
        ;
    }
}

pub proof fn lemma_eqv_refl(a: Frac)
    ensures
        a.eqv(a),
{
}

pub proof fn lemma_eqv_symm(a: Frac, b: Frac)
    requires
        a.eqv(b),
    ensures
        b.eqv(a),
{
}

pub proof fn lemma_eqv_trans(a: Frac, b: Frac, c: Frac)
    requires
        b.d > 0,
        a.eqv(b),
        b.eqv(c),
    ensures
        a.eqv(c),
{
    assert(b.d * (a.n * c.d) == b.d * (c.n * a.d)) by (nonlinear_arith)
        requires
            a.n * b.d == b.n * a.d,
            b.n * c.d == c.n * b.d,
    ;
    lemma_mul_equality_converse(b.d, a.n * c.d, c.n * a.d);
}

proof fn lemma_regroup(w: int, x: int, y: int, z: int)
    ensures
        (w * x) * (y * z) == (w * y) * (x * z),
{
    assert((w * x) * (y * z) == (w * y) * (x * z)) by (nonlinear_arith);
}

proof fn lemma_distribute(x: int, y: int, m: int)
    ensures
        (x + y) * m == x * m + y * m,
        (x - y) * m == x * m - y * m,
{
    assert((x + y) * m == x * m + y * m) by (nonlinear_arith);
    assert((x - y) * m == x * m - y * m) by (nonlinear_arith);
}

/// Sums, differences, products and quotients of equal numbers are equal.
pub proof fn lemma_ops_congruent(a: Frac, a2: Frac, b: Frac, b2: Frac)
    requires
        a.eqv(a2),
        b.eqv(b2),
    ensures
        a.plus(b).eqv(a2.plus(b2)),
        a.minus(b).eqv(a2.minus(b2)),
        a.times(b).eqv(a2.times(b2)),
        a.over(b).eqv(a2.over(b2)),
{
    lemma_distribute(a.n * b.d, b.n * a.d, a2.d * b2.d);
    lemma_distribute(a2.n * b2.d, b2.n * a2.d, a.d * b.d);
    lemma_regroup(a.n, b.d, a2.d, b2.d);
    lemma_regroup(b.n, a.d, b2.d, a2.d);
    lemma_regroup(a2.n, b2.d, a.d, b.d);
    lemma_regroup(b2.n, a2.d, b.d, a.d);
    assert(a2.d * b2.d == b2.d * a2.d) by (nonlinear_arith);
    assert(a.d * b.d == b.d * a.d) by (nonlinear_arith);
    assert(a.d * a2.d == a2.d * a.d) by (nonlinear_arith);
    assert(b.d * b2.d == b2.d * b.d) by (nonlinear_arith);
    lemma_regroup(a.n, b.n, a2.d, b2.d);
    lemma_regroup(a2.n, b2.n, a.d, b.d);
    lemma_regroup(a.n, b.d, a2.d, b2.n);
    lemma_regroup(a2.n, b2.d, a.d, b.n);
    assert(b.d * b2.n == b2.n * b.d) by (nonlinear_arith);
    assert(b2.d * b.n == b.n * b2.d) by (nonlinear_arith);
}

/// Order and zero are the same for equal numbers.
pub proof fn lemma_compare_congruent(a: Frac, a2: Frac, b: Frac, b2: Frac)
    requires
        a.d > 0,
        a2.d > 0,
        b.d > 0,
        b2.d > 0,
        a.eqv(a2),
        b.eqv(b2),
    ensures
        a.at_most(b) == a2.at_most(b2),
        a.below(b) == a2.below(b2),
        a.is_zero() == a2.is_zero(),
        a.eqv(b) == a2.eqv(b2),
{
    assert(a.at_most(b) == a2.at_most(b2)) by (nonlinear_arith)
        requires
            a.d > 0,
            a2.d > 0,
            b.d > 0,
            b2.d > 0,
            a.n * a2.d == a2.n * a.d,
            b.n * b2.d == b2.n * b.d,
    ;
    assert(a.below(b) == a2.below(b2)) by (nonlinear_arith)
        requires
            a.d > 0,
            a2.d > 0,
            b.d > 0,
            b2.d > 0,
            a.n * a2.d == a2.n * a.d,
            b.n * b2.d == b2.n * b.d,
    ;
    assert(a.is_zero() == a2.is_zero()) by (nonlinear_arith)
        requires
            a.d > 0,
            a2.d > 0,
            a.n * a2.d == a2.n * a.d,
    ;
    if a.eqv(b) {
        lemma_eqv_symm(a, a2);
        lemma_eqv_trans(a2, a, b);
        lemma_eqv_trans(a2, b, b2);
    }
    if a2.eqv(b2) {
        lemma_eqv_trans(a, a2, b2);
        lemma_eqv_symm(b, b2);
        lemma_eqv_trans(a, b2, b);
    }
}

/// `x` can be written as a fraction whose numerator and denominator take at
/// most 64 bits each: its lowest terms do.
pub open spec fn fits(x: Frac) -> bool {
    exists|p: int, q: int|
        #![trigger p * x.d, x.n * q]
        0 <= p <= u64::MAX && 0 < q <= u64::MAX && p * x.d == x.n * q
}

/// Whether a value fits does not depend on how it is written.
pub proof fn lemma_fits_eqv(x: Frac, y: Frac)
    requires
        x.d > 0,
        x.eqv(y),
        fits(x),
    ensures
        fits(y),
{
    let (p, q) = choose|p: int, q: int|
        #![trigger p * x.d, x.n * q]
        0 <= p <= u64::MAX && 0 < q <= u64::MAX && p * x.d == x.n * q;
    let w = Frac { n: p, d: q };
    lemma_eqv_trans(w, x, y);
    assert(p * y.d == y.n * q);
}

/// A fraction whose numerator and denominator are coprime, as witnessed by
/// `s * n + t * d == 1`, is in lowest terms: every other way of writing it
/// uses a numerator and a denominator at least as large.
proof fn lemma_coprime_least(n: int, d: int, s: int, t: int, p: int, q: int)
    requires
        s * n + t * d == 1,
        n >= 0,
        d > 0,
        p >= 0,
        q > 0,
        p * d == n * q,
    ensures
        d <= q,
        n <= p,
{
    let k = s * p + t * q;
    assert(d * k == s * (p * d) + t * (q * d)) by (nonlinear_arith)
        requires
            k == s * p + t * q,
    ;
    assert(s * (n * q) + t * (q * d) == q * (s * n + t * d)) by (nonlinear_arith);
    assert(n * k == s * (n * p) + t * (n * q)) by (nonlinear_arith)
        requires
            k == s * p + t * q,
    ;
    assert(s * (n * p) + t * (p * d) == p * (s * n + t * d)) by (nonlinear_arith);
    assert(q == d * k);
    assert(p == n * k);
    assert(k >= 1) by (nonlinear_arith)
        requires
            q == d * k,
            q > 0,
            d > 0,
    ;
    assert(d <= q && n <= p) by (nonlinear_arith)
        requires
            q == d * k,
            p == n * k,
            k >= 1,
            n >= 0,
            d > 0,
    ;
}

/// An exact non-negative rational amount, kept in lowest terms as two
/// 64-bit integers. Every operation is exact; it returns `None` exactly
/// when its result does not fit (see [`fits`]).
#[derive(Clone, Copy, Debug)]
pub struct Rational {
    num: u64,
    den: u64,
}

impl View for Rational {
    type V = Frac;

    closed spec fn view(&self) -> Frac {
        Frac { n: self.num as int, d: self.den as int }
    }
}

/// The exact product of two 64-bit integers.
fn wide(a: u64, b: u64) -> (r: u128)
    ensures
        r == a * b,
{
    assert(a * b <= u64::MAX * u64::MAX) by (nonlinear_arith)
        requires
            a <= u64::MAX,
            b <= u64::MAX,
    ;
    (a as u128) * (b as u128)
}

/// Greatest common divisor by Euclid's algorithm, with ghost witnesses that
/// it divides both arguments (`a == u * g`, `b == v * g`) and is a
/// combination of them (`g == s * a + t * b`).
fn gcd(a: u128, b: u128) -> (r: (u128, Ghost<(int, int, int, int)>))
    requires
        a > 0 || b > 0,
    ensures
        r.0 > 0,
        a == r.1@.0 * r.0,
        b == r.1@.1 * r.0,
        r.0 == r.1@.2 * a + r.1@.3 * b,
{
    let mut x: u128 = a;
    let mut y: u128 = b;
    let ghost mut u1: int = 1;
    let ghost mut v1: int = 0;
    let ghost mut u2: int = 0;
    let ghost mut v2: int = 1;
    let ghost mut s1: int = 1;
    let ghost mut t1: int = 0;
    let ghost mut s2: int = 0;
    let ghost mut t2: int = 1;
    while y != 0
        invariant
            x > 0 || y > 0,
            a == u1 * x + v1 * y,
            b == u2 * x + v2 * y,
            x == s1 * a + t1 * b,
            y == s2 * a + t2 * b,
        decreases y,
    {
        let q: u128 = x / y;
        let r: u128 = x % y;
        proof {
            lemma_fundamental_div_mod(x as int, y as int);
            let qi = q as int;
            assert(a == (u1 * qi + v1) * y + u1 * r) by (nonlinear_arith)
                requires
                    a == u1 * x + v1 * y,
                    x == y * qi + r,
            ;
            assert(b == (u2 * qi + v2) * y + u2 * r) by (nonlinear_arith)
                requires
                    b == u2 * x + v2 * y,
                    x == y * qi + r,
            ;
            assert(r == (s1 - qi * s2) * a + (t1 - qi * t2) * b) by (nonlinear_arith)
                requires
                    x == s1 * a + t1 * b,
                    y == s2 * a + t2 * b,
                    x == y * qi + r,
            ;
            let nu1 = u1 * qi + v1;
            let nu2 = u2 * qi + v2;
            let ns2 = s1 - qi * s2;
            let nt2 = t1 - qi * t2;
            v1 = u1;
            u1 = nu1;
            v2 = u2;
            u2 = nu2;
            s1 = s2;
            t1 = t2;
            s2 = ns2;
            t2 = nt2;
        }
        x = y;
        y = r;
    }
    (x, Ghost((u1, u2, s1, t1)))
}

/// `n / d` in lowest terms, when that fits in 64 bits.
fn reduced(n: u128, d: u128) -> (r: Option<Rational>)
    requires
        d > 0,
    ensures
        r matches Some(q) ==> q@.valid() && q@.eqv(Frac { n: n as int, d: d as int }),
        fits(Frac { n: n as int, d: d as int }) ==> r is Some,
        n <= u64::MAX && d <= u64::MAX ==> r is Some,
{
    let (g, wit) = gcd(n, d);
    let ghost (u, v, s, t) = wit@;
    proof {
        assert(u >= 0 && v > 0) by (nonlinear_arith)
            requires
                n == u * g,
                d == v * g,
                g > 0,
                d > 0,
                n >= 0,
        ;
        vstd::arithmetic::div_mod::lemma_div_by_multiple(u, g as int);
        vstd::arithmetic::div_mod::lemma_div_by_multiple(v, g as int);
        assert(g * (s * u + t * v) == g * 1) by (nonlinear_arith)
            requires
                g == s * n + t * d,
                n == u * g,
                d == v * g,
        ;
        lemma_mul_equality_converse(g as int, s * u + t * v, 1);
        assert(u * d == n * v) by (nonlinear_arith)
            requires
                n == u * g,
                d == v * g,
        ;
        assert(u <= n && v <= d) by (nonlinear_arith)
            requires
                n == u * g,
                d == v * g,
                g >= 1,
                u >= 0,
                v > 0,
        ;
        if fits(Frac { n: n as int, d: d as int }) {
            let x = Frac { n: n as int, d: d as int };
            let (p, q) = choose|p: int, q: int|
                #![trigger p * x.d, x.n * q]
                0 <= p <= u64::MAX && 0 < q <= u64::MAX && p * x.d == x.n * q;
            assert(g * (p * v) == g * (u * q)) by (nonlinear_arith)
                requires
                    p * d == n * q,
                    n == u * g,
                    d == v * g,
            ;
            lemma_mul_equality_converse(g as int, p * v, u * q);
            lemma_coprime_least(u, v, s, t, p, q);
        }
    }
    let n2: u128 = n / g;
    let d2: u128 = d / g;
    if n2 <= u64::MAX as u128 && d2 <= u64::MAX as u128 {
        Some(Rational { num: n2 as u64, den: d2 as u64 })
    } else {
        None
    }
}

impl Rational {
    /// The whole number `n`.
    pub fn from_integer(n: u64) -> (r: Rational)
        ensures
            r@ == whole(n as int),
            r@.valid(),
    {
        Rational { num: n, den: 1 }
    }

    /// `num / den`, in lowest terms.
    pub fn fraction(num: u64, den: u64) -> (r: Rational)
        requires
            den > 0,
        ensures
            r@.valid(),
            r@.eqv(Frac { n: num as int, d: den as int }),
    {
        match reduced(num as u128, den as u128) {
            Some(q) => q,
            None => Rational { num, den },
        }
    }

    /// `num / den`, in lowest terms; `None` when `den` is zero.
    pub fn new(num: u64, den: u64) -> (r: Option<Rational>)
        ensures
            den == 0 <==> r is None,
            r matches Some(q) ==> q@.valid() && q@.eqv(Frac { n: num as int, d: den as int }),
    {
        if den == 0 {
            None
        } else {
            reduced(num as u128, den as u128)
        }
    }

    pub fn numer(&self) -> (r: u64)
        ensures
            r == self@.n,
    {
        self.num
    }

    pub fn denom(&self) -> (r: u64)
        ensures
            r == self@.d,
    {
        self.den
    }

    pub fn is_zero(&self) -> (b: bool)
        ensures
            b == self@.is_zero(),
    {
        self.num == 0
    }

    /// Whether `self <= o`.
    pub fn at_most(&self, o: &Rational) -> (b: bool)
        ensures
            b == self@.at_most(o@),
    {
        wide(self.num, o.den) <= wide(o.num, self.den)
    }

    /// Whether `self == o` as numbers.
    pub fn same_value(&self, o: &Rational) -> (b: bool)
        ensures
            b == self@.eqv(o@),
    {
        wide(self.num, o.den) == wide(o.num, self.den)
    }

    pub fn plus(&self, o: &Rational) -> (r: Option<Rational>)
        requires
            self@.valid(),
            o@.valid(),
        ensures
            r matches Some(q) ==> q@.valid() && q@.eqv(self@.plus(o@)),
            fits(self@.plus(o@)) ==> r is Some,
    {
        let t1: u128 = wide(self.num, o.den);
        let t2: u128 = wide(o.num, self.den);
        let d: u128 = wide(self.den, o.den);
        proof {
            lemma_valid_ops(self@, o@);
        }
        // The sum may not fit 128 bits: split it into a whole part and a
        // proper fraction of `d`.
        let q1: u128 = t1 / d;
        let r1: u128 = t1 % d;
        let q2: u128 = t2 / d;
        let r2: u128 = t2 % d;
        let (carry, rest): (u128, u128) = if r1 >= d - r2 {
            (1, r1 - (d - r2))
        } else {
            (0, r1 + r2)
        };
        let ghost whole_part: int = q1 + q2 + carry;
        proof {
            lemma_fundamental_div_mod(t1 as int, d as int);
            lemma_fundamental_div_mod(t2 as int, d as int);
            assert(t1 + t2 == whole_part * d + rest) by (nonlinear_arith)
                requires
                    t1 == d * q1 + r1,
                    t2 == d * q2 + r2,
                    whole_part == q1 + q2 + carry,
                    r1 + r2 == carry * d + rest,
            ;
        }
        let (g, wit) = gcd(rest, d);
        let ghost (u, v, s, t) = wit@;
        proof {
            assert(u >= 0 && v > 0) by (nonlinear_arith)
                requires
                    rest == u * g,
                    d == v * g,
                    g > 0,
                    d > 0,
            ;
            vstd::arithmetic::div_mod::lemma_div_by_multiple(u, g as int);
            vstd::arithmetic::div_mod::lemma_div_by_multiple(v, g as int);
            assert(g * (s * u + t * v) == g * 1) by (nonlinear_arith)
                requires
                    g == s * rest + t * d,
                    rest == u * g,
                    d == v * g,
            ;
            lemma_mul_equality_converse(g as int, s * u + t * v, 1);
        }
        let rest2: u128 = rest / g;
        let d2: u128 = d / g;
        let ghost num: int = whole_part * v + u;
        proof {
            // num / d2 is the sum, in lowest terms
            assert((s) * num + (t - s * whole_part) * v == 1) by (nonlinear_arith)
                requires
                    s * u + t * v == 1,
                    num == whole_part * v + u,
            ;
            assert(num * d == (t1 + t2) * v) by (nonlinear_arith)
                requires
                    num == whole_part * v + u,
                    t1 + t2 == whole_part * d + rest,
                    rest == u * g,
                    d == v * g,
            ;
            assert(whole_part >= 0 && num >= whole_part) by (nonlinear_arith)
                requires
                    num == whole_part * v + u,
                    whole_part == q1 + q2 + carry,
                    q1 >= 0,
                    q2 >= 0,
                    carry >= 0,
                    u >= 0,
                    v >= 1,
            ;
            if fits(self@.plus(o@)) {
                let x = self@.plus(o@);
                assert(x.n == t1 + t2 && x.d == d);
                let (p, q) = choose|p: int, q: int|
                    #![trigger p * x.d, x.n * q]
        0 <= p <= u64::MAX && 0 < q <= u64::MAX && p * x.d == x.n * q;
                assert(g * (p * v) == g * (num * q)) by (nonlinear_arith)
                    requires
                        p * d == (t1 + t2) * q,
                        num * d == (t1 + t2) * v,
                        d == v * g,
                        v > 0,
                ;
                lemma_mul_equality_converse(g as int, p * v, num * q);
                lemma_coprime_least(num, v, s, t - s * whole_part, p, q);
            }
        }
        let w1 = match q1.checked_add(q2) {
            Some(w) => w,
            None => {
                return None;
            },
        };
        let w = match w1.checked_add(carry) {
            Some(w) => w,
            None => {
                return None;
            },
        };
        if w > u64::MAX as u128 || d2 > u64::MAX as u128 {
            return None;
        }
        let big = wide(w as u64, d2 as u64);
        let n = match big.checked_add(rest2) {
            Some(n) => n,
            None => {
                return None;
            },
        };
        if n > u64::MAX as u128 {
            return None;
        }
        proof {
            assert(self@.plus(o@) == Frac { n: t1 + t2, d: d as int });
            assert((n as int) * (d as int) == (t1 + t2) * (d2 as int));
        }
        Some(Rational { num: n as u64, den: d2 as u64 })
    }

    pub fn minus(&self, o: &Rational) -> (r: Option<Rational>)
        requires
            self@.valid(),
            o@.valid(),
            o@.at_most(self@),
        ensures
            r matches Some(q) ==> q@.valid() && q@.eqv(self@.minus(o@)),
            fits(self@.minus(o@)) ==> r is Some,
    {
        let a: u128 = wide(self.num, o.den);
        let b: u128 = wide(o.num, self.den);
        let d: u128 = wide(self.den, o.den);
        proof {
            lemma_valid_ops(self@, o@);
        }
        reduced(a - b, d)
    }

    pub fn times(&self, o: &Rational) -> (r: Option<Rational>)
        requires
            self@.valid(),
            o@.valid(),
        ensures
            r matches Some(q) ==> q@.valid() && q@.eqv(self@.times(o@)),
            fits(self@.times(o@)) ==> r is Some,
    {
        proof {
            lemma_valid_ops(self@, o@);
        }
        reduced(wide(self.num, o.num), wide(self.den, o.den))
    }

    pub fn over(&self, o: &Rational) -> (r: Option<Rational>)
        requires
            self@.valid(),
            o@.valid(),
            !o@.is_zero(),
        ensures
            r matches Some(q) ==> q@.valid() && q@.eqv(self@.over(o@)),
            fits(self@.over(o@)) ==> r is Some,
    {
        proof {
            lemma_valid_ops(self@, o@);
        }
        reduced(wide(self.num, o.den), wide(self.den, o.num))
    }
}

} // verus!
