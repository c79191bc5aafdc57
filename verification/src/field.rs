//! The finite field that all cell values and constraint evaluations live in.
//!
//! Elements are stored as canonical representatives `0 <= v < MODULUS` of the
//! integers modulo a prime. The modulus is chosen small enough that the sum
//! and the product of two reduced elements fit in a `u64`, so every operation
//! is provably free of overflow.

use vstd::prelude::*;
use vstd::arithmetic::div_mod::lemma_mod_add_multiples_vanish;

verus! {

/// The field modulus, a prime.
pub const MODULUS: u64 = 65521;

/// The modulus as a mathematical integer.
pub open spec fn modulus() -> int {
    MODULUS as int
}

/// Field addition on canonical representatives.
pub open spec fn fadd(a: int, b: int) -> int {
    (a + b) % modulus()
}

/// Field subtraction on canonical representatives.
pub open spec fn fsub(a: int, b: int) -> int {
    (a - b) % modulus()
}

/// Field multiplication on canonical representatives.
pub open spec fn fmul(a: int, b: int) -> int {
    (a * b) % modulus()
}

/// Field negation on canonical representatives.
pub open spec fn fneg(a: int) -> int {
    (-a) % modulus()
}

/// An element of the prime field, stored as its canonical representative.
#[derive(Clone, Copy, PartialEq, Eq, Structural, Debug)]
pub struct Fp {
    v: u64,
}

impl View for Fp {
    type V = int;

    closed spec fn view(&self) -> int {
        self.v as int
    }
}

impl Fp {
    /// Every element holds a canonical representative.
    #[verifier::type_invariant]
    pub closed spec fn wf(self) -> bool {
        self.v < MODULUS
    }

    /// Two elements are the same exactly when their representatives agree.
    pub proof fn lemma_view_injective(a: Fp, b: Fp)
        ensures
            (a == b) <==> (a@ == b@),
    {
    }

    /// The element representing `x` modulo the field order.
    pub fn new(x: u64) -> (r: Fp)
        ensures
            r@ == x as int % modulus(),
            r == fp_of(x as int),
            r.wf(),
    {
        proof {
            assert((x as int % modulus()) as u64 == x % MODULUS);
        }
        Fp { v: x % MODULUS }
    }

    /// The additive identity.
    pub fn zero() -> (r: Fp)
        ensures
            r@ == 0,
            r == fp_of(0),
    {
        proof {
            vstd::arithmetic::div_mod::lemma_small_mod(0nat, MODULUS as nat);
        }
        Fp { v: 0 }
    }

    /// The multiplicative identity.
    pub fn one() -> (r: Fp)
        ensures
            r@ == 1,
            r == fp_of(1),
    {
        proof {
            vstd::arithmetic::div_mod::lemma_small_mod(1nat, MODULUS as nat);
        }
        Fp { v: 1 }
    }

    /// The canonical representative as a machine integer.
    pub fn repr(self) -> (r: u64)
        ensures
            r as int == self@,
    {
        self.v
    }

    pub fn add(self, other: Fp) -> (r: Fp)
        ensures
            r@ == fadd(self@, other@),
    {
        proof {
            use_type_invariant(self);
            use_type_invariant(other);
        }
        Fp { v: (self.v + other.v) % MODULUS }
    }

    pub fn sub(self, other: Fp) -> (r: Fp)
        ensures
            r@ == fsub(self@, other@),
    {
        proof {
            use_type_invariant(self);
            use_type_invariant(other);
            lemma_mod_add_multiples_vanish(self@ - other@, modulus());
        }
        Fp { v: (self.v + MODULUS - other.v) % MODULUS }
    }

    pub fn mul(self, other: Fp) -> (r: Fp)
        ensures
            r@ == fmul(self@, other@),
    {
        proof {
            use_type_invariant(self);
            use_type_invariant(other);
            assert(self.v * other.v < 65521 * 65521) by (nonlinear_arith)
                requires
                    self.v < 65521,
                    other.v < 65521,
            ;
        }
        Fp { v: (self.v * other.v) % MODULUS }
    }

    pub fn neg(self) -> (r: Fp)
        ensures
            r@ == fneg(self@),
    {
        proof {
            use_type_invariant(self);
            lemma_mod_add_multiples_vanish(-self@, modulus());
        }
        Fp { v: (MODULUS - self.v) % MODULUS }
    }
}

/// The element with canonical representative `x % MODULUS`.
pub closed spec fn fp_of(x: int) -> Fp {
    Fp { v: (x % modulus()) as u64 }
}

/// What `fp_of` represents.
pub proof fn lemma_fp_of(x: int)
    ensures
        fp_of(x)@ == x % modulus(),
        fp_of(x).wf(),
{
}

impl Fp {
    /// The multiplicative inverse: `Some(x)` with `self * x = 1` for every
    /// non-zero element, `None` exactly for zero.
    pub fn invert(self) -> (r: Option<Fp>)
        ensures
            match r {
                Some(x) => fmul(self@, x@) == 1 && self@ != 0,
                None => self@ == 0,
            },
    {
        proof {
            use_type_invariant(self);
        }
        if self.v == 0 {
            return None;
        }
        proof {
            lemma_inverse_exists(self@);
        }
        let mut w: u64 = 0;
        while w < MODULUS
            invariant
                self.wf(),
                self@ != 0,
                w <= MODULUS,
                forall|x: int| 0 <= x < w ==> fmul(self@, x) != 1,
                exists|x: int| 0 <= x < modulus() && #[trigger] fmul(self@, x) == 1,
            decreases MODULUS - w,
        {
            let cand = Fp { v: w };
            let product = self.mul(cand);
            let one = Fp::one();
            proof {
                Fp::lemma_view_injective(product, one);
            }
            if product == one {
                return Some(cand);
            }
            w = w + 1;
        }
        proof {
            let x = choose|x: int| 0 <= x < modulus() && fmul(self@, x) == 1;
            assert(false);
        }
        None
    }
}

/// Every non-zero element has a multiplicative inverse: the Bezout
/// coefficients of the element against the prime modulus provide one.
pub proof fn lemma_inverse_exists(a: int)
    requires
        0 < a < modulus(),
    ensures
        exists|w: int| 0 <= w < modulus() && #[trigger] fmul(a, w) == 1,
{
    let m = modulus();
    let r = lemma_bezout(m, a);
    let u = r.0;
    let w = r.1;
    let g = r.2;
    vstd::arithmetic::div_mod::lemma_fundamental_div_mod(a, g);
    assert(g <= a) by (nonlinear_arith)
        requires
            a == g * (a / g),
            0 < g,
            0 < a,
    ;
    if g >= 2 {
        lemma_modulus_prime(g);
    }
    assert(g == 1);
    vstd::arithmetic::div_mod::lemma_mod_multiples_vanish(u, w * a, m);
    vstd::arithmetic::div_mod::lemma_small_mod(1nat, MODULUS as nat);
    assert((w * a) % m == 1);
    let w0 = w % m;
    vstd::arithmetic::div_mod::lemma_mod_bound(w, m);
    vstd::arithmetic::div_mod::lemma_mul_mod_noop_right(a, w, m);
    assert(fmul(a, w0) == (a * w) % m);
    assert(a * w == w * a) by (nonlinear_arith);
    assert(fmul(a, w0) == 1);
}

/// No divisor of the modulus fits below the square root bound.
proof fn lemma_no_small_factor()
    ensures
        forall|d: u16| 2 <= d < 256 ==> #[trigger] (65521u16 % d) != 0,
{
    assert(forall|d: u16| 2 <= d < 256 ==> #[trigger] (65521u16 % d) != 0) by (bit_vector);
}

/// The modulus is prime: no integer strictly between 1 and it divides it.
pub proof fn lemma_modulus_prime(d: int)
    requires
        2 <= d < modulus(),
    ensures
        modulus() % d != 0,
{
    lemma_no_small_factor();
    if modulus() % d == 0 {
        let q = modulus() / d;
        vstd::arithmetic::div_mod::lemma_fundamental_div_mod(modulus(), d);
        if d < 256 {
            let du = d as u16;
            assert(65521u16 % du != 0);
            assert(modulus() % d != 0);
        } else {
            assert(q >= 0 && modulus() == d * q);
            assert(2 <= q < 256) by (nonlinear_arith)
                requires
                    65521 == d * q,
                    256 <= d < 65521,
                    q >= 0,
            ;
            vstd::arithmetic::div_mod::lemma_mod_multiples_basic(d, q);
            let qu = q as u16;
            assert(65521u16 % qu != 0);
            assert(modulus() % q != 0);
        }
    }
}

/// Greatest-common-divisor witness: Bezout coefficients for `a` and `b`,
/// together with the divisibility of both by the result.
proof fn lemma_bezout(a: int, b: int) -> (r: (int, int, int))
    requires
        a > 0,
        b >= 0,
    ensures
        r.2 > 0,
        r.0 * a + r.1 * b == r.2,
        a % r.2 == 0,
        b % r.2 == 0,
    decreases b,
{
    if b == 0 {
        vstd::arithmetic::div_mod::lemma_mod_self_0(a);
        assert(0int % a == 0);
        assert(1 * a + 0 * 0 == a) by (nonlinear_arith);
        (1, 0, a)
    } else {
        vstd::arithmetic::div_mod::lemma_mod_bound(a, b);
        let rec = lemma_bezout(b, a % b);
        let x = rec.0;
        let y = rec.1;
        let g = rec.2;
        let q = a / b;
        vstd::arithmetic::div_mod::lemma_fundamental_div_mod(a, b);
        assert(y * a + (x - y * q) * b == x * b + y * (a - q * b)) by (nonlinear_arith);
        let kb = b / g;
        let kr = (a % b) / g;
        vstd::arithmetic::div_mod::lemma_fundamental_div_mod(b, g);
        vstd::arithmetic::div_mod::lemma_fundamental_div_mod(a % b, g);
        assert(a == (q * kb + kr) * g) by (nonlinear_arith)
            requires
                a == b * q + (a % b),
                b == g * kb,
                a % b == g * kr,
        ;
        vstd::arithmetic::div_mod::lemma_mod_multiples_basic(q * kb + kr, g);
        (y, x - y * q, g)
    }
}

/// The field has no zero divisors: a product of two reduced, non-zero
/// elements is non-zero.
pub proof fn lemma_fmul_nonzero(a: int, b: int)
    requires
        0 < a < modulus(),
        0 < b < modulus(),
    ensures
        fmul(a, b) != 0,
{
    let m = modulus();
    if (a * b) % m == 0 {
        let r = lemma_bezout(m, a);
        let u = r.0;
        let w = r.1;
        let g = r.2;
        vstd::arithmetic::div_mod::lemma_fundamental_div_mod(a, g);
        assert(g <= a) by (nonlinear_arith)
            requires
                a == g * (a / g),
                0 < g,
                0 < a,
        ;
        if g >= 2 {
            lemma_modulus_prime(g);
        }
        assert(g == 1);
        let k = (a * b) / m;
        vstd::arithmetic::div_mod::lemma_fundamental_div_mod(a * b, m);
        assert(b == (u * b + w * k) * m) by (nonlinear_arith)
            requires
                u * m + w * a == 1,
                a * b == m * k,
        ;
        vstd::arithmetic::div_mod::lemma_mod_multiples_basic(u * b + w * k, m);
        vstd::arithmetic::div_mod::lemma_small_mod(b as nat, m as nat);
    }
}

impl vstd::std_specs::convert::FromSpecImpl<u64> for Fp {
    open spec fn obeys_from_spec() -> bool {
        true
    }

    closed spec fn from_spec(x: u64) -> Fp {
        Fp { v: (x as int % modulus()) as u64 }
    }
}

impl From<u64> for Fp {
    fn from(x: u64) -> (r: Fp)
        ensures
            r@ == x as int % modulus(),
    {
        Fp { v: x % MODULUS }
    }
}

} // verus!
