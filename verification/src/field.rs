//! Arithmetic in the prime field of order P = 2^256 - 2^32 - 977.

use vstd::arithmetic::div_mod::{
    lemma_add_mod_noop, lemma_fundamental_div_mod_converse, lemma_mul_mod_noop,
    lemma_mul_mod_noop_general, lemma_small_mod,
};
use vstd::arithmetic::power::{
    lemma_pow0, lemma_pow1, lemma_pow_adds, lemma_pow_mod_noop, lemma_pow_multiplies, pow,
};
use vstd::prelude::*;

verus! {

/// 2^256.
pub open spec fn b256() -> int {
    0x1_0000_0000_0000_0000int * (0x1_0000_0000_0000_0000int * (0x1_0000_0000_0000_0000int
        * 0x1_0000_0000_0000_0000int))
}

/// The field's order, the prime 2^256 - 2^32 - 977.
pub open spec fn prime() -> int {
    b256() - 0x1_0000_0000 - 977
}

/// The lowest limb of the prime.
pub const PRIME_LOW: u64 = 0xFFFF_FFFE_FFFF_FC2F;

/// 2^256 less the prime: 2^32 + 977.
pub const PRIME_GAP: u64 = 0x1_0000_03D1;

/// Why a field operation failed.
#[derive(Clone, Copy, Debug, PartialEq, Eq, Structural)]
pub enum FieldError {
    /// Zero has no inverse.
    NotInvertible,
}

/// A 256-bit number as four 64-bit limbs, `w0` the least significant.
#[derive(Clone, Copy, Debug, PartialEq, Eq, Structural)]
pub struct Limbs {
    pub w0: u64,
    pub w1: u64,
    pub w2: u64,
    pub w3: u64,
}

impl Limbs {
    /// The number that the limbs stand for.
    pub open spec fn value(self) -> int {
        self.w0 + 0x1_0000_0000_0000_0000 * (self.w1 + 0x1_0000_0000_0000_0000 * (self.w2
            + 0x1_0000_0000_0000_0000 * self.w3))
    }
}

/// Adds two 256-bit numbers; the carry out of the top limb comes second.
pub fn add_limbs(a: Limbs, b: Limbs) -> (r: (Limbs, bool))
    ensures
        r.0.value() + (if r.1 {
            b256()
        } else {
            0
        }) == a.value() + b.value(),
{
    let s0: u128 = a.w0 as u128 + b.w0 as u128;
    let s1: u128 = a.w1 as u128 + b.w1 as u128 + s0 / 0x1_0000_0000_0000_0000;
    let s2: u128 = a.w2 as u128 + b.w2 as u128 + s1 / 0x1_0000_0000_0000_0000;
    let s3: u128 = a.w3 as u128 + b.w3 as u128 + s2 / 0x1_0000_0000_0000_0000;
    let r = Limbs {
        w0: (s0 % 0x1_0000_0000_0000_0000) as u64,
        w1: (s1 % 0x1_0000_0000_0000_0000) as u64,
        w2: (s2 % 0x1_0000_0000_0000_0000) as u64,
        w3: (s3 % 0x1_0000_0000_0000_0000) as u64,
    };
    (r, s3 / 0x1_0000_0000_0000_0000 != 0)
}

/// Subtracts `b` from `a`, where `b` is no larger.
pub fn sub_limbs(a: Limbs, b: Limbs) -> (r: Limbs)
    requires
        b.value() <= a.value(),
    ensures
        r.value() == a.value() - b.value(),
{
    let t0: u128 = 0x1_0000_0000_0000_0000 + a.w0 as u128 - b.w0 as u128;
    let t1: u128 = 0xFFFF_FFFF_FFFF_FFFF + a.w1 as u128 - b.w1 as u128 + t0
        / 0x1_0000_0000_0000_0000;
    let t2: u128 = 0xFFFF_FFFF_FFFF_FFFF + a.w2 as u128 - b.w2 as u128 + t1
        / 0x1_0000_0000_0000_0000;
    let t3: u128 = 0xFFFF_FFFF_FFFF_FFFF + a.w3 as u128 - b.w3 as u128 + t2
        / 0x1_0000_0000_0000_0000;
    Limbs {
        w0: (t0 % 0x1_0000_0000_0000_0000) as u64,
        w1: (t1 % 0x1_0000_0000_0000_0000) as u64,
        w2: (t2 % 0x1_0000_0000_0000_0000) as u64,
        w3: (t3 % 0x1_0000_0000_0000_0000) as u64,
    }
}

/// The prime as limbs.
pub fn prime_limbs() -> (p: Limbs)
    ensures
        p.value() == prime(),
{
    Limbs {
        w0: PRIME_LOW,
        w1: 0xFFFF_FFFF_FFFF_FFFF,
        w2: 0xFFFF_FFFF_FFFF_FFFF,
        w3: 0xFFFF_FFFF_FFFF_FFFF,
    }
}

/// Whether a 256-bit number is below the prime.
pub fn below_prime(a: Limbs) -> (yes: bool)
    ensures
        yes == (a.value() < prime()),
{
    !(a.w3 == 0xFFFF_FFFF_FFFF_FFFF && a.w2 == 0xFFFF_FFFF_FFFF_FFFF && a.w1
        == 0xFFFF_FFFF_FFFF_FFFF && a.w0 >= PRIME_LOW)
}

/// Halves a 256-bit number, rounding down.
pub fn half_limbs(a: Limbs) -> (r: Limbs)
    ensures
        2 * r.value() + (a.w0 % 2) as int == a.value(),
{
    Limbs {
        w0: a.w0 / 2 + (a.w1 % 2) * 0x8000_0000_0000_0000,
        w1: a.w1 / 2 + (a.w2 % 2) * 0x8000_0000_0000_0000,
        w2: a.w2 / 2 + (a.w3 % 2) * 0x8000_0000_0000_0000,
        w3: a.w3 / 2,
    }
}

/// One step of multiplying by doubling: with `rest == 2 * half + bit`, the
/// sum `acc + addend * rest` keeps its residue when `bit * addend` moves
/// into `acc` and `addend` doubles, each reduced.
pub proof fn lemma_doubling_step(acc: int, addend: int, rest: int, half: int, bit: int, p: int)
    requires
        p > 0,
        rest == 2 * half + bit,
    ensures
        ((acc + bit * addend) % p + ((addend + addend) % p) * half) % p == (acc + addend * rest)
            % p,
{
    let a = acc + bit * addend;
    let d = addend + addend;
    let x = (d % p) * half;
    let y = d * half;
    lemma_mul_mod_noop(d, half, p);
    lemma_mul_mod_noop(d % p, half, p);
    assert(x % p == y % p) by {
        vstd::arithmetic::div_mod::lemma_mod_twice(d, p);
    }
    lemma_add_mod_noop(a % p, x, p);
    lemma_add_mod_noop(a, y, p);
    vstd::arithmetic::div_mod::lemma_mod_twice(a, p);
    assert(a + y == acc + addend * rest) by (nonlinear_arith)
        requires
            a == acc + bit * addend,
            y == (addend + addend) * half,
            rest == 2 * half + bit,
    ;
}

/// One step of raising to a power by squaring: with `e == 2 * half + bit`,
/// the product `result * base^e` keeps its residue when `base^bit` moves
/// into `result` and `base` is squared, each reduced.
pub proof fn lemma_squaring_step(result: int, base: int, e: nat, half: nat, bit: nat, p: int)
    requires
        p > 0,
        e == 2 * half + bit,
        bit <= 1,
    ensures
        (((result * pow(base, bit)) % p) * pow((base * base) % p, half)) % p == (result * pow(
            base,
            e,
        )) % p,
{
    let s = base * base;
    let r = result * pow(base, bit);
    let q = pow(s, half);
    let x = pow(s % p, half);
    lemma_pow_adds(base, 2 * half, bit);
    lemma_pow_multiplies(base, 2, half);
    assert(pow(base, 2) == s) by {
        lemma_pow1(base);
        lemma_pow_adds(base, 1, 1);
    }
    assert(result * pow(base, e) == r * q) by (nonlinear_arith)
        requires
            pow(base, e) == q * pow(base, bit),
            r == result * pow(base, bit),
    ;
    lemma_mul_mod_noop_general(r, x, p);
    lemma_pow_mod_noop(s, half, p);
    lemma_mul_mod_noop_general(r, q, p);
}

/// The number that eight bytes from position `at` on stand for, most
/// significant first.
pub open spec fn be_limb(bytes: Seq<u8>, at: int) -> int {
    bytes[at + 7] + 256 * (bytes[at + 6] + 256 * (bytes[at + 5] + 256 * (bytes[at + 4] + 256 * (
    bytes[at + 3] + 256 * (bytes[at + 2] + 256 * (bytes[at + 1] + 256 * bytes[at]))))))
}

/// The number that 32 bytes stand for, most significant first.
pub open spec fn be_value(bytes: Seq<u8>) -> int {
    be_limb(bytes, 24) + 0x1_0000_0000_0000_0000 * (be_limb(bytes, 16) + 0x1_0000_0000_0000_0000
        * (be_limb(bytes, 8) + 0x1_0000_0000_0000_0000 * be_limb(bytes, 0)))
}

/// The 32 bytes that stand for a number below 2^256, most significant
/// first.
pub open spec fn be_bytes(value: int) -> Seq<u8> {
    choose|bytes: Seq<u8>| bytes.len() == 32 && be_value(bytes) == value
}

/// Reads eight bytes as a number, most significant first.
pub fn read_be_limb(bytes: &[u8; 32], at: usize) -> (limb: u64)
    requires
        at + 8 <= 32,
    ensures
        limb == be_limb(bytes@, at as int),
{
    let b0: u64 = bytes[at] as u64;
    let b1: u64 = bytes[at + 1] as u64;
    let b2: u64 = bytes[at + 2] as u64;
    let b3: u64 = bytes[at + 3] as u64;
    let b4: u64 = bytes[at + 4] as u64;
    let b5: u64 = bytes[at + 5] as u64;
    let b6: u64 = bytes[at + 6] as u64;
    let b7: u64 = bytes[at + 7] as u64;
    b7 + 256 * (b6 + 256 * (b5 + 256 * (b4 + 256 * (b3 + 256 * (b2 + 256 * (b1 + 256 * b0))))))
}

/// The eight bytes of a limb, most significant first.
pub fn limb_bytes(w: u64) -> (bytes: [u8; 8])
    ensures
        w == bytes@[7] + 256 * (bytes@[6] + 256 * (bytes@[5] + 256 * (bytes@[4] + 256 * (bytes@[3]
            + 256 * (bytes@[2] + 256 * (bytes@[1] + 256 * bytes@[0])))))),
{
    let q1: u64 = w / 256;
    let q2: u64 = q1 / 256;
    let q3: u64 = q2 / 256;
    let q4: u64 = q3 / 256;
    let q5: u64 = q4 / 256;
    let q6: u64 = q5 / 256;
    let q7: u64 = q6 / 256;
    [
        q7 as u8,
        (q6 % 256) as u8,
        (q5 % 256) as u8,
        (q4 % 256) as u8,
        (q3 % 256) as u8,
        (q2 % 256) as u8,
        (q1 % 256) as u8,
        (w % 256) as u8,
    ]
}

/// An element of the field: a number below the prime.
#[derive(Clone, Copy, Debug, PartialEq, Eq, Structural)]
pub struct FieldElement {
    limbs: Limbs,
}

impl View for FieldElement {
    type V = int;

    closed spec fn view(&self) -> int {
        self.limbs.value()
    }
}

impl FieldElement {
    /// The element is fully reduced.
    pub open spec fn wf(&self) -> bool {
        0 <= self@ < prime()
    }

    /// Reduces a number below twice the prime.
    fn reduce_once(sum: Limbs, carry: bool) -> (r: FieldElement)
        requires
            sum.value() + (if carry {
                b256()
            } else {
                0
            }) < 2 * prime(),
        ensures
            r.wf(),
            r@ == (sum.value() + (if carry {
                b256()
            } else {
                0
            })) % prime(),
    {
        let ghost total = sum.value() + (if carry {
            b256()
        } else {
            0
        });
        if carry || !below_prime(sum) {
            let gap = Limbs { w0: PRIME_GAP, w1: 0, w2: 0, w3: 0 };
            let (shifted, _) = add_limbs(sum, gap);
            proof {
                assert(shifted.value() == total - prime());
                lemma_fundamental_div_mod_converse(total, prime(), 1, total - prime());
            }
            FieldElement { limbs: shifted }
        } else {
            proof {
                lemma_small_mod(total as nat, prime() as nat);
            }
            FieldElement { limbs: sum }
        }
    }

    /// Zero.
    pub fn zero() -> (r: FieldElement)
        ensures
            r.wf(),
            r@ == 0,
    {
        FieldElement { limbs: Limbs { w0: 0, w1: 0, w2: 0, w3: 0 } }
    }

    /// One.
    pub fn one() -> (r: FieldElement)
        ensures
            r.wf(),
            r@ == 1,
    {
        FieldElement { limbs: Limbs { w0: 1, w1: 0, w2: 0, w3: 0 } }
    }

    /// The element of a 64-bit number.
    pub fn from_u64(n: u64) -> (r: FieldElement)
        ensures
            r.wf(),
            r@ == n,
    {
        FieldElement { limbs: Limbs { w0: n, w1: 0, w2: 0, w3: 0 } }
    }

    /// Whether this is zero.
    pub fn is_zero(&self) -> (yes: bool)
        requires
            self.wf(),
        ensures
            yes == (self@ == 0),
    {
        self.limbs.w0 == 0 && self.limbs.w1 == 0 && self.limbs.w2 == 0 && self.limbs.w3 == 0
    }

    /// The sum, reduced.
    pub fn add(&self, other: &FieldElement) -> (r: FieldElement)
        requires
            self.wf(),
            other.wf(),
        ensures
            r.wf(),
            r@ == (self@ + other@) % prime(),
    {
        let (sum, carry) = add_limbs(self.limbs, other.limbs);
        FieldElement::reduce_once(sum, carry)
    }

    /// The product, reduced.
    pub fn mul(&self, other: &FieldElement) -> (r: FieldElement)
        requires
            self.wf(),
            other.wf(),
        ensures
            r.wf(),
            r@ == (self@ * other@) % prime(),
    {
        let mut acc = FieldElement::zero();
        let mut addend = *self;
        let mut rest = other.limbs;
        while !(rest.w0 == 0 && rest.w1 == 0 && rest.w2 == 0 && rest.w3 == 0)
            invariant
                acc.wf(),
                addend.wf(),
                (acc@ + addend@ * rest.value()) % prime() == (self@ * other@) % prime(),
            decreases rest.value(),
        {
            let odd = rest.w0 % 2 == 1;
            let half = half_limbs(rest);
            proof {
                lemma_doubling_step(
                    acc@,
                    addend@,
                    rest.value(),
                    half.value(),
                    (rest.w0 % 2) as int,
                    prime(),
                );
                lemma_small_mod(acc@ as nat, prime() as nat);
                assert(1 * addend@ == addend@ && 0 * addend@ == 0);
            }
            if odd {
                acc = acc.add(&addend);
            }
            addend = addend.add(&addend);
            rest = half;
        }
        proof {
            assert(addend@ * 0 == 0);
            lemma_small_mod(acc@ as nat, prime() as nat);
        }
        acc
    }

    /// This element raised to a power, reduced.
    pub fn pow(&self, exponent: Limbs) -> (r: FieldElement)
        requires
            self.wf(),
        ensures
            r.wf(),
            r@ == pow(self@, exponent.value() as nat) % prime(),
    {
        let mut result = FieldElement::one();
        let mut base = *self;
        let mut rest = exponent;
        proof {
            assert(1 * pow(self@, exponent.value() as nat) == pow(self@, exponent.value() as nat));
        }
        while !(rest.w0 == 0 && rest.w1 == 0 && rest.w2 == 0 && rest.w3 == 0)
            invariant
                result.wf(),
                base.wf(),
                (result@ * pow(base@, rest.value() as nat)) % prime() == pow(
                    self@,
                    exponent.value() as nat,
                ) % prime(),
            decreases rest.value(),
        {
            let odd = rest.w0 % 2 == 1;
            let half = half_limbs(rest);
            proof {
                lemma_squaring_step(
                    result@,
                    base@,
                    rest.value() as nat,
                    half.value() as nat,
                    (rest.w0 % 2) as nat,
                    prime(),
                );
                lemma_pow0(base@);
                lemma_pow1(base@);
                assert(result@ * 1 == result@);
                lemma_small_mod(result@ as nat, prime() as nat);
            }
            if odd {
                result = result.mul(&base);
            }
            base = base.mul(&base);
            rest = half;
        }
        proof {
            lemma_pow0(base@);
            assert(result@ * 1 == result@);
            lemma_small_mod(result@ as nat, prime() as nat);
        }
        result
    }

    /// The multiplicative inverse: the element raised to the prime less
    /// two. Zero has none.
    pub fn inv(&self) -> (r: Result<FieldElement, FieldError>)
        requires
            self.wf(),
        ensures
            r is Err <==> self@ == 0,
            r is Err ==> r == Err::<FieldElement, FieldError>(FieldError::NotInvertible),
            r is Ok ==> r.unwrap().wf() && r.unwrap()@ == pow(self@, (prime() - 2) as nat)
                % prime(),
    {
        if self.is_zero() {
            return Err(FieldError::NotInvertible);
        }
        let exponent = Limbs {
            w0: PRIME_LOW - 2,
            w1: 0xFFFF_FFFF_FFFF_FFFF,
            w2: 0xFFFF_FFFF_FFFF_FFFF,
            w3: 0xFFFF_FFFF_FFFF_FFFF,
        };
        Ok(self.pow(exponent))
    }

    /// The quotient: this element times the inverse of `other`. Division
    /// by zero fails.
    pub fn div(&self, other: &FieldElement) -> (r: Result<FieldElement, FieldError>)
        requires
            self.wf(),
            other.wf(),
        ensures
            r is Err <==> other@ == 0,
            r is Err ==> r == Err::<FieldElement, FieldError>(FieldError::NotInvertible),
            r is Ok ==> r.unwrap().wf() && r.unwrap()@ == (self@ * (pow(
                other@,
                (prime() - 2) as nat,
            ) % prime())) % prime(),
    {
        match other.inv() {
            Ok(inverse) => Ok(self.mul(&inverse)),
            Err(e) => Err(e),
        }
    }

    /// The element of 32 bytes read as a number, most significant first,
    /// reduced.
    pub fn from_bytes_be(bytes: &[u8; 32]) -> (r: FieldElement)
        ensures
            r.wf(),
            r@ == be_value(bytes@) % prime(),
    {
        let limbs = Limbs {
            w0: read_be_limb(bytes, 24),
            w1: read_be_limb(bytes, 16),
            w2: read_be_limb(bytes, 8),
            w3: read_be_limb(bytes, 0),
        };
        FieldElement::reduce_once(limbs, false)
    }

    /// The element as 32 bytes, most significant first.
    pub fn to_bytes_be(&self) -> (bytes: [u8; 32])
        requires
            self.wf(),
        ensures
            be_value(bytes@) == self@,
            bytes@ == be_bytes(self@),
    {
        let a = limb_bytes(self.limbs.w3);
        let b = limb_bytes(self.limbs.w2);
        let c = limb_bytes(self.limbs.w1);
        let d = limb_bytes(self.limbs.w0);
        let bytes = [
            a[0], a[1], a[2], a[3], a[4], a[5], a[6], a[7],
            b[0], b[1], b[2], b[3], b[4], b[5], b[6], b[7],
            c[0], c[1], c[2], c[3], c[4], c[5], c[6], c[7],
            d[0], d[1], d[2], d[3], d[4], d[5], d[6], d[7],
        ];
        proof {
            assert(be_value(bytes@) == self@);
            lemma_small_mod(self@ as nat, prime() as nat);
            lemma_bytes_round_trip(bytes@, be_bytes(self@));
        }
        bytes
    }

    /// The additive inverse.
    pub fn neg(&self) -> (r: FieldElement)
        requires
            self.wf(),
        ensures
            r.wf(),
            r@ == (prime() - self@) % prime(),
    {
        if self.is_zero() {
            proof {
                lemma_fundamental_div_mod_converse(prime(), prime(), 1, 0);
            }
            FieldElement::zero()
        } else {
            let limbs = sub_limbs(prime_limbs(), self.limbs);
            proof {
                lemma_small_mod((prime() - self@) as nat, prime() as nat);
            }
            FieldElement { limbs }
        }
    }

    /// The difference, reduced.
    pub fn sub(&self, other: &FieldElement) -> (r: FieldElement)
        requires
            self.wf(),
            other.wf(),
        ensures
            r.wf(),
            r@ == (self@ + prime() - other@) % prime(),
    {
        let minus = other.neg();
        let r = self.add(&minus);
        proof {
            lemma_add_mod_noop(self@, prime() - other@, prime());
            lemma_small_mod(self@ as nat, prime() as nat);
        }
        r
    }
}

/// Addition is associative: `(a + b) + c == a + (b + c)`.
pub proof fn lemma_add_is_associative(a: int, b: int, c: int)
    requires
        0 <= a < prime(),
        0 <= b < prime(),
        0 <= c < prime(),
    ensures
        ((a + b) % prime() + c) % prime() == (a + (b + c) % prime()) % prime(),
{
    lemma_small_mod(a as nat, prime() as nat);
    lemma_small_mod(c as nat, prime() as nat);
    lemma_add_mod_noop(a + b, c, prime());
    lemma_add_mod_noop(a, b + c, prime());
}

/// One is the identity of multiplication and zero annihilates:
/// `a * 1 == a` and `a * 0 == 0`.
pub proof fn lemma_mul_by_one_and_zero(a: int)
    requires
        0 <= a < prime(),
    ensures
        (a * 1) % prime() == a,
        (a * 0) % prime() == 0,
{
    assert(a * 1 == a && a * 0 == 0);
    lemma_small_mod(a as nat, prime() as nat);
    lemma_small_mod(0, prime() as nat);
}

/// Where `a` raised to the prime less one leaves one, which is so of
/// every `a` that the prime does not divide, `a` times its inverse is one.
pub proof fn lemma_inverse_where_power_is_one(a: int)
    requires
        0 < a < prime(),
        pow(a, (prime() - 1) as nat) % prime() == 1,
    ensures
        (a * (pow(a, (prime() - 2) as nat) % prime())) % prime() == 1,
{
    lemma_pow1(a);
    lemma_pow_adds(a, 1, (prime() - 2) as nat);
    lemma_mul_mod_noop_general(a, pow(a, (prime() - 2) as nat), prime());
}

/// Eight bytes are determined by the number they stand for.
pub proof fn lemma_be_limb_is_injective(x: Seq<u8>, y: Seq<u8>, at: int)
    requires
        0 <= at,
        at + 8 <= x.len(),
        at + 8 <= y.len(),
        be_limb(x, at) == be_limb(y, at),
    ensures
        forall|k: int| at <= k < at + 8 ==> x[k] == y[k],
{
    assert(x[at + 7] == y[at + 7]);
    assert(x[at + 6] == y[at + 6]);
    assert(x[at + 5] == y[at + 5]);
    assert(x[at + 4] == y[at + 4]);
    assert(x[at + 3] == y[at + 3]);
    assert(x[at + 2] == y[at + 2]);
    assert(x[at + 1] == y[at + 1]);
    assert(x[at] == y[at]);
}

/// Writing an element made from 32 bytes that stand for a number below
/// the prime gives the same bytes back: what stands for the reduced
/// number of `x` is `x` itself.
pub proof fn lemma_bytes_round_trip(x: Seq<u8>, y: Seq<u8>)
    requires
        x.len() == 32,
        y.len() == 32,
        be_value(x) < prime(),
        be_value(y) == be_value(x) % prime(),
    ensures
        y == x,
{
    assert(0 <= be_limb(x, 0) < 0x1_0000_0000_0000_0000);
    assert(0 <= be_limb(x, 8) < 0x1_0000_0000_0000_0000);
    assert(0 <= be_limb(x, 16) < 0x1_0000_0000_0000_0000);
    assert(0 <= be_limb(x, 24) < 0x1_0000_0000_0000_0000);
    assert(0 <= be_limb(y, 0) < 0x1_0000_0000_0000_0000);
    assert(0 <= be_limb(y, 8) < 0x1_0000_0000_0000_0000);
    assert(0 <= be_limb(y, 16) < 0x1_0000_0000_0000_0000);
    assert(0 <= be_limb(y, 24) < 0x1_0000_0000_0000_0000);
    lemma_small_mod(be_value(x) as nat, prime() as nat);
    assert(be_limb(x, 24) == be_limb(y, 24));
    assert(be_limb(x, 16) == be_limb(y, 16));
    assert(be_limb(x, 8) == be_limb(y, 8));
    assert(be_limb(x, 0) == be_limb(y, 0));
    lemma_be_limb_is_injective(x, y, 0);
    lemma_be_limb_is_injective(x, y, 8);
    lemma_be_limb_is_injective(x, y, 16);
    lemma_be_limb_is_injective(x, y, 24);
    assert(x =~= y);
}

} // verus!
