//! Elements of the BN254 scalar field, held as canonical little-endian limbs.
use vstd::prelude::*;
use halo2curves_axiom::bn256::Fr;
use vstd::arithmetic::div_mod::{
    lemma_div_denominator, lemma_div_is_ordered, lemma_fundamental_div_mod, lemma_mod_bound,
    lemma_small_mod,
};

verus! {

/// Limbs of the field modulus, least significant first.
pub const MODULUS_0: u64 = 0x43e1f593f0000001;
pub const MODULUS_1: u64 = 0x2833e84879b97091;
pub const MODULUS_2: u64 = 0xb85045b68181585d;
pub const MODULUS_3: u64 = 0x30644e72e131a029;

/// The integer that four little-endian 64-bit limbs stand for.
pub open spec fn limbs_value(l0: u64, l1: u64, l2: u64, l3: u64) -> int {
    l0 + l1 * 0x1_0000_0000_0000_0000int + l2 * 0x1_0000_0000_0000_0000_0000_0000_0000_0000int
        + l3 * 0x1_0000_0000_0000_0000_0000_0000_0000_0000_0000_0000_0000_0000int
}

/// The order of the scalar field.
pub open spec fn modulus() -> int {
    limbs_value(MODULUS_0, MODULUS_1, MODULUS_2, MODULUS_3)
}

/// Splitting `x = lo + k * hi` with `0 <= lo < k` is unique.
proof fn lemma_split_unique(lo1: int, hi1: int, lo2: int, hi2: int, k: int)
    requires
        k > 0,
        0 <= lo1 < k,
        0 <= lo2 < k,
        lo1 + k * hi1 == lo2 + k * hi2,
    ensures
        lo1 == lo2,
        hi1 == hi2,
{
    assert(hi1 == hi2) by (nonlinear_arith)
        requires
            k > 0,
            0 <= lo1 < k,
            0 <= lo2 < k,
            lo1 + k * hi1 == lo2 + k * hi2,
    ;
}

/// Four limbs are determined by the integer they stand for.
proof fn lemma_limbs_unique(a: (u64, u64, u64, u64), b: (u64, u64, u64, u64))
    requires
        limbs_value(a.0, a.1, a.2, a.3) == limbs_value(b.0, b.1, b.2, b.3),
    ensures
        a == b,
{
    let k = 0x1_0000_0000_0000_0000int;
    let a3 = a.3 as int;
    let b3 = b.3 as int;
    let a2 = a.2 + k * a3;
    let b2 = b.2 + k * b3;
    let a1 = a.1 + k * a2;
    let b1 = b.1 + k * b2;
    assert(limbs_value(a.0, a.1, a.2, a.3) == a.0 + k * a1);
    assert(limbs_value(b.0, b.1, b.2, b.3) == b.0 + k * b1);
    lemma_split_unique(a.0 as int, a1, b.0 as int, b1, k);
    lemma_split_unique(a.1 as int, a2, b.1 as int, b2, k);
    lemma_split_unique(a.2 as int, a3, b.2 as int, b3, k);
}

/// Comparing `lo + k * hi` goes by `hi` first.
proof fn lemma_split_lt(lo1: int, hi1: int, lo2: int, hi2: int, k: int)
    requires
        k > 0,
        0 <= lo1 < k,
        0 <= lo2 < k,
    ensures
        (lo1 + k * hi1 < lo2 + k * hi2) == (hi1 < hi2 || (hi1 == hi2 && lo1 < lo2)),
{
    if hi1 < hi2 {
        assert(lo1 + k * hi1 < lo2 + k * hi2) by (nonlinear_arith)
            requires
                k > 0,
                0 <= lo1 < k,
                0 <= lo2 < k,
                hi1 < hi2,
        ;
    } else if hi1 > hi2 {
        assert(lo1 + k * hi1 > lo2 + k * hi2) by (nonlinear_arith)
            requires
                k > 0,
                0 <= lo1 < k,
                0 <= lo2 < k,
                hi1 > hi2,
        ;
    }
}

/// Whether four limbs stand for an integer below the modulus, compared from
/// the most significant limb down.
pub open spec fn limbs_below_modulus(l0: u64, l1: u64, l2: u64, l3: u64) -> bool {
    l3 < MODULUS_3 || (l3 == MODULUS_3 && (l2 < MODULUS_2 || (l2 == MODULUS_2 && (l1 < MODULUS_1
        || (l1 == MODULUS_1 && l0 < MODULUS_0)))))
}

proof fn lemma_below_modulus(l0: u64, l1: u64, l2: u64, l3: u64)
    ensures
        limbs_below_modulus(l0, l1, l2, l3) == (limbs_value(l0, l1, l2, l3) < modulus()),
{
    let k = 0x1_0000_0000_0000_0000int;
    let a2 = l2 + k * l3;
    let b2 = MODULUS_2 + k * MODULUS_3;
    let a1 = l1 + k * a2;
    let b1 = MODULUS_1 + k * b2;
    assert(limbs_value(l0, l1, l2, l3) == l0 + k * a1);
    assert(modulus() == MODULUS_0 + k * b1);
    lemma_split_lt(l0 as int, a1, MODULUS_0 as int, b1, k);
    lemma_split_lt(l1 as int, a2, MODULUS_1 as int, b2, k);
    lemma_split_lt(l2 as int, l3 as int, MODULUS_2 as int, MODULUS_3 as int, k);
    if a1 == b1 {
        lemma_split_unique(l1 as int, a2, MODULUS_1 as int, b2, k);
    }
    if a2 == b2 {
        lemma_split_unique(l2 as int, l3 as int, MODULUS_2 as int, MODULUS_3 as int, k);
    }
}

/// A field element. It is always held in canonical form (below the modulus),
/// so two elements are equal exactly when their limbs are.
#[derive(Clone, Copy, PartialEq, Eq, Structural, Debug)]
pub struct FieldValue {
    l0: u64,
    l1: u64,
    l2: u64,
    l3: u64,
}

impl FieldValue {
    #[verifier::type_invariant]
    spec fn canonical(self) -> bool {
        limbs_value(self.l0, self.l1, self.l2, self.l3) < modulus()
    }

    /// The integer in `[0, modulus())` that this element stands for.
    pub closed spec fn value(self) -> int {
        limbs_value(self.l0, self.l1, self.l2, self.l3)
    }

    /// The element with canonical limbs of `v`, for `0 <= v < modulus()`.
    pub closed spec fn from_value(v: int) -> FieldValue {
        let k = 0x1_0000_0000_0000_0000int;
        FieldValue {
            l0: (v % k) as u64,
            l1: ((v / k) % k) as u64,
            l2: ((v / (k * k)) % k) as u64,
            l3: ((v / (k * k * k)) % k) as u64,
        }
    }

    /// The limbs of `v` stand for `v` again.
    pub proof fn lemma_from_value(v: int)
        requires
            0 <= v < modulus(),
        ensures
            FieldValue::from_value(v).value() == v,
    {
        let k = 0x1_0000_0000_0000_0000int;
        let q1 = v / k;
        let q2 = q1 / k;
        let q3 = q2 / k;
        lemma_fundamental_div_mod(v, k);
        lemma_fundamental_div_mod(q1, k);
        lemma_fundamental_div_mod(q2, k);
        lemma_div_denominator(v, k, k);
        lemma_div_denominator(v, k * k, k);
        lemma_div_is_ordered(v, modulus(), k * k * k);
        assert(modulus() / (k * k * k) < k);
        assert(q3 < k);
        lemma_small_mod(q3 as nat, k as nat);
        lemma_mod_bound(v, k);
        lemma_mod_bound(q1, k);
        lemma_mod_bound(q2, k);
        assert(v == v % k + k * (q1 % k + k * (q2 % k + k * q3))) by (nonlinear_arith)
            requires
                v == k * q1 + v % k,
                q1 == k * q2 + q1 % k,
                q2 == k * q3 + q2 % k,
        ;
        let f = FieldValue::from_value(v);
        assert(f.l0 == v % k);
        assert(f.l1 == q1 % k);
        assert(f.l2 == q2 % k);
        assert(f.l3 == q3);
    }

    /// The field sum of two elements.
    pub open spec fn spec_add(self, other: FieldValue) -> FieldValue {
        FieldValue::from_value((self.value() + other.value()) % modulus())
    }

    /// The element whose canonical little-endian limbs are `limbs`, or `None`
    /// when they stand for an integer at or above the modulus.
    pub fn from_limbs(limbs: (u64, u64, u64, u64)) -> (r: Option<FieldValue>)
        ensures
            r matches Some(v) ==> v.value() == limbs_value(limbs.0, limbs.1, limbs.2, limbs.3),
            r is Some == (limbs_value(limbs.0, limbs.1, limbs.2, limbs.3) < modulus()),
    {
        let (l0, l1, l2, l3) = limbs;
        proof {
            lemma_below_modulus(l0, l1, l2, l3);
        }
        if l3 < MODULUS_3 || (l3 == MODULUS_3 && (l2 < MODULUS_2 || (l2 == MODULUS_2 && (l1
            < MODULUS_1 || (l1 == MODULUS_1 && l0 < MODULUS_0))))) {
            Some(FieldValue { l0, l1, l2, l3 })
        } else {
            None
        }
    }

    /// The canonical little-endian limbs.
    pub fn limbs(&self) -> (r: (u64, u64, u64, u64))
        ensures
            limbs_value(r.0, r.1, r.2, r.3) == self.value(),
    {
        (self.l0, self.l1, self.l2, self.l3)
    }

    /// The sum stands for the sum of the integers modulo the field order.
    pub proof fn lemma_add_value(self, other: FieldValue)
        ensures
            self.spec_add(other).value() == (self.value() + other.value()) % modulus(),
    {
        let s = self.value() + other.value();
        assert(s >= 0);
        lemma_mod_bound(s, modulus());
        FieldValue::lemma_from_value(s % modulus());
    }

    /// The additive identity, as a spec value.
    pub closed spec fn spec_zero() -> FieldValue {
        FieldValue { l0: 0, l1: 0, l2: 0, l3: 0 }
    }

    /// The additive identity.
    pub fn zero() -> (r: FieldValue)
        ensures
            r == FieldValue::spec_zero(),
            r.value() == 0,
    {
        FieldValue { l0: 0, l1: 0, l2: 0, l3: 0 }
    }

    /// Relies on `From<u64> for Fr` and `From<Fr> for [u64; 4]`: an integer
    /// below the modulus becomes the element it names, returned in canonical
    /// limbs.
    #[verifier::external_body]
    pub fn from_u64(n: u64) -> (r: FieldValue)
        ensures
            r == FieldValue::from_value(n as int),
    {
        let limbs: [u64; 4] = Fr::from(n).into();
        FieldValue { l0: limbs[0], l1: limbs[1], l2: limbs[2], l3: limbs[3] }
    }

    /// Relies on `Add for Fr`, with `Fr::from_raw` and `From<Fr> for [u64; 4]`
    /// converting canonical limbs in and out: the sum modulo the field order.
    #[verifier::external_body]
    pub fn add(&self, other: &FieldValue) -> (r: FieldValue)
        ensures
            r == self.spec_add(*other),
    {
        let x = Fr::from_raw([self.l0, self.l1, self.l2, self.l3]);
        let y = Fr::from_raw([other.l0, other.l1, other.l2, other.l3]);
        let limbs: [u64; 4] = (x + y).into();
        FieldValue { l0: limbs[0], l1: limbs[1], l2: limbs[2], l3: limbs[3] }
    }

    /// Field equality.
    pub fn equals(&self, other: &FieldValue) -> (r: bool)
        ensures
            r == (self.value() == other.value()),
    {
        proof {
            if self.value() == other.value() {
                lemma_limbs_unique(
                    (self.l0, self.l1, self.l2, self.l3),
                    (other.l0, other.l1, other.l2, other.l3),
                );
            }
        }
        *self == *other
    }
}

} // verus!
