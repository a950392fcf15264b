//! The scalar field the engine transforms over: integers modulo the
//! 64-bit prime `2^64 - 2^32 + 1`. Its multiplicative group has order
//! divisible by `2^32`, so every power-of-two subgroup the engine supports
//! has a primitive root of unity.

use vstd::prelude::*;
use vstd::arithmetic::power::pow;
use vstd::arithmetic::div_mod::lemma_small_mod;
use vstd::arithmetic::div_mod::lemma_mod_add_multiples_vanish;
use vstd::arithmetic::div_mod::lemma_mod_sub_multiples_vanish;

verus! {

/// The prime modulus `2^64 - 2^32 + 1`.
pub const FIELD_MODULUS: u64 = 0xFFFF_FFFF_0000_0001;

/// A generator of the whole multiplicative group of the field.
pub const GROUP_GENERATOR: u64 = 7;

/// The largest power of two dividing `FIELD_MODULUS - 1`: sizes up to
/// `2^32` have primitive roots of unity.
pub const TWO_ADICITY: u32 = 32;

/// The modulus as a mathematical integer.
pub open spec fn modulus() -> int {
    FIELD_MODULUS as int
}

/// `b^e mod FIELD_MODULUS`, the mathematical power the engine's
/// twiddle-factor and scale-factor contracts are stated over.
pub open spec fn pow_mod(b: int, e: nat) -> int {
    pow(b, e) % modulus()
}

/// One field element, kept reduced: the carried residue is always below
/// the modulus.
#[derive(Clone, Copy, PartialEq, Eq, Structural, Debug)]
pub struct Fp {
    v: u64,
}

impl View for Fp {
    type V = int;

    closed spec fn view(&self) -> int {
        self.v as int
    }
}

impl Fp {
    /// The reduced-residue invariant every constructed element satisfies.
    pub open spec fn wf(self) -> bool {
        0 <= self@ < modulus()
    }

    /// Builds the element representing `x mod FIELD_MODULUS`.
    pub fn new(x: u64) -> (r: Fp)
        ensures
            r.wf(),
            r@ == x as int % modulus(),
    {
        Fp { v: x % FIELD_MODULUS }
    }

    /// The additive identity.
    pub fn zero() -> (r: Fp)
        ensures
            r.wf(),
            r@ == 0,
    {
        Fp { v: 0 }
    }

    /// The multiplicative identity.
    pub fn one() -> (r: Fp)
        ensures
            r.wf(),
            r@ == 1,
    {
        Fp { v: 1 }
    }

    /// The carried residue, as a machine integer.
    pub fn val(self) -> (r: u64)
        ensures
            r as int == self@,
    {
        self.v
    }

    /// Field addition.
    pub fn add(self, rhs: Fp) -> (r: Fp)
        requires
            self.wf(),
            rhs.wf(),
        ensures
            r.wf(),
            r@ == (self@ + rhs@) % modulus(),
    {
        let m: u128 = FIELD_MODULUS as u128;
        let s: u128 = self.v as u128 + rhs.v as u128;
        let red: u128 = if s >= m { s - m } else { s };
        proof {
            if s >= m {
                lemma_mod_sub_multiples_vanish(s as int, modulus());
                lemma_small_mod((s - m) as nat, modulus() as nat);
            } else {
                lemma_small_mod(s as nat, modulus() as nat);
            }
        }
        Fp { v: red as u64 }
    }

    /// Field subtraction.
    pub fn sub(self, rhs: Fp) -> (r: Fp)
        requires
            self.wf(),
            rhs.wf(),
        ensures
            r.wf(),
            r@ == (self@ - rhs@) % modulus(),
    {
        let red: u64 = if self.v >= rhs.v {
            self.v - rhs.v
        } else {
            self.v + (FIELD_MODULUS - rhs.v)
        };
        proof {
            if self.v >= rhs.v {
                lemma_small_mod((self.v - rhs.v) as nat, modulus() as nat);
            } else {
                lemma_mod_add_multiples_vanish(self@ - rhs@, modulus());
                lemma_small_mod((self@ - rhs@ + modulus()) as nat, modulus() as nat);
            }
        }
        Fp { v: red }
    }

    /// Field multiplication.
    pub fn mul(self, rhs: Fp) -> (r: Fp)
        requires
            self.wf(),
            rhs.wf(),
        ensures
            r.wf(),
            r@ == (self@ * rhs@) % modulus(),
    {
        proof {
            assert((self.v as int) * (rhs.v as int) < 0x1_0000_0000_0000_0000_0000_0000_0000_0000)
                by (nonlinear_arith)
                requires
                    self.v < 0x1_0000_0000_0000_0000,
                    rhs.v < 0x1_0000_0000_0000_0000,
            ;
        }
        let prod: u128 = self.v as u128 * rhs.v as u128;
        let red: u128 = prod % (FIELD_MODULUS as u128);
        Fp { v: red as u64 }
    }
}

impl Fp {
    /// Field exponentiation by squaring.
    pub fn pow(self, e: u64) -> (r: Fp)
        requires
            self.wf(),
        ensures
            r.wf(),
            r@ == pow(self@, e as nat) % modulus(),
    {
        let mut base = self;
        let mut acc = Fp::one();
        let mut k = e;
        proof {
            lemma_small_mod(1nat, modulus() as nat);
        }
        while k > 0
            invariant
                acc.wf(),
                base.wf(),
                (acc@ * pow(base@, k as nat)) % modulus() == pow(self@, e as nat) % modulus(),
            decreases k,
        {
            let ghost a0 = acc@;
            let ghost b0 = base@;
            let ghost k0 = k as nat;
            let ghost q = (k as nat / 2) as nat;
            let ghost r0 = (k as nat % 2) as nat;
            if k % 2 == 1 {
                acc = acc.mul(base);
            }
            base = base.mul(base);
            k = k / 2;
            proof {
                let p = modulus();
                let pw = pow(b0 * b0, q);
                vstd::arithmetic::div_mod::lemma_fundamental_div_mod(k0 as int, 2);
                vstd::arithmetic::power::lemma_pow_adds(b0, r0, (2 * q) as nat);
                vstd::arithmetic::power::lemma_pow_multiplies(b0, 2, q);
                vstd::arithmetic::power::lemma_square_is_pow2(b0);
                vstd::arithmetic::power::lemma_pow_mod_noop(b0 * b0, q, p);
                vstd::arithmetic::div_mod::lemma_mul_mod_noop_right(acc@, pow(base@, q), p);
                assert(pow(base@, q) % p == pw % p);
                if r0 == 1 {
                    vstd::arithmetic::power::lemma_pow1(b0);
                    assert((((a0 * b0) % p) * (pw % p)) % p == ((a0 * b0) * pw) % p) by {
                        vstd::arithmetic::div_mod::lemma_mul_mod_noop_general(a0 * b0, pw, p);
                    }
                    assert((a0 * b0) * pw == a0 * (b0 * pw)) by (nonlinear_arith);
                    assert(pow(b0, k0) == b0 * pw);
                } else {
                    vstd::arithmetic::power::lemma_pow0(b0);
                    assert((a0 * (pw % p)) % p == (a0 * pw) % p) by {
                        vstd::arithmetic::div_mod::lemma_mul_mod_noop_right(a0, pw, p);
                    }
                    assert(pow(b0, k0) == 1 * pw);
                }
                assert((acc@ * pow(base@, q)) % p == (a0 * pow(b0, k0)) % p);
            }
        }
        proof {
            vstd::arithmetic::power::lemma_pow0(base@);
            lemma_small_mod(acc@ as nat, modulus() as nat);
        }
        acc
    }

    /// The multiplicative inverse of a nonzero element, by Fermat's little
    /// theorem: `a^(p - 2)`.
    pub fn inverse(self) -> (r: Fp)
        requires
            self.wf(),
        ensures
            r.wf(),
            r@ == pow(self@, (modulus() - 2) as nat) % modulus(),
    {
        self.pow(FIELD_MODULUS - 2)
    }
}

/// The residues carried by a sequence of field elements; buffer contracts
/// are stated over this view.
pub open spec fn seq_val(s: Seq<Fp>) -> Seq<int> {
    Seq::new(s.len(), |i: int| s[i]@)
}

/// Every element of the sequence is a reduced residue.
pub open spec fn seq_wf(s: Seq<Fp>) -> bool {
    forall|i: int| 0 <= i < s.len() ==> (#[trigger] s[i]).wf()
}

} // verus!
