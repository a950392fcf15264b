//! Host-side helpers around the transform: evaluation-domain values,
//! vanishing-polynomial evaluation, Horner evaluation, synthetic
//! division, and the conjectured security estimate.

use vstd::prelude::*;
use vstd::arithmetic::power::pow;
use vstd::arithmetic::power::lemma_pow_adds;
use vstd::arithmetic::div_mod::lemma_sub_mod_noop;
use vstd::arithmetic::div_mod::lemma_add_mod_noop_right;
use vstd::arithmetic::div_mod::lemma_mul_mod_noop_general;
use vstd::arithmetic::div_mod::lemma_mul_mod_noop_right;
use crate::field::Fp;
use crate::field::modulus;
use crate::field::seq_val;
use crate::field::seq_wf;
use crate::stage::StageError;
use crate::stage::lg;
use crate::stage::size_check;
use crate::stage::valid_size;
use crate::transform::root_of_unity;

verus! {

/// Rounds the input value up to the nearest power of two.
pub fn ceil_power_of_two(value: usize) -> (r: usize)
    requires
        value <= usize::MAX / 2 + 1,
    ensures
        crate::stage::spec_is_pow2(r as int),
        value <= r,
        value >= 1 ==> r < 2 * value,
        value == 0 ==> r == 1,
{
    let mut r: usize = 1;
    while r < value
        invariant
            crate::stage::spec_is_pow2(r as int),
            1 <= r,
            value >= 1 ==> r < 2 * value,
            value == 0 ==> r == 1,
            value <= usize::MAX / 2 + 1,
        decreases 2 * value - r,
    {
        r = r * 2;
    }
    r
}

/// Deinterleaves a flat buffer into `source.len() / RADIX` rows of
/// `RADIX` columns each: row `i` gathers the elements at positions
/// `i + j * n` for each column `j`, where `n` is the number of rows.
pub fn interleave<T: Copy, const RADIX: usize>(source: &Vec<T>) -> (r: Vec<Vec<T>>)
    requires
        RADIX >= 1,
    ensures
        r@.len() == source@.len() as int / RADIX as int,
        forall|i: int| 0 <= i < r@.len() ==> (#[trigger] r@[i])@.len() == RADIX,
        forall|i: int, j: int|
            0 <= i < r@.len() && 0 <= j < RADIX ==> #[trigger] r@[i]@[j] == source@[i + j * (
            source@.len() as int / RADIX as int)],
{
    let len = source.len();
    let n = len / RADIX;
    proof {
        vstd::arithmetic::div_mod::lemma_fundamental_div_mod(len as int, RADIX as int);
        vstd::arithmetic::div_mod::lemma_mod_bound(len as int, RADIX as int);
    }
    let mut r: Vec<Vec<T>> = Vec::new();
    let mut i: usize = 0;
    while i < n
        invariant
            i <= n,
            RADIX >= 1,
            n == len as int / RADIX as int,
            len == source@.len(),
            (RADIX as int) * (n as int) <= len as int,
            r@.len() == i,
            forall|k: int| 0 <= k < i ==> (#[trigger] r@[k])@.len() == RADIX,
            forall|k: int, j: int|
                0 <= k < i && 0 <= j < RADIX ==> #[trigger] r@[k]@[j] == source@[k + j * (
                n as int)],
        decreases n - i,
    {
        let mut row: Vec<T> = Vec::new();
        let mut j: usize = 0;
        while j < RADIX
            invariant
                j <= RADIX,
                i < n,
                n == len as int / RADIX as int,
                len == source@.len(),
                (RADIX as int) * (n as int) <= len as int,
                row@.len() == j,
                forall|q: int| 0 <= q < j ==> #[trigger] row@[q] == source@[i + q * (n as int)],
            decreases RADIX - j,
        {
            proof {
                assert((j as int) * (n as int) <= (RADIX as int - 1) * (n as int))
                    by (nonlinear_arith)
                    requires
                        j as int <= RADIX as int - 1,
                        n as int >= 0,
                ;
                assert((RADIX as int - 1) * (n as int) == (RADIX as int) * (n as int) - (
                n as int)) by (nonlinear_arith);
            }
            row.push(source[i + j * n]);
            j = j + 1;
        }
        r.push(row);
        i = i + 1;
    }
    r
}

/// A radix-2 evaluation domain: a power-of-two-sized multiplicative
/// subgroup identified by its generator, with an optional coset offset.
#[derive(Clone, Copy, Debug)]
pub struct Radix2EvaluationDomain {
    pub size: usize,
    pub log_size: u32,
    pub group_gen: Fp,
    pub offset: Fp,
}

impl Radix2EvaluationDomain {
    pub open spec fn wf(self) -> bool {
        &&& valid_size(self.size as int)
        &&& self.log_size as nat == lg(self.size as int)
        &&& self.group_gen.wf()
        &&& self.offset.wf()
    }

    /// Builds the domain of the given size over the base subgroup
    /// (offset one); fails fatally when the size is unsupported.
    pub fn new(size: usize) -> (r: Result<Radix2EvaluationDomain, StageError>)
        ensures
            r is Ok <==> valid_size(size as int),
            r matches Ok(d) ==> d.wf() && d.size == size && d.offset@ == 1,
            r matches Err(e) ==> size_check(size as int) == Some(e),
    {
        if let Some(e) = crate::stage::check_size(size) {
            return Err(e);
        }
        let log_size = crate::stage::log2_exec(size);
        let group_gen = root_of_unity(size);
        Ok(Radix2EvaluationDomain { size, log_size, group_gen, offset: Fp::one() })
    }

    /// The same domain shifted to the coset `offset * <group_gen>`.
    pub fn with_offset(self, offset: Fp) -> (r: Radix2EvaluationDomain)
        requires
            self.wf(),
            offset.wf(),
        ensures
            r.wf(),
            r.size == self.size,
            r.group_gen == self.group_gen,
            r.offset == offset,
    {
        Radix2EvaluationDomain { offset, ..self }
    }

    /// The coset offset raised to the domain size.
    pub fn coset_offset_pow_size(&self) -> (r: Fp)
        requires
            self.wf(),
        ensures
            r.wf(),
            r@ == pow(self.offset@, self.size as nat) % modulus(),
    {
        self.offset.pow(self.size as u64)
    }
}

/// What the vanishing polynomial of a domain of size `n` with coset
/// offset `off` evaluates to at `tau`: `tau^n - off^n`.
pub open spec fn vanishing_eval(tau: int, off: int, n: nat) -> int {
    (pow(tau, n) - pow(off, n)) % modulus()
}

/// Evaluates the domain's vanishing polynomial at `tau`.
pub fn evaluate_vanishing_polynomial(domain: &Radix2EvaluationDomain, tau: Fp) -> (r: Fp)
    requires
        domain.wf(),
        tau.wf(),
    ensures
        r.wf(),
        r@ == vanishing_eval(tau@, domain.offset@, domain.size as nat),
{
    let t = tau.pow(domain.size as u64);
    let o = domain.coset_offset_pow_size();
    let r = t.sub(o);
    proof {
        lemma_sub_mod_noop(
            pow(tau@, domain.size as nat),
            pow(domain.offset@, domain.size as nat),
            modulus(),
        );
    }
    r
}

/// The evaluations that [`fill_vanishing_polynomial`] writes: the
/// vanishing polynomial of `vanish` evaluated over the points of `eval`,
/// in order.
pub open spec fn vanishing_fill_val(
    eval_off: int,
    eval_gen: int,
    vanish_off: int,
    nv: nat,
    i: int,
) -> int {
    (pow(eval_off, nv) * pow(eval_gen, (nv * i) as nat) - pow(vanish_off, nv)) % modulus()
}

/// Evaluates the vanishing polynomial of `vanish_domain` over every point
/// of `eval_domain`, writing one evaluation per slot of `dst`.
pub fn fill_vanishing_polynomial(
    dst: &mut Vec<Fp>,
    vanish_domain: &Radix2EvaluationDomain,
    eval_domain: &Radix2EvaluationDomain,
)
    requires
        vanish_domain.wf(),
        eval_domain.wf(),
    ensures
        final(dst)@.len() == old(dst)@.len(),
        seq_wf(final(dst)@),
        forall|i: int|
            0 <= i < final(dst)@.len() ==> (#[trigger] final(dst)@[i])@ == vanishing_fill_val(
                eval_domain.offset@,
                eval_domain.group_gen@,
                vanish_domain.offset@,
                vanish_domain.size as nat,
                i,
            ),
{
    let n = dst.len();
    let nv = vanish_domain.size;
    let scaled_eval_offset = eval_domain.offset.pow(nv as u64);
    let scaled_eval_generator = eval_domain.group_gen.pow(nv as u64);
    let scaled_vanish_offset = vanish_domain.coset_offset_pow_size();
    let ghost eo = eval_domain.offset@;
    let ghost eg = eval_domain.group_gen@;
    let ghost vo = vanish_domain.offset@;
    let mut acc = scaled_eval_offset;
    let mut i: usize = 0;
    proof {
        vstd::arithmetic::power::lemma_pow0(eg);
        lemma_mul_mod_noop_right(pow(eo, nv as nat), 1, modulus());
    }
    while i < n
        invariant
            i <= n,
            dst@.len() == n,
            acc.wf(),
            scaled_eval_generator.wf(),
            scaled_vanish_offset.wf(),
            scaled_eval_generator@ == pow(eg, nv as nat) % modulus(),
            scaled_vanish_offset@ == pow(vo, nv as nat) % modulus(),
            acc@ == (pow(eo, nv as nat) * pow(eg, (nv as nat * i as nat) as nat)) % modulus(),
            forall|k: int|
                0 <= k < i ==> (#[trigger] dst@[k]).wf() && dst@[k]@ == vanishing_fill_val(
                    eo,
                    eg,
                    vo,
                    nv as nat,
                    k,
                ),
        decreases n - i,
    {
        let v = acc.sub(scaled_vanish_offset);
        proof {
            lemma_sub_mod_noop(
                pow(eo, nv as nat) * pow(eg, (nv as nat * i as nat) as nat),
                pow(vo, nv as nat),
                modulus(),
            );
        }
        dst.set(i, v);
        let ghost e1 = (nv as nat * i as nat) as nat;
        acc = acc.mul(scaled_eval_generator);
        proof {
            let p = modulus();
            let base_term = pow(eo, nv as nat) * pow(eg, e1);
            lemma_mul_mod_noop_general(base_term, pow(eg, nv as nat), p);
            lemma_pow_adds(eg, e1, nv as nat);
            assert((pow(eo, nv as nat) * pow(eg, e1)) * pow(eg, nv as nat) == pow(eo, nv as nat)
                * (pow(eg, e1) * pow(eg, nv as nat))) by (nonlinear_arith);
            assert(nv as nat * (i + 1) as nat == e1 + nv as nat) by (nonlinear_arith)
                requires
                    e1 == nv as nat * i as nat,
            ;
        }
        i = i + 1;
    }
}

/// What Horner evaluation computes: `c[0] + x * (c[1] + x * (...))`.
pub open spec fn horner_spec(c: Seq<int>, x: int) -> int
    decreases c.len(),
{
    if c.len() == 0 {
        0
    } else {
        (c[0] + x * horner_spec(c.subrange(1, c.len() as int), x)) % modulus()
    }
}

/// Horner's method for polynomial evaluation.
pub fn horner_evaluate(poly_coeffs: &Vec<Fp>, point: &Fp) -> (r: Fp)
    requires
        seq_wf(poly_coeffs@),
        point.wf(),
    ensures
        r.wf(),
        r@ == horner_spec(seq_val(poly_coeffs@), point@),
{
    let n = poly_coeffs.len();
    let mut acc = Fp::zero();
    let mut i: usize = n;
    proof {
        assert(seq_val(poly_coeffs@).subrange(n as int, n as int) =~= Seq::<int>::empty());
    }
    while i > 0
        invariant
            i <= n,
            n == poly_coeffs@.len(),
            seq_wf(poly_coeffs@),
            point.wf(),
            acc.wf(),
            acc@ == horner_spec(seq_val(poly_coeffs@).subrange(i as int, n as int), point@),
        decreases i,
    {
        i = i - 1;
        let t = acc.mul(*point);
        let r = t.add(poly_coeffs[i]);
        proof {
            let p = modulus();
            let c = seq_val(poly_coeffs@);
            let tail = c.subrange(i as int + 1, n as int);
            assert(c.subrange(i as int, n as int).subrange(1, (n - i) as int) =~= tail);
            assert(c.subrange(i as int, n as int)[0] == c[i as int]);
            // acc' == (c[i] + x * horner(tail)) % p
            lemma_mul_mod_noop_right(point@, horner_spec(tail, point@), p);
            assert((point@ * acc@) % p == (point@ * horner_spec(tail, point@)) % p);
            lemma_add_mod_noop_right(c[i as int], point@ * horner_spec(tail, point@), p);
            lemma_add_mod_noop_right(c[i as int], point@ * acc@, p);
            assert(point@ * acc@ == acc@ * point@) by (nonlinear_arith);
        }
        acc = r;
    }
    proof {
        assert(seq_val(poly_coeffs@).subrange(0, n as int) =~= seq_val(poly_coeffs@));
    }
    acc
}

/// The quotient coefficients of dividing by `x - b`, from index `i`
/// upward: `q[i] = c[i + 1] + b * q[i + 1]`, with the leading quotient
/// coefficient equal to the dividend's leading coefficient.
pub open spec fn syn_quot(c: Seq<int>, b: int, i: int) -> int
    decreases c.len() - i,
{
    if i < 0 || i >= c.len() - 1 {
        0
    } else {
        (c[i + 1] + b * syn_quot(c, b, i + 1)) % modulus()
    }
}

/// Divides the polynomial by `x^a - b` in place using synthetic
/// division, discarding the remainder: the quotient's coefficients land
/// in the low slots and the leading slot becomes zero. Only divisors of
/// degree one are supported.
pub fn synthetic_divide(coeffs: &mut Vec<Fp>, a: usize, b: Fp)
    requires
        a == 1,
        b.wf(),
        b@ != 0,
        old(coeffs)@.len() > a,
        seq_wf(old(coeffs)@),
    ensures
        final(coeffs)@.len() == old(coeffs)@.len(),
        seq_wf(final(coeffs)@),
        forall|i: int|
            0 <= i < final(coeffs)@.len() - 1 ==> (#[trigger] final(coeffs)@[i])@ == syn_quot(
                seq_val(old(coeffs)@),
                b@,
                i,
            ),
        (final(coeffs)@[final(coeffs)@.len() - 1])@ == 0,
{
    let ghost orig = seq_val(coeffs@);
    let n = coeffs.len();
    let mut carry = Fp::zero();
    let mut i: usize = n;
    while i > 0
        invariant
            i <= n,
            n == coeffs@.len(),
            n > 1,
            b.wf(),
            carry.wf(),
            orig == seq_val(old(coeffs)@),
            orig.len() == n,
            seq_wf(coeffs@),
            i >= 1 ==> carry@ == syn_quot(orig, b@, i as int - 1),
            forall|k: int| 0 <= k < i ==> #[trigger] coeffs@[k] == old(coeffs)@[k],
            forall|k: int|
                i <= k < n - 1 ==> (#[trigger] coeffs@[k])@ == syn_quot(orig, b@, k),
            i < n ==> (coeffs@[n - 1])@ == 0,
        decreases i,
    {
        i = i - 1;
        let t = coeffs[i].add(b.mul(carry));
        coeffs.set(i, carry);
        proof {
            let p = modulus();
            lemma_add_mod_noop_right(orig[i as int], b@ * syn_quot(orig, b@, i as int), p);
        }
        carry = t;
    }
}

/// The floor below which grinding contributes no conjectured security.
pub const GRINDING_CONTRIBUTION_FLOOR: usize = 80;

/// The number of trailing zero bits of `n`.
pub open spec fn spec_trailing_zeros(n: int) -> nat
    decreases n,
{
    if n <= 0 || n % 2 != 0 {
        0
    } else {
        1 + spec_trailing_zeros(n / 2)
    }
}

fn trailing_zeros_exec(n: usize) -> (r: u32)
    requires
        n >= 1,
    ensures
        r as nat == spec_trailing_zeros(n as int),
{
    let mut m = n;
    let mut r: u32 = 0;
    proof {
        vstd::arithmetic::power2::lemma2_to64();
    }
    while m % 2 == 0 && m > 0
        invariant
            m >= 1,
            r <= 63,
            m as int * vstd::arithmetic::power2::pow2(r as nat) <= n as int,
            spec_trailing_zeros(n as int) == r as nat + spec_trailing_zeros(m as int),
        decreases m,
    {
        proof {
            lemma_halving_step(m as int, r as nat, n as int);
        }
        m = m / 2;
        r = r + 1;
    }
    r
}

/// One halving step keeps the product bound and the exponent below 64.
proof fn lemma_halving_step(m: int, r: nat, n: int)
    requires
        m >= 2,
        m % 2 == 0,
        r <= 63,
        m * vstd::arithmetic::power2::pow2(r) <= n,
        n < 0x1_0000_0000_0000_0000,
    ensures
        (m / 2) * vstd::arithmetic::power2::pow2(r + 1) <= n,
        r + 1 <= 63,
{
    vstd::arithmetic::power2::lemma_pow2_unfold(r + 1);
    assert((m / 2) * (2 * vstd::arithmetic::power2::pow2(r)) == m * vstd::arithmetic::power2::pow2(
        r,
    )) by (nonlinear_arith)
        requires
            m % 2 == 0,
            m >= 2,
    ;
    vstd::arithmetic::power2::lemma2_to64();
    if r + 1 > 63 {
        assert(vstd::arithmetic::power2::pow2(r + 1) == vstd::arithmetic::power2::pow2(64));
        vstd::arithmetic::power2::lemma_pow2_pos(r + 1);
        assert((m / 2) * vstd::arithmetic::power2::pow2(r + 1) >= vstd::arithmetic::power2::pow2(
            r + 1,
        )) by (nonlinear_arith)
            requires
                m / 2 >= 1,
                vstd::arithmetic::power2::pow2(r + 1) > 0,
        ;
        assert(false);
    }
}

/// The floor base-two logarithm, as the standard library's `ilog2`.
fn ilog2_exec(n: usize) -> (r: u32)
    requires
        n >= 1,
    ensures
        r as nat == lg(n as int),
{
    let mut m = n;
    let mut r: u32 = 0;
    proof {
        vstd::arithmetic::power2::lemma2_to64();
    }
    while m > 1
        invariant
            m >= 1,
            r <= 63,
            m as int * vstd::arithmetic::power2::pow2(r as nat) <= n as int,
            lg(n as int) == r as nat + lg(m as int),
        decreases m,
    {
        proof {
            if m % 2 == 0 {
                lemma_halving_step(m as int, r as nat, n as int);
            } else {
                lemma_halving_odd_step(m as int, r as nat, n as int);
            }
        }
        m = m / 2;
        r = r + 1;
    }
    r
}

/// The halving bound also holds when the value is odd.
proof fn lemma_halving_odd_step(m: int, r: nat, n: int)
    requires
        m >= 2,
        r <= 63,
        m * vstd::arithmetic::power2::pow2(r) <= n,
        n < 0x1_0000_0000_0000_0000,
    ensures
        (m / 2) * vstd::arithmetic::power2::pow2(r + 1) <= n,
        r + 1 <= 63,
{
    vstd::arithmetic::power2::lemma_pow2_unfold(r + 1);
    vstd::arithmetic::power2::lemma_pow2_pos(r);
    assert((m / 2) * (2 * vstd::arithmetic::power2::pow2(r)) <= m * vstd::arithmetic::power2::pow2(
        r,
    )) by (nonlinear_arith)
        requires
            m >= 2,
            vstd::arithmetic::power2::pow2(r) > 0,
    ;
    vstd::arithmetic::power2::lemma2_to64();
    if r + 1 > 63 {
        assert(vstd::arithmetic::power2::pow2(r + 1) == vstd::arithmetic::power2::pow2(64));
        vstd::arithmetic::power2::lemma_pow2_pos(r + 1);
        assert((m / 2) * vstd::arithmetic::power2::pow2(r + 1) >= vstd::arithmetic::power2::pow2(
            r + 1,
        )) by (nonlinear_arith)
            requires
                m / 2 >= 1,
                vstd::arithmetic::power2::pow2(r + 1) > 0,
        ;
        assert(false);
    }
}

/// The conjectured security estimate in bits.
pub open spec fn conjectured_security_spec(
    field_bits: int,
    hash_fn_security: int,
    lde_blowup_factor: int,
    trace_len: int,
    num_fri_queries: int,
    grinding_factor: int,
) -> int {
    let field_security = field_bits - spec_trailing_zeros(lde_blowup_factor * trace_len);
    let security_per_query = lg(lde_blowup_factor) as int;
    let base_query_security = security_per_query * num_fri_queries;
    let query_security = if base_query_security >= GRINDING_CONTRIBUTION_FLOOR as int {
        base_query_security + grinding_factor
    } else {
        base_query_security
    };
    let m = if field_security <= query_security {
        field_security
    } else {
        query_security
    };
    if m - 1 <= hash_fn_security {
        m - 1
    } else {
        hash_fn_security
    }
}

/// Conjectured security of a proof: the field contribution capped by the
/// query-round contribution (with grinding counted only above the
/// floor), minus one, capped by the hash function's collision security.
pub fn conjectured_security_level(
    field_bits: usize,
    hash_fn_security: usize,
    lde_blowup_factor: usize,
    trace_len: usize,
    num_fri_queries: usize,
    grinding_factor: usize,
) -> (r: usize)
    requires
        1 <= lde_blowup_factor,
        1 <= trace_len,
        lde_blowup_factor * trace_len <= usize::MAX,
        field_bits >= spec_trailing_zeros((lde_blowup_factor * trace_len) as int),
        lg(lde_blowup_factor as int) * num_fri_queries + grinding_factor <= usize::MAX,
        conjectured_security_spec(
            field_bits as int,
            hash_fn_security as int,
            lde_blowup_factor as int,
            trace_len as int,
            num_fri_queries as int,
            grinding_factor as int,
        ) >= 0,
    ensures
        r as int == conjectured_security_spec(
            field_bits as int,
            hash_fn_security as int,
            lde_blowup_factor as int,
            trace_len as int,
            num_fri_queries as int,
            grinding_factor as int,
        ),
{
    proof {
        assert(lde_blowup_factor * trace_len >= 1) by (nonlinear_arith)
            requires
                lde_blowup_factor >= 1,
                trace_len >= 1,
        ;
    }
    let tz = trailing_zeros_exec(lde_blowup_factor * trace_len);
    let field_security = field_bits - (tz as usize);
    let security_per_query = ilog2_exec(lde_blowup_factor) as usize;
    proof {
        assert(security_per_query * num_fri_queries == lg(lde_blowup_factor as int)
            * num_fri_queries) by (nonlinear_arith)
            requires
                security_per_query as int == lg(lde_blowup_factor as int),
        ;
    }
    let mut query_security = security_per_query * num_fri_queries;
    if query_security >= GRINDING_CONTRIBUTION_FLOOR {
        query_security = query_security + grinding_factor;
    }
    let m = if field_security <= query_security {
        field_security
    } else {
        query_security
    };
    if m - 1 <= hash_fn_security {
        m - 1
    } else {
        hash_fn_security
    }
}

} // verus!
