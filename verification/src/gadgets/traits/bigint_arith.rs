//! Range checks and numbers that are split into limbs.
use crate::circuit::{clone_bound, Circuit, Sig};
use num_bigint::BigUint;
use vstd::arithmetic::power::{
    lemma_pow0, lemma_pow1, lemma_pow_adds, lemma_pow_increases, lemma_pow_strictly_increases, pow,
};
use vstd::arithmetic::power2::{
    lemma2_to64, lemma_pow2_pos, lemma_pow2_strictly_increases, lemma_pow2_unfold, pow2,
};
use vstd::prelude::*;

verus! {

/// The digits of a number in base two to the power of 32, lowest first and
/// without zeros at the high end: what `BigUint::to_u32_digits` returns.
pub uninterp spec fn big_digits(n: BigUint) -> Seq<u32>;

/// The number that a list of digits stands for, lowest first.
pub open spec fn digits_value(digits: Seq<u32>) -> nat
    decreases digits.len(),
{
    if digits.len() == 0 {
        0
    } else {
        digits[0] as nat + 0x1_0000_0000 * digits_value(digits.skip(1))
    }
}

/// The number that a `BigUint` holds.
pub open spec fn big_value(n: BigUint) -> nat {
    digits_value(big_digits(n))
}

/// `BigUint::from` for `u32`: the number itself, with no digit for zero and
/// one digit else.
#[verifier::external_body]
pub(crate) fn big_from_u32(v: u32) -> (n: BigUint)
    ensures
        big_digits(n) == if v == 0 {
            Seq::<u32>::empty()
        } else {
            seq![v]
        },
{
    BigUint::from(v)
}

/// `Mul` for two `&BigUint`: the product, which has no upper limit.
#[verifier::external_body]
pub(crate) fn big_mul(a: &BigUint, b: &BigUint) -> (n: BigUint)
    ensures
        big_value(n) == big_value(*a) * big_value(*b),
{
    a * b
}

/// `PartialOrd::lt` for `BigUint`: whether the first number is the lower.
#[verifier::external_body]
pub(crate) fn big_less(a: &BigUint, b: &BigUint) -> (less: bool)
    ensures
        less == (big_value(*a) < big_value(*b)),
{
    a < b
}

/// `PartialOrd::gt` for `BigUint`: whether the first number is the higher.
#[verifier::external_body]
pub(crate) fn big_greater(a: &BigUint, b: &BigUint) -> (greater: bool)
    ensures
        greater == (big_value(*a) > big_value(*b)),
{
    a > b
}

/// `BigUint::pow`: the number raised to the power of `exponent`.
#[verifier::external_body]
pub(crate) fn big_pow(base: &BigUint, exponent: u32) -> (n: BigUint)
    ensures
        big_value(n) == pow(big_value(*base) as int, exponent as nat),
{
    base.pow(exponent)
}

/// What [`log_ceil`] returns: the least `r` of one or more such that `b` to
/// the power of `r` is `x` at least.
pub open spec fn is_log_ceil(b: nat, x: nat, r: nat) -> bool {
    &&& r >= 1
    &&& x <= pow(b as int, r)
    &&& r > 1 ==> pow(b as int, (r - 1) as nat) < x
}

/// At most one number is the rounded-up logarithm of `x` to a base of two
/// or more.
pub proof fn lemma_log_ceil_unique(b: nat, x: nat, r1: nat, r2: nat)
    requires
        b >= 2,
        is_log_ceil(b, x, r1),
        is_log_ceil(b, x, r2),
    ensures
        r1 == r2,
{
    if r1 < r2 {
        lemma_pow_increases(b, r1, (r2 - 1) as nat);
    }
    if r2 < r1 {
        lemma_pow_increases(b, r2, (r1 - 1) as nat);
    }
}

/// The logarithm of `x` to the base `b`, rounded up, and one for an `x` of
/// one or less: the number of limbs of base `b` that hold every value below
/// `x`. The base is two at least, and `x` is not above `b` to the power of
/// the largest `u32`, so that the result fits.
pub fn log_ceil(b: &BigUint, x: &BigUint) -> (r: u32)
    requires
        big_value(*b) >= 2,
        big_value(*x) <= pow(big_value(*b) as int, u32::MAX as nat),
    ensures
        is_log_ceil(big_value(*b), big_value(*x), r as nat),
{
    try_log_ceil(b, x).unwrap()
}

/// The logarithm of `x` to the base `b`, rounded up, as [`log_ceil`] gives
/// it, where a `u32` holds it: `None` for an `x` above `b` to the power of
/// the largest `u32`. The base is two at least.
pub fn try_log_ceil(b: &BigUint, x: &BigUint) -> (r: Option<u32>)
    requires
        big_value(*b) >= 2,
    ensures
        r is Some <==> big_value(*x) <= pow(big_value(*b) as int, u32::MAX as nat),
        r matches Some(log) ==> is_log_ceil(big_value(*b), big_value(*x), log as nat),
{
    let ghost base = big_value(*b) as int;
    let ghost target = big_value(*x) as int;
    let mut pows: Vec<BigUint> = Vec::new();  // powers b^{2^k}
    pows.push(clone_bound(b));
    proof {
        lemma2_to64();
        lemma_pow1(base);
    }
    loop
        invariant
            base == big_value(*b),
            target == big_value(*x),
            base >= 2,
            1 <= pows@.len() <= 32,
            forall|k: int|
                0 <= k < pows@.len() ==> big_value(#[trigger] pows@[k]) == pow(
                    base,
                    pow2(k as nat),
                ),
        ensures
            1 <= pows@.len() <= 32,
            forall|k: int|
                0 <= k < pows@.len() ==> big_value(#[trigger] pows@[k]) == pow(
                    base,
                    pow2(k as nat),
                ),
            target < pow(base, pow2(pows@.len() as nat)),
        decreases 33 - pows@.len(),
    {
        let l = pows.len();
        let pow_new = big_mul(&pows[l - 1], &pows[l - 1]);
        proof {
            lemma_pow2_unfold(l as nat);
            lemma_pow_adds(base, pow2((l - 1) as nat), pow2((l - 1) as nat));
            assert(big_value(pow_new) == pow(base, pow2(l as nat)));
        }
        if big_greater(&pow_new, x) {
            break ;
        } else {
            if l >= 32 {
                proof {
                    lemma2_to64();
                    lemma_pow_strictly_increases(base as nat, u32::MAX as nat, pow2(32));
                }
                return None;
            }
            pows.push(pow_new);
        }
    }
    let l = pows.len();
    let mut ret: u32 = 0;
    let mut approx = big_from_u32(1);
    let mut i: usize = 0;
    proof {
        lemma_pow0(base);
        assert(big_digits(approx) == seq![1u32]);
        assert(seq![1u32].skip(1) =~= Seq::<u32>::empty());
        assert(digits_value(seq![1u32].skip(1)) == 0);
        assert(big_value(approx) == 1);
    }
    while i < l
        invariant
            base == big_value(*b),
            target == big_value(*x),
            base >= 2,
            i <= l <= 32,
            l == pows@.len(),
            forall|k: int|
                0 <= k < pows@.len() ==> big_value(#[trigger] pows@[k]) == pow(
                    base,
                    pow2(k as nat),
                ),
            big_value(approx) == pow(base, ret as nat),
            ret + pow2((l - i) as nat) <= pow2(l as nat),
            ret == 0 || pow(base, ret as nat) < target,
            target <= pow(base, ret as nat + pow2((l - i) as nat)),
        decreases l - i,
    {
        let k = l - i - 1;
        let approx_new = big_mul(&approx, &pows[k]);
        proof {
            lemma2_to64();
            lemma_pow2_unfold((l - i) as nat);
            lemma_pow_adds(base, ret as nat, pow2(k as nat));
            if l < 32 {
                lemma_pow2_strictly_increases(l as nat, 32);
            }
            if k < 31 {
                lemma_pow2_strictly_increases(k as nat, 31);
            }
            lemma_pow2_pos(k as nat);
            vstd::bits::lemma_u32_shl_is_mul(1, k as u32);
        }
        let bit: u32 = 1u32 << (k as u32);
        if big_less(&approx_new, x) {
            approx = approx_new;
            ret += bit;
        }
        i = i + 1;
    }
    proof {
        lemma2_to64();
        if l < 32 {
            lemma_pow2_strictly_increases(l as nat, 32);
        }
    }
    if ret == u32::MAX {
        return None;
    }
    proof {
        lemma_pow_increases(base as nat, (ret + 1) as nat, u32::MAX as nat);
    }
    Some(ret + 1)
}

/// The powers of a base from the power of zero on: the coefficients that
/// make one limb out of `packing` primitive limbs.
pub fn limb_coefficients(primitive_base: &BigUint, packing: u32) -> (coeffs: Vec<BigUint>)
    ensures
        coeffs@.len() == packing,
        forall|j: int|
            0 <= j < packing ==> big_value(#[trigger] coeffs@[j]) == pow(
                big_value(*primitive_base) as int,
                j as nat,
            ),
{
    let ghost base = big_value(*primitive_base) as int;
    let mut coeffs: Vec<BigUint> = Vec::new();
    let mut power = big_from_u32(1);
    proof {
        lemma_pow0(base);
        assert(big_digits(power) == seq![1u32]);
        assert(seq![1u32].skip(1) =~= Seq::<u32>::empty());
        assert(digits_value(seq![1u32].skip(1)) == 0);
    }
    let mut j: u32 = 0;
    while j < packing
        invariant
            j <= packing,
            base == big_value(*primitive_base),
            coeffs@.len() == j,
            big_value(power) == pow(base, j as nat),
            forall|k: int| 0 <= k < j ==> big_value(#[trigger] coeffs@[k]) == pow(base, k as nat),
        decreases packing - j,
    {
        coeffs.push(clone_bound(&power));
        power = big_mul(&power, primitive_base);
        proof {
            lemma_pow1(base);
            lemma_pow_adds(base, j as nat, 1);
        }
        j = j + 1;
    }
    coeffs
}

/// The powers of a base, from the power of zero to that of `n - 1`.
pub open spec fn powers(base: nat, n: nat) -> Seq<nat> {
    Seq::new(n, |j: int| pow(base as int, j as nat) as nat)
}

/// The number one, `n` times.
pub open spec fn ones(n: nat) -> Seq<nat> {
    Seq::new(n, |j: int| 1nat)
}

/// The numbers that a list of `BigUint` holds.
pub open spec fn big_values(numbers: Seq<BigUint>) -> Seq<nat> {
    numbers.map_values(|n: BigUint| big_value(n))
}

/// Why flushing the registers has stopped before it was done.
#[derive(Debug, Clone, Copy, PartialEq, Eq, Structural)]
pub enum FlushStop {
    /// A place was still to do after as many places as were allowed.
    OutOfPlaces,
    /// The sum at this place cannot be split into limbs: the base raised to
    /// their number is above the modulus, or a count does not fit `u32`.
    DoesNotFit(usize),
}

/// A run of flushing, step by step: the registers before the first step and
/// after each step, and for each step the sum that it formed, the limbs of
/// the sum and the primitive limbs that they are combined from.
pub struct FlushRun<S> {
    pub states: Seq<Seq<Vec<S>>>,
    pub terms: Seq<Seq<S>>,
    pub incomings: Seq<S>,
    pub primitives: Seq<Seq<S>>,
}

impl<S> FlushRun<S> {
    /// The number of steps.
    pub open spec fn steps(self) -> nat {
        self.terms.len()
    }

    /// The registers after the last step.
    pub open spec fn end(self) -> Seq<Vec<S>> {
        self.states.last()
    }

    /// The run starts with one signal of `start` at each place, and the
    /// step number `i` carries its limbs from place `i` on.
    pub open spec fn chained(self, start: Seq<S>) -> bool {
        &&& self.states.len() == self.terms.len() + 1
        &&& self.incomings.len() == self.terms.len()
        &&& self.primitives.len() == self.terms.len()
        &&& self.states[0].len() == start.len()
        &&& forall|k: int| 0 <= k < start.len() ==> (#[trigger] self.states[0][k])@ == seq![start[k]]
        &&& forall|i: int|
            0 <= i < self.terms.len() ==> i < (#[trigger] self.states[i]).len() && carried(
                self.states[i],
                self.states[i + 1],
                i,
                self.terms[i],
            )
    }

    /// The run with one more step.
    pub open spec fn with_step(self, incoming: S, term: Seq<S>, primitive: Seq<S>, after: Seq<Vec<S>>) -> Self {
        FlushRun {
            states: self.states.push(after),
            terms: self.terms.push(term),
            incomings: self.incomings.push(incoming),
            primitives: self.primitives.push(primitive),
        }
    }
}

/// The range checks of a builder of type `C`. What the checks do to the
/// builder is theirs to say: they say it with the relations `split_of`,
/// `range_checked`, `combination_of` and `product_of`, which hold of a
/// builder once it has recorded them.
pub trait RangecheckImpl<C: Circuit>: Sized {
    /// The modulus of the field.
    spec fn modulus() -> nat;

    /// The largest bound that one primitive check can enforce.
    spec fn max_primitive() -> nat;

    /// The builder has recorded that `limbs` hold the value of `sig`, split
    /// into limbs of base `base`.
    spec fn split_of(c: &C, sig: Sig<C, C::F>, base: nat, limbs: Seq<Sig<C, C::F>>) -> bool;

    /// The builder has recorded that `sig` is checked against `bound`.
    spec fn range_checked(c: &C, sig: Sig<C, C::F>, bound: nat) -> bool;

    /// The builder has recorded that `out` is the sum of `values`, each
    /// multiplied by its coefficient.
    spec fn combination_of(
        c: &C,
        out: Sig<C, C::F>,
        coeffs: Seq<nat>,
        values: Seq<Sig<C, C::F>>,
    ) -> bool;

    /// The builder has recorded that `out` is the product of `a` and `b`.
    spec fn product_of(c: &C, out: Sig<C, C::F>, a: Sig<C, C::F>, b: Sig<C, C::F>) -> bool;

    /// `after` has the nodes of `before`, no bound of `before` is lost or
    /// raised, and what `before` has recorded, `after` has recorded.
    spec fn kept(before: &C, after: &C) -> bool;

    /// What is kept stays kept, and what `kept` keeps.
    proof fn lemma_kept(before: &C, mid: &C, after: &C)
        ensures
            Self::kept(before, before),
            Self::kept(before, mid) && Self::kept(mid, after) ==> Self::kept(before, after),
            Self::kept(before, after) ==> {
                &&& forall|a: C::RawAddr|
                    before@.nodes.contains_key(a) ==> #[trigger] after@.nodes.contains_key(a)
                &&& forall|a: C::RawAddr| #[trigger]
                    before@.bounds.contains_key(a) ==> after@.bounds.contains_key(a) && big_value(
                        after@.bounds[a],
                    ) <= big_value(before@.bounds[a])
                &&& forall|sig: Sig<C, C::F>, base: nat, limbs: Seq<Sig<C, C::F>>| #[trigger]
                    Self::split_of(before, sig, base, limbs) ==> Self::split_of(
                        after,
                        sig,
                        base,
                        limbs,
                    )
                &&& forall|sig: Sig<C, C::F>, bound: nat| #[trigger]
                    Self::range_checked(before, sig, bound) ==> Self::range_checked(
                        after,
                        sig,
                        bound,
                    )
                &&& forall|out: Sig<C, C::F>, coeffs: Seq<nat>, values: Seq<Sig<C, C::F>>| #[trigger]
                    Self::combination_of(before, out, coeffs, values) ==> Self::combination_of(
                        after,
                        out,
                        coeffs,
                        values,
                    )
                &&& forall|out: Sig<C, C::F>, left: Sig<C, C::F>, right: Sig<C, C::F>| #[trigger]
                    Self::product_of(before, out, left, right) ==> Self::product_of(
                        after,
                        out,
                        left,
                        right,
                    )
            },
    ;

    /// The upper bound of a signal, `None` where none is set.
    fn bound(c: &C, sig: Sig<C, C::F>) -> (b: Option<BigUint>)
        requires
            c@.nodes.contains_key(sig@),
        ensures
            b == if c@.bounds.contains_key(sig@) {
                Some(c@.bounds[sig@])
            } else {
                None
            },
    ;

    /// Sets the bound of a signal, unless the signal has a lower one. The
    /// bound is not above the modulus of the field.
    fn assume_bound(c: &mut C, sig: Sig<C, C::F>, bound: &BigUint)
        requires
            old(c)@.nodes.contains_key(sig@),
            big_value(*bound) <= Self::modulus(),
        ensures
            Self::kept(old(c), final(c)),
            final(c)@.nodes == old(c)@.nodes,
            final(c)@.values == old(c)@.values,
            final(c)@.bounds.contains_key(sig@),
            big_value(final(c)@.bounds[sig@]) == if old(c)@.bounds.contains_key(sig@) && big_value(
                old(c)@.bounds[sig@],
            ) <= big_value(*bound) {
                big_value(old(c)@.bounds[sig@])
            } else {
                big_value(*bound)
            },
            forall|a: C::RawAddr|
                #![trigger final(c)@.bounds.contains_key(a)]
                a != sig@ ==> final(c)@.bounds.contains_key(a) == old(c)@.bounds.contains_key(a)
                    && final(c)@.bounds[a] == old(c)@.bounds[a],
    ;

    /// The signal that is the sum of the signals, each multiplied by its
    /// coefficient. It has a bound, which is not above the modulus.
    fn num_linear_combination(c: &mut C, coeffs: &[BigUint], values: &[Sig<C, C::F>]) -> (out: Sig<
        C,
        C::F,
    >)
        requires
            coeffs@.len() == values@.len(),
        ensures
            Self::kept(old(c), final(c)),
            Self::combination_of(final(c), out, big_values(coeffs@), values@),
            final(c)@.nodes.contains_key(out@),
            final(c)@.bounds.contains_key(out@),
            big_value(final(c)@.bounds[out@]) <= Self::modulus(),
    ;

    /// The signal that is the product of two signals.
    fn num_mul(c: &mut C, a: Sig<C, C::F>, b: Sig<C, C::F>) -> (out: Sig<C, C::F>)
        ensures
            Self::kept(old(c), final(c)),
            Self::product_of(final(c), out, a, b),
    ;

    /// The modulus of the field.
    fn field_modulus(c: &C) -> (modulus: BigUint)
        ensures
            big_value(modulus) == Self::modulus(),
    ;

    /// The largest bound that one primitive check can enforce.
    fn max_primitive_rangecheck(c: &C) -> (max: usize)
        ensures
            max == Self::max_primitive(),
    ;

    /// Checks a signal of the builder against a bound that one check can
    /// enforce.
    fn primitive_rangecheck(c: &mut C, sig: Sig<C, C::F>, bound: &BigUint)
        requires
            old(c)@.nodes.contains_key(sig@),
            big_value(*bound) <= Self::max_primitive(),
        ensures
            Self::kept(old(c), final(c)),
            Self::range_checked(final(c), sig, big_value(*bound)),
    ;

    /// Splits the value of a signal into limbs of a base, without any
    /// constraint: one new signal for each limb.
    fn advise_split_into_n_limbs(
        c: &mut C,
        sig: Sig<C, C::F>,
        base: &BigUint,
        num_limbs: u32,
    ) -> (limbs: Vec<Sig<C, C::F>>)
        ensures
            limbs@.len() == num_limbs,
            Self::kept(old(c), final(c)),
            Self::split_of(final(c), sig, big_value(*base), limbs@),
            forall|k: int|
                0 <= k < limbs@.len() ==> final(c)@.nodes.contains_key((#[trigger] limbs@[k])@),
    ;

    /// Splits a signal into `num_limbs` limbs and checks their range. The
    /// signal is split into primitive limbs of the base `primitive_base`,
    /// which one primitive check can enforce; each of them is checked; the
    /// signal is bounded by the base of the limbs raised to their number,
    /// which is not above the modulus; and each limb is combined from
    /// `packing` primitive limbs in a row, with the powers of the
    /// primitive base as coefficients.
    fn split_into_n_limbs(
        c: &mut C,
        sig: Sig<C, C::F>,
        primitive_base: &BigUint,
        packing: u32,
        num_limbs: u32,
    ) -> (limbs: Vec<Sig<C, C::F>>)
        requires
            old(c)@.nodes.contains_key(sig@),
            big_value(*primitive_base) <= Self::max_primitive(),
            num_limbs * packing <= u32::MAX,
            pow(
                pow(big_value(*primitive_base) as int, packing as nat),
                num_limbs as nat,
            ) <= Self::modulus(),
        ensures
            limbs@.len() == num_limbs,
            Self::kept(old(c), final(c)),
            final(c)@.bounds.contains_key(sig@),
            big_value(final(c)@.bounds[sig@]) <= pow(
                pow(big_value(*primitive_base) as int, packing as nat),
                num_limbs as nat,
            ),
            exists|primitive: Seq<Sig<C, C::F>>|
                {
                    &&& primitive.len() == num_limbs * packing
                    &&& #[trigger] Self::split_of(
                        final(c),
                        sig,
                        big_value(*primitive_base),
                        primitive,
                    )
                    &&& forall|k: int|
                        0 <= k < primitive.len() ==> Self::range_checked(
                            final(c),
                            #[trigger] primitive[k],
                            big_value(*primitive_base),
                        )
                    &&& forall|i: int|
                        0 <= i < num_limbs ==> Self::combination_of(
                            final(c),
                            #[trigger] limbs@[i],
                            powers(big_value(*primitive_base), packing as nat),
                            primitive.subrange(i * packing, i * packing + packing),
                        )
                },
    {
        let ghost pb = big_value(*primitive_base);
        let base = big_pow(primitive_base, packing);
        let bound = big_pow(&base, num_limbs);
        let primitive_limbs = Self::advise_split_into_n_limbs(
            c,
            sig,
            primitive_base,
            num_limbs * packing,
        );
        let ghost primitive = primitive_limbs@;
        proof {
            Self::lemma_kept(old(c), old(c), c);
        }
        let mut n: usize = 0;
        while n < primitive_limbs.len()
            invariant
                n <= primitive_limbs.len(),
                primitive == primitive_limbs@,
                pb == big_value(*primitive_base),
                pb <= Self::max_primitive(),
                c@.nodes.contains_key(sig@),
                Self::kept(old(c), c),
                Self::split_of(c, sig, pb, primitive),
                forall|k: int| 0 <= k < n ==> Self::range_checked(c, #[trigger] primitive[k], pb),
                forall|k: int|
                    0 <= k < primitive.len() ==> c@.nodes.contains_key((#[trigger] primitive[k])@),
            decreases primitive_limbs.len() - n,
        {
            let ghost before = *c;
            Self::primitive_rangecheck(c, primitive_limbs[n], primitive_base);
            proof {
                Self::lemma_kept(old(c), &before, c);
                Self::lemma_kept(&before, &before, c);
                assert forall|k: int| 0 <= k < primitive.len() implies c@.nodes.contains_key(
                    (#[trigger] primitive[k])@,
                ) by {
                    assert(before@.nodes.contains_key(primitive[k]@));
                }
            }
            n = n + 1;
        }
        let ghost checked = *c;
        Self::assume_bound(c, sig, &bound);
        proof {
            Self::lemma_kept(old(c), &checked, c);
            Self::lemma_kept(&checked, &checked, c);
        }

        let coeffs = limb_coefficients(primitive_base, packing);
        assert(big_values(coeffs@) =~= powers(pb, packing as nat));

        let mut limbs: Vec<Sig<C, C::F>> = Vec::new();
        let mut i: u32 = 0;
        while i < num_limbs
            invariant
                i <= num_limbs,
                limbs@.len() == i,
                coeffs@.len() == packing,
                big_values(coeffs@) == powers(pb, packing as nat),
                primitive == primitive_limbs@,
                primitive.len() == num_limbs * packing,
                num_limbs * packing <= u32::MAX,
                pb == big_value(*primitive_base),
                Self::kept(old(c), c),
                c@.bounds.contains_key(sig@),
                big_value(c@.bounds[sig@]) <= big_value(bound),
                Self::split_of(c, sig, pb, primitive),
                forall|k: int|
                    0 <= k < primitive.len() ==> Self::range_checked(
                        c,
                        #[trigger] primitive[k],
                        pb,
                    ),
                forall|m: int|
                    0 <= m < i ==> Self::combination_of(
                        c,
                        #[trigger] limbs@[m],
                        powers(pb, packing as nat),
                        primitive.subrange(m * packing, m * packing + packing),
                    ),
            decreases num_limbs - i,
        {
            let mut lc: Vec<Sig<C, C::F>> = Vec::new();
            let mut j: u32 = 0;
            assert(i * packing + packing <= num_limbs * packing) by (nonlinear_arith)
                requires
                    i < num_limbs,
            ;
            assert(lc@ =~= primitive.subrange(i * packing, i * packing + 0));
            while j < packing
                invariant
                    j <= packing,
                    i < num_limbs,
                    primitive == primitive_limbs@,
                    primitive.len() == num_limbs * packing,
                    num_limbs * packing <= u32::MAX,
                    i * packing + packing <= num_limbs * packing,
                    lc@ == primitive.subrange(i * packing, i * packing + j),
                decreases packing - j,
            {
                lc.push(primitive_limbs[(i * packing + j) as usize]);
                assert(lc@ =~= primitive.subrange(i * packing, i * packing + j + 1));
                j = j + 1;
            }
            let ghost before = *c;
            let ghost built = limbs@;
            let limb = Self::num_linear_combination(c, coeffs.as_slice(), lc.as_slice());
            limbs.push(limb);
            proof {
                Self::lemma_kept(old(c), &before, c);
                Self::lemma_kept(&before, &before, c);
                assert forall|m: int| 0 <= m < i + 1 implies Self::combination_of(
                    c,
                    #[trigger] limbs@[m],
                    powers(pb, packing as nat),
                    primitive.subrange(m * packing, m * packing + packing),
                ) by {
                    if m < i {
                        assert(limbs@[m] == built[m]);
                        assert(Self::combination_of(
                            &before,
                            built[m],
                            powers(pb, packing as nat),
                            primitive.subrange(m * packing, m * packing + packing),
                        ));
                    }
                }
            }
            i = i + 1;
        }
        limbs
    }

    /// Splits a signal that has a bound into as many limbs as hold every
    /// value below the bound, as [`Self::split_into_n_limbs`] does, where
    /// the limbs can be had: `None`, with nothing changed, where the base
    /// raised to their number is above the modulus or a count does not fit
    /// `u32`. The base of the limbs is two at least.
    fn try_split_into_limbs_strict(
        c: &mut C,
        sig: Sig<C, C::F>,
        primitive_base: &BigUint,
        packing: u32,
    ) -> (split: Option<Vec<Sig<C, C::F>>>)
        requires
            old(c)@.nodes.contains_key(sig@),
            old(c)@.bounds.contains_key(sig@),
            big_value(*primitive_base) <= Self::max_primitive(),
            pow(big_value(*primitive_base) as int, packing as nat) >= 2,
        ensures
            split is Some <==> limbs_fit(
                pow(big_value(*primitive_base) as int, packing as nat) as nat,
                big_value(old(c)@.bounds[sig@]),
                packing,
                Self::modulus(),
            ),
            split is None ==> *final(c) == *old(c),
            split matches Some(limbs) ==> {
                &&& limbs@.len() >= 1
                &&& is_log_ceil(
                    pow(big_value(*primitive_base) as int, packing as nat) as nat,
                    big_value(old(c)@.bounds[sig@]),
                    limbs@.len(),
                )
                &&& Self::kept(old(c), final(c))
                &&& exists|primitive: Seq<Sig<C, C::F>>|
                    {
                        &&& primitive.len() == limbs@.len() * packing
                        &&& #[trigger] Self::split_of(
                            final(c),
                            sig,
                            big_value(*primitive_base),
                            primitive,
                        )
                        &&& forall|k: int|
                            0 <= k < primitive.len() ==> Self::range_checked(
                                final(c),
                                #[trigger] primitive[k],
                                big_value(*primitive_base),
                            )
                        &&& forall|i: int|
                            0 <= i < limbs@.len() ==> Self::combination_of(
                                final(c),
                                #[trigger] limbs@[i],
                                powers(big_value(*primitive_base), packing as nat),
                                primitive.subrange(i * packing, i * packing + packing),
                            )
                    }
            },
    {
        let base = big_pow(primitive_base, packing);
        let bound = Self::bound(c, sig).unwrap();
        let ghost b = big_value(base);
        let ghost x = big_value(bound);
        let num_limbs = match try_log_ceil(&base, &bound) {
            Some(r) => r,
            None => {
                return None;
            },
        };
        if packing != 0 && num_limbs > u32::MAX / packing {
            proof {
                assert(num_limbs * packing > u32::MAX) by (nonlinear_arith)
                    requires
                        packing > 0,
                        num_limbs > u32::MAX / packing,
                ;
                if limbs_fit(b, x, packing, Self::modulus()) {
                    let r = choose|r: nat|
                        is_log_ceil(b, x, r) && limbs_of(b, r, packing, Self::modulus());
                    lemma_log_ceil_unique(b, x, num_limbs as nat, r);
                }
            }
            return None;
        }
        assert(num_limbs * packing <= u32::MAX) by (nonlinear_arith)
            requires
                packing == 0 || num_limbs <= u32::MAX / packing,
        ;
        let modulus = Self::field_modulus(c);
        let reach = big_pow(&base, num_limbs);
        if big_greater(&reach, &modulus) {
            proof {
                if limbs_fit(b, x, packing, Self::modulus()) {
                    let r = choose|r: nat|
                        is_log_ceil(b, x, r) && limbs_of(b, r, packing, Self::modulus());
                    lemma_log_ceil_unique(b, x, num_limbs as nat, r);
                }
            }
            return None;
        }
        assert(limbs_of(b, num_limbs as nat, packing, Self::modulus()));
        Some(Self::split_into_n_limbs(c, sig, primitive_base, packing, num_limbs))
    }

    /// Splits a signal that has a bound into as many limbs as hold every
    /// value below the bound, as [`Self::split_into_n_limbs`] does. The
    /// base of the limbs is two at least, and raised to their number it is
    /// not above the modulus.
    fn split_into_limbs_strict(
        c: &mut C,
        sig: Sig<C, C::F>,
        primitive_base: &BigUint,
        packing: u32,
    ) -> (limbs: Vec<Sig<C, C::F>>)
        requires
            old(c)@.nodes.contains_key(sig@),
            old(c)@.bounds.contains_key(sig@),
            big_value(*primitive_base) <= Self::max_primitive(),
            pow(big_value(*primitive_base) as int, packing as nat) >= 2,
            limbs_fit(
                pow(big_value(*primitive_base) as int, packing as nat) as nat,
                big_value(old(c)@.bounds[sig@]),
                packing,
                Self::modulus(),
            ),
        ensures
            limbs@.len() >= 1,
            is_log_ceil(
                pow(big_value(*primitive_base) as int, packing as nat) as nat,
                big_value(old(c)@.bounds[sig@]),
                limbs@.len(),
            ),
            Self::kept(old(c), final(c)),
            exists|primitive: Seq<Sig<C, C::F>>|
                {
                    &&& primitive.len() == limbs@.len() * packing
                    &&& #[trigger] Self::split_of(
                        final(c),
                        sig,
                        big_value(*primitive_base),
                        primitive,
                    )
                    &&& forall|k: int|
                        0 <= k < primitive.len() ==> Self::range_checked(
                            final(c),
                            #[trigger] primitive[k],
                            big_value(*primitive_base),
                        )
                    &&& forall|i: int|
                        0 <= i < limbs@.len() ==> Self::combination_of(
                            final(c),
                            #[trigger] limbs@[i],
                            powers(big_value(*primitive_base), packing as nat),
                            primitive.subrange(i * packing, i * packing + packing),
                        )
                },
    {
        Self::try_split_into_limbs_strict(c, sig, primitive_base, packing).unwrap()
    }

    /// One step of flushing the registers. The signals that were gathered
    /// at place `i` are summed, the sum is split into limbs, and the limb
    /// number `j` is put with the signals at place `i + j`: a new place is
    /// opened for it where there is none. What is returned says whether a
    /// place follows the place `i`. Where the sum cannot be split into
    /// limbs, the registers stay as they are and `None` is returned.
    fn normalize_step(
        c: &mut C,
        limbs: &mut Vec<Vec<Sig<C, C::F>>>,
        i: usize,
        primitive_base: &BigUint,
        packing: u32,
    ) -> (r: Option<bool>)
        requires
            i < old(limbs)@.len(),
            big_value(*primitive_base) <= Self::max_primitive(),
            pow(big_value(*primitive_base) as int, packing as nat) >= 2,
        ensures
            Self::kept(old(c), final(c)),
            r matches Some(more) ==> more == (i + 1 < final(limbs)@.len()),
            r is None ==> final(limbs)@ == old(limbs)@ && exists|incoming: Sig<C, C::F>|
                {
                    &&& #[trigger] Self::combination_of(
                        final(c),
                        incoming,
                        ones(old(limbs)@[i as int]@.len()),
                        old(limbs)@[i as int]@,
                    )
                    &&& final(c)@.bounds.contains_key(incoming@)
                    &&& !limbs_fit(
                        pow(big_value(*primitive_base) as int, packing as nat) as nat,
                        big_value(final(c)@.bounds[incoming@]),
                        packing,
                        Self::modulus(),
                    )
                },
            r is Some ==> exists|
                incoming: Sig<C, C::F>,
                term: Seq<Sig<C, C::F>>,
                primitive: Seq<Sig<C, C::F>>,
            |
                {
                    &&& term.len() >= 1
                    &&& Self::combination_of(
                        final(c),
                        incoming,
                        ones(old(limbs)@[i as int]@.len()),
                        old(limbs)@[i as int]@,
                    )
                    &&& primitive.len() == term.len() * packing
                    &&& #[trigger] Self::split_of(
                        final(c),
                        incoming,
                        big_value(*primitive_base),
                        primitive,
                    )
                    &&& forall|k: int|
                        0 <= k < primitive.len() ==> Self::range_checked(
                            final(c),
                            #[trigger] primitive[k],
                            big_value(*primitive_base),
                        )
                    &&& forall|m: int|
                        0 <= m < term.len() ==> Self::combination_of(
                            final(c),
                            #[trigger] term[m],
                            powers(big_value(*primitive_base), packing as nat),
                            primitive.subrange(m * packing, m * packing + packing),
                        )
                    &&& #[trigger] carried(old(limbs)@, final(limbs)@, i as int, term)
                },
    {
        let mut ones: Vec<BigUint> = Vec::new();
        let mut n: usize = 0;
        while n < limbs[i].len()
            invariant
                i < limbs@.len(),
                n <= limbs@[i as int]@.len(),
                ones@.len() == n,
                forall|k: int| 0 <= k < n ==> big_value(#[trigger] ones@[k]) == 1,
            decreases limbs@[i as int]@.len() - n,
        {
            let one = big_from_u32(1);
            proof {
                assert(big_digits(one) == seq![1u32]);
                assert(seq![1u32].skip(1) =~= Seq::<u32>::empty());
                assert(digits_value(seq![1u32].skip(1)) == 0);
            }
            ones.push(one);
            n = n + 1;
        }
        assert(big_values(ones@) =~= self::ones(old(limbs)@[i as int]@.len()));
        let incoming = Self::num_linear_combination(c, ones.as_slice(), limbs[i].as_slice());
        let ghost combined = *c;
        let term = match Self::try_split_into_limbs_strict(c, incoming, primitive_base, packing) {
            Some(term) => term,
            None => {
                return None;
            },
        };
        limbs[i] = Vec::new();
        let ghost primitive = choose|primitive: Seq<Sig<C, C::F>>|
            {
                &&& primitive.len() == term@.len() * packing
                &&& #[trigger] Self::split_of(c, incoming, big_value(*primitive_base), primitive)
                &&& forall|k: int|
                    0 <= k < primitive.len() ==> Self::range_checked(
                        c,
                        #[trigger] primitive[k],
                        big_value(*primitive_base),
                    )
                &&& forall|m: int|
                    0 <= m < term@.len() ==> Self::combination_of(
                        c,
                        #[trigger] term@[m],
                        powers(big_value(*primitive_base), packing as nat),
                        primitive.subrange(m * packing, m * packing + packing),
                    )
            };
        proof {
            Self::lemma_kept(old(c), &combined, c);
            Self::lemma_kept(&combined, &combined, c);
        }
        let mut j: usize = 0;
        while j < term.len()
            invariant
                j <= term@.len(),
                term@.len() >= 1,
                i < old(limbs)@.len(),
                limbs@.len() == if old(limbs)@.len() >= i + j {
                    old(limbs)@.len()
                } else {
                    (i + j) as nat
                },
                forall|k: int| 0 <= k < i ==> limbs@[k] == old(limbs)@[k],
                forall|k: int|
                    i <= k < limbs@.len() ==> (#[trigger] limbs@[k])@ == place_after(
                        old(limbs)@,
                        i as int,
                        term@.take(j as int),
                        k,
                    ),
            decreases term@.len() - j,
        {
            let ghost gathered = limbs@;
            if limbs.len() > i + j {
                limbs[i + j].push(term[j]);
                assert forall|k: int| 0 <= k < limbs@.len() && k != i + j implies limbs@[k]
                    == gathered[k] by {}
            } else {
                let mut opened: Vec<Sig<C, C::F>> = Vec::new();
                opened.push(term[j]);
                limbs.push(opened);
                assert forall|k: int| 0 <= k < gathered.len() implies limbs@[k] == gathered[k] by {}
            }
            proof {
                let taken = term@.take(j as int);
                let more = term@.take(j + 1);
                assert forall|k: int| i <= k < limbs@.len() implies (#[trigger] limbs@[k])@
                    == place_after(old(limbs)@, i as int, more, k) by {
                    if k == i + j {
                        assert(more[j as int] == term@[j as int]);
                        assert(limbs@[k]@ =~= place_after(old(limbs)@, i as int, more, k));
                    } else {
                        assert(limbs@[k] == gathered[k]);
                        if i <= k && k < i + j {
                            assert(more[k - i] == taken[k - i]);
                        }
                    }
                }
            }
            j = j + 1;
        }
        assert(term@.take(term@.len() as int) =~= term@);
        assert(i < limbs.len());
        assert(carried(old(limbs)@, limbs@, i as int, term@));
        Some(i + 1 < limbs.len())
    }

    /// Flushes the registers. Each signal of `limbs` is a place that holds
    /// it alone. From the first place on, what a place holds is summed, the
    /// sum is split into limbs, the first limb stays and the others are
    /// carried to the places that follow, which opens new places where
    /// there are none. Once the last place is done, every place holds one
    /// signal, and these are returned. At most `max_places` places are
    /// done, and the run stops at a place whose sum cannot be split into
    /// limbs: the error says which of the two it was.
    #[verifier::rlimit(40)]
    fn normalize(
        c: &mut C,
        limbs: &Vec<Sig<C, C::F>>,
        primitive_base: &BigUint,
        packing: u32,
        max_places: usize,
    ) -> (out: Result<Vec<Sig<C, C::F>>, FlushStop>)
        requires
            limbs@.len() >= 1,
            big_value(*primitive_base) <= Self::max_primitive(),
            pow(big_value(*primitive_base) as int, packing as nat) >= 2,
        ensures
            Self::kept(old(c), final(c)),
            exists|run: FlushRun<Sig<C, C::F>>|
                {
                    &&& #[trigger] run.chained(limbs@)
                    &&& forall|i: int|
                        0 <= i < run.steps() ==> {
                            &&& (#[trigger] run.terms[i]).len() >= 1
                            &&& Self::combination_of(
                                final(c),
                                run.incomings[i],
                                ones(run.states[i][i]@.len()),
                                run.states[i][i]@,
                            )
                            &&& run.primitives[i].len() == run.terms[i].len() * packing
                            &&& Self::split_of(
                                final(c),
                                run.incomings[i],
                                big_value(*primitive_base),
                                run.primitives[i],
                            )
                            &&& forall|k: int|
                                0 <= k < run.primitives[i].len() ==> Self::range_checked(
                                    final(c),
                                    #[trigger] run.primitives[i][k],
                                    big_value(*primitive_base),
                                )
                            &&& forall|m: int|
                                0 <= m < run.terms[i].len() ==> Self::combination_of(
                                    final(c),
                                    #[trigger] run.terms[i][m],
                                    powers(big_value(*primitive_base), packing as nat),
                                    run.primitives[i].subrange(m * packing, m * packing + packing),
                                )
                        }
                    &&& match out {
                        Ok(flushed) => {
                            &&& run.steps() == flushed@.len()
                            &&& run.end().len() == flushed@.len()
                            &&& flushed@.len() <= max_places
                            &&& forall|k: int|
                                0 <= k < flushed@.len() ==> #[trigger] flushed@[k]
                                    == run.terms[k][0] && run.end()[k]@ == seq![flushed@[k]]
                        },
                        Err(FlushStop::OutOfPlaces) => run.steps() == max_places
                            && run.end().len() > max_places,
                        Err(FlushStop::DoesNotFit(place)) => {
                            &&& run.steps() == place
                            &&& place < max_places
                            &&& place < run.end().len()
                            &&& exists|incoming: Sig<C, C::F>|
                                {
                                    &&& #[trigger] Self::combination_of(
                                        final(c),
                                        incoming,
                                        ones(run.end()[place as int]@.len()),
                                        run.end()[place as int]@,
                                    )
                                    &&& final(c)@.bounds.contains_key(incoming@)
                                    &&& !limbs_fit(
                                        pow(
                                            big_value(*primitive_base) as int,
                                            packing as nat,
                                        ) as nat,
                                        big_value(final(c)@.bounds[incoming@]),
                                        packing,
                                        Self::modulus(),
                                    )
                                }
                        },
                    }
                },
    {
        let mut regs: Vec<Vec<Sig<C, C::F>>> = Vec::new();
        let mut n: usize = 0;
        while n < limbs.len()
            invariant
                n <= limbs@.len(),
                regs@.len() == n,
                forall|k: int| 0 <= k < n ==> (#[trigger] regs@[k])@ == seq![limbs@[k]],
            decreases limbs@.len() - n,
        {
            let mut place: Vec<Sig<C, C::F>> = Vec::new();
            place.push(limbs[n]);
            assert(place@ =~= seq![limbs@[n as int]]);
            regs.push(place);
            n = n + 1;
        }
        let ghost mut run = FlushRun {
            states: seq![regs@],
            terms: Seq::<Seq<Sig<C, C::F>>>::empty(),
            incomings: Seq::<Sig<C, C::F>>::empty(),
            primitives: Seq::<Seq<Sig<C, C::F>>>::empty(),
        };
        proof {
            Self::lemma_kept(old(c), old(c), old(c));
        }
        let mut i: usize = 0;
        while i < max_places
            invariant
                i <= max_places,
                i < regs@.len(),
                run.steps() == i,
                run.end() == regs@,
                run.chained(limbs@),
                forall|m: int|
                    0 <= m < run.steps() ==> {
                        &&& (#[trigger] run.terms[m]).len() >= 1
                        &&& Self::combination_of(
                            c,
                            run.incomings[m],
                            ones(run.states[m][m]@.len()),
                            run.states[m][m]@,
                        )
                        &&& run.primitives[m].len() == run.terms[m].len() * packing
                        &&& Self::split_of(
                            c,
                            run.incomings[m],
                            big_value(*primitive_base),
                            run.primitives[m],
                        )
                        &&& forall|k: int|
                            0 <= k < run.primitives[m].len() ==> Self::range_checked(
                                c,
                                #[trigger] run.primitives[m][k],
                                big_value(*primitive_base),
                            )
                        &&& forall|n: int|
                            0 <= n < run.terms[m].len() ==> Self::combination_of(
                                c,
                                #[trigger] run.terms[m][n],
                                powers(big_value(*primitive_base), packing as nat),
                                run.primitives[m].subrange(n * packing, n * packing + packing),
                            )
                    },
                Self::kept(old(c), c),
                forall|k: int|
                    0 <= k < i ==> (#[trigger] regs@[k])@ == seq![run.terms[k][0]],
                big_value(*primitive_base) <= Self::max_primitive(),
                pow(big_value(*primitive_base) as int, packing as nat) >= 2,
            decreases max_places - i,
        {
            let ghost before = *c;
            let ghost gathered = regs@;
            let ghost done = run;
            let step = Self::normalize_step(c, &mut regs, i, primitive_base, packing);
            proof {
                Self::lemma_kept(old(c), &before, c);
                Self::lemma_kept(&before, &before, c);
                assert forall|m: int| 0 <= m < done.steps() implies {
                    &&& (#[trigger] done.terms[m]).len() >= 1
                    &&& Self::combination_of(
                        c,
                        done.incomings[m],
                        ones(done.states[m][m]@.len()),
                        done.states[m][m]@,
                    )
                    &&& done.primitives[m].len() == done.terms[m].len() * packing
                    &&& Self::split_of(
                        c,
                        done.incomings[m],
                        big_value(*primitive_base),
                        done.primitives[m],
                    )
                    &&& forall|k: int|
                        0 <= k < done.primitives[m].len() ==> Self::range_checked(
                            c,
                            #[trigger] done.primitives[m][k],
                            big_value(*primitive_base),
                        )
                    &&& forall|n: int|
                        0 <= n < done.terms[m].len() ==> Self::combination_of(
                            c,
                            #[trigger] done.terms[m][n],
                            powers(big_value(*primitive_base), packing as nat),
                            done.primitives[m].subrange(n * packing, n * packing + packing),
                        )
                } by {
                    assert(Self::combination_of(
                        &before,
                        done.incomings[m],
                        ones(done.states[m][m]@.len()),
                        done.states[m][m]@,
                    ));
                    assert(Self::split_of(
                        &before,
                        done.incomings[m],
                        big_value(*primitive_base),
                        done.primitives[m],
                    ));
                    assert forall|k: int| 0 <= k < done.primitives[m].len() implies Self::range_checked(
                        c,
                        #[trigger] done.primitives[m][k],
                        big_value(*primitive_base),
                    ) by {
                        assert(Self::range_checked(
                            &before,
                            done.primitives[m][k],
                            big_value(*primitive_base),
                        ));
                    }
                    assert forall|n: int| 0 <= n < done.terms[m].len() implies Self::combination_of(
                        c,
                        #[trigger] done.terms[m][n],
                        powers(big_value(*primitive_base), packing as nat),
                        done.primitives[m].subrange(n * packing, n * packing + packing),
                    ) by {
                        assert(Self::combination_of(
                            &before,
                            done.terms[m][n],
                            powers(big_value(*primitive_base), packing as nat),
                            done.primitives[m].subrange(n * packing, n * packing + packing),
                        ));
                    }
                }
            }
            let more = match step {
                Some(more) => more,
                None => {
                    return Err(FlushStop::DoesNotFit(i));
                },
            };
            proof {
                let (incoming, term, primitive) = choose|
                    incoming: Sig<C, C::F>,
                    term: Seq<Sig<C, C::F>>,
                    primitive: Seq<Sig<C, C::F>>,
                |
                    {
                        &&& term.len() >= 1
                        &&& Self::combination_of(
                            c,
                            incoming,
                            ones(gathered[i as int]@.len()),
                            gathered[i as int]@,
                        )
                        &&& primitive.len() == term.len() * packing
                        &&& #[trigger] Self::split_of(
                            c,
                            incoming,
                            big_value(*primitive_base),
                            primitive,
                        )
                        &&& forall|k: int|
                            0 <= k < primitive.len() ==> Self::range_checked(
                                c,
                                #[trigger] primitive[k],
                                big_value(*primitive_base),
                            )
                        &&& forall|m: int|
                            0 <= m < term.len() ==> Self::combination_of(
                                c,
                                #[trigger] term[m],
                                powers(big_value(*primitive_base), packing as nat),
                                primitive.subrange(m * packing, m * packing + packing),
                            )
                        &&& #[trigger] carried(gathered, regs@, i as int, term)
                    };
                run = done.with_step(incoming, term, primitive, regs@);
                Self::lemma_kept(old(c), &before, c);
                Self::lemma_kept(&before, &before, c);
                assert(done.states.len() == i + 1);
                assert forall|m: int| 0 <= m < run.steps() implies {
                    &&& (#[trigger] run.terms[m]).len() >= 1
                    &&& Self::combination_of(
                        c,
                        run.incomings[m],
                        ones(run.states[m][m]@.len()),
                        run.states[m][m]@,
                    )
                    &&& run.primitives[m].len() == run.terms[m].len() * packing
                    &&& Self::split_of(
                        c,
                        run.incomings[m],
                        big_value(*primitive_base),
                        run.primitives[m],
                    )
                    &&& forall|k: int|
                        0 <= k < run.primitives[m].len() ==> Self::range_checked(
                            c,
                            #[trigger] run.primitives[m][k],
                            big_value(*primitive_base),
                        )
                    &&& forall|n: int|
                        0 <= n < run.terms[m].len() ==> Self::combination_of(
                            c,
                            #[trigger] run.terms[m][n],
                            powers(big_value(*primitive_base), packing as nat),
                            run.primitives[m].subrange(n * packing, n * packing + packing),
                        )
                } by {
                    if m < i {
                        assert(run.terms[m] == done.terms[m]);
                        assert(run.states[m] == done.states[m]);
                        assert(run.incomings[m] == done.incomings[m]);
                        assert(run.primitives[m] == done.primitives[m]);
                        assert(Self::combination_of(
                            &before,
                            done.incomings[m],
                            ones(done.states[m][m]@.len()),
                            done.states[m][m]@,
                        ));
                        assert(Self::split_of(
                            &before,
                            done.incomings[m],
                            big_value(*primitive_base),
                            done.primitives[m],
                        ));
                        assert forall|k: int| 0 <= k < done.primitives[m].len() implies Self::range_checked(
                            c,
                            #[trigger] done.primitives[m][k],
                            big_value(*primitive_base),
                        ) by {
                            assert(Self::range_checked(
                                &before,
                                done.primitives[m][k],
                                big_value(*primitive_base),
                            ));
                        }
                        assert forall|n: int| 0 <= n < done.terms[m].len() implies Self::combination_of(
                            c,
                            #[trigger] done.terms[m][n],
                            powers(big_value(*primitive_base), packing as nat),
                            done.primitives[m].subrange(n * packing, n * packing + packing),
                        ) by {
                            assert(Self::combination_of(
                                &before,
                                done.terms[m][n],
                                powers(big_value(*primitive_base), packing as nat),
                                done.primitives[m].subrange(n * packing, n * packing + packing),
                            ));
                        }
                    } else {
                        assert(run.states[m] == gathered);
                        assert(run.terms[m] == term);
                        assert(run.incomings[m] == incoming);
                        assert(run.primitives[m] == primitive);
                    }
                }
                assert forall|m: int| 0 <= m < run.terms.len() implies m < (
                #[trigger] run.states[m]).len() && carried(
                    run.states[m],
                    run.states[m + 1],
                    m,
                    run.terms[m],
                ) by {
                    if m < i {
                        assert(run.terms[m] == done.terms[m]);
                        assert(run.states[m] == done.states[m]);
                        assert(run.states[m + 1] == done.states[m + 1]);
                    } else {
                        assert(run.states[m] == gathered);
                        assert(run.states[m + 1] == regs@);
                    }
                }
                assert(run.states[0] == done.states[0]);
                assert(run.end() == regs@);
                assert(run.chained(limbs@));
                assert forall|k: int| 0 <= k < i + 1 implies (#[trigger] regs@[k])@
                    == seq![run.terms[k][0]] by {
                    if k < i {
                        assert(regs@[k] == gathered[k]);
                        assert(run.terms[k] == done.terms[k]);
                    } else {
                        assert(regs@[k]@ == place_after(gathered, i as int, term, k));
                        assert(place_after(gathered, i as int, term, k) =~= seq![term[0]]);
                    }
                }
            }
            i = i + 1;
            if !more {
                let flushed = self::flushed::<C>(&regs);
                return Ok(flushed);
            }
        }
        Err(FlushStop::OutOfPlaces)
    }
}

/// What is gathered at place `k` once the limbs of `term` have been put
/// with what was gathered from place `i` on: the place `i` itself holds
/// the first limb alone, and the place `i + j` holds what it held, if it
/// was there, and the limb number `j`, if there is one.
pub open spec fn place_after<S>(gathered: Seq<Vec<S>>, i: int, term: Seq<S>, k: int) -> Seq<S> {
    let held = if i < k < gathered.len() {
        gathered[k]@
    } else {
        Seq::empty()
    };
    if i <= k < i + term.len() {
        held.push(term[k - i])
    } else {
        held
    }
}

/// `after` is `before` once the limbs of `term` have been carried from
/// place `i` on. The places before `i` are as they were.
pub open spec fn carried<S>(before: Seq<Vec<S>>, after: Seq<Vec<S>>, i: int, term: Seq<S>) -> bool {
    &&& after.len() == if before.len() >= i + term.len() {
        before.len()
    } else {
        (i + term.len()) as nat
    }
    &&& forall|k: int| 0 <= k < i ==> after[k] == before[k]
    &&& forall|k: int|
        i <= k < after.len() ==> (#[trigger] after[k])@ == place_after(before, i, term, k)
}

/// The one signal at each place, once the registers are flushed.
pub fn flushed<C: Circuit>(limbs: &Vec<Vec<Sig<C, C::F>>>) -> (out: Vec<Sig<C, C::F>>)
    requires
        forall|k: int| 0 <= k < limbs@.len() ==> (#[trigger] limbs@[k])@.len() == 1,
    ensures
        out@.len() == limbs@.len(),
        forall|k: int| 0 <= k < limbs@.len() ==> out@[k] == limbs@[k]@[0],
{
    let mut out: Vec<Sig<C, C::F>> = Vec::new();
    let mut k: usize = 0;
    while k < limbs.len()
        invariant
            k <= limbs.len(),
            out@.len() == k,
            forall|k: int| 0 <= k < limbs@.len() ==> (#[trigger] limbs@[k])@.len() == 1,
            forall|n: int| 0 <= n < k ==> out@[n] == limbs@[n]@[0],
        decreases limbs.len() - k,
    {
        out.push(limbs[k][0]);
        k = k + 1;
    }
    out
}

/// Whether `r` limbs of base `base`, each made of `packing` primitive
/// limbs, can be had in a field of the given modulus: their number times
/// `packing` fits `u32`, and the base raised to their number is not above
/// the modulus.
pub open spec fn limbs_of(base: nat, r: nat, packing: u32, modulus: nat) -> bool {
    &&& r * packing <= u32::MAX
    &&& pow(base as int, r) <= modulus
}

/// Whether a signal with the bound `bound` can be split into limbs of base
/// `base`: the bound is not above the base to the power of the largest
/// `u32`, and the limbs that hold every value below the bound can be had.
pub open spec fn limbs_fit(base: nat, bound: nat, packing: u32, modulus: nat) -> bool {
    &&& bound <= pow(base as int, u32::MAX as nat)
    &&& exists|r: nat| is_log_ceil(base, bound, r) && limbs_of(base, r, packing, modulus)
}

/// The range checks of a builder, as methods of the builder.
pub trait Rangecheck: Circuit {
    type IRangecheck: RangecheckImpl<Self>;

    /// The upper bound of a signal, `None` where none is set.
    fn bound(&self, sig: Sig<Self, Self::F>) -> (b: Option<BigUint>)
        requires
            self@.nodes.contains_key(sig@),
        ensures
            b == if self@.bounds.contains_key(sig@) {
                Some(self@.bounds[sig@])
            } else {
                None
            },
    {
        Self::IRangecheck::bound(self, sig)
    }

    /// Sets the bound of a signal, unless the signal has a lower one. The
    /// bound is not above the modulus of the field.
    fn assume_bound(&mut self, sig: Sig<Self, Self::F>, bound: &BigUint)
        requires
            old(self)@.nodes.contains_key(sig@),
            big_value(*bound) <= <Self::IRangecheck as RangecheckImpl<Self>>::modulus(),
        ensures
            <Self::IRangecheck as RangecheckImpl<Self>>::kept(old(self), final(self)),
            final(self)@.nodes == old(self)@.nodes,
            final(self)@.values == old(self)@.values,
            final(self)@.bounds.contains_key(sig@),
            big_value(final(self)@.bounds[sig@]) == if old(self)@.bounds.contains_key(sig@)
                && big_value(old(self)@.bounds[sig@]) <= big_value(*bound) {
                big_value(old(self)@.bounds[sig@])
            } else {
                big_value(*bound)
            },
            forall|a: Self::RawAddr|
                #![trigger final(self)@.bounds.contains_key(a)]
                a != sig@ ==> final(self)@.bounds.contains_key(a) == old(self)@.bounds.contains_key(
                    a,
                ) && final(self)@.bounds[a] == old(self)@.bounds[a],
    {
        Self::IRangecheck::assume_bound(self, sig, bound)
    }

    /// The signal that is the sum of the signals, each multiplied by its
    /// coefficient.
    fn num_linear_combination(
        &mut self,
        coeffs: &[BigUint],
        values: &[Sig<Self, Self::F>],
    ) -> (out: Sig<Self, Self::F>)
        requires
            coeffs@.len() == values@.len(),
        ensures
            <Self::IRangecheck as RangecheckImpl<Self>>::kept(old(self), final(self)),
            <Self::IRangecheck as RangecheckImpl<Self>>::combination_of(
                final(self),
                out,
                big_values(coeffs@),
                values@,
            ),
            final(self)@.nodes.contains_key(out@),
            final(self)@.bounds.contains_key(out@),
            big_value(final(self)@.bounds[out@]) <= <Self::IRangecheck as RangecheckImpl<
                Self,
            >>::modulus(),
    {
        Self::IRangecheck::num_linear_combination(self, coeffs, values)
    }

    /// The signal that is the product of two signals.
    fn num_mul(&mut self, a: Sig<Self, Self::F>, b: Sig<Self, Self::F>) -> (out: Sig<
        Self,
        Self::F,
    >)
        ensures
            <Self::IRangecheck as RangecheckImpl<Self>>::kept(old(self), final(self)),
            <Self::IRangecheck as RangecheckImpl<Self>>::product_of(final(self), out, a, b),
    {
        Self::IRangecheck::num_mul(self, a, b)
    }

    /// The largest bound that one primitive check can enforce.
    fn max_primitive_rangecheck(&self) -> (max: usize)
        ensures
            max == <Self::IRangecheck as RangecheckImpl<Self>>::max_primitive(),
    {
        Self::IRangecheck::max_primitive_rangecheck(self)
    }

    /// Checks a signal of the builder against a bound that one check can
    /// enforce.
    fn primitive_rangecheck(&mut self, sig: Sig<Self, Self::F>, bound: &BigUint)
        requires
            old(self)@.nodes.contains_key(sig@),
            big_value(*bound) <= <Self::IRangecheck as RangecheckImpl<Self>>::max_primitive(),
        ensures
            <Self::IRangecheck as RangecheckImpl<Self>>::kept(old(self), final(self)),
            <Self::IRangecheck as RangecheckImpl<Self>>::range_checked(
                final(self),
                sig,
                big_value(*bound),
            ),
    {
        Self::IRangecheck::primitive_rangecheck(self, sig, bound)
    }

    /// Splits the value of a signal into limbs of a base, without any
    /// constraint.
    fn advise_split_into_n_limbs(
        &mut self,
        sig: Sig<Self, Self::F>,
        base: &BigUint,
        num_limbs: u32,
    ) -> (limbs: Vec<Sig<Self, Self::F>>)
        ensures
            limbs@.len() == num_limbs,
            <Self::IRangecheck as RangecheckImpl<Self>>::kept(old(self), final(self)),
            <Self::IRangecheck as RangecheckImpl<Self>>::split_of(
                final(self),
                sig,
                big_value(*base),
                limbs@,
            ),
            forall|k: int|
                0 <= k < limbs@.len() ==> final(self)@.nodes.contains_key(
                    (#[trigger] limbs@[k])@,
                ),
    {
        Self::IRangecheck::advise_split_into_n_limbs(self, sig, base, num_limbs)
    }

    /// Splits a signal into `num_limbs` limbs and checks their range, as
    /// [`RangecheckImpl::split_into_n_limbs`] does.
    fn split_into_n_limbs(
        &mut self,
        sig: Sig<Self, Self::F>,
        primitive_base: &BigUint,
        packing: u32,
        num_limbs: u32,
    ) -> (limbs: Vec<Sig<Self, Self::F>>)
        requires
            old(self)@.nodes.contains_key(sig@),
            big_value(*primitive_base) <= <Self::IRangecheck as RangecheckImpl<
                Self,
            >>::max_primitive(),
            num_limbs * packing <= u32::MAX,
            pow(
                pow(big_value(*primitive_base) as int, packing as nat),
                num_limbs as nat,
            ) <= <Self::IRangecheck as RangecheckImpl<Self>>::modulus(),
        ensures
            limbs@.len() == num_limbs,
            <Self::IRangecheck as RangecheckImpl<Self>>::kept(old(self), final(self)),
            final(self)@.bounds.contains_key(sig@),
            big_value(final(self)@.bounds[sig@]) <= pow(
                pow(big_value(*primitive_base) as int, packing as nat),
                num_limbs as nat,
            ),
            exists|primitive: Seq<Sig<Self, Self::F>>|
                {
                    &&& primitive.len() == num_limbs * packing
                    &&& #[trigger] <Self::IRangecheck as RangecheckImpl<Self>>::split_of(
                        final(self),
                        sig,
                        big_value(*primitive_base),
                        primitive,
                    )
                    &&& forall|k: int|
                        0 <= k < primitive.len() ==> <Self::IRangecheck as RangecheckImpl<
                            Self,
                        >>::range_checked(
                            final(self),
                            #[trigger] primitive[k],
                            big_value(*primitive_base),
                        )
                    &&& forall|i: int|
                        0 <= i < num_limbs ==> <Self::IRangecheck as RangecheckImpl<
                            Self,
                        >>::combination_of(
                            final(self),
                            #[trigger] limbs@[i],
                            powers(big_value(*primitive_base), packing as nat),
                            primitive.subrange(i * packing, i * packing + packing),
                        )
                },
    {
        Self::IRangecheck::split_into_n_limbs(self, sig, primitive_base, packing, num_limbs)
    }

    /// Splits a signal that has a bound into as many limbs as hold every
    /// value below the bound, as [`RangecheckImpl::split_into_limbs_strict`]
    /// does.
    fn split_into_limbs_strict(
        &mut self,
        sig: Sig<Self, Self::F>,
        primitive_base: &BigUint,
        packing: u32,
    ) -> (limbs: Vec<Sig<Self, Self::F>>)
        requires
            old(self)@.nodes.contains_key(sig@),
            old(self)@.bounds.contains_key(sig@),
            big_value(*primitive_base) <= <Self::IRangecheck as RangecheckImpl<
                Self,
            >>::max_primitive(),
            pow(big_value(*primitive_base) as int, packing as nat) >= 2,
            limbs_fit(
                pow(big_value(*primitive_base) as int, packing as nat) as nat,
                big_value(old(self)@.bounds[sig@]),
                packing,
                <Self::IRangecheck as RangecheckImpl<Self>>::modulus(),
            ),
        ensures
            limbs@.len() >= 1,
            is_log_ceil(
                pow(big_value(*primitive_base) as int, packing as nat) as nat,
                big_value(old(self)@.bounds[sig@]),
                limbs@.len(),
            ),
            <Self::IRangecheck as RangecheckImpl<Self>>::kept(old(self), final(self)),
            exists|primitive: Seq<Sig<Self, Self::F>>|
                {
                    &&& primitive.len() == limbs@.len() * packing
                    &&& #[trigger] <Self::IRangecheck as RangecheckImpl<Self>>::split_of(
                        final(self),
                        sig,
                        big_value(*primitive_base),
                        primitive,
                    )
                    &&& forall|k: int|
                        0 <= k < primitive.len() ==> <Self::IRangecheck as RangecheckImpl<
                            Self,
                        >>::range_checked(
                            final(self),
                            #[trigger] primitive[k],
                            big_value(*primitive_base),
                        )
                    &&& forall|i: int|
                        0 <= i < limbs@.len() ==> <Self::IRangecheck as RangecheckImpl<
                            Self,
                        >>::combination_of(
                            final(self),
                            #[trigger] limbs@[i],
                            powers(big_value(*primitive_base), packing as nat),
                            primitive.subrange(i * packing, i * packing + packing),
                        )
                },
    {
        Self::IRangecheck::split_into_limbs_strict(self, sig, primitive_base, packing)
    }
}

} // verus!
