use circuit_core::circuit::{RangeBound, Sig, Signals, ToRawAddr};
use circuit_core::circuit_impl_simple::SimpleRaw;
use circuit_core::example::{ExampleRangecheck, ExampleSponges, ExampleTable};
use circuit_core::gadgets::traits::bigint_arith::{
    flushed, limb_coefficients, log_ceil, try_log_ceil, FlushStop, Rangecheck, RangecheckImpl,
};
use circuit_core::gadgets::traits::poseidon::SpongeAction::{Absorb, Squeeze};
use circuit_core::gadgets::traits::poseidon::{
    merge_log, prepare_tag, Poseidon, SpongeAction, TSponge, TSpongePrivate,
};
use circuit_core::gadgets::traits::poseidon_permutation::{PoseidonPermutation, PoseidonSponge};
use halo2curves::bn256::Fr;
use halo2curves::ff::PrimeField;
use num_bigint::BigUint;

type Table = ExampleTable;
type S = Sig<Table, Fr>;

fn big(v: u64) -> BigUint {
    BigUint::from(v)
}

#[test]
fn sponge_action_serializes_with_the_kind_in_the_top_bit() {
    assert_eq!(SpongeAction::Absorb(5).serialize(), 0x8000_0005);
    assert_eq!(SpongeAction::Absorb(0).serialize(), 0x8000_0000);
    assert_eq!(SpongeAction::Absorb(0x8000_0001).serialize(), 1);
    assert_eq!(SpongeAction::Absorb(u32::MAX).serialize(), 0x7fff_ffff);
    assert_eq!(SpongeAction::Squeeze(7).serialize(), 7);
    assert_eq!(SpongeAction::Squeeze(0x8000_0000).serialize(), 0x8000_0000);
}

#[test]
fn log_merges_runs_of_one_kind() {
    let log = vec![Absorb(2), Absorb(3), Squeeze(1), Squeeze(1), Squeeze(4), Absorb(4)];
    assert_eq!(merge_log(&log), vec![Absorb(5), Squeeze(6), Absorb(4)]);
    assert_eq!(merge_log(&vec![]), vec![]);
    assert_eq!(merge_log(&vec![Squeeze(9)]), vec![Squeeze(9)]);
    assert_eq!(
        merge_log(&vec![Absorb(u32::MAX - 1), Absorb(1), Squeeze(0)]),
        vec![Absorb(u32::MAX), Squeeze(0)]
    );
    assert_eq!(
        prepare_tag(&log, &vec![9, 8]),
        vec![0x8000_0005, 6, 0x8000_0004, 9, 8]
    );
    assert_eq!(prepare_tag(&vec![], &vec![]), Vec::<u32>::new());
}

#[test]
fn log_ceil_is_the_least_exponent_that_reaches_the_bound() {
    assert_eq!(log_ceil(&big(2), &big(8)), 3);
    assert_eq!(log_ceil(&big(2), &big(9)), 4);
    assert_eq!(log_ceil(&big(2), &big(7)), 3);
    assert_eq!(log_ceil(&big(2), &big(3)), 2);
    assert_eq!(log_ceil(&big(2), &big(2)), 1);
    assert_eq!(log_ceil(&big(2), &big(1)), 1);
    assert_eq!(log_ceil(&big(2), &big(0)), 1);
    assert_eq!(log_ceil(&big(10), &big(1000)), 3);
    assert_eq!(log_ceil(&big(10), &big(1001)), 4);
    assert_eq!(log_ceil(&big(256), &big(65536)), 2);
    assert_eq!(log_ceil(&big(256), &big(65537)), 3);
    assert_eq!(log_ceil(&big(2), &(big(1) << 100u32)), 100);
    assert_eq!(log_ceil(&big(2), &((big(1) << 100u32) + 1u32)), 101);
    assert_eq!(log_ceil(&(big(1) << 64u32), &(big(1) << 640u32)), 10);
}

#[test]
fn limb_coefficients_are_the_powers_of_the_base() {
    assert_eq!(limb_coefficients(&big(16), 4), vec![big(1), big(16), big(256), big(4096)]);
    assert_eq!(limb_coefficients(&big(16), 0), Vec::<BigUint>::new());
    assert_eq!(limb_coefficients(&big(0), 2), vec![big(1), big(0)]);
    let wide = limb_coefficients(&(big(1) << 64u32), 3);
    assert_eq!(wide[2], big(1) << 128u32);
}

// ---------------------------------------------------------------------------
// The sponge of the examples: its permutation gives the state new signals.

type Hasher = fn(Vec<u32>) -> [u128; 2];
type Encoder = fn([u128; 2]) -> Fr;
type Sponge = PoseidonSponge<Table, Hasher, Encoder>;

fn tag_of(items: Vec<u32>) -> [u128; 2] {
    [items.iter().map(|v| *v as u128).sum(), items.len() as u128]
}

fn as_field(tag: [u128; 2]) -> Fr {
    Fr::from_u128(tag[0]) + Fr::from_u128(tag[1]) * Fr::from_u128(1 << 127)
}

fn new_sponge(rate: usize) -> (Table, Sponge) {
    let mut c = Table::new();
    let sponge = PoseidonSponge::new(&mut c, 3, rate, tag_of as Hasher, as_field as Encoder);
    (c, sponge)
}

fn raw(sig: &S) -> usize {
    ToRawAddr::to_raw_addr(sig).0
}

fn nodes(c: &Table) -> usize {
    (0..).find(|k| !c.contains(SimpleRaw(*k))).unwrap()
}

#[test]
fn permutation_of_the_examples_gives_new_signals() {
    let mut c = Table::new();
    let state: Vec<S> = (0..3).map(|_| c.alloc_sig()).collect();
    let out = c.poseidon(state);
    assert_eq!(out.iter().map(raw).collect::<Vec<usize>>(), vec![3, 4, 5]);
}

#[test]
fn sponge_starts_with_new_signals() {
    let (c, sponge) = new_sponge(2);
    assert_eq!(sponge.rate(), 2);
    assert_eq!((sponge.absorb_pos(), sponge.squeeze_pos()), (0, 0));
    assert_eq!(raw(&sponge.capacity_signal()), 0);
    assert_eq!(raw(&sponge.read_rate_element(0)), 1);
    assert_eq!(raw(&sponge.read_rate_element(1)), 2);
    assert_eq!(nodes(&c), 3);
    assert_eq!(sponge.get_log(), vec![]);
    assert_eq!(sponge.serialized_domain_separator(), vec![3]);
    assert_eq!(sponge.capacity_tag(), None);
}

#[test]
fn sponge_permutes_when_the_rate_is_full() {
    let (mut c, mut sponge) = new_sponge(2);
    let inputs: Vec<S> = (0..3).map(|_| c.alloc_sig()).collect();
    assert_eq!(raw(&inputs[0]), 3);
    sponge.absorb(&mut c, inputs.clone());
    // Two elements fill the rate, the third comes after a permutation,
    // which allocates three signals.
    assert_eq!(nodes(&c), 6 + 3);
    assert_eq!((sponge.absorb_pos(), sponge.squeeze_pos()), (1, 2));
    assert_eq!(raw(&sponge.read_rate_element(0)), raw(&inputs[2]));
    assert_eq!(raw(&sponge.read_rate_element(1)), 8);
    assert_eq!(sponge.get_log(), vec![Absorb(3)]);

    sponge.absorb(&mut c, vec![]);
    assert_eq!(sponge.get_log(), vec![Absorb(3)]);
    assert_eq!(nodes(&c), 9);

    // Squeezing after absorbing permutes first; the third element comes
    // after another permutation.
    let out = sponge.squeeze(&mut c, 3);
    assert_eq!(out.len(), 3);
    assert_eq!(nodes(&c), 9 + 2 * 3);
    assert_eq!((sponge.absorb_pos(), sponge.squeeze_pos()), (0, 1));
    assert_eq!(out.iter().map(raw).collect::<Vec<usize>>(), vec![10, 11, 13]);
    assert_eq!(raw(&out[2]), raw(&sponge.read_rate_element(0)));
    assert_eq!(sponge.squeeze(&mut c, 0).len(), 0);
    assert_eq!(sponge.get_log(), vec![Absorb(3), Squeeze(3)]);
}

#[test]
fn absorb_one_and_squeeze_one_move_the_places() {
    let (mut c, mut sponge) = new_sponge(3);
    let x: S = c.alloc_sig();
    sponge.absorb_one(&mut c, x);
    assert_eq!((sponge.absorb_pos(), sponge.squeeze_pos()), (1, 3));
    assert_eq!(raw(&sponge.read_rate_element(0)), raw(&x));
    assert_eq!(nodes(&c), 5);
    let y = sponge.squeeze_one(&mut c);
    assert_eq!(nodes(&c), 9);
    assert_eq!((sponge.absorb_pos(), sponge.squeeze_pos()), (0, 1));
    assert_eq!(raw(&y), raw(&sponge.read_rate_element(0)));
    let z = sponge.squeeze_one(&mut c);
    assert_eq!(nodes(&c), 9);
    assert_eq!(sponge.squeeze_pos(), 2);
    assert_eq!(raw(&z), raw(&sponge.read_rate_element(1)));
    sponge.set_absorb_pos(2);
    sponge.set_squeeze_pos(0);
    sponge.add_rate_element(2, x);
    assert_eq!((sponge.absorb_pos(), sponge.squeeze_pos()), (2, 0));
    assert_eq!(raw(&sponge.read_rate_element(2)), raw(&x));
    sponge.permute(&mut c);
    assert_eq!(nodes(&c), 13);
    sponge.add_log(Squeeze(2));
    assert_eq!(sponge.get_log(), vec![Squeeze(2)]);
}

#[test]
fn finalize_hashes_the_merged_log_and_the_separator() {
    let (mut c, mut sponge) = new_sponge(2);
    let inputs: Vec<S> = (0..2).map(|_| c.alloc_sig()).collect();
    sponge.absorb(&mut c, inputs.clone());
    sponge.absorb(&mut c, inputs);
    sponge.squeeze(&mut c, 1);
    TSponge::finalize(&mut sponge, &mut c);
    // Absorb(4), Squeeze(1), separator 3
    let expected = tag_of(vec![0x8000_0004, 1, 3]);
    assert_eq!(sponge.capacity_tag(), Some(expected));
    assert_eq!(expected, [0x8000_0004u128 + 4, 3]);
    assert_eq!(sponge.tag_hasher(vec![1, 2]), [3, 2]);
    // The capacity was written to the signal that holds it.
    assert_eq!(c.value(SimpleRaw(raw(&sponge.capacity_signal()))), Some(as_field(expected)));

    let (mut c, mut sponge) = new_sponge(2);
    assert_eq!(c.value(SimpleRaw(0)), None);
    sponge.initialize_capacity(&mut c, [7, 8]);
    assert_eq!(sponge.capacity_tag(), Some([7, 8]));
    assert_eq!(c.value(SimpleRaw(0)), Some(as_field([7, 8])));
    assert_eq!(c.value(SimpleRaw(1)), None);

    let (mut c, mut sponge) = new_sponge(2);
    TSpongePrivate::finalize(&mut sponge, &mut c);
    // An empty log: the separator alone.
    assert_eq!(sponge.capacity_tag(), Some(tag_of(vec![3])));
    assert_eq!(c.value(SimpleRaw(0)), Some(as_field(tag_of(vec![3]))));
}

#[test]
fn builder_forwards_to_the_sponge() {
    let (mut c, mut sponge) = new_sponge(1);
    let x: S = c.alloc_sig();
    Poseidon::<ExampleSponges<Hasher, Encoder>>::absorb(&mut c, &mut sponge, vec![x, x]);
    let out = Poseidon::<ExampleSponges<Hasher, Encoder>>::squeeze(&mut c, &mut sponge, 1);
    Poseidon::<ExampleSponges<Hasher, Encoder>>::finalize(&mut c, &mut sponge);
    assert_eq!(out.len(), 1);
    // Two permutations of a state of two signals.
    assert_eq!(nodes(&c), 3 + 4);
    assert_eq!(sponge.capacity_tag(), Some(tag_of(vec![0x8000_0002, 1, 3])));
}

// ---------------------------------------------------------------------------
// The range checks of the examples: they keep the bounds in the table.

fn bound_of(c: &Table, sig: &S) -> Option<BigUint> {
    RangeBound::bound(c, ToRawAddr::to_raw_addr(sig))
}

#[test]
fn assume_bound_keeps_the_lower_bound() {
    let mut c = Table::new();
    let sig: S = c.alloc_sig();
    assert_eq!(ExampleRangecheck::bound(&c, sig), None);
    ExampleRangecheck::assume_bound(&mut c, sig, &big(1001));
    ExampleRangecheck::assume_bound(&mut c, sig, &big(5000));
    assert_eq!(ExampleRangecheck::bound(&c, sig), Some(big(1001)));
    ExampleRangecheck::assume_bound(&mut c, sig, &big(1000));
    assert_eq!(ExampleRangecheck::bound(&c, sig), Some(big(1000)));
    ExampleRangecheck::assume_bound(&mut c, sig, &big(1000));
    assert_eq!(bound_of(&c, &sig), Some(big(1000)));
}

#[test]
fn split_into_n_limbs_packs_primitive_limbs() {
    let mut c = Table::new();
    let sig: S = c.alloc_sig();
    let limbs = ExampleRangecheck::split_into_n_limbs(&mut c, sig, &big(16), 2, 3);
    assert_eq!(limbs.len(), 3);
    // The signal is bounded by (16^2)^3.
    assert_eq!(bound_of(&c, &sig), Some(big(1 << 24)));
    // Six primitive limbs, each checked against 16, then one signal for each limb.
    for k in 1..7 {
        assert_eq!(RangeBound::bound(&c, SimpleRaw(k)), Some(big(16)));
    }
    assert_eq!(limbs.iter().map(raw).collect::<Vec<usize>>(), vec![7, 8, 9]);
    assert_eq!(bound_of(&c, &limbs[0]), Some(big(0xffff_ffff)));
    assert_eq!(nodes(&c), 10);
    assert!(ExampleRangecheck::split_into_n_limbs(&mut c, sig, &big(16), 3, 0).is_empty());
    assert_eq!(bound_of(&c, &sig), Some(big(1)));
}

#[test]
fn split_into_limbs_strict_takes_as_many_limbs_as_the_bound_needs() {
    let mut c = Table::new();
    let sig: S = c.alloc_sig();
    ExampleRangecheck::assume_bound(&mut c, sig, &big(1000));
    assert_eq!(ExampleRangecheck::split_into_limbs_strict(&mut c, sig, &big(10), 1).len(), 3);
    let other: S = c.alloc_sig();
    ExampleRangecheck::assume_bound(&mut c, other, &big(1001));
    assert_eq!(ExampleRangecheck::split_into_limbs_strict(&mut c, other, &big(10), 2).len(), 2);
    assert_eq!(ExampleRangecheck::max_primitive_rangecheck(&c), 256);
}

#[test]
fn normalize_step_carries_into_the_next_places() {
    let mut c = Table::new();
    let sigs: Vec<S> = (0..3).map(|_| c.alloc_sig()).collect();
    // Two signals at the first place, one at the second.
    let mut limbs = vec![vec![sigs[0], sigs[1]], vec![sigs[2]]];
    // A sum is bounded by the largest u32, which is below 256^4: four limbs.
    assert_eq!(ExampleRangecheck::normalize_step(&mut c, &mut limbs, 0, &big(16), 2), Some(true));
    assert_eq!(limbs.iter().map(|l| l.len()).collect::<Vec<usize>>(), vec![1, 2, 1, 1]);
    assert_eq!(raw(&limbs[1][0]), raw(&sigs[2]));
    assert_eq!(ExampleRangecheck::normalize_step(&mut c, &mut limbs, 1, &big(16), 2), Some(true));
    assert_eq!(limbs.iter().map(|l| l.len()).collect::<Vec<usize>>(), vec![1, 1, 2, 2, 1]);
    let carried = raw(&limbs[4][0]);
    assert_eq!(ExampleRangecheck::normalize_step(&mut c, &mut limbs, 4, &big(16), 2), Some(true));
    assert_eq!(limbs.len(), 8);
    assert_ne!(raw(&limbs[4][0]), carried);
    let last = ExampleRangecheck::normalize_step(&mut c, &mut limbs, 7, &big(16), 2);
    assert_eq!(last, Some(true));
    assert_eq!(limbs.len(), 11);

    let flat = vec![vec![sigs[2]], vec![sigs[0]]];
    let out = flushed::<Table>(&flat);
    assert_eq!(out.iter().map(raw).collect::<Vec<usize>>(), vec![2, 0]);
}

#[test]
fn sum_that_cannot_be_split_stops_the_flushing() {
    let mut c = Table::new();
    let sigs: Vec<S> = (0..2).map(|_| c.alloc_sig()).collect();
    // A sum is bounded by the largest u32, which takes ten limbs of base
    // ten, and ten to the power of ten is above the modulus.
    assert_eq!(ExampleRangecheck::normalize(&mut c, &sigs, &big(10), 1, 5).err(), Some(FlushStop::DoesNotFit(0)));
    // The sum was formed, and nothing else.
    assert_eq!(nodes(&c), 3);
    let mut limbs = vec![vec![sigs[0]], vec![sigs[1]]];
    assert_eq!(ExampleRangecheck::normalize_step(&mut c, &mut limbs, 1, &big(10), 1), None);
    let held: Vec<Vec<usize>> = limbs.iter().map(|l| l.iter().map(raw).collect()).collect();
    assert_eq!(held, vec![vec![0], vec![1]]);
    assert_eq!(nodes(&c), 4);

    let bounded: S = c.alloc_sig();
    ExampleRangecheck::assume_bound(&mut c, bounded, &big(1000));
    let before = nodes(&c);
    // Twenty-one limbs of base three: three to that power is above the modulus.
    ExampleRangecheck::assume_bound(&mut c, sigs[0], &big(0xffff_ffff));
    assert!(ExampleRangecheck::try_split_into_limbs_strict(&mut c, sigs[0], &big(3), 1).is_none());
    assert_eq!(nodes(&c), before);
    let split = ExampleRangecheck::try_split_into_limbs_strict(&mut c, bounded, &big(10), 1);
    assert_eq!(split.map(|limbs| limbs.len()), Some(3));
    assert_eq!(ExampleRangecheck::field_modulus(&c), big(1 << 32));
}

#[test]
fn try_log_ceil_is_log_ceil_where_it_fits() {
    assert_eq!(try_log_ceil(&big(10), &big(1000)), Some(3));
    assert_eq!(try_log_ceil(&big(10), &big(1001)), Some(4));
    assert_eq!(try_log_ceil(&big(2), &big(0)), Some(1));
    assert_eq!(try_log_ceil(&big(2), &big(1)), Some(1));
    assert_eq!(try_log_ceil(&big(2), &big(1 << 40)), Some(40));
    assert_eq!(log_ceil(&big(2), &(big(1) << 5000usize)), 5000);
    assert_eq!(log_ceil(&big(2), &((big(1) << 5000usize) + big(1))), 5001);
}

#[test]
fn normalize_leaves_one_signal_at_each_place() {
    let mut c = Table::new();
    let sigs: Vec<S> = (0..3).map(|_| c.alloc_sig()).collect();
    // Limbs of base 256^4: the sum at a place fits one limb, nothing is carried.
    let out = ExampleRangecheck::normalize(&mut c, &sigs, &big(256), 4, 10).unwrap();
    assert_eq!(out.len(), 3);
    // Each place: the sum, four primitive limbs, then the limb that stays.
    assert_eq!(out.iter().map(raw).collect::<Vec<usize>>(), vec![8, 14, 20]);
    assert_eq!(nodes(&c), 21);
    for limb in &out {
        assert_eq!(bound_of(&c, limb), Some(big(0xffff_ffff)));
    }
    // A sum keeps its bound, which is below 256^4; a primitive limb is checked.
    assert_eq!(RangeBound::bound(&c, SimpleRaw(3)), Some(big(0xffff_ffff)));
    assert_eq!(RangeBound::bound(&c, SimpleRaw(4)), Some(big(256)));

    // As many places as there are signals are needed.
    let mut c = Table::new();
    let sigs: Vec<S> = (0..3).map(|_| c.alloc_sig()).collect();
    assert!(ExampleRangecheck::normalize(&mut c, &sigs, &big(256), 4, 3).is_ok());
    let mut c = Table::new();
    let sigs: Vec<S> = (0..3).map(|_| c.alloc_sig()).collect();
    assert_eq!(ExampleRangecheck::normalize(&mut c, &sigs, &big(256), 4, 2).err(), Some(FlushStop::OutOfPlaces));
}

#[test]
fn normalize_gives_up_while_limbs_are_carried() {
    let mut c = Table::new();
    let sigs: Vec<S> = (0..2).map(|_| c.alloc_sig()).collect();
    // Limbs of base 256^2: each sum has two limbs, so each place carries one
    // limb to the next and the last place always opens another.
    assert_eq!(ExampleRangecheck::normalize(&mut c, &sigs, &big(256), 2, 7).err(), Some(FlushStop::OutOfPlaces));
    // Seven places were done: for each a sum, four primitive limbs and two limbs.
    assert_eq!(nodes(&c), 2 + 7 * 7);
    let mut c = Table::new();
    let sigs: Vec<S> = (0..2).map(|_| c.alloc_sig()).collect();
    assert_eq!(ExampleRangecheck::normalize(&mut c, &sigs, &big(256), 2, 0).err(), Some(FlushStop::OutOfPlaces));
    assert_eq!(nodes(&c), 2);
}

#[test]
fn primitive_rangecheck_lowers_the_bound_and_num_mul_allocates() {
    let mut c = Table::new();
    let sig: S = c.alloc_sig();
    ExampleRangecheck::primitive_rangecheck(&mut c, sig, &big(200));
    assert_eq!(bound_of(&c, &sig), Some(big(200)));
    ExampleRangecheck::primitive_rangecheck(&mut c, sig, &big(256));
    assert_eq!(bound_of(&c, &sig), Some(big(200)));
    ExampleRangecheck::primitive_rangecheck(&mut c, sig, &big(16));
    assert_eq!(bound_of(&c, &sig), Some(big(16)));
    assert_eq!(nodes(&c), 1);

    let product = ExampleRangecheck::num_mul(&mut c, sig, sig);
    assert_eq!(raw(&product), 1);
    assert_eq!(nodes(&c), 2);
    let meta = c.meta(SimpleRaw(1));
    assert!(meta.is_var && meta.is_sig && !meta.is_primary);
    assert_eq!(bound_of(&c, &product), None);
    assert_eq!(bound_of(&c, &sig), Some(big(16)));
}

#[test]
fn builder_forwards_to_its_range_checks() {
    let mut c = Table::new();
    let sig: S = c.alloc_sig();
    assert_eq!(Rangecheck::bound(&c, sig), None);
    c.assume_bound(sig, &big(99));
    assert_eq!(Rangecheck::bound(&c, sig), Some(big(99)));
    assert_eq!(c.max_primitive_rangecheck(), 256);
    assert_eq!(c.split_into_n_limbs(sig, &big(4), 2, 5).len(), 5);
    assert_eq!(c.split_into_limbs_strict(sig, &big(10), 1).len(), 2);
    assert_eq!(c.advise_split_into_n_limbs(sig, &big(4), 3).len(), 3);
    let before = nodes(&c);
    c.primitive_rangecheck(sig, &big(4));
    assert_eq!(Rangecheck::bound(&c, sig), Some(big(4)));
    let product = c.num_mul(sig, sig);
    let lc = c.num_linear_combination(&[big(1)], &[sig]);
    assert_eq!((raw(&product), raw(&lc)), (before, before + 1));
    assert_eq!(Rangecheck::bound(&c, lc), Some(big(0xffff_ffff)));
}
