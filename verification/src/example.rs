//! A store with cells of two types, and a builder that records advices and
//! lowers them to a graph over such a store.
use crate::advices::{allocated_leaves, compile_all, maps_all, Advices, Leaf, Role, TAdvice};
use crate::backend::api::RTGraph;
use crate::backend::storage::{AllocatorOf, Cells, ReaderOf, Storage, TypedAddr, WriterOf};
use crate::circuit::{
    Circuit, CircuitState, Conversion, HasSigtype, HasVartype, InnerType, NodeMeta, RangeBound,
    Sig, Signals, ToRawAddr,
};
use crate::circuit_impl_simple::{Bn256, NodeTable, SimpleRaw, TypeConfig};
use crate::gadgets::traits::bigint_arith::{
    big_digits, big_from_u32, big_less, big_mul, big_value, digits_value, Rangecheck,
    RangecheckImpl,
};
use crate::gadgets::traits::poseidon::{Poseidon, PoseidonImpl};
use crate::gadgets::traits::poseidon_permutation::{
    PoseidonPermutation, PoseidonPermutationImpl, PoseidonSponge,
};
use crate::node_struct::{alloc_many, concat_raw_addrs, repeat_shape};
use halo2curves::bn256::{Fr, G1Affine};
use num_bigint::BigUint;
use std::marker::PhantomData;
use vstd::prelude::*;

verus! {

/// The address of a cell of an [`ExampleStorage`]: its place among the cells
/// of its type, and the type.
#[derive(Clone, Copy, Debug, PartialEq, Eq, Structural, Hash)]
pub struct ExampleRawAddr {
    pub addr: usize,
    pub typeid: InnerType,
}

/// A store of field elements and of integers.
pub struct ExampleStorage {
    fs: Vec<Option<Fr>>,
    u64s: Vec<Option<u64>>,
}

impl ExampleStorage {
    pub fn new() -> (storage: Self)
        ensures
            <Self as Cells<Fr>>::cells(&storage) == Map::<ExampleRawAddr, Option<Fr>>::empty(),
            <Self as Cells<u64>>::cells(&storage) == Map::<ExampleRawAddr, Option<u64>>::empty(),
    {
        let storage = ExampleStorage { fs: Vec::new(), u64s: Vec::new() };
        assert(<Self as Cells<Fr>>::cells(&storage) =~= Map::<
            ExampleRawAddr,
            Option<Fr>,
        >::empty());
        assert(<Self as Cells<u64>>::cells(&storage) =~= Map::<
            ExampleRawAddr,
            Option<u64>,
        >::empty());
        storage
    }
}

impl ExampleStorage {
    /// A new cell for a field element. The cells for integers stay as
    /// they are.
    pub fn allocate_field(&mut self) -> (addr: ExampleRawAddr)
        ensures
            addr.typeid == InnerType::Field,
            !<Self as Cells<Fr>>::cells(old(self)).contains_key(addr),
            <Self as Cells<Fr>>::cells(final(self)) == <Self as Cells<Fr>>::cells(
                old(self),
            ).insert(addr, None),
            <Self as Cells<u64>>::cells(final(self)) == <Self as Cells<u64>>::cells(old(self)),
    {
        self.fs.push(None);
        let addr = ExampleRawAddr { addr: self.fs.len() - 1, typeid: InnerType::Field };
        assert(<Self as Cells<Fr>>::cells(self) =~= <Self as Cells<Fr>>::cells(old(self)).insert(
            addr,
            None,
        ));
        addr
    }

    /// A new cell for an integer. The cells for field elements stay as they
    /// are.
    pub fn allocate_u64(&mut self) -> (addr: ExampleRawAddr)
        ensures
            addr.typeid == InnerType::U64,
            !<Self as Cells<u64>>::cells(old(self)).contains_key(addr),
            <Self as Cells<u64>>::cells(final(self)) == <Self as Cells<u64>>::cells(
                old(self),
            ).insert(addr, None),
            <Self as Cells<Fr>>::cells(final(self)) == <Self as Cells<Fr>>::cells(old(self)),
    {
        self.u64s.push(None);
        let addr = ExampleRawAddr { addr: self.u64s.len() - 1, typeid: InnerType::U64 };
        assert(<Self as Cells<u64>>::cells(self) =~= <Self as Cells<u64>>::cells(
            old(self),
        ).insert(addr, None));
        addr
    }
}

impl Storage for ExampleStorage {
    type RawAddr = ExampleRawAddr;

    fn to_raw<T>(ta: &TypedAddr<Self, T>) -> (raw: ExampleRawAddr) {
        ta.addr
    }
}

impl Cells<Fr> for ExampleStorage {
    closed spec fn cells(&self) -> Map<ExampleRawAddr, Option<Fr>> {
        Map::new(
            |a: ExampleRawAddr| a.typeid == InnerType::Field && a.addr < self.fs.len(),
            |a: ExampleRawAddr| self.fs[a.addr as int],
        )
    }
}

impl Cells<u64> for ExampleStorage {
    closed spec fn cells(&self) -> Map<ExampleRawAddr, Option<u64>> {
        Map::new(
            |a: ExampleRawAddr| a.typeid == InnerType::U64 && a.addr < self.u64s.len(),
            |a: ExampleRawAddr| self.u64s[a.addr as int],
        )
    }
}

impl AllocatorOf<Fr> for ExampleStorage {
    fn allocate(&mut self) -> (addr: ExampleRawAddr) {
        self.allocate_field()
    }
}

impl ReaderOf<Fr> for ExampleStorage {
    fn get(&self, addr: &ExampleRawAddr) -> (val: &Fr) {
        self.fs[addr.addr].as_ref().unwrap()
    }
}

impl WriterOf<Fr> for ExampleStorage {
    fn put(&mut self, addr: &ExampleRawAddr, val: Fr)
        ensures
            <Self as Cells<u64>>::cells(final(self)) == <Self as Cells<u64>>::cells(old(self)),
    {
        self.fs[addr.addr] = Some(val);
        assert(<Self as Cells<Fr>>::cells(self) =~= <Self as Cells<Fr>>::cells(old(self)).insert(
            *addr,
            Some(val),
        ));
    }
}

impl AllocatorOf<u64> for ExampleStorage {
    fn allocate(&mut self) -> (addr: ExampleRawAddr) {
        self.allocate_u64()
    }
}

impl ReaderOf<u64> for ExampleStorage {
    fn get(&self, addr: &ExampleRawAddr) -> (val: &u64) {
        self.u64s[addr.addr].as_ref().unwrap()
    }
}

impl WriterOf<u64> for ExampleStorage {
    fn put(&mut self, addr: &ExampleRawAddr, val: u64)
        ensures
            <Self as Cells<Fr>>::cells(final(self)) == <Self as Cells<Fr>>::cells(old(self)),
    {
        self.u64s[addr.addr] = Some(val);
        assert(<Self as Cells<u64>>::cells(self) =~= <Self as Cells<u64>>::cells(
            old(self),
        ).insert(*addr, Some(val)));
    }
}

/// The field and the group of the examples: those of BN256. A table over
/// this configuration has the gadgets of this file.
pub struct ExampleConfig;

impl TypeConfig for ExampleConfig {
    type F = Fr;

    type G = G1Affine;

    open spec fn msm_spec(coeffs: Seq<Fr>, bases: Seq<G1Affine>) -> G1Affine {
        Bn256::msm_spec(coeffs, bases)
    }

    fn msm(coeffs: &Vec<Fr>, bases: &Vec<G1Affine>) -> (r: G1Affine) {
        Bn256::msm(coeffs, bases)
    }
}

impl HasVartype<Fr> for ExampleConfig {
    open spec fn tag() -> InnerType {
        InnerType::Field
    }

    fn type_tag() -> (t: InnerType) {
        InnerType::Field
    }
}

impl HasSigtype<Fr> for ExampleConfig {

}

impl HasVartype<u64> for ExampleConfig {
    open spec fn tag() -> InnerType {
        InnerType::U64
    }

    fn type_tag() -> (t: InnerType) {
        InnerType::U64
    }
}

/// The nodes of the examples.
pub type ExampleTable = NodeTable<ExampleConfig>;

impl Conversion<Fr, Fr> for NodeTable<ExampleConfig> {
    open spec fn obeys_conversion() -> bool {
        true
    }

    open spec fn converted(value: Fr) -> Fr {
        value
    }

    fn convert(value: Fr) -> (r: Fr) {
        value
    }
}

/// A builder that records advices of type `A` over the nodes of a table.
pub struct ExampleCircuit<A> {
    nodes: NodeTable<ExampleConfig>,
    advices: Vec<A>,
}

impl<A> ExampleCircuit<A> {
    pub fn new() -> (circuit: Self)
        ensures
            circuit.nodes().nodes == Map::<SimpleRaw, NodeMeta>::empty(),
            circuit.advices() == Seq::<A>::empty(),
    {
        ExampleCircuit { nodes: NodeTable::new(), advices: Vec::new() }
    }

    /// Allocates a signal of the field.
    pub fn alloc_sig(&mut self) -> (sig: Sig<NodeTable<ExampleConfig>, Fr>)
        ensures
            !old(self).nodes().nodes.contains_key(sig@),
            final(self).nodes() == old(self).nodes().with_node(
                sig@,
                NodeMeta::primary_signal(InnerType::Field),
            ),
            final(self).advices() == old(self).advices(),
    {
        self.nodes.alloc_sig::<Fr>()
    }

    /// The nodes of the builder, to read them.
    pub fn node_table(&self) -> (table: &NodeTable<ExampleConfig>)
        ensures
            table@ == self.nodes(),
    {
        &self.nodes
    }
}

impl<A> Advices<A> for ExampleCircuit<A> {
    type Builder = NodeTable<ExampleConfig>;

    type Storage = ExampleStorage;

    closed spec fn advices(&self) -> Seq<A> {
        self.advices@
    }

    closed spec fn nodes(&self) -> CircuitState<SimpleRaw, Fr> {
        self.nodes@
    }

    fn advise_to_unassigned(&mut self, advice: A) {
        self.advices.push(advice);
    }

    fn compile_execution_graph<F>(&self, s: &mut ExampleStorage, mapping: &F) -> (graph: RTGraph<
        ExampleStorage,
        A::Compiled,
    >) where
        F: Fn(SimpleRaw) -> ExampleRawAddr,
        A: TAdvice<NodeTable<ExampleConfig>, ExampleStorage, F>,

        ensures
            graph.inputs@ == Seq::<ExampleRawAddr>::empty(),
            graph.outputs@ == Seq::<ExampleRawAddr>::empty(),
    {
        assert forall|i: int| 0 <= i < self.advices@.len() implies maps_all(
            *mapping,
            (#[trigger] self.advices@[i]).input_raws(),
        ) && maps_all(*mapping, self.advices@[i].output_raws()) by {
            assert(self.advices()[i] == self.advices@[i]);
        }
        let advices = compile_all(&self.advices, s, mapping);
        RTGraph { inputs: Vec::new(), outputs: Vec::new(), advices }
    }
}

/// A permutation that does no more than give the state new signals.
pub struct FreshPermutation;

impl PoseidonPermutationImpl<NodeTable<ExampleConfig>> for FreshPermutation {
    /// The state that is returned is made of new primary signals of the
    /// field, one for each signal of the state that was given, and nothing
    /// else has changed in the builder.
    open spec fn permuted(
        before: &NodeTable<ExampleConfig>,
        after: &NodeTable<ExampleConfig>,
        inputs: Seq<Sig<NodeTable<ExampleConfig>, Fr>>,
        out: Seq<Sig<NodeTable<ExampleConfig>, Fr>>,
    ) -> bool {
        allocated_leaves(
            before@,
            after@,
            concat_raw_addrs::<NodeTable<ExampleConfig>, Sig<NodeTable<ExampleConfig>, Fr>>(out),
            repeat_shape(
                seq![Leaf { inner_type: InnerType::Field, role: Role::Signal }],
                inputs.len(),
            ),
        )
    }

    fn poseidon_permutation(
        c: &mut NodeTable<ExampleConfig>,
        inputs: Vec<Sig<NodeTable<ExampleConfig>, Fr>>,
    ) -> (out: Vec<Sig<NodeTable<ExampleConfig>, Fr>>) {
        alloc_many::<NodeTable<ExampleConfig>, Sig<NodeTable<ExampleConfig>, Fr>>(c, inputs.len())
    }
}

impl PoseidonPermutation for NodeTable<ExampleConfig> {
    type ImplInstance = FreshPermutation;
}

/// Names the sponge of the examples whose tag is hashed by a function of
/// type `H` and made a field element by a function of type `E`.
pub struct ExampleSponges<H, E> {
    pub _pd: PhantomData<(H, E)>,
}

impl<H: Fn(Vec<u32>) -> [u128; 2], E: Fn([u128; 2]) -> Fr> PoseidonImpl<
    NodeTable<ExampleConfig>,
> for ExampleSponges<H, E> {
    type Sponge = PoseidonSponge<NodeTable<ExampleConfig>, H, E>;
}

impl<H: Fn(Vec<u32>) -> [u128; 2], E: Fn([u128; 2]) -> Fr> Poseidon<
    ExampleSponges<H, E>,
> for NodeTable<ExampleConfig> {

}

/// Range checks that keep the bounds of the signals and constrain nothing:
/// they allocate the signals that real checks would constrain, and record
/// no relation between them. The modulus is two to the power of 32, and a
/// combination is bounded by the largest `u32`.
pub struct ExampleRangecheck;

impl ExampleRangecheck {
    /// Lowers the bound of a node to `bound`, where the node has none or a
    /// higher one.
    fn lower_bound(c: &mut NodeTable<ExampleConfig>, raw: SimpleRaw, bound: &BigUint)
        requires
            old(c)@.nodes.contains_key(raw),
        ensures
            <Self as RangecheckImpl<NodeTable<ExampleConfig>>>::kept(old(c), final(c)),
            final(c)@.nodes == old(c)@.nodes,
            final(c)@.values == old(c)@.values,
            final(c)@.bounds.contains_key(raw),
            big_value(final(c)@.bounds[raw]) == if old(c)@.bounds.contains_key(raw) && big_value(
                old(c)@.bounds[raw],
            ) <= big_value(*bound) {
                big_value(old(c)@.bounds[raw])
            } else {
                big_value(*bound)
            },
            forall|a: SimpleRaw|
                #![trigger final(c)@.bounds.contains_key(a)]
                a != raw ==> final(c)@.bounds.contains_key(a) == old(c)@.bounds.contains_key(a)
                    && final(c)@.bounds[a] == old(c)@.bounds[a],
    {
        let lower = match RangeBound::bound(c, raw) {
            Some(set) => !big_less(bound, &set),
            None => false,
        };
        if !lower {
            c._set_bound(raw, Some(bound));
        }
    }
}

impl RangecheckImpl<NodeTable<ExampleConfig>> for ExampleRangecheck {
    open spec fn modulus() -> nat {
        0x1_0000_0000
    }

    open spec fn max_primitive() -> nat {
        256
    }

    /// The limbs are primary signals of the field in the builder.
    open spec fn split_of(
        c: &NodeTable<ExampleConfig>,
        sig: Sig<NodeTable<ExampleConfig>, Fr>,
        base: nat,
        limbs: Seq<Sig<NodeTable<ExampleConfig>, Fr>>,
    ) -> bool {
        forall|k: int|
            0 <= k < limbs.len() ==> c@.nodes.contains_key((#[trigger] limbs[k])@)
                && c@.nodes[limbs[k]@] == NodeMeta::primary_signal(InnerType::Field)
    }

    /// The signal has a bound in the builder, which is not above `bound`.
    open spec fn range_checked(
        c: &NodeTable<ExampleConfig>,
        sig: Sig<NodeTable<ExampleConfig>, Fr>,
        bound: nat,
    ) -> bool {
        c@.bounds.contains_key(sig@) && big_value(c@.bounds[sig@]) <= bound
    }

    /// There is one coefficient for each value, and `out` is a dependent
    /// signal of the field in the builder, bounded by the largest `u32`.
    open spec fn combination_of(
        c: &NodeTable<ExampleConfig>,
        out: Sig<NodeTable<ExampleConfig>, Fr>,
        coeffs: Seq<nat>,
        values: Seq<Sig<NodeTable<ExampleConfig>, Fr>>,
    ) -> bool {
        &&& coeffs.len() == values.len()
        &&& c@.nodes.contains_key(out@)
        &&& c@.nodes[out@] == NodeMeta::dependent_signal(InnerType::Field)
        &&& c@.bounds.contains_key(out@)
        &&& big_value(c@.bounds[out@]) <= 0xffff_ffff
    }

    /// `out` is a dependent signal of the field in the builder.
    open spec fn product_of(
        c: &NodeTable<ExampleConfig>,
        out: Sig<NodeTable<ExampleConfig>, Fr>,
        a: Sig<NodeTable<ExampleConfig>, Fr>,
        b: Sig<NodeTable<ExampleConfig>, Fr>,
    ) -> bool {
        c@.nodes.contains_key(out@) && c@.nodes[out@] == NodeMeta::dependent_signal(
            InnerType::Field,
        )
    }

    open spec fn kept(before: &NodeTable<ExampleConfig>, after: &NodeTable<ExampleConfig>) -> bool {
        &&& forall|a: SimpleRaw|
            before@.nodes.contains_key(a) ==> #[trigger] after@.nodes.contains_key(a)
                && after@.nodes[a] == before@.nodes[a]
        &&& forall|a: SimpleRaw| #[trigger]
            before@.bounds.contains_key(a) ==> after@.bounds.contains_key(a) && big_value(
                after@.bounds[a],
            ) <= big_value(before@.bounds[a])
    }

    proof fn lemma_kept(
        before: &NodeTable<ExampleConfig>,
        mid: &NodeTable<ExampleConfig>,
        after: &NodeTable<ExampleConfig>,
    ) {
        if Self::kept(before, mid) && Self::kept(mid, after) {
            assert forall|a: SimpleRaw| #[trigger]
                before@.bounds.contains_key(a) implies after@.bounds.contains_key(a) && big_value(
                after@.bounds[a],
            ) <= big_value(before@.bounds[a]) by {
                assert(mid@.bounds.contains_key(a));
            }
            assert forall|a: SimpleRaw| before@.nodes.contains_key(a) implies #[trigger]
                after@.nodes.contains_key(a) && after@.nodes[a] == before@.nodes[a] by {
                assert(mid@.nodes.contains_key(a));
            }
        }
        if Self::kept(before, after) {
            assert forall|
                sig: Sig<NodeTable<ExampleConfig>, Fr>,
                base: nat,
                limbs: Seq<Sig<NodeTable<ExampleConfig>, Fr>>,
            | #[trigger] Self::split_of(before, sig, base, limbs) implies Self::split_of(
                after,
                sig,
                base,
                limbs,
            ) by {
                assert forall|k: int| 0 <= k < limbs.len() implies after@.nodes.contains_key(
                    (#[trigger] limbs[k])@,
                ) && after@.nodes[limbs[k]@] == NodeMeta::primary_signal(InnerType::Field) by {
                    assert(before@.nodes.contains_key(limbs[k]@));
                    assert(before@.nodes[limbs[k]@] == NodeMeta::primary_signal(InnerType::Field));
                    assert(after@.nodes.contains_key(limbs[k]@));
                    assert(after@.nodes[limbs[k]@] == before@.nodes[limbs[k]@]);
                }
            }
            assert forall|
                out: Sig<NodeTable<ExampleConfig>, Fr>,
                coeffs: Seq<nat>,
                values: Seq<Sig<NodeTable<ExampleConfig>, Fr>>,
            | #[trigger] Self::combination_of(before, out, coeffs, values) implies Self::combination_of(
                after,
                out,
                coeffs,
                values,
            ) by {
                assert(after@.nodes.contains_key(out@));
            }
            assert forall|
                out: Sig<NodeTable<ExampleConfig>, Fr>,
                left: Sig<NodeTable<ExampleConfig>, Fr>,
                right: Sig<NodeTable<ExampleConfig>, Fr>,
            | #[trigger] Self::product_of(before, out, left, right) implies Self::product_of(
                after,
                out,
                left,
                right,
            ) by {
                assert(after@.nodes.contains_key(out@));
            }
            assert forall|a: SimpleRaw| before@.nodes.contains_key(a) implies #[trigger]
                after@.nodes.contains_key(a) by {}
        }
    }

    fn bound(c: &NodeTable<ExampleConfig>, sig: Sig<NodeTable<ExampleConfig>, Fr>) -> (b: Option<
        BigUint,
    >) {
        RangeBound::bound(c, sig.to_raw_addr())
    }

    fn assume_bound(
        c: &mut NodeTable<ExampleConfig>,
        sig: Sig<NodeTable<ExampleConfig>, Fr>,
        bound: &BigUint,
    ) {
        Self::lower_bound(c, sig.to_raw_addr(), bound);
    }

    fn num_linear_combination(
        c: &mut NodeTable<ExampleConfig>,
        coeffs: &[BigUint],
        values: &[Sig<NodeTable<ExampleConfig>, Fr>],
    ) -> (out: Sig<NodeTable<ExampleConfig>, Fr>) {
        let out = c._alloc_sig_dependent::<Fr>();
        let largest = big_from_u32(0xffff_ffff);
        proof {
            c.lemma_places();
            old(c).lemma_places();
            assert(big_digits(largest) == seq![0xffff_ffffu32]);
            assert(seq![0xffff_ffffu32].skip(1) =~= Seq::<u32>::empty());
            assert(digits_value(seq![0xffff_ffffu32].skip(1)) == 0);
        }
        c._set_bound(out.to_raw_addr(), Some(&largest));
        proof {
            assert forall|a: SimpleRaw| #[trigger]
                old(c)@.bounds.contains_key(a) implies c@.bounds.contains_key(a) && c@.bounds[a]
                == old(c)@.bounds[a] by {
                assert(old(c)@.bounds.dom().contains(a));
                assert(old(c)@.nodes.dom().contains(a));
            }
        }
        out
    }

    fn num_mul(
        c: &mut NodeTable<ExampleConfig>,
        a: Sig<NodeTable<ExampleConfig>, Fr>,
        b: Sig<NodeTable<ExampleConfig>, Fr>,
    ) -> (out: Sig<NodeTable<ExampleConfig>, Fr>)
        ensures
            !old(c)@.nodes.contains_key(Sig::view(&out)),
            final(c)@ == old(c)@.with_node(
                Sig::view(&out),
                NodeMeta::dependent_signal(InnerType::Field),
            ),
    {
        c._alloc_sig_dependent::<Fr>()
    }

    fn field_modulus(c: &NodeTable<ExampleConfig>) -> (modulus: BigUint) {
        let half = big_from_u32(0x1_0000);
        proof {
            assert(big_digits(half) == seq![0x1_0000u32]);
            assert(seq![0x1_0000u32].skip(1) =~= Seq::<u32>::empty());
            assert(digits_value(seq![0x1_0000u32].skip(1)) == 0);
            assert(big_value(half) == 0x1_0000);
        }
        big_mul(&half, &half)
    }

    fn max_primitive_rangecheck(c: &NodeTable<ExampleConfig>) -> (max: usize) {
        256
    }

    fn primitive_rangecheck(
        c: &mut NodeTable<ExampleConfig>,
        sig: Sig<NodeTable<ExampleConfig>, Fr>,
        bound: &BigUint,
    )
        ensures
            final(c)@.nodes == old(c)@.nodes,
            final(c)@.values == old(c)@.values,
            final(c)@.bounds.contains_key(sig@),
            big_value(final(c)@.bounds[sig@]) == if old(c)@.bounds.contains_key(sig@) && big_value(
                old(c)@.bounds[sig@],
            ) <= big_value(*bound) {
                big_value(old(c)@.bounds[sig@])
            } else {
                big_value(*bound)
            },
            forall|a: SimpleRaw|
                #![trigger final(c)@.bounds.contains_key(a)]
                a != sig@ ==> final(c)@.bounds.contains_key(a) == old(c)@.bounds.contains_key(a)
                    && final(c)@.bounds[a] == old(c)@.bounds[a],
    {
        Self::lower_bound(c, sig.to_raw_addr(), bound);
    }

    fn advise_split_into_n_limbs(
        c: &mut NodeTable<ExampleConfig>,
        sig: Sig<NodeTable<ExampleConfig>, Fr>,
        base: &BigUint,
        num_limbs: u32,
    ) -> (limbs: Vec<Sig<NodeTable<ExampleConfig>, Fr>>) {
        let mut limbs: Vec<Sig<NodeTable<ExampleConfig>, Fr>> = Vec::new();
        let mut i: u32 = 0;
        while i < num_limbs
            invariant
                i <= num_limbs,
                limbs@.len() == i,
                Self::kept(old(c), c),
                Self::split_of(c, sig, big_value(*base), limbs@),
            decreases num_limbs - i,
        {
            let ghost before = limbs@;
            let limb = c.alloc_sig::<Fr>();
            limbs.push(limb);
            proof {
                assert forall|k: int| 0 <= k < limbs@.len() implies c@.nodes.contains_key(
                    (#[trigger] limbs@[k])@,
                ) && c@.nodes[limbs@[k]@] == NodeMeta::primary_signal(InnerType::Field) by {
                    if k < before.len() {
                        assert(limbs@[k] == before[k]);
                    }
                }
            }
            i = i + 1;
        }
        limbs
    }
}

impl Rangecheck for NodeTable<ExampleConfig> {
    type IRangecheck = ExampleRangecheck;
}

} // verus!
