//! A builder that keeps its nodes in one table, records advices and
//! constraints, and manages the commitment groups of each round.
use crate::advices::{allocated_leaves, lemma_allocated_coherent, WrongLength};
use crate::circuit::{
    clone_bound, share, Circuit, CircuitState, ConstantFlag, ConstrRhsFlag, HasSigtype, HasVartype,
    InnerType, NodeMeta, PrimarySignalFlag, RangeBound, Sig, SignalFlag, Signals,
    StandardVariables, ToRawAddr, VariableFlag,
};
use crate::node_struct::{
    alloc_many, concat_raw_addrs, leaves_assigned, leaves_of, leaves_of_all, leaves_valid,
    leaves_values, leaves_writable, leaves_written, lemma_concat_valid, lemma_take_contains,
    read_all, repeat_shape, write_all, CRhsStruct, NodeStruct, SVStruct, SigStruct,
};
use std::collections::VecDeque;
use std::sync::Arc;
use halo2curves::bn256::{Fr, G1Affine};
use halo2curves::group::Curve;
use halo2curves::msm::best_multiexp;
use num_bigint::BigUint;
use vstd::prelude::*;

verus! {

/// `halo2curves::bn256::Fr`: an element of the scalar field of BN256.
#[verifier::external_type_specification]
#[verifier::external_body]
pub struct ExFr(Fr);

/// `halo2curves::bn256::G1Affine`: a point of the first group of BN256.
#[verifier::external_type_specification]
#[verifier::external_body]
pub struct ExG1Affine(G1Affine);

/// The affine form of the sum of the points `bases[i]`, each multiplied by
/// the scalar `coeffs[i]`, as `halo2curves` computes it on BN256.
pub uninterp spec fn bn256_msm(coeffs: Seq<Fr>, bases: Seq<G1Affine>) -> G1Affine;

/// `halo2curves::msm::best_multiexp`, followed by `Curve::to_affine`. The
/// first panics when the two slices differ in length. What the two return is
/// a function of the scalars and the points alone, which is all that the
/// contract claims.
#[verifier::external_body]
fn bn256_best_multiexp(coeffs: &Vec<Fr>, bases: &Vec<G1Affine>) -> (r: G1Affine)
    requires
        coeffs.len() == bases.len(),
    ensures
        r == bn256_msm(coeffs@, bases@),
{
    best_multiexp(coeffs, bases).to_affine()
}

/// The field and the group of a circuit, and the commitment to a list of
/// field elements under a list of group elements.
pub trait TypeConfig {
    type F: Copy + From<u64>;

    type G;

    spec fn msm_spec(coeffs: Seq<Self::F>, bases: Seq<Self::G>) -> Self::G;

    fn msm(coeffs: &Vec<Self::F>, bases: &Vec<Self::G>) -> (r: Self::G)
        requires
            coeffs.len() == bases.len(),
        ensures
            r == Self::msm_spec(coeffs@, bases@),
    ;
}

/// The scalar field of BN256 and its first group.
pub struct Bn256;

impl TypeConfig for Bn256 {
    type F = Fr;

    type G = G1Affine;

    open spec fn msm_spec(coeffs: Seq<Fr>, bases: Seq<G1Affine>) -> G1Affine {
        bn256_msm(coeffs, bases)
    }

    fn msm(coeffs: &Vec<Fr>, bases: &Vec<G1Affine>) -> (r: G1Affine) {
        bn256_best_multiexp(coeffs, bases)
    }
}

impl HasVartype<Fr> for Bn256 {
    open spec fn tag() -> InnerType {
        InnerType::Field
    }

    fn type_tag() -> (t: InnerType) {
        InnerType::Field
    }
}

impl HasSigtype<Fr> for Bn256 {

}

impl HasVartype<u64> for Bn256 {
    open spec fn tag() -> InnerType {
        InnerType::U64
    }

    fn type_tag() -> (t: InnerType) {
        InnerType::U64
    }
}

impl HasSigtype<u64> for Bn256 {

}

impl HasVartype<u32> for Bn256 {
    open spec fn tag() -> InnerType {
        InnerType::U32
    }

    fn type_tag() -> (t: InnerType) {
        InnerType::U32
    }
}

impl HasSigtype<u32> for Bn256 {

}

impl HasVartype<u16> for Bn256 {
    open spec fn tag() -> InnerType {
        InnerType::U16
    }

    fn type_tag() -> (t: InnerType) {
        InnerType::U16
    }
}

impl HasSigtype<u16> for Bn256 {

}

impl HasVartype<u8> for Bn256 {
    open spec fn tag() -> InnerType {
        InnerType::U8
    }

    fn type_tag() -> (t: InnerType) {
        InnerType::U8
    }
}

impl HasSigtype<u8> for Bn256 {

}

impl HasVartype<bool> for Bn256 {
    open spec fn tag() -> InnerType {
        InnerType::Bool
    }

    fn type_tag() -> (t: InnerType) {
        InnerType::Bool
    }
}

impl HasSigtype<bool> for Bn256 {

}

/// The address of a node of a [`NodeTable`]: its place in the table.
#[derive(Clone, Copy, Debug, PartialEq, Eq, Structural, Hash)]
pub struct SimpleRaw(pub usize);

struct Node<F> {
    meta: NodeMeta,
    bound: Option<BigUint>,
    value: Option<F>,
}

/// The nodes of a builder, in the order of their allocation.
pub struct NodeTable<Cfg: TypeConfig> {
    nodes: Vec<Node<Cfg::F>>,
}

impl<Cfg: TypeConfig> NodeTable<Cfg> {
    /// A table without nodes.
    pub fn new() -> (table: Self)
        ensures
            table@.nodes == Map::<SimpleRaw, NodeMeta>::empty(),
            table@.bounds == Map::<SimpleRaw, BigUint>::empty(),
            table@.values == Map::<SimpleRaw, Cfg::F>::empty(),
            table.len() == 0,
    {
        let table = NodeTable { nodes: Vec::new() };
        assert(table@.nodes =~= Map::<SimpleRaw, NodeMeta>::empty());
        assert(table@.bounds =~= Map::<SimpleRaw, BigUint>::empty());
        assert(table@.values =~= Map::<SimpleRaw, Cfg::F>::empty());
        table
    }

    /// The number of nodes.
    pub closed spec fn len(&self) -> nat {
        self.nodes.len() as nat
    }

    /// The nodes are those at the places below `len()`, only nodes have a
    /// bound or a value, and the next node takes the place `len()`.
    pub proof fn lemma_places(&self)
        ensures
            forall|a: SimpleRaw| self@.nodes.contains_key(a) <==> a.0 < self.len(),
            self@.bounds.dom().subset_of(self@.nodes.dom()),
            self@.values.dom().subset_of(self@.nodes.dom()),
    {
    }

    /// Whether `addr` is a node of the table.
    pub fn contains(&self, addr: SimpleRaw) -> (b: bool)
        ensures
            b == self@.nodes.contains_key(addr),
    {
        addr.0 < self.nodes.len()
    }

    /// The metadata of a node.
    pub fn meta(&self, addr: SimpleRaw) -> (m: NodeMeta)
        requires
            self@.nodes.contains_key(addr),
        ensures
            m == self@.nodes[addr],
    {
        self.nodes[addr.0].meta
    }

    /// The value of a node, `None` where it was not written.
    pub fn value(&self, addr: SimpleRaw) -> (v: Option<Cfg::F>)
        requires
            self@.nodes.contains_key(addr),
        ensures
            v == if self@.values.contains_key(addr) {
                Some(self@.values[addr])
            } else {
                None
            },
    {
        self.nodes[addr.0].value
    }

    /// Raises the degree that is recorded for a node to `deg`, where it is
    /// lower.
    pub fn raise_degree(&mut self, addr: SimpleRaw, deg: usize)
        requires
            old(self)@.nodes.contains_key(addr),
        ensures
            final(self)@ == old(self)@.with_node(
                addr,
                NodeMeta {
                    degree: if old(self)@.nodes[addr].degree < deg {
                        deg
                    } else {
                        old(self)@.nodes[addr].degree
                    },
                    ..old(self)@.nodes[addr]
                },
            ),
    {
        let meta = self.nodes[addr.0].meta;
        if meta.degree < deg {
            self.nodes[addr.0].meta.degree = deg;
        }
        assert(self@ =~= old(self)@.with_node(
            addr,
            NodeMeta {
                degree: if old(self)@.nodes[addr].degree < deg {
                    deg
                } else {
                    old(self)@.nodes[addr].degree
                },
                ..old(self)@.nodes[addr]
            },
        ));
    }
}

impl<Cfg: TypeConfig> Circuit for NodeTable<Cfg> {
    type F = Cfg::F;

    type RawAddr = SimpleRaw;

    type Config = Cfg;

    closed spec fn view(&self) -> CircuitState<SimpleRaw, Cfg::F> {
        CircuitState {
            nodes: Map::new(
                |a: SimpleRaw| a.0 < self.nodes.len(),
                |a: SimpleRaw| self.nodes[a.0 as int].meta,
            ),
            bounds: Map::new(
                |a: SimpleRaw| a.0 < self.nodes.len() && self.nodes[a.0 as int].bound is Some,
                |a: SimpleRaw| self.nodes[a.0 as int].bound->Some_0,
            ),
            values: Map::new(
                |a: SimpleRaw| a.0 < self.nodes.len() && self.nodes[a.0 as int].value is Some,
                |a: SimpleRaw| self.nodes[a.0 as int].value->Some_0,
            ),
        }
    }

    fn inner_type(&self, addr: SimpleRaw) -> (t: InnerType) {
        self.nodes[addr.0].meta.inner_type
    }

    fn _alloc_raw<T>(&mut self) -> (addr: SimpleRaw) where Cfg: HasVartype<T> {
        let addr = SimpleRaw(self.nodes.len());
        let meta = NodeMeta {
            inner_type: <Cfg as HasVartype<T>>::type_tag(),
            is_var: false,
            is_sig: false,
            is_primary: false,
            is_const: false,
            is_constr_rhs: false,
            degree: 0,
        };
        self.nodes.push(Node { meta, bound: None, value: None });
        assert(meta == NodeMeta::fresh(<Cfg as HasVartype<T>>::tag()));
        assert(self@ =~= old(self)@.with_node(
            addr,
            NodeMeta::fresh(<Cfg as HasVartype<T>>::tag()),
        ));
        addr
    }
}

impl<Cfg: TypeConfig> VariableFlag for NodeTable<Cfg> {
    fn is_var(&self, addr: SimpleRaw) -> (b: bool) {
        self.nodes[addr.0].meta.is_var
    }

    fn _set_var_flag(&mut self, addr: SimpleRaw, value: bool) {
        self.nodes[addr.0].meta.is_var = value;
        assert(self@ =~= old(self)@.with_node(
            addr,
            NodeMeta { is_var: value, ..old(self)@.nodes[addr] },
        ));
    }
}

impl<Cfg: TypeConfig> SignalFlag for NodeTable<Cfg> {
    fn is_sig(&self, addr: SimpleRaw) -> (b: bool) {
        self.nodes[addr.0].meta.is_sig
    }

    fn _set_sig_flag(&mut self, addr: SimpleRaw, value: bool) {
        self.nodes[addr.0].meta.is_sig = value;
        assert(self@ =~= old(self)@.with_node(
            addr,
            NodeMeta { is_sig: value, ..old(self)@.nodes[addr] },
        ));
    }
}

impl<Cfg: TypeConfig> PrimarySignalFlag for NodeTable<Cfg> {
    fn is_primary(&self, addr: SimpleRaw) -> (b: bool) {
        self.nodes[addr.0].meta.is_primary
    }

    fn _set_primary_flag(&mut self, addr: SimpleRaw, value: bool) {
        self.nodes[addr.0].meta.is_primary = value;
        assert(self@ =~= old(self)@.with_node(
            addr,
            NodeMeta { is_primary: value, ..old(self)@.nodes[addr] },
        ));
    }
}

impl<Cfg: TypeConfig> ConstrRhsFlag for NodeTable<Cfg> {
    fn is_constr_rhs(&self, addr: SimpleRaw) -> (b: bool) {
        self.nodes[addr.0].meta.is_constr_rhs
    }

    fn _set_constr_rhs_flag(&mut self, addr: SimpleRaw, value: bool) {
        self.nodes[addr.0].meta.is_constr_rhs = value;
        assert(self@ =~= old(self)@.with_node(
            addr,
            NodeMeta { is_constr_rhs: value, ..old(self)@.nodes[addr] },
        ));
    }
}

impl<Cfg: TypeConfig> ConstantFlag for NodeTable<Cfg> {
    fn is_const(&self, addr: SimpleRaw) -> (b: bool) {
        self.nodes[addr.0].meta.is_const
    }

    fn _set_const_flag(&mut self, addr: SimpleRaw, value: bool) {
        self.nodes[addr.0].meta.is_const = value;
        assert(self@ =~= old(self)@.with_node(
            addr,
            NodeMeta { is_const: value, ..old(self)@.nodes[addr] },
        ));
    }
}

impl<Cfg: TypeConfig> RangeBound for NodeTable<Cfg> {
    fn bound(&self, addr: SimpleRaw) -> (b: Option<BigUint>) {
        match &self.nodes[addr.0].bound {
            Some(b) => Some(clone_bound(b)),
            None => None,
        }
    }

    fn _set_bound(&mut self, addr: SimpleRaw, value: Option<&BigUint>) {
        let bound = match value {
            Some(b) => Some(clone_bound(b)),
            None => None,
        };
        self.nodes[addr.0].bound = bound;
        assert(self@ =~= old(self)@.with_bound(
            addr,
            match value {
                Some(b) => Some(*b),
                None => None,
            },
        ));
    }
}

impl<Cfg: TypeConfig> StandardVariables for NodeTable<Cfg> {
    fn read(&self, addr: SimpleRaw) -> (v: Cfg::F) {
        self.nodes[addr.0].value.unwrap()
    }

    fn write(&mut self, addr: SimpleRaw, value: Cfg::F) {
        self.nodes[addr.0].value = Some(value);
        assert(self@ =~= old(self)@.with_value(addr, value));
    }
}

// ---------------------------------------------------------------------------
// Degrees

/// `state` with the degree of every node of `raws` raised to `deg` where it
/// was lower.
pub open spec fn raise_degrees<V>(
    state: CircuitState<SimpleRaw, V>,
    raws: Seq<SimpleRaw>,
    deg: usize,
) -> CircuitState<SimpleRaw, V> {
    CircuitState {
        nodes: Map::new(
            |a: SimpleRaw| state.nodes.contains_key(a),
            |a: SimpleRaw|
                if raws.contains(a) && state.nodes[a].degree < deg {
                    NodeMeta { degree: deg, ..state.nodes[a] }
                } else {
                    state.nodes[a]
                },
        ),
        ..state
    }
}

/// Raising degrees touches nothing but degrees, lowers none, and leaves
/// each node of `raws` with a degree of `deg` at least.
pub proof fn lemma_raise_degrees<V>(
    state: CircuitState<SimpleRaw, V>,
    raws: Seq<SimpleRaw>,
    deg: usize,
)
    ensures
        raise_degrees(state, raws, deg).nodes.dom() == state.nodes.dom(),
        forall|a: SimpleRaw| #[trigger]
            state.nodes.contains_key(a) ==> {
                let before = state.nodes[a];
                let after = raise_degrees(state, raws, deg).nodes[a];
                &&& after == NodeMeta { degree: after.degree, ..before }
                &&& after.degree >= before.degree
                &&& raws.contains(a) ==> after.degree >= deg
                &&& after.coherent() == before.coherent()
            },
        state.coherent() ==> raise_degrees(state, raws, deg).coherent(),
{
    let raised = raise_degrees(state, raws, deg);
    assert(raised.nodes.dom() =~= state.nodes.dom());
    if state.coherent() {
        assert forall|a: SimpleRaw| raised.nodes.contains_key(a) implies (
        #[trigger] raised.nodes[a]).coherent() by {
            assert(state.nodes.contains_key(a));
            assert(state.nodes[a].coherent());
        }
    }
}

impl<Cfg: TypeConfig> NodeTable<Cfg> {
    /// Raises the degree of each node of `raws` to `deg`, where it is lower.
    pub fn raise_degrees_of(&mut self, raws: &Vec<SimpleRaw>, deg: usize)
        requires
            forall|i: int| 0 <= i < raws@.len() ==> old(self)@.nodes.contains_key(#[trigger] raws@[i]),
        ensures
            final(self)@ == raise_degrees(old(self)@, raws@, deg),
    {
        let ghost start = self@;
        let mut i: usize = 0;
        assert(self@ =~= raise_degrees(start, raws@.take(0), deg));
        while i < raws.len()
            invariant
                i <= raws.len(),
                forall|i: int| 0 <= i < raws@.len() ==> start.nodes.contains_key(#[trigger] raws@[i]),
                self@ == raise_degrees(start, raws@.take(i as int), deg),
            decreases raws.len() - i,
        {
            let ghost cur = self@;
            let addr = raws[i];
            assert(start.nodes.contains_key(raws@[i as int]));
            self.raise_degree(addr, deg);
            proof {
                assert forall|a: SimpleRaw|
                    raws@.take(i + 1).contains(a) <==> raws@.take(i as int).contains(a) || a
                        == addr by {
                    lemma_take_contains(raws@, i as int, a);
                }
                assert(self@ =~= raise_degrees(start, raws@.take(i + 1), deg));
            }
            i = i + 1;
        }
        assert(raws@.take(raws.len() as int) =~= raws@);
    }
}

impl<Cfg: TypeConfig> NodeTable<Cfg> {
    /// Whether every node of a list has a value.
    pub fn all_assigned(&self, raws: &Vec<SimpleRaw>) -> (assigned: bool)
        ensures
            assigned == leaves_assigned(self@, raws@),
    {
        let mut i: usize = 0;
        while i < raws.len()
            invariant
                i <= raws.len(),
                forall|k: int| 0 <= k < i ==> self@.values.contains_key(#[trigger] raws@[k]),
            decreases raws.len() - i,
        {
            let addr = raws[i];
            if addr.0 >= self.nodes.len() || self.nodes[addr.0].value.is_none() {
                assert(!self@.values.contains_key(raws@[i as int]));
                return false;
            }
            i = i + 1;
        }
        true
    }

    /// Whether every node of a list can be written: it is a node without a
    /// value, and the list names it once.
    pub fn all_writable(&self, raws: &Vec<SimpleRaw>) -> (writable: bool)
        ensures
            writable == leaves_writable(self@, raws@),
    {
        let mut i: usize = 0;
        while i < raws.len()
            invariant
                i <= raws.len(),
                forall|k: int|
                    0 <= k < i ==> self@.nodes.contains_key(#[trigger] raws@[k])
                        && !self@.values.contains_key(raws@[k]),
                forall|k: int, n: int| 0 <= k < n < i ==> raws@[k] != raws@[n],
            decreases raws.len() - i,
        {
            let addr = raws[i];
            if addr.0 >= self.nodes.len() || self.nodes[addr.0].value.is_some() {
                assert(!(self@.nodes.contains_key(raws@[i as int]) && !self@.values.contains_key(
                    raws@[i as int],
                )));
                return false;
            }
            let mut k: usize = 0;
            while k < i
                invariant
                    k <= i < raws.len(),
                    addr == raws@[i as int],
                    forall|n: int| 0 <= n < k ==> raws@[n] != addr,
                decreases i - k,
            {
                if raws[k].0 == addr.0 {
                    assert(raws@[k as int] == raws@[i as int]);
                    return false;
                }
                k = k + 1;
            }
            i = i + 1;
        }
        assert forall|k: int, n: int|
            0 <= k < raws@.len() && 0 <= n < raws@.len() && k != n implies raws@[k] != raws@[n] by {
            if k < n {
                assert(raws@[k] != raws@[n]);
            } else {
                assert(raws@[n] != raws@[k]);
            }
        }
        true
    }
}

// ---------------------------------------------------------------------------
// Commitment groups

/// The place of `addr` in a list without repetitions.
fn position(list: &Vec<SimpleRaw>, addr: SimpleRaw) -> (r: Option<usize>)
    ensures
        match r {
            Some(i) => i < list.len() && list@[i as int] == addr,
            None => !list@.contains(addr),
        },
{
    let mut i: usize = 0;
    while i < list.len()
        invariant
            i <= list.len(),
            forall|j: int| 0 <= j < i ==> list@[j] != addr,
        decreases list.len() - i,
    {
        if list[i].0 == addr.0 {
            return Some(i);
        }
        i = i + 1;
    }
    None
}

/// Takes `addr` out of a list without repetitions that holds it.
fn take_out(list: &mut Vec<SimpleRaw>, addr: SimpleRaw)
    requires
        old(list)@.no_duplicates(),
        old(list)@.contains(addr),
    ensures
        final(list)@ == old(list)@.remove_value(addr),
        final(list)@.no_duplicates(),
        !final(list)@.contains(addr),
        forall|a: SimpleRaw| a != addr ==> (final(list)@.contains(a) <==> old(list)@.contains(a)),
{
    let found = position(list, addr);
    let i = found.unwrap();
    proof {
        old(list)@.index_of_first_ensures(addr);
        old(list)@.remove_ensures(i as int);
    }
    list.remove(i);
    proof {
        let before = old(list)@;
        let after = list@;
        assert forall|a: SimpleRaw| after.contains(a) implies before.contains(a) && a != addr by {
            let k = choose|k: int| 0 <= k < after.len() && after[k] == a;
            if k < i {
                assert(before[k] == a);
            } else {
                assert(before[k + 1] == a);
            }
        }
        assert forall|a: SimpleRaw| a != addr && before.contains(a) implies after.contains(a) by {
            let k = choose|k: int| 0 <= k < before.len() && before[k] == a;
            if k < i {
                assert(after[k] == a);
            } else {
                assert(after[k - 1] == a);
            }
        }
    }
}

/// The signals whose values are revealed in one round, in the order in which
/// they joined the group.
pub struct SimplePubCommGroup {
    signals: Vec<SimpleRaw>,
}

impl SimplePubCommGroup {
    pub closed spec fn view(&self) -> Seq<SimpleRaw> {
        self.signals@
    }

    /// No signal is in the group twice.
    pub open spec fn wf(&self) -> bool {
        self@.no_duplicates()
    }

    pub fn new() -> (group: Self)
        ensures
            group@ == Seq::<SimpleRaw>::empty(),
            group.wf(),
    {
        SimplePubCommGroup { signals: Vec::new() }
    }

    pub fn contains(&self, addr: SimpleRaw) -> (b: bool)
        ensures
            b == self@.contains(addr),
    {
        position(&self.signals, addr).is_some()
    }

    /// Puts a signal into the group that is not in it.
    pub fn add<Cfg: TypeConfig>(&mut self, sig: Sig<NodeTable<Cfg>, Cfg::F>)
        requires
            old(self).wf(),
            !old(self)@.contains(sig@),
        ensures
            final(self)@ == old(self)@.push(sig@),
            final(self).wf(),
    {
        self.signals.push(ToRawAddr::to_raw_addr(&sig));
    }

    /// Takes a signal out of the group that is in it.
    pub fn remove<Cfg: TypeConfig>(&mut self, sig: Sig<NodeTable<Cfg>, Cfg::F>)
        requires
            old(self).wf(),
            old(self)@.contains(sig@),
        ensures
            final(self)@ == old(self)@.remove_value(sig@),
            final(self).wf(),
            !final(self)@.contains(sig@),
            forall|a: SimpleRaw|
                a != sig@ ==> (final(self)@.contains(a) <==> old(self)@.contains(a)),
    {
        let addr = ToRawAddr::to_raw_addr(&sig);
        take_out(&mut self.signals, addr);
    }

    /// Closes the group. What is returned reads the values of its signals.
    pub fn commit(self) -> (readout: PublicReadout)
        ensures
            readout@ == self@,
    {
        PublicReadout { signals: self.signals }
    }
}

/// A list with the elements of another.
fn copy_of(list: &Vec<SimpleRaw>) -> (copy: Vec<SimpleRaw>)
    ensures
        copy@ == list@,
{
    let mut copy: Vec<SimpleRaw> = Vec::new();
    let mut i: usize = 0;
    while i < list.len()
        invariant
            i <= list.len(),
            copy@ == list@.take(i as int),
        decreases list.len() - i,
    {
        copy.push(list[i]);
        assert(copy@ =~= list@.take(i + 1));
        i = i + 1;
    }
    assert(list@.take(list.len() as int) =~= list@);
    copy
}

/// The signals of a public group that has been closed.
pub struct PublicReadout {
    signals: Vec<SimpleRaw>,
}

impl PublicReadout {
    pub closed spec fn view(&self) -> Seq<SimpleRaw> {
        self.signals@
    }

    /// Another readout of the same signals.
    pub fn duplicate(&self) -> (copy: PublicReadout)
        ensures
            copy@ == self@,
    {
        PublicReadout { signals: copy_of(&self.signals) }
    }

    /// Whether every signal has a value, so that they can be read.
    pub fn can_call<Cfg: TypeConfig>(&self, circuit: &NodeTable<Cfg>) -> (ready: bool)
        ensures
            ready == leaves_assigned(circuit@, self@),
    {
        circuit.all_assigned(&self.signals)
    }

    /// The values of the signals, in the order in which they joined.
    pub fn call<Cfg: TypeConfig>(&self, circuit: &NodeTable<Cfg>) -> (values: Vec<Cfg::F>)
        requires
            leaves_assigned(circuit@, self@),
        ensures
            values@ == leaves_values(circuit@, self@),
    {
        read_all(circuit, &self.signals)
    }
}

/// The signals that are committed to in one round under a key, in the order
/// in which they joined the group.
pub struct SimplePrivCommGroup<Cfg: TypeConfig> {
    signals: Vec<SimpleRaw>,
    params: Arc<Vec<Cfg::G>>,
}

impl<Cfg: TypeConfig> SimplePrivCommGroup<Cfg> {
    pub closed spec fn view(&self) -> Seq<SimpleRaw> {
        self.signals@
    }

    /// The commitment key of the group.
    pub closed spec fn key(&self) -> Seq<Cfg::G> {
        self.params@
    }

    /// No signal is in the group twice.
    pub open spec fn wf(&self) -> bool {
        self@.no_duplicates()
    }

    pub fn new(params: Arc<Vec<Cfg::G>>) -> (group: Self)
        ensures
            group@ == Seq::<SimpleRaw>::empty(),
            group.key() == params@,
            group.wf(),
    {
        SimplePrivCommGroup { signals: Vec::new(), params }
    }

    pub fn contains(&self, addr: SimpleRaw) -> (b: bool)
        ensures
            b == self@.contains(addr),
    {
        position(&self.signals, addr).is_some()
    }

    /// Puts a signal into the group that is not in it.
    pub fn add(&mut self, sig: Sig<NodeTable<Cfg>, Cfg::F>)
        requires
            old(self).wf(),
            !old(self)@.contains(sig@),
        ensures
            final(self)@ == old(self)@.push(sig@),
            final(self).key() == old(self).key(),
            final(self).wf(),
    {
        self.signals.push(ToRawAddr::to_raw_addr(&sig));
    }

    /// Takes a signal out of the group that is in it.
    pub fn remove(&mut self, sig: Sig<NodeTable<Cfg>, Cfg::F>)
        requires
            old(self).wf(),
            old(self)@.contains(sig@),
        ensures
            final(self)@ == old(self)@.remove_value(sig@),
            final(self).key() == old(self).key(),
            final(self).wf(),
            !final(self)@.contains(sig@),
            forall|a: SimpleRaw|
                a != sig@ ==> (final(self)@.contains(a) <==> old(self)@.contains(a)),
    {
        let addr = ToRawAddr::to_raw_addr(&sig);
        take_out(&mut self.signals, addr);
    }

    /// Closes the group. What is returned commits to the values of its
    /// signals under its key.
    pub fn commit(self) -> (commitment: PrivateCommitment<Cfg>)
        ensures
            commitment@ == self@,
            commitment.key() == self.key(),
    {
        PrivateCommitment { signals: self.signals, params: self.params }
    }
}

/// The signals and the key of a private group that has been closed.
pub struct PrivateCommitment<Cfg: TypeConfig> {
    signals: Vec<SimpleRaw>,
    params: Arc<Vec<Cfg::G>>,
}

impl<Cfg: TypeConfig> PrivateCommitment<Cfg> {
    pub closed spec fn view(&self) -> Seq<SimpleRaw> {
        self.signals@
    }

    pub closed spec fn key(&self) -> Seq<Cfg::G> {
        self.params@
    }

    /// Another commitment to the same signals under the same key.
    pub fn duplicate(&self) -> (copy: PrivateCommitment<Cfg>)
        ensures
            copy@ == self@,
            copy.key() == self.key(),
    {
        PrivateCommitment { signals: copy_of(&self.signals), params: share(&self.params) }
    }

    /// Whether the key has one element for each signal and every signal has
    /// a value, so that the commitment can be computed.
    pub fn can_call(&self, circuit: &NodeTable<Cfg>) -> (ready: bool)
        ensures
            ready == (self@.len() == self.key().len() && leaves_assigned(circuit@, self@)),
    {
        self.signals.len() == self.params.len() && circuit.all_assigned(&self.signals)
    }

    /// The commitment to the values of the signals under the key. The key
    /// has one element for each signal.
    pub fn call(&self, circuit: &NodeTable<Cfg>) -> (commitment: Cfg::G)
        requires
            self@.len() == self.key().len(),
            leaves_assigned(circuit@, self@),
        ensures
            commitment == Cfg::msm_spec(leaves_values(circuit@, self@), self.key()),
    {
        let values = read_all(circuit, &self.signals);
        Cfg::msm(&values, &self.params)
    }
}

// ---------------------------------------------------------------------------
// Records

/// A step of the witness computation: when the graph runs, the values of
/// `inputs` are handed to `func`, and what it returns is written to
/// `outputs`.
pub struct InternalAdvice<W> {
    pub inputs: Vec<SimpleRaw>,
    pub outputs: Vec<SimpleRaw>,
    pub func: W,
}

impl<W> InternalAdvice<W> {
    /// Runs the step. The inputs have been written and the outputs have not,
    /// and `func` accepts the values of the inputs. Where it returns one
    /// value for each output, the values are written. Where it returns
    /// another number of values, nothing is written and the error says how
    /// many were returned.
    pub fn call<Cfg: TypeConfig>(&self, circuit: &mut NodeTable<Cfg>) -> (r: Result<
        (),
        WrongLength,
    >) where W: Fn(Vec<Cfg::F>) -> Vec<Cfg::F>
        requires
            leaves_assigned(old(circuit)@, self.inputs@),
            leaves_writable(old(circuit)@, self.outputs@),
            forall|x: Vec<Cfg::F>|
                x@ == leaves_values(old(circuit)@, self.inputs@) ==> call_requires(
                    self.func,
                    (x,),
                ),
        ensures
            exists|x: Vec<Cfg::F>, y: Vec<Cfg::F>|
                {
                    &&& x@ == leaves_values(old(circuit)@, self.inputs@)
                    &&& #[trigger] call_ensures(self.func, (x,), y)
                    &&& match r {
                        Ok(()) => leaves_written(
                            old(circuit)@,
                            final(circuit)@,
                            self.outputs@,
                            y@,
                        ),
                        Err(e) => y@.len() != self.outputs@.len() && e == (WrongLength {
                            expected: self.outputs@.len() as usize,
                            returned: y@.len() as usize,
                        }) && final(circuit)@ == old(circuit)@,
                    }
                },
    {
        let x = read_all(circuit, &self.inputs);
        let ghost x0 = x;
        let y = (self.func)(x);
        assert(call_ensures(self.func, (x0,), y));
        if y.len() != self.outputs.len() {
            return Err(WrongLength { expected: self.outputs.len(), returned: y.len() });
        }
        write_all(circuit, &self.outputs, &y);
        Ok(())
    }
}

/// A constraint: a step that writes what the constraint evaluates to, and
/// the degree that was declared for it.
pub struct ConstrEncoding<W> {
    pub constr: InternalAdvice<W>,
    pub deg: usize,
}

/// An entry of the log of a builder.
pub enum Operation<Cfg: TypeConfig, W> {
    /// A step of the witness computation.
    Internal(InternalAdvice<W>),
    /// A node that takes a value from outside when the graph runs.
    Input(SimpleRaw),
    /// The values of a public group.
    PublicValues(PublicReadout),
    /// The commitment to a private group.
    Commitment(PrivateCommitment<Cfg>),
}

/// What running the log of a builder has handed out: the public values and
/// the commitment of each round that was closed, oldest first.
pub struct Execution<Cfg: TypeConfig> {
    pub public_values: Vec<Vec<Cfg::F>>,
    pub commitments: Vec<Cfg::G>,
}

impl<Cfg: TypeConfig> Execution<Cfg> {
    /// The public values of each round.
    pub open spec fn values(&self) -> Seq<Seq<Cfg::F>> {
        Seq::new(self.public_values@.len(), |i: int| self.public_values@[i]@)
    }

    /// Nothing was handed out yet.
    pub fn new() -> (execution: Self)
        ensures
            execution.values() == Seq::<Seq<Cfg::F>>::empty(),
            execution.commitments@ == Seq::<Cfg::G>::empty(),
    {
        let execution = Execution { public_values: Vec::new(), commitments: Vec::new() };
        assert(execution.values() =~= Seq::<Seq<Cfg::F>>::empty());
        execution
    }
}

/// Where a run of the log stands: the nodes of the builder, the values from
/// outside that are left, and what was handed out.
#[verifier::ext_equal]
#[verifier::reject_recursive_types(Cfg)]
pub struct RunState<Cfg: TypeConfig> {
    pub nodes: CircuitState<SimpleRaw, Cfg::F>,
    pub inputs: Seq<Cfg::F>,
    pub public_values: Seq<Seq<Cfg::F>>,
    pub commitments: Seq<Cfg::G>,
}

// ---------------------------------------------------------------------------
// The builder

/// A builder over the field and the group of `Cfg`, whose witness functions
/// are of type `W`.
pub struct SimpleCircuit<Cfg: TypeConfig, W> {
    nodes: NodeTable<Cfg>,
    current_pub_group: SimplePubCommGroup,
    current_priv_group: SimplePrivCommGroup<Cfg>,
    comm_keys: VecDeque<Vec<Cfg::G>>,
    operations: VecDeque<Operation<Cfg, W>>,
    constraints: Vec<ConstrEncoding<W>>,
}

impl<Cfg: TypeConfig, W> SimpleCircuit<Cfg, W> {
    /// The nodes of the builder.
    pub closed spec fn nodes(&self) -> CircuitState<SimpleRaw, Cfg::F> {
        self.nodes@
    }

    /// The public group of the current round.
    pub closed spec fn public_group(&self) -> Seq<SimpleRaw> {
        self.current_pub_group@
    }

    /// The private group of the current round.
    pub closed spec fn private_group(&self) -> Seq<SimpleRaw> {
        self.current_priv_group@
    }

    /// The commitment key of the current round.
    pub closed spec fn private_key(&self) -> Seq<Cfg::G> {
        self.current_priv_group.key()
    }

    /// The commitment keys of the rounds to come.
    pub closed spec fn keys(&self) -> Seq<Vec<Cfg::G>> {
        self.comm_keys@
    }

    /// The log of operations, oldest first.
    pub closed spec fn operations(&self) -> Seq<Operation<Cfg, W>> {
        self.operations@
    }

    /// The constraints that were declared, oldest first.
    pub closed spec fn constraints(&self) -> Seq<ConstrEncoding<W>> {
        self.constraints@
    }

    /// The roles of every node are coherent. No signal is twice in a group
    /// or in both groups, and every signal of a group is a primary signal of
    /// the builder.
    pub open spec fn wf(&self) -> bool {
        &&& self.nodes().coherent()
        &&& self.public_group().no_duplicates()
        &&& self.private_group().no_duplicates()
        &&& forall|a: SimpleRaw|
            self.public_group().contains(a) || self.private_group().contains(a) ==> (
            #[trigger] self.nodes().nodes.contains_key(a)) && self.nodes().nodes[a].is_primary
        &&& forall|a: SimpleRaw|
            !(self.public_group().contains(a) && #[trigger] self.private_group().contains(a))
    }

    /// The groups and the keys are those of `other`.
    pub open spec fn same_groups(&self, other: &Self) -> bool {
        &&& self.public_group() == other.public_group()
        &&& self.private_group() == other.private_group()
        &&& self.private_key() == other.private_key()
        &&& self.keys() == other.keys()
    }

    /// The log and the constraints are those of `other`.
    pub open spec fn same_records(&self, other: &Self) -> bool {
        &&& self.operations() == other.operations()
        &&& self.constraints() == other.constraints()
    }

    /// A builder without nodes. The first key is that of the first round.
    pub fn init(comm_keys: VecDeque<Vec<Cfg::G>>) -> (circuit: Self)
        requires
            comm_keys@.len() > 0,
        ensures
            circuit.wf(),
            circuit.nodes().nodes == Map::<SimpleRaw, NodeMeta>::empty(),
            circuit.nodes().bounds == Map::<SimpleRaw, BigUint>::empty(),
            circuit.nodes().values == Map::<SimpleRaw, Cfg::F>::empty(),
            circuit.public_group() == Seq::<SimpleRaw>::empty(),
            circuit.private_group() == Seq::<SimpleRaw>::empty(),
            circuit.private_key() == comm_keys@[0]@,
            circuit.keys() == comm_keys@.skip(1),
            circuit.operations() == Seq::<Operation<Cfg, W>>::empty(),
            circuit.constraints() == Seq::<ConstrEncoding<W>>::empty(),
    {
        let mut comm_keys = comm_keys;
        let ckey = Arc::new(comm_keys.pop_front().unwrap());
        let circuit = SimpleCircuit {
            nodes: NodeTable::new(),
            current_pub_group: SimplePubCommGroup::new(),
            current_priv_group: SimplePrivCommGroup::new(ckey),
            comm_keys,
            operations: VecDeque::new(),
            constraints: Vec::new(),
        };
        proof {
            circuit.nodes.lemma_places();
        }
        circuit
    }

    /// The nodes of the builder, to read them.
    pub fn node_table(&self) -> (table: &NodeTable<Cfg>)
        ensures
            table@ == self.nodes(),
    {
        &self.nodes
    }

    /// Writes the leaves of an aggregate. None of them has been written.
    pub fn write<N: NodeStruct<NodeTable<Cfg>>>(&mut self, target: N, value: N::FStruct)
        requires
            old(self).wf(),
            leaves_writable(old(self).nodes(), target.raw_addrs()),
        ensures
            final(self).wf(),
            leaves_written(
                old(self).nodes(),
                final(self).nodes(),
                target.raw_addrs(),
                N::flatten(value),
            ),
            final(self).same_groups(old(self)),
            final(self).same_records(old(self)),
    {
        target.write_to(&mut self.nodes, value);
        proof {
            self.nodes.lemma_places();
        }
    }

    /// Records a step that computes a new aggregate from `inp`.
    pub fn advise<I: SVStruct<NodeTable<Cfg>>, O: SVStruct<NodeTable<Cfg>>>(
        &mut self,
        f: W,
        inp: I,
    ) -> (out: O)
        requires
            old(self).wf(),
        ensures
            final(self).wf(),
            allocated_leaves(old(self).nodes(), final(self).nodes(), out.raw_addrs(), O::shape()),
            final(self).same_groups(old(self)),
            final(self).constraints() == old(self).constraints(),
            final(self).operations().len() == old(self).operations().len() + 1,
            final(self).operations().drop_last() == old(self).operations(),
            final(self).operations().last() matches Operation::Internal(step) && step.inputs@
                == inp.raw_addrs() && step.outputs@ == out.raw_addrs() && step.func == f,
    {
        let output = O::alloc_to(&mut self.nodes);
        proof {
            lemma_allocated_coherent(old(self).nodes(), self.nodes@, output.raw_addrs(), O::shape());
        }
        let inputs = leaves_of(&self.nodes, &inp);
        let outputs = leaves_of(&self.nodes, &output);
        self.operations.push_back(Operation::Internal(InternalAdvice { inputs, outputs, func: f }));
        assert(self.operations@.drop_last() =~= old(self).operations@);
        output
    }

    /// Records a step that computes `num_outputs` new aggregates from the
    /// aggregates of `inp`.
    pub fn advise_variadic<I: SVStruct<NodeTable<Cfg>>, O: SVStruct<NodeTable<Cfg>>>(
        &mut self,
        f: W,
        num_outputs: usize,
        inp: Vec<I>,
    ) -> (out: Vec<O>)
        requires
            old(self).wf(),
        ensures
            final(self).wf(),
            out@.len() == num_outputs,
            allocated_leaves(
                old(self).nodes(),
                final(self).nodes(),
                concat_raw_addrs::<NodeTable<Cfg>, O>(out@),
                repeat_shape(O::shape(), num_outputs as nat),
            ),
            final(self).same_groups(old(self)),
            final(self).constraints() == old(self).constraints(),
            final(self).operations().len() == old(self).operations().len() + 1,
            final(self).operations().drop_last() == old(self).operations(),
            final(self).operations().last() matches Operation::Internal(step) && step.inputs@
                == concat_raw_addrs::<NodeTable<Cfg>, I>(inp@) && step.outputs@
                == concat_raw_addrs::<NodeTable<Cfg>, O>(out@) && step.func == f,
    {
        let output = alloc_many::<NodeTable<Cfg>, O>(&mut self.nodes, num_outputs);
        proof {
            lemma_allocated_coherent(
                old(self).nodes(),
                self.nodes@,
                concat_raw_addrs::<NodeTable<Cfg>, O>(output@),
                repeat_shape(O::shape(), num_outputs as nat),
            );
        }
        let inputs = leaves_of_all(&self.nodes, &inp);
        let outputs = leaves_of_all(&self.nodes, &output);
        self.operations.push_back(Operation::Internal(InternalAdvice { inputs, outputs, func: f }));
        assert(self.operations@.drop_last() =~= old(self).operations@);
        output
    }

    /// Declares a constraint of degree `deg` on the signals of `inp`. The
    /// degree that is recorded for each of them is raised to `deg` where it
    /// was lower, and a new aggregate receives what the constraint evaluates
    /// to.
    pub fn enforce<I: SigStruct<NodeTable<Cfg>>, O: CRhsStruct<NodeTable<Cfg>>>(
        &mut self,
        f: W,
        deg: usize,
        inp: I,
    ) -> (out: O)
        requires
            old(self).wf(),
            leaves_valid(old(self).nodes(), inp.raw_addrs(), I::shape()),
        ensures
            final(self).wf(),
            allocated_leaves(
                raise_degrees(old(self).nodes(), inp.raw_addrs(), deg),
                final(self).nodes(),
                out.raw_addrs(),
                O::shape(),
            ),
            forall|i: int|
                0 <= i < inp.raw_addrs().len() ==> final(self).nodes().nodes[#[trigger] inp.raw_addrs()[i]].degree
                    >= deg,
            forall|a: SimpleRaw| #[trigger]
                old(self).nodes().nodes.contains_key(a) ==> final(self).nodes().nodes[a].degree
                    >= old(self).nodes().nodes[a].degree,
            final(self).same_groups(old(self)),
            final(self).operations() == old(self).operations(),
            final(self).constraints().len() == old(self).constraints().len() + 1,
            final(self).constraints().drop_last() == old(self).constraints(),
            ({
                let last = final(self).constraints().last();
                &&& last.deg == deg
                &&& last.constr.inputs@ == inp.raw_addrs()
                &&& last.constr.outputs@ == out.raw_addrs()
                &&& last.constr.func == f
            }),
    {
        let inputs = leaves_of(&self.nodes, &inp);
        let ghost raws = inp.raw_addrs();
        assert forall|i: int| 0 <= i < raws.len() implies old(self).nodes().nodes.contains_key(
            #[trigger] raws[i],
        ) by {}
        self.nodes.raise_degrees_of(&inputs, deg);
        let ghost raised = self.nodes@;
        proof {
            lemma_raise_degrees(old(self).nodes(), raws, deg);
        }
        let output = O::alloc_to(&mut self.nodes);
        proof {
            lemma_allocated_coherent(raised, self.nodes@, output.raw_addrs(), O::shape());
            assert forall|i: int| 0 <= i < raws.len() implies self.nodes@.nodes[#[trigger] raws[i]].degree
                >= deg by {
                assert(raws.contains(raws[i]));
                assert(old(self).nodes().nodes.contains_key(raws[i]));
                assert(raised.nodes.contains_key(raws[i]));
            }
            assert forall|a: SimpleRaw| #[trigger]
                old(self).nodes().nodes.contains_key(a) implies self.nodes@.nodes[a].degree
                >= old(self).nodes().nodes[a].degree by {
                assert(raised.nodes.contains_key(a));
            }
            assert forall|a: SimpleRaw|
                self.public_group().contains(a) || self.private_group().contains(
                    a,
                ) implies (#[trigger] self.nodes().nodes.contains_key(a))
                && self.nodes().nodes[a].is_primary by {
                assert(old(self).nodes().nodes.contains_key(a));
                assert(raised.nodes.contains_key(a));
            }
        }
        let outputs = leaves_of(&self.nodes, &output);
        self.constraints.push(
            ConstrEncoding { constr: InternalAdvice { inputs, outputs, func: f }, deg },
        );
        assert(self.constraints@.drop_last() =~= old(self).constraints@);
        output
    }

    /// Declares a constraint of degree `deg` on the signals of the
    /// aggregates of `inp`. The degree that is recorded for each of them is
    /// raised to `deg` where it was lower, and `num_outputs` new aggregates
    /// receive what the constraint evaluates to.
    pub fn enforce_variadic<I: SigStruct<NodeTable<Cfg>>, O: CRhsStruct<NodeTable<Cfg>>>(
        &mut self,
        f: W,
        deg: usize,
        num_outputs: usize,
        inp: Vec<I>,
    ) -> (out: Vec<O>)
        requires
            old(self).wf(),
            forall|i: int|
                0 <= i < inp@.len() ==> leaves_valid(
                    old(self).nodes(),
                    (#[trigger] inp@[i]).raw_addrs(),
                    I::shape(),
                ),
        ensures
            final(self).wf(),
            out@.len() == num_outputs,
            allocated_leaves(
                raise_degrees(
                    old(self).nodes(),
                    concat_raw_addrs::<NodeTable<Cfg>, I>(inp@),
                    deg,
                ),
                final(self).nodes(),
                concat_raw_addrs::<NodeTable<Cfg>, O>(out@),
                repeat_shape(O::shape(), num_outputs as nat),
            ),
            forall|i: int|
                0 <= i < concat_raw_addrs::<NodeTable<Cfg>, I>(inp@).len() ==> final(self).nodes().nodes[#[trigger] concat_raw_addrs::<NodeTable<Cfg>, I>(inp@)[i]].degree
                    >= deg,
            forall|a: SimpleRaw| #[trigger]
                old(self).nodes().nodes.contains_key(a) ==> final(self).nodes().nodes[a].degree
                    >= old(self).nodes().nodes[a].degree,
            final(self).same_groups(old(self)),
            final(self).operations() == old(self).operations(),
            final(self).constraints().len() == old(self).constraints().len() + 1,
            final(self).constraints().drop_last() == old(self).constraints(),
            ({
                let last = final(self).constraints().last();
                &&& last.deg == deg
                &&& last.constr.inputs@ == concat_raw_addrs::<NodeTable<Cfg>, I>(inp@)
                &&& last.constr.outputs@ == concat_raw_addrs::<NodeTable<Cfg>, O>(out@)
                &&& last.constr.func == f
            }),
    {
        let inputs = leaves_of_all(&self.nodes, &inp);
        let ghost raws = concat_raw_addrs::<NodeTable<Cfg>, I>(inp@);
        proof {
            lemma_concat_valid::<NodeTable<Cfg>, I>(old(self).nodes(), inp@);
            assert forall|i: int| 0 <= i < raws.len() implies old(self).nodes().nodes.contains_key(#[trigger] raws[i]) by {}
        }
        self.nodes.raise_degrees_of(&inputs, deg);
        let ghost raised = self.nodes@;
        proof {
            lemma_raise_degrees(old(self).nodes(), raws, deg);
        }
        let output = alloc_many::<NodeTable<Cfg>, O>(&mut self.nodes, num_outputs);
        proof {
            lemma_allocated_coherent(
                raised,
                self.nodes@,
                concat_raw_addrs::<NodeTable<Cfg>, O>(output@),
                repeat_shape(O::shape(), num_outputs as nat),
            );
            assert forall|i: int| 0 <= i < raws.len() implies self.nodes@.nodes[#[trigger] raws[i]].degree
                >= deg by {
                assert(raws.contains(raws[i]));
                assert(old(self).nodes().nodes.contains_key(raws[i]));
                assert(raised.nodes.contains_key(raws[i]));
            }
            assert forall|a: SimpleRaw| #[trigger]
                old(self).nodes().nodes.contains_key(a) implies self.nodes@.nodes[a].degree
                >= old(self).nodes().nodes[a].degree by {
                assert(raised.nodes.contains_key(a));
            }
            assert forall|a: SimpleRaw|
                self.public_group().contains(a) || self.private_group().contains(
                    a,
                ) implies (#[trigger] self.nodes().nodes.contains_key(a))
                && self.nodes().nodes[a].is_primary by {
                assert(old(self).nodes().nodes.contains_key(a));
                assert(raised.nodes.contains_key(a));
            }
        }
        let outputs = leaves_of_all(&self.nodes, &output);
        self.constraints.push(
            ConstrEncoding { constr: InternalAdvice { inputs, outputs, func: f }, deg },
        );
        assert(self.constraints@.drop_last() =~= old(self).constraints@);
        output
    }

    /// Closes the groups of the current round and opens those of the next,
    /// which takes the next key. What is returned reads the public values of
    /// the round that ends and commits to its private ones; the log gets an
    /// entry for each of the two, in this order.
    pub fn next_round(&mut self) -> (closed: (PublicReadout, PrivateCommitment<Cfg>))
        requires
            old(self).wf(),
            old(self).keys().len() > 0,
        ensures
            final(self).wf(),
            closed.0@ == old(self).public_group(),
            closed.1@ == old(self).private_group(),
            closed.1.key() == old(self).private_key(),
            final(self).public_group() == Seq::<SimpleRaw>::empty(),
            final(self).private_group() == Seq::<SimpleRaw>::empty(),
            final(self).private_key() == old(self).keys()[0]@,
            final(self).keys() == old(self).keys().skip(1),
            final(self).nodes() == old(self).nodes(),
            final(self).constraints() == old(self).constraints(),
            final(self).operations().len() == old(self).operations().len() + 2,
            final(self).operations().take(old(self).operations().len() as int) == old(
                self,
            ).operations(),
            final(self).operations()[old(self).operations().len() as int] matches Operation::PublicValues(
                readout,
            ) && readout@ == old(self).public_group(),
            final(self).operations()[old(self).operations().len() as int + 1] matches Operation::Commitment(
                commitment,
            ) && commitment@ == old(self).private_group() && commitment.key() == old(
                self,
            ).private_key(),
    {
        let ckey = Arc::new(self.comm_keys.pop_front().unwrap());
        let mut pub_group = SimplePubCommGroup::new();
        let mut priv_group = SimplePrivCommGroup::new(ckey);
        core::mem::swap(&mut self.current_pub_group, &mut pub_group);
        core::mem::swap(&mut self.current_priv_group, &mut priv_group);
        let pubs = pub_group.commit();
        let priv_comm = priv_group.commit();
        self.operations.push_back(Operation::PublicValues(pubs.duplicate()));
        self.operations.push_back(Operation::Commitment(priv_comm.duplicate()));
        assert(self.operations@.take(old(self).operations@.len() as int) =~= old(
            self,
        ).operations@);
        (pubs, priv_comm)
    }

    /// Moves a signal from the private group of the current round to its
    /// public group.
    pub fn public_output(&mut self, sig: Sig<NodeTable<Cfg>, Cfg::F>)
        requires
            old(self).wf(),
            old(self).private_group().contains(sig@),
        ensures
            final(self).wf(),
            final(self).private_group() == old(self).private_group().remove_value(sig@),
            final(self).public_group() == old(self).public_group().push(sig@),
            final(self).private_key() == old(self).private_key(),
            final(self).keys() == old(self).keys(),
            final(self).nodes() == old(self).nodes(),
            final(self).same_records(old(self)),
    {
        self.current_priv_group.remove(sig);
        self.current_pub_group.add(sig);
        proof {
            let before = old(self).public_group();
            let after = self.public_group();
            assert forall|a: SimpleRaw| after.contains(a) implies before.contains(a) || a
                == sig@ by {
                let k = choose|k: int| 0 <= k < after.len() && after[k] == a;
                if k < before.len() {
                    assert(before[k] == a);
                }
            }
        }
    }

    /// Allocates a signal in the public group of the current round. The
    /// signal takes its value from outside when the graph runs: the log gets
    /// an entry that says so.
    pub fn public_input(&mut self) -> (sig: Sig<NodeTable<Cfg>, Cfg::F>) where
        Cfg: HasSigtype<Cfg::F>,

        requires
            old(self).wf(),
        ensures
            final(self).wf(),
            !old(self).nodes().nodes.contains_key(sig@),
            final(self).nodes() == old(self).nodes().with_node(
                sig@,
                NodeMeta::primary_signal(<Cfg as HasVartype<Cfg::F>>::tag()),
            ),
            final(self).public_group() == old(self).public_group().push(sig@),
            final(self).private_group() == old(self).private_group(),
            final(self).private_key() == old(self).private_key(),
            final(self).keys() == old(self).keys(),
            final(self).constraints() == old(self).constraints(),
            final(self).operations() == old(self).operations().push(Operation::Input(sig@)),
    {
        let sig = self.nodes.alloc_sig::<Cfg::F>();
        self.current_pub_group.add(sig);
        self.operations.push_back(Operation::Input(ToRawAddr::to_raw_addr(&sig)));
        proof {
            self.nodes.lemma_places();
            let before = old(self).public_group();
            let after = self.public_group();
            assert forall|a: SimpleRaw| after.contains(a) implies before.contains(a) || a
                == sig@ by {
                let k = choose|k: int| 0 <= k < after.len() && after[k] == a;
                if k < before.len() {
                    assert(before[k] == a);
                }
            }
        }
        sig
    }

    /// Allocates a signal in the private group of the current round. The
    /// signal takes its value from outside when the graph runs: the log gets
    /// an entry that says so.
    pub fn private_input(&mut self) -> (sig: Sig<NodeTable<Cfg>, Cfg::F>) where
        Cfg: HasSigtype<Cfg::F>,

        requires
            old(self).wf(),
        ensures
            final(self).wf(),
            !old(self).nodes().nodes.contains_key(sig@),
            final(self).nodes() == old(self).nodes().with_node(
                sig@,
                NodeMeta::primary_signal(<Cfg as HasVartype<Cfg::F>>::tag()),
            ),
            final(self).private_group() == old(self).private_group().push(sig@),
            final(self).public_group() == old(self).public_group(),
            final(self).private_key() == old(self).private_key(),
            final(self).keys() == old(self).keys(),
            final(self).constraints() == old(self).constraints(),
            final(self).operations() == old(self).operations().push(Operation::Input(sig@)),
    {
        let sig = self.nodes.alloc_sig::<Cfg::F>();
        self.current_priv_group.add(sig);
        self.operations.push_back(Operation::Input(ToRawAddr::to_raw_addr(&sig)));
        proof {
            self.nodes.lemma_places();
            let before = old(self).private_group();
            let after = self.private_group();
            assert forall|a: SimpleRaw| after.contains(a) implies before.contains(a) || a
                == sig@ by {
                let k = choose|k: int| 0 <= k < after.len() && after[k] == a;
                if k < before.len() {
                    assert(before[k] == a);
                }
            }
        }
        sig
    }
}

impl<Cfg: TypeConfig, W: Fn(Vec<Cfg::F>) -> Vec<Cfg::F>> SimpleCircuit<Cfg, W> {
    /// Whether a step can run on nodes in the state `state`: its inputs
    /// have been written and its outputs have not, and its function accepts
    /// the values of the inputs.
    pub open spec fn can_run(step: InternalAdvice<W>, state: CircuitState<SimpleRaw, Cfg::F>) -> bool {
        &&& leaves_assigned(state, step.inputs@)
        &&& leaves_writable(state, step.outputs@)
        &&& forall|x: Vec<Cfg::F>|
            x@ == leaves_values(state, step.inputs@) ==> call_requires(step.func, (x,))
    }

    /// Whether the function of a step, handed the values of its inputs in
    /// the state `state`, returns another number of values than the step
    /// has outputs, which `e` reports.
    pub open spec fn wrong_length(
        step: InternalAdvice<W>,
        state: CircuitState<SimpleRaw, Cfg::F>,
        e: WrongLength,
    ) -> bool {
        exists|x: Vec<Cfg::F>, y: Vec<Cfg::F>|
            {
                &&& x@ == leaves_values(state, step.inputs@)
                &&& #[trigger] call_ensures(step.func, (x,), y)
                &&& y@.len() != step.outputs@.len()
                &&& e == (WrongLength {
                    expected: step.outputs@.len() as usize,
                    returned: y@.len() as usize,
                })
            }
    }

    /// Whether `after` is what a run of a step makes of the state `before`.
    pub open spec fn has_run(
        step: InternalAdvice<W>,
        before: CircuitState<SimpleRaw, Cfg::F>,
        after: CircuitState<SimpleRaw, Cfg::F>,
    ) -> bool {
        exists|x: Vec<Cfg::F>, y: Vec<Cfg::F>|
            x@ == leaves_values(before, step.inputs@) && call_ensures(step.func, (x,), y)
                && leaves_written(before, after, step.outputs@, y@)
    }

    /// The number of entries of the log.
    pub fn num_operations(&self) -> (n: usize)
        ensures
            n == self.operations().len(),
    {
        self.operations.len()
    }

    /// The entry at a place of the log.
    pub fn operation(&self, index: usize) -> (entry: &Operation<Cfg, W>)
        requires
            index < self.operations().len(),
        ensures
            *entry == self.operations()[index as int],
    {
        &self.operations[index]
    }

    /// The number of constraints.
    pub fn num_constraints(&self) -> (n: usize)
        ensures
            n == self.constraints().len(),
    {
        self.constraints.len()
    }

    /// The degree that was declared for a constraint.
    pub fn constraint_degree(&self, index: usize) -> (deg: usize)
        requires
            index < self.constraints().len(),
        ensures
            deg == self.constraints()[index as int].deg,
    {
        self.constraints[index].deg
    }

    /// Whether the entry at a place of the log is a step whose inputs have
    /// been written and whose outputs have not.
    pub fn advice_is_ready(&self, index: usize) -> (ready: bool)
        requires
            index < self.operations().len(),
        ensures
            ready == (self.operations()[index as int] matches Operation::Internal(step)
                && leaves_assigned(self.nodes(), step.inputs@) && leaves_writable(
                self.nodes(),
                step.outputs@,
            )),
    {
        match &self.operations[index] {
            Operation::Internal(step) => self.nodes.all_assigned(&step.inputs)
                && self.nodes.all_writable(&step.outputs),
            _ => false,
        }
    }

    /// Whether the inputs of the constraint at a place of the list have
    /// been written and its outputs have not.
    pub fn constraint_is_ready(&self, index: usize) -> (ready: bool)
        requires
            index < self.constraints().len(),
        ensures
            ready == (leaves_assigned(self.nodes(), self.constraints()[index as int].constr.inputs@)
                && leaves_writable(
                self.nodes(),
                self.constraints()[index as int].constr.outputs@,
            )),
    {
        let step = &self.constraints[index].constr;
        self.nodes.all_assigned(&step.inputs) && self.nodes.all_writable(&step.outputs)
    }

    /// Runs the step that is recorded at a place of the log, against the
    /// nodes of the builder. Where its function returns another number of
    /// values than the step has outputs, nothing is written and the error
    /// says so.
    pub fn run_advice(&mut self, index: usize) -> (r: Result<(), WrongLength>)
        requires
            old(self).wf(),
            index < old(self).operations().len(),
            old(self).operations()[index as int] matches Operation::Internal(step)
                && Self::can_run(step, old(self).nodes()),
        ensures
            final(self).wf(),
            old(self).operations()[index as int] matches Operation::Internal(step) && match r {
                Ok(()) => Self::has_run(step, old(self).nodes(), final(self).nodes()),
                Err(e) => Self::wrong_length(step, old(self).nodes(), e) && final(self).nodes()
                    == old(self).nodes(),
            },
            final(self).same_groups(old(self)),
            final(self).same_records(old(self)),
    {
        let r = match &self.operations[index] {
            Operation::Internal(step) => step.call(&mut self.nodes),
            _ => Ok(()),
        };
        proof {
            self.nodes.lemma_places();
        }
        r
    }

    /// Whether the function of a step accepts one value for each input.
    pub open spec fn total(step: InternalAdvice<W>) -> bool {
        forall|x: Vec<Cfg::F>| x@.len() == step.inputs@.len() ==> call_requires(step.func, (x,))
    }

    /// Where a run stands that has the nodes of `self`.
    pub open spec fn state(
        &self,
        inputs: Seq<Cfg::F>,
        execution: Execution<Cfg>,
    ) -> RunState<Cfg> {
        RunState {
            nodes: self.nodes(),
            inputs,
            public_values: execution.values(),
            commitments: execution.commitments@,
        }
    }

    /// Whether an entry of the log can run. A step can once its inputs are
    /// written and its outputs are not; an input, while a value from outside
    /// is left and its node is not written; the readout of a round, once its
    /// signals are written; the commitment of a round, once they are and the
    /// key has one element for each.
    pub open spec fn entry_ready(entry: Operation<Cfg, W>, state: RunState<Cfg>) -> bool {
        match entry {
            Operation::Internal(step) => leaves_assigned(state.nodes, step.inputs@)
                && leaves_writable(state.nodes, step.outputs@),
            Operation::Input(addr) => state.inputs.len() > 0 && state.nodes.nodes.contains_key(addr)
                && !state.nodes.values.contains_key(addr),
            Operation::PublicValues(readout) => leaves_assigned(state.nodes, readout@),
            Operation::Commitment(commitment) => commitment@.len() == commitment.key().len()
                && leaves_assigned(state.nodes, commitment@),
        }
    }

    /// Whether `after` is what a run of an entry makes of `before`. A step
    /// writes what its function returns; an input writes the first value
    /// from outside to its node; a readout hands out the values of its
    /// signals; a commitment hands out the commitment to them under its key.
    pub open spec fn entry_ran(
        entry: Operation<Cfg, W>,
        before: RunState<Cfg>,
        after: RunState<Cfg>,
    ) -> bool {
        match entry {
            Operation::Internal(step) => Self::has_run(step, before.nodes, after.nodes)
                && after.inputs == before.inputs && after.public_values == before.public_values
                && after.commitments == before.commitments,
            Operation::Input(addr) => after == (RunState {
                nodes: before.nodes.with_value(addr, before.inputs[0]),
                inputs: before.inputs.skip(1),
                ..before
            }),
            Operation::PublicValues(readout) => after == (RunState {
                public_values: before.public_values.push(leaves_values(before.nodes, readout@)),
                ..before
            }),
            Operation::Commitment(commitment) => after == (RunState {
                commitments: before.commitments.push(
                    Cfg::msm_spec(leaves_values(before.nodes, commitment@), commitment.key()),
                ),
                ..before
            }),
        }
    }

    /// The entry is a step that could run in the state `state`, and whose
    /// function returned another number of values than the step has
    /// outputs, which `e` reports.
    pub open spec fn entry_failed(
        entry: Operation<Cfg, W>,
        state: RunState<Cfg>,
        e: WrongLength,
    ) -> bool {
        entry matches Operation::Internal(step) && Self::entry_ready(entry, state)
            && Self::wrong_length(step, state.nodes, e)
    }

    /// The entry could run in the state `before`, and `after` is what its
    /// run made of it.
    pub open spec fn entry_step(
        entry: Operation<Cfg, W>,
        before: RunState<Cfg>,
        after: RunState<Cfg>,
    ) -> bool {
        Self::entry_ready(entry, before) && Self::entry_ran(entry, before, after)
    }

    /// Whether `after` is what the runs of the first `n` entries of a log,
    /// one after the other, make of `before`.
    pub open spec fn log_ran(
        log: Seq<Operation<Cfg, W>>,
        n: nat,
        before: RunState<Cfg>,
        after: RunState<Cfg>,
    ) -> bool
        decreases n,
    {
        if n == 0 {
            after == before
        } else {
            exists|mid: RunState<Cfg>|
                Self::log_ran(log, (n - 1) as nat, before, mid) && #[trigger] Self::entry_step(
                    log[n - 1],
                    mid,
                    after,
                )
        }
    }

    /// Runs the entry at a place of the log against the nodes of the
    /// builder, if it can run, and says whether it ran. An entry that
    /// cannot run changes nothing. Neither does a step whose function
    /// returns another number of values than the step has outputs: the
    /// error says so.
    pub fn run_entry(
        &mut self,
        index: usize,
        inputs: &mut VecDeque<Cfg::F>,
        execution: &mut Execution<Cfg>,
    ) -> (r: Result<bool, WrongLength>)
        requires
            old(self).wf(),
            index < old(self).operations().len(),
            old(self).operations()[index as int] matches Operation::Internal(step) ==> Self::total(
                step,
            ),
        ensures
            final(self).wf(),
            final(self).same_groups(old(self)),
            final(self).same_records(old(self)),
            match r {
                Ok(ran) => ran == Self::entry_ready(
                    old(self).operations()[index as int],
                    old(self).state(old(inputs)@, *old(execution)),
                ) && (ran ==> Self::entry_ran(
                    old(self).operations()[index as int],
                    old(self).state(old(inputs)@, *old(execution)),
                    final(self).state(final(inputs)@, *final(execution)),
                )),
                Err(e) => Self::entry_failed(
                    old(self).operations()[index as int],
                    old(self).state(old(inputs)@, *old(execution)),
                    e,
                ),
            },
            !(r matches Ok(ran) && ran) ==> final(self).nodes() == old(self).nodes()
                && final(inputs)@ == old(inputs)@ && *final(execution) == *old(execution),
    {
        proof {
            self.nodes.lemma_places();
        }
        match &self.operations[index] {
            Operation::Internal(step) => {
                if self.nodes.all_assigned(&step.inputs) && self.nodes.all_writable(&step.outputs) {
                    let r = step.call(&mut self.nodes);
                    proof {
                        self.nodes.lemma_places();
                    }
                    match r {
                        Ok(()) => Ok(true),
                        Err(e) => Err(e),
                    }
                } else {
                    Ok(false)
                }
            },
            Operation::Input(addr) => {
                let addr = *addr;
                if inputs.len() > 0 && self.nodes.contains(addr) && self.nodes.value(addr).is_none() {
                    let value = inputs.pop_front().unwrap();
                    StandardVariables::write(&mut self.nodes, addr, value);
                    proof {
                        self.nodes.lemma_places();
                    }
                    Ok(true)
                } else {
                    Ok(false)
                }
            },
            Operation::PublicValues(readout) => {
                if readout.can_call(&self.nodes) {
                    let values = readout.call(&self.nodes);
                    execution.public_values.push(values);
                    assert(execution.values() =~= old(execution).values().push(
                        leaves_values(self.nodes(), readout@),
                    ));
                    Ok(true)
                } else {
                    Ok(false)
                }
            },
            Operation::Commitment(commitment) => {
                if commitment.can_call(&self.nodes) {
                    let committed = commitment.call(&self.nodes);
                    execution.commitments.push(committed);
                    assert(execution.values() =~= old(execution).values());
                    Ok(true)
                } else {
                    Ok(false)
                }
            },
        }
    }

    /// Runs the log from its first entry on, one entry after the other,
    /// until an entry cannot run. What is returned is the number of entries
    /// that ran: the whole log ran if it is the length of the log. Where
    /// the function of a step returns another number of values than the
    /// step has outputs, the run stops there: the error gives the place of
    /// the step.
    pub fn run_log(&mut self, inputs: &mut VecDeque<Cfg::F>, execution: &mut Execution<Cfg>) -> (r:
        Result<usize, (usize, WrongLength)>)
        requires
            old(self).wf(),
            forall|i: int|
                0 <= i < old(self).operations().len() ==> (
                #[trigger] old(self).operations()[i] matches Operation::Internal(step)
                    ==> Self::total(step)),
        ensures
            final(self).wf(),
            final(self).same_groups(old(self)),
            final(self).same_records(old(self)),
            ({
                let ran = match r {
                    Ok(ran) => ran,
                    Err(stop) => stop.0,
                };
                let end = final(self).state(final(inputs)@, *final(execution));
                &&& ran <= old(self).operations().len()
                &&& Self::log_ran(
                    old(self).operations(),
                    ran as nat,
                    old(self).state(old(inputs)@, *old(execution)),
                    end,
                )
                &&& match r {
                    Ok(_) => ran < old(self).operations().len() ==> !Self::entry_ready(
                        old(self).operations()[ran as int],
                        end,
                    ),
                    Err(stop) => ran < old(self).operations().len() && Self::entry_failed(
                        old(self).operations()[ran as int],
                        end,
                        stop.1,
                    ),
                }
            }),
    {
        let ghost log = self.operations();
        let ghost start = self.state(inputs@, *execution);
        let n = self.operations.len();
        let mut index: usize = 0;
        while index < n
            invariant
                index <= n,
                n == log.len(),
                log == old(self).operations(),
                start == old(self).state(old(inputs)@, *old(execution)),
                self.wf(),
                self.same_groups(old(self)),
                self.same_records(old(self)),
                forall|i: int|
                    0 <= i < log.len() ==> (#[trigger] log[i] matches Operation::Internal(step)
                        ==> Self::total(step)),
                Self::log_ran(log, index as nat, start, self.state(inputs@, *execution)),
            decreases n - index,
        {
            let ghost mid = self.state(inputs@, *execution);
            assert(log[index as int] matches Operation::Internal(step) ==> Self::total(step));
            match self.run_entry(index, inputs, execution) {
                Ok(true) => {},
                Ok(false) => {
                    return Ok(index);
                },
                Err(e) => {
                    assert(self.state(inputs@, *execution) =~= mid);
                    return Err((index, e));
                },
            }
            proof {
                let now = self.state(inputs@, *execution);
                let done = (index + 1) as nat;
                assert(Self::log_ran(log, (done - 1) as nat, start, mid));
                assert(Self::entry_step(log[done - 1], mid, now));
                assert(Self::log_ran(log, done, start, now));
            }
            index = index + 1;
        }
        Ok(index)
    }

    /// The step could run on nodes in the state `before`, and `after` is
    /// what its run made of them.
    pub open spec fn step_ran(
        step: InternalAdvice<W>,
        before: CircuitState<SimpleRaw, Cfg::F>,
        after: CircuitState<SimpleRaw, Cfg::F>,
    ) -> bool {
        &&& leaves_assigned(before, step.inputs@)
        &&& leaves_writable(before, step.outputs@)
        &&& Self::has_run(step, before, after)
    }

    /// Whether `after` is what the evaluations of the first `n` constraints
    /// of a list, one after the other, make of `before`.
    pub open spec fn constraints_ran(
        list: Seq<ConstrEncoding<W>>,
        n: nat,
        before: CircuitState<SimpleRaw, Cfg::F>,
        after: CircuitState<SimpleRaw, Cfg::F>,
    ) -> bool
        decreases n,
    {
        if n == 0 {
            after == before
        } else {
            exists|mid: CircuitState<SimpleRaw, Cfg::F>|
                Self::constraints_ran(list, (n - 1) as nat, before, mid) && #[trigger] Self::step_ran(
                    list[n - 1].constr,
                    mid,
                    after,
                )
        }
    }

    /// Evaluates the constraints from the first on, one after the other,
    /// until one cannot be evaluated: its inputs are not written, or its
    /// outputs are. What is returned is the number of constraints that
    /// were evaluated. Where the function of a constraint returns another
    /// number of values than the constraint has outputs, the run stops
    /// there: the error gives the place of the constraint.
    pub fn run_constraints(&mut self) -> (r: Result<usize, (usize, WrongLength)>)
        requires
            old(self).wf(),
            forall|i: int|
                0 <= i < old(self).constraints().len() ==> Self::total(
                    (#[trigger] old(self).constraints()[i]).constr,
                ),
        ensures
            final(self).wf(),
            final(self).same_groups(old(self)),
            final(self).same_records(old(self)),
            ({
                let ran = match r {
                    Ok(ran) => ran,
                    Err(stop) => stop.0,
                };
                &&& ran <= old(self).constraints().len()
                &&& Self::constraints_ran(
                    old(self).constraints(),
                    ran as nat,
                    old(self).nodes(),
                    final(self).nodes(),
                )
                &&& ran < old(self).constraints().len() ==> {
                    let step = old(self).constraints()[ran as int].constr;
                    let ready = leaves_assigned(final(self).nodes(), step.inputs@)
                        && leaves_writable(final(self).nodes(), step.outputs@);
                    match r {
                        Ok(_) => !ready,
                        Err(stop) => ready && Self::wrong_length(step, final(self).nodes(), stop.1),
                    }
                }
                &&& r is Err ==> ran < old(self).constraints().len()
            }),
    {
        let ghost list = self.constraints();
        let ghost start = self.nodes();
        let n = self.constraints.len();
        let mut index: usize = 0;
        while index < n
            invariant
                index <= n,
                n == list.len(),
                list == old(self).constraints(),
                start == old(self).nodes(),
                self.wf(),
                self.same_groups(old(self)),
                self.same_records(old(self)),
                forall|i: int| 0 <= i < list.len() ==> Self::total((#[trigger] list[i]).constr),
                Self::constraints_ran(list, index as nat, start, self.nodes()),
            decreases n - index,
        {
            let ghost mid = self.nodes();
            assert(Self::total(list[index as int].constr));
            if !self.constraint_is_ready(index) {
                return Ok(index);
            }
            match self.run_constraint(index) {
                Ok(()) => {},
                Err(e) => {
                    return Err((index, e));
                },
            }
            proof {
                let done = (index + 1) as nat;
                assert(Self::constraints_ran(list, (done - 1) as nat, start, mid));
                assert(Self::step_ran(list[done - 1].constr, mid, self.nodes()));
                assert(Self::constraints_ran(list, done, start, self.nodes()));
            }
            index = index + 1;
        }
        Ok(index)
    }

    /// Evaluates the constraint that is recorded at a place of the list,
    /// against the nodes of the builder. Where its function returns another
    /// number of values than the constraint has outputs, nothing is written
    /// and the error says so.
    pub fn run_constraint(&mut self, index: usize) -> (r: Result<(), WrongLength>)
        requires
            old(self).wf(),
            index < old(self).constraints().len(),
            Self::can_run(old(self).constraints()[index as int].constr, old(self).nodes()),
        ensures
            final(self).wf(),
            match r {
                Ok(()) => Self::has_run(
                    old(self).constraints()[index as int].constr,
                    old(self).nodes(),
                    final(self).nodes(),
                ),
                Err(e) => Self::wrong_length(
                    old(self).constraints()[index as int].constr,
                    old(self).nodes(),
                    e,
                ) && final(self).nodes() == old(self).nodes(),
            },
            final(self).same_groups(old(self)),
            final(self).same_records(old(self)),
    {
        let r = self.constraints[index].constr.call(&mut self.nodes);
        proof {
            self.nodes.lemma_places();
        }
        r
    }
}

} // verus!
