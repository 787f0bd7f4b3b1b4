//! Aggregates of typed addresses, as advices see them.
use crate::backend::api::{AllowsStruct, DeducteAddressesOf, RTAdvice, RTGraph};
use crate::backend::storage::Storage;
use crate::circuit::{Circuit, CircuitState, InnerType, NodeMeta};
use vstd::prelude::*;

verus! {

/// The part a node plays for the handle that names it.
#[derive(Clone, Copy, Debug, PartialEq, Eq, Structural)]
pub enum Role {
    Variable,
    Signal,
    Constant,
    ConstrRhs,
}

/// A witness function has returned another number of values than its step
/// has outputs.
#[derive(Clone, Copy, Debug, PartialEq, Eq, Structural)]
pub struct WrongLength {
    /// The number of outputs of the step.
    pub expected: usize,
    /// The number of values that the function returned.
    pub returned: usize,
}

/// What one leaf of an aggregate demands of its node.
#[derive(Clone, Copy, Debug, PartialEq, Eq, Structural)]
pub struct Leaf {
    pub inner_type: InnerType,
    pub role: Role,
}

impl Leaf {
    /// Whether a node with this metadata can stand behind the leaf.
    pub open spec fn accepts(self, meta: NodeMeta) -> bool {
        &&& meta.inner_type == self.inner_type
        &&& match self.role {
            Role::Variable => meta.is_var,
            Role::Signal => meta.is_var && meta.is_sig,
            Role::Constant => meta.is_var && meta.is_const,
            Role::ConstrRhs => meta.is_constr_rhs,
        }
    }

    /// The metadata of the node that is allocated for the leaf.
    pub open spec fn allocated(self) -> NodeMeta {
        match self.role {
            Role::Variable => NodeMeta::variable(self.inner_type),
            Role::Signal => NodeMeta::primary_signal(self.inner_type),
            Role::Constant => NodeMeta::constant(self.inner_type),
            Role::ConstrRhs => NodeMeta::constr_rhs(self.inner_type),
        }
    }

    /// A node that was allocated for a leaf can stand behind it, and its
    /// roles are coherent.
    pub proof fn lemma_allocated_accepted(self)
        ensures
            self.accepts(self.allocated()),
            self.allocated().coherent(),
    {
    }
}

/// `after` is `before` with one new node for each leaf: the nodes `raws` are
/// new and distinct, the `i`-th has the metadata that `shape[i]` asks for,
/// and nothing else has changed.
pub open spec fn allocated_leaves<A, V>(
    before: CircuitState<A, V>,
    after: CircuitState<A, V>,
    raws: Seq<A>,
    shape: Seq<Leaf>,
) -> bool {
    &&& raws.len() == shape.len()
    &&& raws.no_duplicates()
    &&& forall|i: int| 0 <= i < raws.len() ==> !before.nodes.contains_key(#[trigger] raws[i])
    &&& after.bounds == before.bounds
    &&& after.values == before.values
    &&& forall|a: A| #[trigger]
        after.nodes.contains_key(a) <==> before.nodes.contains_key(a) || raws.contains(a)
    &&& forall|a: A| before.nodes.contains_key(a) ==> #[trigger] after.nodes[a] == before.nodes[a]
    &&& forall|i: int|
        0 <= i < raws.len() ==> after.nodes[#[trigger] raws[i]] == shape[i].allocated()
}

/// Allocating nothing changes nothing.
pub proof fn lemma_allocated_none<A, V>(state: CircuitState<A, V>)
    ensures
        allocated_leaves(state, state, Seq::<A>::empty(), Seq::<Leaf>::empty()),
{
}

/// The allocation of one node is the allocation of a list of one leaf.
pub proof fn lemma_allocated_one<A, V>(before: CircuitState<A, V>, addr: A, leaf: Leaf)
    requires
        !before.nodes.contains_key(addr),
    ensures
        allocated_leaves(before, before.with_node(addr, leaf.allocated()), seq![addr], seq![leaf]),
{
    let after = before.with_node(addr, leaf.allocated());
    let raws = seq![addr];
    assert(raws[0] == addr);
    assert forall|a: A| #[trigger]
        after.nodes.contains_key(a) <==> before.nodes.contains_key(a) || raws.contains(a) by {
        if raws.contains(a) {
            let i = choose|i: int| 0 <= i < raws.len() && raws[i] == a;
            assert(a == addr);
        }
    }
}

/// Two allocations in a row are the allocation of both lists of leaves.
pub proof fn lemma_allocated_concat<A, V>(
    s0: CircuitState<A, V>,
    s1: CircuitState<A, V>,
    s2: CircuitState<A, V>,
    r1: Seq<A>,
    sh1: Seq<Leaf>,
    r2: Seq<A>,
    sh2: Seq<Leaf>,
)
    requires
        allocated_leaves(s0, s1, r1, sh1),
        allocated_leaves(s1, s2, r2, sh2),
    ensures
        allocated_leaves(s0, s2, r1 + r2, sh1 + sh2),
{
    let r = r1 + r2;
    let sh = sh1 + sh2;
    assert forall|i: int, j: int| 0 <= i < r.len() && 0 <= j < r.len() && i != j implies r[i]
        != r[j] by {
        if i < r1.len() && j >= r1.len() {
            assert(r1.contains(r1[i]));
            assert(s1.nodes.contains_key(r1[i]));
            assert(!s1.nodes.contains_key(r2[j - r1.len()]));
        } else if j < r1.len() && i >= r1.len() {
            assert(r1.contains(r1[j]));
            assert(s1.nodes.contains_key(r1[j]));
            assert(!s1.nodes.contains_key(r2[i - r1.len()]));
        }
    }
    assert forall|i: int| 0 <= i < r.len() implies !s0.nodes.contains_key(#[trigger] r[i]) by {
        if i >= r1.len() {
            assert(!s1.nodes.contains_key(r2[i - r1.len()]));
        }
    }
    assert forall|a: A| #[trigger]
        s2.nodes.contains_key(a) <==> s0.nodes.contains_key(a) || r.contains(a) by {
        if r1.contains(a) {
            let i = choose|i: int| 0 <= i < r1.len() && r1[i] == a;
            assert(r[i] == a);
        }
        if r2.contains(a) {
            let i = choose|i: int| 0 <= i < r2.len() && r2[i] == a;
            assert(r[i + r1.len()] == a);
        }
        if r.contains(a) {
            let i = choose|i: int| 0 <= i < r.len() && r[i] == a;
            if i < r1.len() {
                assert(r1[i] == a);
            } else {
                assert(r2[i - r1.len()] == a);
            }
        }
        assert(s1.nodes.contains_key(a) <==> s0.nodes.contains_key(a) || r1.contains(a));
    }
    assert forall|a: A| s0.nodes.contains_key(a) implies #[trigger] s2.nodes[a] == s0.nodes[a] by {
        assert(s1.nodes.contains_key(a));
        assert(s1.nodes[a] == s0.nodes[a]);
    }
    assert forall|i: int| 0 <= i < r.len() implies s2.nodes[#[trigger] r[i]]
        == sh[i].allocated() by {
        if i < r1.len() {
            assert(r1.contains(r1[i]));
            assert(s1.nodes.contains_key(r1[i]));
            assert(s2.nodes[r1[i]] == s1.nodes[r1[i]]);
        } else {
            assert(r[i] == r2[i - r1.len()]);
        }
    }
}

/// Allocating leaves keeps the roles of every node coherent.
pub proof fn lemma_allocated_coherent<A, V>(
    before: CircuitState<A, V>,
    after: CircuitState<A, V>,
    raws: Seq<A>,
    shape: Seq<Leaf>,
)
    requires
        allocated_leaves(before, after, raws, shape),
        before.coherent(),
    ensures
        after.coherent(),
{
    assert forall|a: A| after.nodes.contains_key(a) implies (#[trigger] after.nodes[a]).coherent() by {
        if before.nodes.contains_key(a) {
            assert(after.nodes[a] == before.nodes[a]);
        } else {
            let i = choose|i: int| 0 <= i < raws.len() && raws[i] == a;
            shape[i].lemma_allocated_accepted();
        }
    }
    assert forall|a: A| after.bounds.dom().contains(a) implies after.nodes.dom().contains(a) by {
        assert(before.bounds.dom().contains(a));
        assert(before.nodes.dom().contains(a));
        assert(before.nodes.contains_key(a));
    }
    assert forall|a: A| after.values.dom().contains(a) implies after.nodes.dom().contains(a) by {
        assert(before.values.dom().contains(a));
        assert(before.nodes.dom().contains(a));
        assert(before.nodes.contains_key(a));
    }
}

/// An aggregate of typed addresses of a builder of type `C`.
pub trait DataStruct<C: Circuit>: Sized {
    /// The shape of the values that the aggregate holds when the graph runs.
    type FStruct;

    /// The addresses of the leaves, from left to right.
    spec fn raw_addrs(&self) -> Seq<C::RawAddr>;

    /// What each leaf demands of its node, from left to right.
    spec fn shape() -> Seq<Leaf>;

    /// Every aggregate of one type has the same number of leaves.
    proof fn lemma_shape(&self)
        ensures
            self.raw_addrs().len() == Self::shape().len(),
    ;

    /// Allocates one new node for each leaf.
    fn alloc_to(c: &mut C) -> (s: Self)
        ensures
            allocated_leaves(old(c)@, final(c)@, s.raw_addrs(), Self::shape()),
    ;
}

impl<C: Circuit> DataStruct<C> for () {
    type FStruct = ();

    open spec fn raw_addrs(&self) -> Seq<C::RawAddr> {
        Seq::empty()
    }

    open spec fn shape() -> Seq<Leaf> {
        Seq::empty()
    }

    proof fn lemma_shape(&self) {
    }

    fn alloc_to(c: &mut C) -> (s: Self) {
    }
}

/// `to[i]` is what `mapping` makes of `from[i]`, for each `i`.
pub open spec fn mapped<A, B, F: Fn(A) -> B>(mapping: F, from: Seq<A>, to: Seq<B>) -> bool {
    &&& from.len() == to.len()
    &&& forall|i: int| 0 <= i < from.len() ==> call_ensures(mapping, (#[trigger] from[i],), to[i])
}

/// `mapping` accepts every address of the list.
pub open spec fn maps_all<A, B, F: Fn(A) -> B>(mapping: F, from: Seq<A>) -> bool {
    forall|i: int| 0 <= i < from.len() ==> call_requires(mapping, (#[trigger] from[i],))
}

/// An aggregate of a builder that can be lowered to an aggregate `DS` of
/// addresses of a store: each leaf is sent to the cell that `mapping` gives.
pub trait CompileableStruct<C, S, F, DS>: DataStruct<C> where
    C: Circuit,
    S: Storage,
    F: Fn(C::RawAddr) -> S::RawAddr,
    S: AllowsStruct<DS>,
 {
    fn compile(&self, s: &mut S, mapping: &F) -> (compiled: DS)
        requires
            maps_all(*mapping, self.raw_addrs()),
        ensures
            *final(s) == *old(s),
            mapped(*mapping, self.raw_addrs(), <S as DeducteAddressesOf<DS>>::addresses_of(&compiled)),
    ;
}

impl<C, S, F> CompileableStruct<C, S, F, ()> for () where
    C: Circuit,
    S: Storage,
    F: Fn(C::RawAddr) -> S::RawAddr,
 {
    fn compile(&self, s: &mut S, mapping: &F) -> (compiled: ()) {
    }
}

/// An advice of a builder that can be lowered to one that runs against a
/// store.
pub trait TAdvice<C, S, F> where C: Circuit, S: Storage, F: Fn(C::RawAddr) -> S::RawAddr {
    type Compiled: RTAdvice<S>;

    /// The nodes that the advice reads.
    spec fn input_raws(&self) -> Seq<C::RawAddr>;

    /// The nodes that the advice writes.
    spec fn output_raws(&self) -> Seq<C::RawAddr>;

    /// The advice over the cells that `mapping` gives for its nodes.
    fn compile(&self, s: &mut S, mapping: &F) -> (compiled: Self::Compiled)
        requires
            maps_all(*mapping, self.input_raws()),
            maps_all(*mapping, self.output_raws()),
        ensures
            *final(s) == *old(s),
            mapped(*mapping, self.input_raws(), compiled.input_addrs()),
            mapped(*mapping, self.output_raws(), compiled.output_addrs()),
    ;
}

/// Lowers the advices of a log one by one: the `i`-th advice of the result
/// is the `i`-th of the log over the cells that `mapping` gives.
pub fn compile_all<C, S, F, A>(advices: &Vec<A>, s: &mut S, mapping: &F) -> (compiled: Vec<
    A::Compiled,
>) where C: Circuit, S: Storage, F: Fn(C::RawAddr) -> S::RawAddr, A: TAdvice<C, S, F>
    requires
        forall|i: int|
            0 <= i < advices@.len() ==> maps_all(*mapping, (#[trigger] advices@[i]).input_raws())
                && maps_all(*mapping, advices@[i].output_raws()),
    ensures
        *final(s) == *old(s),
        compiled@.len() == advices@.len(),
        forall|i: int|
            0 <= i < advices@.len() ==> mapped(
                *mapping,
                (#[trigger] advices@[i]).input_raws(),
                compiled@[i].input_addrs(),
            ) && mapped(*mapping, advices@[i].output_raws(), compiled@[i].output_addrs()),
{
    let mut compiled: Vec<A::Compiled> = Vec::new();
    let mut i: usize = 0;
    while i < advices.len()
        invariant
            i <= advices.len(),
            *s == *old(s),
            compiled@.len() == i,
            forall|i: int|
                0 <= i < advices@.len() ==> maps_all(
                    *mapping,
                    (#[trigger] advices@[i]).input_raws(),
                ) && maps_all(*mapping, advices@[i].output_raws()),
            forall|j: int|
                0 <= j < i ==> mapped(
                    *mapping,
                    (#[trigger] advices@[j]).input_raws(),
                    compiled@[j].input_addrs(),
                ) && mapped(*mapping, advices@[j].output_raws(), compiled@[j].output_addrs()),
        decreases advices.len() - i,
    {
        let next = advices[i].compile(s, mapping);
        compiled.push(next);
        i = i + 1;
    }
    compiled
}

/// What records advices of type `A` over the nodes of a builder and lowers
/// them to a graph over a store.
pub trait Advices<A> {
    /// The builder whose nodes the advices read and write.
    type Builder: Circuit;

    type Storage: Storage;

    /// The advices that were recorded, oldest first.
    spec fn advices(&self) -> Seq<A>;

    /// The nodes of the builder.
    spec fn nodes(&self) -> CircuitState<
        <Self::Builder as Circuit>::RawAddr,
        <Self::Builder as Circuit>::F,
    >;

    /// Records an advice whose output was allocated before.
    fn advise_to_unassigned(&mut self, advice: A)
        ensures
            final(self).advices() == old(self).advices().push(advice),
            final(self).nodes() == old(self).nodes(),
    ;

    /// The graph of the recorded advices over the cells that `mapping`
    /// gives: one advice for each, in the order of the log.
    fn compile_execution_graph<F>(&self, s: &mut Self::Storage, mapping: &F) -> (graph: RTGraph<
        Self::Storage,
        A::Compiled,
    >) where
        F: Fn(<Self::Builder as Circuit>::RawAddr) -> <Self::Storage as Storage>::RawAddr,
        A: TAdvice<Self::Builder, Self::Storage, F>,

        requires
            forall|i: int|
                0 <= i < self.advices().len() ==> maps_all(
                    *mapping,
                    (#[trigger] self.advices()[i]).input_raws(),
                ) && maps_all(*mapping, self.advices()[i].output_raws()),
        ensures
            *final(s) == *old(s),
            graph.advices@.len() == self.advices().len(),
            forall|i: int|
                0 <= i < self.advices().len() ==> mapped(
                    *mapping,
                    (#[trigger] self.advices()[i]).input_raws(),
                    graph.advices@[i].input_addrs(),
                ) && mapped(
                    *mapping,
                    self.advices()[i].output_raws(),
                    graph.advices@[i].output_addrs(),
                ),
    ;
}

} // verus!
