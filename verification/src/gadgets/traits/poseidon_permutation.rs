//! A sponge whose permutation is that of the builder.
use super::poseidon::{SpongeAction, SpongeState, TSponge, TSpongePrivate};
use crate::advices::{
    allocated_leaves, lemma_allocated_concat, lemma_allocated_one, DataStruct, Leaf, Role,
};
use crate::circuit::{Circuit, HasSigtype, HasVartype, Sig, Signals, StandardVariables};
use crate::default_io_impl::{Injector, IO};
use crate::node_struct::repeat_shape;
use vstd::prelude::*;

verus! {

/// The permutation of a builder of type `C`. What it does to the builder is
/// its own to say: it says it with the relation `permuted`.
pub trait PoseidonPermutationImpl<C: Circuit> {
    /// Whether the permutation of the state `inputs` makes the builder
    /// `after` of the builder `before`, and returns the state `out`.
    spec fn permuted(
        before: &C,
        after: &C,
        inputs: Seq<Sig<C, C::F>>,
        out: Seq<Sig<C, C::F>>,
    ) -> bool;

    /// The permutation of a state: as many signals as it was given.
    fn poseidon_permutation(c: &mut C, inputs: Vec<Sig<C, C::F>>) -> (out: Vec<Sig<C, C::F>>)
        ensures
            out@.len() == inputs@.len(),
            Self::permuted(old(c), final(c), inputs@, out@),
    ;
}

/// A builder that can permute a state.
pub trait PoseidonPermutation: Circuit {
    type ImplInstance: PoseidonPermutationImpl<Self>;

    /// The permutation of a state, as the permutation of the builder
    /// defines it.
    fn poseidon(&mut self, inputs: Vec<Sig<Self, Self::F>>) -> (out: Vec<Sig<Self, Self::F>>)
        ensures
            out@.len() == inputs@.len(),
            <Self::ImplInstance as PoseidonPermutationImpl<Self>>::permuted(
                old(self),
                final(self),
                inputs@,
                out@,
            ),
    {
        Self::ImplInstance::poseidon_permutation(self, inputs)
    }
}

/// A sponge over the signals of a builder of type `C`, whose tag is hashed
/// by a function of type `H` and made a field element by a function of type
/// `E`. The first signal of its state is the capacity, the others are the
/// rate.
pub struct PoseidonSponge<C: Circuit, H, E> {
    log: Vec<SpongeAction>,
    state: Vec<Sig<C, C::F>>,
    initial_capacity: Sig<C, C::F>,
    sep: usize,
    absorb_pos: usize,
    squeeze_pos: usize,
    hasher: H,
    encoder: E,
    capacity_tag: Option<[u128; 2]>,
}

impl<C, H, E> PoseidonSponge<C, H, E> where
    C: Circuit + PoseidonPermutation + Signals + StandardVariables,
    C::Config: HasSigtype<C::F>,
    H: Fn(Vec<u32>) -> [u128; 2],
    E: Fn([u128; 2]) -> C::F,
 {
    /// The signal that holds the capacity when the sponge starts.
    pub closed spec fn capacity(&self) -> Sig<C, C::F> {
        self.initial_capacity
    }

    /// The domain separator fits one word, and the state has a capacity.
    pub closed spec fn wf(&self) -> bool {
        &&& self.sep <= u32::MAX
        &&& self.state@.len() >= 1
    }

    /// The tag that the capacity was initialized with.
    pub fn capacity_tag(&self) -> (tag: Option<[u128; 2]>)
        ensures
            tag == self@.capacity_tag,
    {
        self.capacity_tag
    }

    /// The signal that holds the capacity when the sponge starts.
    pub fn capacity_signal(&self) -> (sig: Sig<C, C::F>)
        ensures
            sig == self.capacity(),
    {
        self.initial_capacity
    }

    /// The signals of the state: the capacity, then the rate.
    pub closed spec fn state(&self) -> Seq<Sig<C, C::F>> {
        self.state@
    }

    /// The state is the capacity, then the elements of the rate.
    pub proof fn lemma_state(&self)
        requires
            self.wf(),
        ensures
            self.state().len() == self@.rate + 1,
            self.state().skip(1) == self@.elements,
    {
    }

    /// A sponge of rate `rate`, at the start of its rate and with an empty
    /// log. Its state is made of new primary signals of the field: the
    /// capacity, then the rate.
    pub fn new(c: &mut C, sep: usize, rate: usize, hasher: H, encoder: E) -> (sponge: Self)
        requires
            sep <= u32::MAX,
            0 < rate < usize::MAX,
        ensures
            sponge.wf(),
            sponge@.wf(),
            sponge@.rate == rate,
            sponge@.absorb_pos == 0,
            sponge@.squeeze_pos == 0,
            sponge@.log == Seq::<SpongeAction>::empty(),
            sponge@.separator == seq![sep as u32],
            sponge@.capacity_tag is None,
            sponge@.capacity == sponge.capacity(),
            sponge.state()[0] == sponge.capacity(),
            allocated_leaves(
                old(c)@,
                final(c)@,
                sponge.state().map_values(|s: Sig<C, C::F>| s@),
                repeat_shape(
                    seq![
                        Leaf {
                            inner_type: <C::Config as HasVartype<C::F>>::tag(),
                            role: Role::Signal,
                        },
                    ],
                    (rate + 1) as nat,
                ),
            ),
    {
        let ghost leaf = Leaf {
            inner_type: <C::Config as HasVartype<C::F>>::tag(),
            role: Role::Signal,
        };
        let initial_capacity = c.alloc_sig::<C::F>();
        let mut state: Vec<Sig<C, C::F>> = Vec::new();
        state.push(initial_capacity);
        proof {
            lemma_allocated_one(old(c)@, initial_capacity@, leaf);
            assert(state@.map_values(|s: Sig<C, C::F>| s@) =~= seq![initial_capacity@]);
            assert(repeat_shape(seq![leaf], 0) =~= Seq::<Leaf>::empty());
            assert(repeat_shape(seq![leaf], 1) =~= seq![leaf]);
        }
        let mut i: usize = 0;
        while i < rate
            invariant
                i <= rate,
                state@.len() == i + 1,
                state@[0] == initial_capacity,
                leaf == (Leaf {
                    inner_type: <C::Config as HasVartype<C::F>>::tag(),
                    role: Role::Signal,
                }),
                allocated_leaves(
                    old(c)@,
                    c@,
                    state@.map_values(|s: Sig<C, C::F>| s@),
                    repeat_shape(seq![leaf], (i + 1) as nat),
                ),
            decreases rate - i,
        {
            let ghost mid = c@;
            let ghost before = state@.map_values(|s: Sig<C, C::F>| s@);
            let element = c.alloc_sig::<C::F>();
            state.push(element);
            proof {
                lemma_allocated_one(mid, element@, leaf);
                lemma_allocated_concat(
                    old(c)@,
                    mid,
                    c@,
                    before,
                    repeat_shape(seq![leaf], (i + 1) as nat),
                    seq![element@],
                    seq![leaf],
                );
                assert(state@.map_values(|s: Sig<C, C::F>| s@) =~= before + seq![element@]);
            }
            i = i + 1;
        }
        let sponge = PoseidonSponge {
            log: Vec::new(),
            state,
            initial_capacity,
            sep,
            absorb_pos: 0,
            squeeze_pos: 0,
            hasher,
            encoder,
            capacity_tag: None,
        };
        assert(sponge@.separator =~= seq![sep as u32]);
        sponge
    }
}

impl<C, H, E> TSpongePrivate<C> for PoseidonSponge<C, H, E> where
    C: Circuit + PoseidonPermutation + Signals + StandardVariables,
    C::Config: HasSigtype<C::F>,
    H: Fn(Vec<u32>) -> [u128; 2],
    E: Fn([u128; 2]) -> C::F,
 {
    type DomainSeparator = usize;

    closed spec fn view(&self) -> SpongeState<C> {
        SpongeState {
            rate: if self.state@.len() >= 1 {
                (self.state@.len() - 1) as nat
            } else {
                0
            },
            absorb_pos: self.absorb_pos as nat,
            squeeze_pos: self.squeeze_pos as nat,
            log: self.log@,
            elements: if self.state@.len() >= 1 {
                self.state@.skip(1)
            } else {
                Seq::empty()
            },
            separator: seq![self.sep as u32],
            capacity_tag: self.capacity_tag,
            capacity: self.initial_capacity,
        }
    }

    closed spec fn hashable(&self, items: Seq<u32>) -> bool {
        forall|list: Vec<u32>| list@ == items ==> call_requires(self.hasher, (list,))
    }

    closed spec fn hashes_to(&self, items: Seq<u32>, tag: [u128; 2]) -> bool {
        exists|list: Vec<u32>| list@ == items && call_ensures(self.hasher, (list,), tag)
    }

    closed spec fn encodable(&self, tag: [u128; 2]) -> bool {
        call_requires(self.encoder, (tag,))
    }

    closed spec fn encodes(&self, tag: [u128; 2], value: C::F) -> bool {
        call_ensures(self.encoder, (tag,), value)
    }

    fn rate(&self) -> (rate: usize) {
        self.state.len() - 1
    }

    fn absorb_pos(&self) -> (pos: usize) {
        self.absorb_pos
    }

    fn set_absorb_pos(&mut self, new_pos: usize) {
        self.absorb_pos = new_pos
    }

    fn squeeze_pos(&self) -> (pos: usize) {
        self.squeeze_pos
    }

    fn set_squeeze_pos(&mut self, new_pos: usize) {
        self.squeeze_pos = new_pos
    }

    fn add_log(&mut self, action: SpongeAction) {
        self.log.push(action)
    }

    fn get_log(&self) -> (log: Vec<SpongeAction>) {
        let mut log: Vec<SpongeAction> = Vec::new();
        let mut i: usize = 0;
        while i < self.log.len()
            invariant
                i <= self.log.len(),
                log@ == self.log@.take(i as int),
            decreases self.log.len() - i,
        {
            log.push(self.log[i]);
            assert(log@ =~= self.log@.take(i + 1));
            i = i + 1;
        }
        assert(self.log@.take(self.log.len() as int) =~= self.log@);
        log
    }

    fn tag_hasher(&self, items: Vec<u32>) -> (tag: [u128; 2]) {
        let ghost list = items;
        let tag = (self.hasher)(items);
        assert(call_ensures(self.hasher, (list,), tag));
        tag
    }

    fn serialized_domain_separator(&self) -> (words: Vec<u32>) {
        let mut words: Vec<u32> = Vec::new();
        words.push(#[verifier::truncate] (self.sep as u32));
        words
    }

    fn initialize_capacity(&mut self, c: &mut C, tag: [u128; 2]) {
        let value = (self.encoder)(tag);
        assert(call_ensures(self.encoder, (tag,), value));
        let injector = self.initial_capacity.inputize(c);
        proof {
            let raws = self.initial_capacity.raw_addrs();
            assert(raws =~= seq![self.initial_capacity@]);
            assert(raws[0] == self.initial_capacity@);
        }
        injector.call(c, value);
        self.capacity_tag = Some(tag);
        proof {
            let addr = self.initial_capacity@;
            let raws = self.initial_capacity.raw_addrs();
            assert(raws.contains(raws[0]));
            assert(c@.values =~= old(c)@.values.insert(addr, value)) by {
                assert forall|a: C::RawAddr| c@.values.contains_key(a) <==> old(
                    c,
                )@.values.contains_key(a) || a == addr by {
                    if raws.contains(a) {
                        let i = choose|i: int| 0 <= i < raws.len() && raws[i] == a;
                    }
                }
            }
            assert(c@.values[raws[0]] == value);
            assert(c@ =~= old(c)@.with_value(addr, value));
            assert(old(self).encodes(tag, value));
            assert(old(self)@.capacity@ == addr);
        }
    }

    fn read_rate_element(&self, offset: usize) -> (element: Sig<C, C::F>) {
        self.state[1 + offset]
    }

    fn add_rate_element(&mut self, offset: usize, value: Sig<C, C::F>) {
        self.state[1 + offset] = value;
        assert(self.state@.skip(1) =~= old(self).state@.skip(1).update(offset as int, value));
    }

    fn permute(&mut self, c: &mut C)
        ensures
            <C::ImplInstance as PoseidonPermutationImpl<C>>::permuted(
                old(c),
                final(c),
                old(self).state(),
                final(self).state(),
            ),
            final(self).state().len() == old(self).state().len(),
            final(self).capacity() == old(self).capacity(),
            old(self).wf() ==> final(self).wf(),
    {
        let mut state: Vec<Sig<C, C::F>> = Vec::new();
        core::mem::swap(&mut self.state, &mut state);
        self.state = c.poseidon(state);
    }
}

impl<C, H, E> TSponge<C> for PoseidonSponge<C, H, E> where
    C: Circuit + PoseidonPermutation + Signals + StandardVariables,
    C::Config: HasSigtype<C::F>,
    H: Fn(Vec<u32>) -> [u128; 2],
    E: Fn([u128; 2]) -> C::F,
 {

}

} // verus!
