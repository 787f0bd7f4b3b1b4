//! The sponge: what is absorbed and squeezed, where, and the tag that binds
//! a sponge to the pattern of its use.
use crate::circuit::{Circuit, Sig};
use vstd::prelude::*;

verus! {

/// One use of a sponge: so many elements absorbed, or so many squeezed.
#[derive(Clone, Copy, Debug, PartialEq, Eq, Structural)]
pub enum SpongeAction {
    Absorb(u32),
    Squeeze(u32),
}

impl SpongeAction {
    /// The number of elements.
    pub open spec fn count(self) -> u32 {
        match self {
            SpongeAction::Absorb(v) => v,
            SpongeAction::Squeeze(v) => v,
        }
    }

    /// The action as one word: the count, with the highest bit flipped for
    /// an absorption.
    pub open spec fn serialized(self) -> u32 {
        match self {
            SpongeAction::Absorb(v) => 0x8000_0000u32 ^ v,
            SpongeAction::Squeeze(v) => v,
        }
    }

    pub fn serialize(self) -> (word: u32)
        ensures
            word == self.serialized(),
    {
        match self {
            SpongeAction::Absorb(v) => {
                assert(1u32 << 31 == 0x8000_0000u32) by (bit_vector);
                1 << 31 ^ v
            },
            SpongeAction::Squeeze(v) => v,
        }
    }

    /// Flipping the highest bit adds two to the power of 31 to a count below
    /// it, and takes it from a count that is not.
    pub proof fn lemma_serialized_absorb(v: u32)
        ensures
            SpongeAction::Absorb(v).serialized() == if v < 0x8000_0000 {
                v + 0x8000_0000
            } else {
                v - 0x8000_0000
            },
    {
        assert(0x8000_0000u32 ^ v == if v < 0x8000_0000 {
            (v + 0x8000_0000) as u32
        } else {
            (v - 0x8000_0000) as u32
        }) by (bit_vector);
    }

    /// Whether two actions are of one kind.
    pub open spec fn same_kind(self, other: SpongeAction) -> bool {
        (self is Absorb) == (other is Absorb)
    }

    /// The action of the kind of `self` that counts `count` elements.
    pub open spec fn with_count(self, count: u32) -> SpongeAction {
        match self {
            SpongeAction::Absorb(_) => SpongeAction::Absorb(count),
            SpongeAction::Squeeze(_) => SpongeAction::Squeeze(count),
        }
    }
}

/// The log with every run of actions of one kind replaced by one action
/// that counts the elements of the run. Counts are kept as they are where
/// their sum does not fit `u32`: see [`merge_fits`].
pub open spec fn merged(log: Seq<SpongeAction>) -> Seq<SpongeAction>
    decreases log.len(),
{
    if log.len() == 0 {
        Seq::empty()
    } else {
        let front = merged(log.drop_last());
        let next = log.last();
        if front.len() > 0 && front.last().same_kind(next) {
            front.drop_last().push(
                next.with_count((front.last().count() + next.count()) as u32),
            )
        } else {
            front.push(next)
        }
    }
}

/// Whether the count of every run of the log fits `u32`.
pub open spec fn merge_fits(log: Seq<SpongeAction>) -> bool
    decreases log.len(),
{
    if log.len() == 0 {
        true
    } else {
        let front = merged(log.drop_last());
        let next = log.last();
        &&& merge_fits(log.drop_last())
        &&& front.len() > 0 && front.last().same_kind(next) ==> front.last().count()
            + next.count() <= u32::MAX
    }
}

/// The words of a list of actions.
pub open spec fn serialized_all(actions: Seq<SpongeAction>) -> Seq<u32> {
    actions.map_values(|a: SpongeAction| a.serialized())
}

/// The words that are hashed into the tag of a sponge: those of its merged
/// log, then those of its domain separator.
pub open spec fn prepared_tag(log: Seq<SpongeAction>, separator: Seq<u32>) -> Seq<u32> {
    serialized_all(merged(log)) + separator
}

/// Merges every run of actions of one kind into one action.
pub fn merge_log(log: &Vec<SpongeAction>) -> (out: Vec<SpongeAction>)
    requires
        merge_fits(log@),
    ensures
        out@ == merged(log@),
{
    let mut out: Vec<SpongeAction> = Vec::new();
    let mut i: usize = 0;
    assert(log@.take(0) =~= Seq::<SpongeAction>::empty());
    while i < log.len()
        invariant
            i <= log.len(),
            merge_fits(log@),
            merge_fits(log@.take(i as int)),
            out@ == merged(log@.take(i as int)),
        decreases log.len() - i,
    {
        let next = log[i];
        proof {
            assert(log@.take(i + 1).drop_last() =~= log@.take(i as int));
            assert(log@.take(i + 1).last() == next);
            lemma_merge_fits_prefix(log@, i + 1);
        }
        let n = out.len();
        if n == 0 {
            out.push(next);
        } else {
            let last = out[n - 1];
            match (last, next) {
                (SpongeAction::Absorb(a), SpongeAction::Absorb(b)) => {
                    out.pop();
                    out.push(SpongeAction::Absorb(a + b));
                },
                (SpongeAction::Squeeze(a), SpongeAction::Squeeze(b)) => {
                    out.pop();
                    out.push(SpongeAction::Squeeze(a + b));
                },
                (SpongeAction::Absorb(_), SpongeAction::Squeeze(_)) => {
                    out.push(next);
                },
                (SpongeAction::Squeeze(_), SpongeAction::Absorb(_)) => {
                    out.push(next);
                },
            }
        }
        assert(out@ =~= merged(log@.take(i + 1)));
        i = i + 1;
    }
    assert(log@.take(log.len() as int) =~= log@);
    out
}

/// The counts of the runs of a part of a log fit when those of the log do.
pub proof fn lemma_merge_fits_prefix(log: Seq<SpongeAction>, j: int)
    requires
        0 <= j <= log.len(),
        merge_fits(log),
    ensures
        merge_fits(log.take(j)),
    decreases log.len() - j,
{
    if j < log.len() {
        lemma_merge_fits_prefix(log, j + 1);
        assert(log.take(j + 1).drop_last() =~= log.take(j));
    } else {
        assert(log.take(j) =~= log);
    }
}

/// The words that are hashed into the tag of a sponge.
pub fn prepare_tag(log: &Vec<SpongeAction>, separator: &Vec<u32>) -> (tag: Vec<u32>)
    requires
        merge_fits(log@),
    ensures
        tag@ == prepared_tag(log@, separator@),
{
    let actions = merge_log(log);
    let mut tag: Vec<u32> = Vec::new();
    let mut i: usize = 0;
    while i < actions.len()
        invariant
            i <= actions.len(),
            tag@ == serialized_all(actions@.take(i as int)),
        decreases actions.len() - i,
    {
        tag.push(actions[i].serialize());
        assert(tag@ =~= serialized_all(actions@.take(i + 1)));
        i = i + 1;
    }
    assert(actions@.take(actions.len() as int) =~= actions@);
    let mut more = separator.clone();
    tag.append(&mut more);
    tag
}

/// What a sponge is at one moment.
pub struct SpongeState<C: Circuit> {
    /// The number of elements that are absorbed or squeezed between two
    /// permutations.
    pub rate: nat,
    /// The place of the next element that is absorbed.
    pub absorb_pos: nat,
    /// The place of the next element that is squeezed.
    pub squeeze_pos: nat,
    /// What the sponge was used for, oldest first.
    pub log: Seq<SpongeAction>,
    /// The elements of the rate.
    pub elements: Seq<Sig<C, C::F>>,
    /// The words of the domain separator.
    pub separator: Seq<u32>,
    /// The tag that the capacity was initialized with.
    pub capacity_tag: Option<[u128; 2]>,
    /// The signal that holds the capacity when the sponge starts.
    pub capacity: Sig<C, C::F>,
}

impl<C: Circuit> SpongeState<C> {
    /// There is one element for each place of the rate, the rate is not
    /// empty, and the two places are in the rate or right behind it.
    pub open spec fn wf(self) -> bool {
        &&& self.rate > 0
        &&& self.rate < usize::MAX
        &&& self.elements.len() == self.rate
        &&& self.absorb_pos <= self.rate
        &&& self.squeeze_pos <= self.rate
    }

    /// The place of the element that is absorbed after the next.
    pub open spec fn next_absorb_pos(self) -> nat {
        if self.absorb_pos == self.rate {
            1
        } else {
            self.absorb_pos + 1
        }
    }

    /// The place of the element that is squeezed after the next.
    pub open spec fn next_squeeze_pos(self) -> nat {
        if self.squeeze_pos == self.rate {
            1
        } else {
            self.squeeze_pos + 1
        }
    }

    /// The place of the next element to absorb once `k` more elements have
    /// been absorbed.
    pub open spec fn absorb_pos_after(self, k: nat) -> nat
        decreases k,
    {
        if k == 0 {
            self.absorb_pos
        } else {
            let before = self.absorb_pos_after((k - 1) as nat);
            if before == self.rate {
                1
            } else {
                before + 1
            }
        }
    }

    /// The place of the next element to squeeze once `k` more elements
    /// have been squeezed.
    pub open spec fn squeeze_pos_after(self, k: nat) -> nat
        decreases k,
    {
        if k == 0 {
            self.squeeze_pos
        } else {
            let before = self.squeeze_pos_after((k - 1) as nat);
            if before == self.rate {
                1
            } else {
                before + 1
            }
        }
    }
}

/// The inner workings of a sponge over signals of a builder of type `C`.
pub trait TSpongePrivate<C: Circuit>: Sized {
    type DomainSeparator;

    spec fn view(&self) -> SpongeState<C>;

    /// Whether the tag hasher accepts `items`.
    spec fn hashable(&self, items: Seq<u32>) -> bool;

    /// Whether `tag` is what the tag hasher makes of `items`.
    spec fn hashes_to(&self, items: Seq<u32>, tag: [u128; 2]) -> bool;

    /// Whether the sponge can make a field element of `tag`.
    spec fn encodable(&self, tag: [u128; 2]) -> bool;

    /// Whether `value` is the field element that the sponge makes of `tag`.
    spec fn encodes(&self, tag: [u128; 2], value: C::F) -> bool;

    fn rate(&self) -> (rate: usize)
        requires
            self@.wf(),
        ensures
            rate == self@.rate,
    ;

    fn absorb_pos(&self) -> (pos: usize)
        requires
            self@.wf(),
        ensures
            pos == self@.absorb_pos,
    ;

    fn set_absorb_pos(&mut self, new_pos: usize)
        requires
            old(self)@.wf(),
            new_pos <= old(self)@.rate,
        ensures
            final(self)@ == (SpongeState { absorb_pos: new_pos as nat, ..old(self)@ }),
    ;

    fn squeeze_pos(&self) -> (pos: usize)
        requires
            self@.wf(),
        ensures
            pos == self@.squeeze_pos,
    ;

    fn set_squeeze_pos(&mut self, new_pos: usize)
        requires
            old(self)@.wf(),
            new_pos <= old(self)@.rate,
        ensures
            final(self)@ == (SpongeState { squeeze_pos: new_pos as nat, ..old(self)@ }),
    ;

    fn add_log(&mut self, action: SpongeAction)
        ensures
            final(self)@ == (SpongeState { log: old(self)@.log.push(action), ..old(self)@ }),
    ;

    fn get_log(&self) -> (log: Vec<SpongeAction>)
        ensures
            log@ == self@.log,
    ;

    fn tag_hasher(&self, items: Vec<u32>) -> (tag: [u128; 2])
        requires
            self.hashable(items@),
        ensures
            self.hashes_to(items@, tag),
    ;

    fn serialized_domain_separator(&self) -> (words: Vec<u32>)
        ensures
            words@ == self@.separator,
    ;

    /// Initializes the capacity with a tag: the field element that stands
    /// for the tag is written to the signal that holds the capacity, which
    /// was not written before.
    fn initialize_capacity(&mut self, c: &mut C, tag: [u128; 2])
        requires
            old(c)@.nodes.contains_key(old(self)@.capacity@),
            !old(c)@.values.contains_key(old(self)@.capacity@),
            old(self).encodable(tag),
        ensures
            final(self)@ == (SpongeState { capacity_tag: Some(tag), ..old(self)@ }),
            forall|items: Seq<u32>, t: [u128; 2]|
                old(self).hashes_to(items, t) == final(self).hashes_to(items, t),
            exists|value: C::F| #[trigger]
                old(self).encodes(tag, value) && final(c)@ == old(c)@.with_value(
                    old(self)@.capacity@,
                    value,
                ),
    ;

    fn read_rate_element(&self, offset: usize) -> (element: Sig<C, C::F>)
        requires
            self@.wf(),
            offset < self@.rate,
        ensures
            element == self@.elements[offset as int],
    ;

    fn add_rate_element(&mut self, offset: usize, value: Sig<C, C::F>)
        requires
            old(self)@.wf(),
            offset < old(self)@.rate,
        ensures
            final(self)@ == (SpongeState {
                elements: old(self)@.elements.update(offset as int, value),
                ..old(self)@
            }),
    ;

    /// Permutes the state: the elements of the rate are new ones.
    fn permute(&mut self, c: &mut C)
        requires
            old(self)@.wf(),
        ensures
            final(self)@.elements.len() == old(self)@.elements.len(),
            final(self)@ == (SpongeState { elements: final(self)@.elements, ..old(self)@ }),
    ;

    /// Absorbs one element: at the next place of the rate, after a
    /// permutation where the rate is full. What is squeezed next comes
    /// after another permutation.
    fn absorb_one(&mut self, c: &mut C, input: Sig<C, C::F>)
        requires
            old(self)@.wf(),
        ensures
            final(self)@.wf(),
            final(self)@ == (SpongeState {
                absorb_pos: old(self)@.next_absorb_pos(),
                squeeze_pos: old(self)@.rate,
                elements: final(self)@.elements,
                ..old(self)@
            }),
            final(self)@.elements[final(self)@.absorb_pos - 1] == input,
            old(self)@.absorb_pos < old(self)@.rate ==> final(self)@.elements
                == old(self)@.elements.update(old(self)@.absorb_pos as int, input),
            old(self)@.absorb_pos < old(self)@.rate ==> final(c)@ == old(c)@,
    {
        if self.absorb_pos() == self.rate() {
            self.permute(c);
            self.set_absorb_pos(0);
        }
        let pos = self.absorb_pos();
        self.add_rate_element(pos, input);
        self.set_absorb_pos(pos + 1);
        let rate = self.rate();
        self.set_squeeze_pos(rate);
    }

    /// Squeezes one element: the one at the next place of the rate, after a
    /// permutation where the rate is used up. What is absorbed next goes to
    /// the first place then.
    fn squeeze_one(&mut self, c: &mut C) -> (element: Sig<C, C::F>)
        requires
            old(self)@.wf(),
        ensures
            final(self)@.wf(),
            final(self)@ == (SpongeState {
                absorb_pos: if old(self)@.squeeze_pos == old(self)@.rate {
                    0
                } else {
                    old(self)@.absorb_pos
                },
                squeeze_pos: old(self)@.next_squeeze_pos(),
                elements: final(self)@.elements,
                ..old(self)@
            }),
            element == final(self)@.elements[final(self)@.squeeze_pos - 1],
            old(self)@.squeeze_pos < old(self)@.rate ==> final(self)@.elements
                == old(self)@.elements,
            old(self)@.squeeze_pos < old(self)@.rate ==> final(c)@ == old(c)@,
    {
        if self.squeeze_pos() == self.rate() {
            self.permute(c);
            self.set_absorb_pos(0);
            self.set_squeeze_pos(0);
        }
        let pos = self.squeeze_pos();
        let element = self.read_rate_element(pos);
        self.set_squeeze_pos(pos + 1);
        element
    }

    /// Binds the sponge to the pattern of its use: the capacity is
    /// initialized with the tag of the merged log and the domain separator,
    /// which is written to the signal that holds the capacity.
    fn finalize(&mut self, c: &mut C)
        requires
            merge_fits(old(self)@.log),
            old(self).hashable(prepared_tag(old(self)@.log, old(self)@.separator)),
            forall|tag: [u128; 2]|
                old(self).hashes_to(prepared_tag(old(self)@.log, old(self)@.separator), tag)
                    ==> old(self).encodable(tag),
            old(c)@.nodes.contains_key(old(self)@.capacity@),
            !old(c)@.values.contains_key(old(self)@.capacity@),
        ensures
            exists|tag: [u128; 2], value: C::F|
                {
                    &&& old(self).hashes_to(
                        prepared_tag(old(self)@.log, old(self)@.separator),
                        tag,
                    )
                    &&& #[trigger] old(self).encodes(tag, value)
                    &&& final(self)@ == (SpongeState { capacity_tag: Some(tag), ..old(self)@ })
                    &&& final(c)@ == old(c)@.with_value(old(self)@.capacity@, value)
                },
    {
        let log = self.get_log();
        let separator = self.serialized_domain_separator();
        let prepared = prepare_tag(&log, &separator);
        let tag = self.tag_hasher(prepared);
        self.initialize_capacity(c, tag);
    }
}

/// A sponge over signals of a builder of type `C`.
pub trait TSponge<C: Circuit>: TSpongePrivate<C> {
    /// Absorbs the elements of a list, first to last, and logs that it did.
    /// Nothing happens for an empty list.
    fn absorb(&mut self, c: &mut C, inputs: Vec<Sig<C, C::F>>)
        requires
            old(self)@.wf(),
            inputs@.len() <= u32::MAX,
        ensures
            final(self)@.wf(),
            inputs@.len() == 0 ==> final(self)@ == old(self)@,
            inputs@.len() > 0 ==> final(self)@ == (SpongeState {
                log: old(self)@.log.push(SpongeAction::Absorb(inputs@.len() as u32)),
                absorb_pos: old(self)@.absorb_pos_after(inputs@.len()),
                squeeze_pos: old(self)@.rate,
                elements: final(self)@.elements,
                ..old(self)@
            }),
            inputs@.len() > 0 ==> final(self)@.elements[final(self)@.absorb_pos - 1]
                == inputs@.last(),
            inputs@.len() == 0 ==> final(c)@ == old(c)@,
            old(self)@.absorb_pos + inputs@.len() <= old(self)@.rate ==> {
                &&& final(c)@ == old(c)@
                &&& final(self)@.absorb_pos == old(self)@.absorb_pos + inputs@.len()
                &&& forall|k: int|
                    0 <= k < old(self)@.rate ==> #[trigger] final(self)@.elements[k] == if old(
                        self,
                    )@.absorb_pos <= k < old(self)@.absorb_pos + inputs@.len() {
                        inputs@[k - old(self)@.absorb_pos]
                    } else {
                        old(self)@.elements[k]
                    }
            },
    {
        if inputs.len() == 0 {
            return ;
        }
        <Self as TSpongePrivate<C>>::add_log(self, SpongeAction::Absorb(inputs.len() as u32));
        let ghost logged = self@;
        let mut i: usize = 0;
        while i < inputs.len()
            invariant
                i <= inputs.len(),
                logged.wf(),
                self@.wf(),
                self@ == (SpongeState {
                    absorb_pos: logged.absorb_pos_after(i as nat),
                    squeeze_pos: if i == 0 {
                        logged.squeeze_pos
                    } else {
                        logged.rate
                    },
                    elements: self@.elements,
                    ..logged
                }),
                i > 0 ==> self@.elements[self@.absorb_pos - 1] == inputs@[i - 1],
                old(self)@.rate == logged.rate,
                old(self)@.elements.len() == logged.rate,
                old(self)@.absorb_pos + inputs@.len() <= old(self)@.rate ==> {
                    &&& c@ == old(c)@
                    &&& self@.absorb_pos == old(self)@.absorb_pos + i
                    &&& forall|k: int|
                        0 <= k < old(self)@.rate ==> #[trigger] self@.elements[k] == if old(
                            self,
                        )@.absorb_pos <= k < old(self)@.absorb_pos + i {
                            inputs@[k - old(self)@.absorb_pos]
                        } else {
                            old(self)@.elements[k]
                        }
                },
            decreases inputs.len() - i,
        {
            <Self as TSpongePrivate<C>>::absorb_one(self, c, inputs[i]);
            i = i + 1;
        }
        proof {
            lemma_absorb_pos_ignores_log(old(self)@, logged, inputs@.len());
        }
    }

    /// Squeezes `length` elements, and logs that it did. Nothing happens
    /// for a length of zero.
    fn squeeze(&mut self, c: &mut C, length: usize) -> (out: Vec<Sig<C, C::F>>)
        requires
            old(self)@.wf(),
            length <= u32::MAX,
        ensures
            final(self)@.wf(),
            out@.len() == length,
            length == 0 ==> final(self)@ == old(self)@,
            length > 0 ==> final(self)@ == (SpongeState {
                log: old(self)@.log.push(SpongeAction::Squeeze(length as u32)),
                absorb_pos: final(self)@.absorb_pos,
                squeeze_pos: old(self)@.squeeze_pos_after(length as nat),
                elements: final(self)@.elements,
                ..old(self)@
            }),
            length > 0 ==> out@.last() == final(self)@.elements[final(self)@.squeeze_pos - 1],
            length == 0 ==> final(c)@ == old(c)@,
            old(self)@.squeeze_pos + length <= old(self)@.rate ==> {
                &&& final(c)@ == old(c)@
                &&& final(self)@.elements == old(self)@.elements
                &&& final(self)@.squeeze_pos == old(self)@.squeeze_pos + length
                &&& forall|k: int|
                    0 <= k < length ==> #[trigger] out@[k] == old(self)@.elements[old(
                        self,
                    )@.squeeze_pos + k]
            },
    {
        let mut out: Vec<Sig<C, C::F>> = Vec::new();
        if length == 0 {
            return out;
        }
        <Self as TSpongePrivate<C>>::add_log(self, SpongeAction::Squeeze(length as u32));
        let ghost logged = self@;
        let mut i: usize = 0;
        while i < length
            invariant
                i <= length,
                out@.len() == i,
                logged.wf(),
                self@.wf(),
                self@ == (SpongeState {
                    absorb_pos: self@.absorb_pos,
                    squeeze_pos: logged.squeeze_pos_after(i as nat),
                    elements: self@.elements,
                    ..logged
                }),
                i > 0 ==> out@.last() == self@.elements[self@.squeeze_pos - 1],
                old(self)@.rate == logged.rate,
                old(self)@.squeeze_pos + length <= old(self)@.rate ==> {
                    &&& c@ == old(c)@
                    &&& self@.elements == old(self)@.elements
                    &&& self@.squeeze_pos == old(self)@.squeeze_pos + i
                    &&& forall|k: int|
                        0 <= k < i ==> #[trigger] out@[k] == old(self)@.elements[old(
                            self,
                        )@.squeeze_pos + k]
                },
            decreases length - i,
        {
            let ghost taken = out@;
            let element = <Self as TSpongePrivate<C>>::squeeze_one(self, c);
            out.push(element);
            assert forall|k: int| 0 <= k < i implies out@[k] == taken[k] by {}
            i = i + 1;
        }
        proof {
            lemma_squeeze_pos_ignores_log(old(self)@, logged, length as nat);
        }
        out
    }

    fn finalize(&mut self, c: &mut C)
        requires
            merge_fits(old(self)@.log),
            old(self).hashable(prepared_tag(old(self)@.log, old(self)@.separator)),
            forall|tag: [u128; 2]|
                old(self).hashes_to(prepared_tag(old(self)@.log, old(self)@.separator), tag)
                    ==> old(self).encodable(tag),
            old(c)@.nodes.contains_key(old(self)@.capacity@),
            !old(c)@.values.contains_key(old(self)@.capacity@),
        ensures
            exists|tag: [u128; 2], value: C::F|
                {
                    &&& old(self).hashes_to(
                        prepared_tag(old(self)@.log, old(self)@.separator),
                        tag,
                    )
                    &&& #[trigger] old(self).encodes(tag, value)
                    &&& final(self)@ == (SpongeState { capacity_tag: Some(tag), ..old(self)@ })
                    &&& final(c)@ == old(c)@.with_value(old(self)@.capacity@, value)
                },
    {
        <Self as TSpongePrivate<C>>::finalize(self, c);
    }
}

/// Where the next element is absorbed depends on the rate and on the place
/// alone.
pub proof fn lemma_absorb_pos_ignores_log<C: Circuit>(
    a: SpongeState<C>,
    b: SpongeState<C>,
    k: nat,
)
    requires
        a.rate == b.rate,
        a.absorb_pos == b.absorb_pos,
    ensures
        a.absorb_pos_after(k) == b.absorb_pos_after(k),
    decreases k,
{
    if k > 0 {
        lemma_absorb_pos_ignores_log(a, b, (k - 1) as nat);
    }
}

/// Where the next element is squeezed depends on the rate and on the place
/// alone.
pub proof fn lemma_squeeze_pos_ignores_log<C: Circuit>(
    a: SpongeState<C>,
    b: SpongeState<C>,
    k: nat,
)
    requires
        a.rate == b.rate,
        a.squeeze_pos == b.squeeze_pos,
    ensures
        a.squeeze_pos_after(k) == b.squeeze_pos_after(k),
    decreases k,
{
    if k > 0 {
        lemma_squeeze_pos_ignores_log(a, b, (k - 1) as nat);
    }
}

/// Names the sponge of a builder of type `C`.
pub trait PoseidonImpl<C: Circuit> {
    type Sponge: TSponge<C>;
}

/// The sponge of a builder, as methods of the builder.
pub trait Poseidon<ImplInstance: PoseidonImpl<Self>>: Circuit {
    /// Absorbs the elements of a list, first to last.
    fn absorb(&mut self, sponge: &mut ImplInstance::Sponge, inputs: Vec<Sig<Self, Self::F>>)
        requires
            old(sponge)@.wf(),
            inputs@.len() <= u32::MAX,
        ensures
            final(sponge)@.wf(),
            inputs@.len() == 0 ==> final(sponge)@ == old(sponge)@,
            inputs@.len() > 0 ==> final(sponge)@ == (SpongeState {
                log: old(sponge)@.log.push(SpongeAction::Absorb(inputs@.len() as u32)),
                absorb_pos: old(sponge)@.absorb_pos_after(inputs@.len()),
                squeeze_pos: old(sponge)@.rate,
                elements: final(sponge)@.elements,
                ..old(sponge)@
            }),
            inputs@.len() > 0 ==> final(sponge)@.elements[final(sponge)@.absorb_pos - 1]
                == inputs@.last(),
            inputs@.len() == 0 ==> final(self)@ == old(self)@,
            old(sponge)@.absorb_pos + inputs@.len() <= old(sponge)@.rate ==> {
                &&& final(self)@ == old(self)@
                &&& final(sponge)@.absorb_pos == old(sponge)@.absorb_pos + inputs@.len()
                &&& forall|k: int|
                    0 <= k < old(sponge)@.rate ==> #[trigger] final(sponge)@.elements[k] == if old(
                        sponge,
                    )@.absorb_pos <= k < old(sponge)@.absorb_pos + inputs@.len() {
                        inputs@[k - old(sponge)@.absorb_pos]
                    } else {
                        old(sponge)@.elements[k]
                    }
            },
    {
        TSponge::absorb(sponge, self, inputs)
    }

    /// Squeezes `length` elements.
    fn squeeze(&mut self, sponge: &mut ImplInstance::Sponge, length: usize) -> (out: Vec<
        Sig<Self, Self::F>,
    >)
        requires
            old(sponge)@.wf(),
            length <= u32::MAX,
        ensures
            final(sponge)@.wf(),
            out@.len() == length,
            length == 0 ==> final(sponge)@ == old(sponge)@,
            length > 0 ==> final(sponge)@ == (SpongeState {
                log: old(sponge)@.log.push(SpongeAction::Squeeze(length as u32)),
                absorb_pos: final(sponge)@.absorb_pos,
                squeeze_pos: old(sponge)@.squeeze_pos_after(length as nat),
                elements: final(sponge)@.elements,
                ..old(sponge)@
            }),
            length > 0 ==> out@.last() == final(sponge)@.elements[final(sponge)@.squeeze_pos - 1],
            length == 0 ==> final(self)@ == old(self)@,
            old(sponge)@.squeeze_pos + length <= old(sponge)@.rate ==> {
                &&& final(self)@ == old(self)@
                &&& final(sponge)@.elements == old(sponge)@.elements
                &&& final(sponge)@.squeeze_pos == old(sponge)@.squeeze_pos + length
                &&& forall|k: int|
                    0 <= k < length ==> #[trigger] out@[k] == old(sponge)@.elements[old(
                        sponge,
                    )@.squeeze_pos + k]
            },
    {
        TSponge::squeeze(sponge, self, length)
    }

    /// Binds the sponge to the pattern of its use.
    fn finalize(&mut self, sponge: &mut ImplInstance::Sponge)
        requires
            merge_fits(old(sponge)@.log),
            old(sponge).hashable(prepared_tag(old(sponge)@.log, old(sponge)@.separator)),
            forall|tag: [u128; 2]|
                old(sponge).hashes_to(prepared_tag(old(sponge)@.log, old(sponge)@.separator), tag)
                    ==> old(sponge).encodable(tag),
            old(self)@.nodes.contains_key(old(sponge)@.capacity@),
            !old(self)@.values.contains_key(old(sponge)@.capacity@),
        ensures
            exists|tag: [u128; 2], value: Self::F|
                {
                    &&& old(sponge).hashes_to(
                        prepared_tag(old(sponge)@.log, old(sponge)@.separator),
                        tag,
                    )
                    &&& #[trigger] old(sponge).encodes(tag, value)
                    &&& final(sponge)@ == (SpongeState { capacity_tag: Some(tag), ..old(sponge)@ })
                    &&& final(self)@ == old(self)@.with_value(old(sponge)@.capacity@, value)
                },
    {
        TSponge::finalize(sponge, self)
    }
}

} // verus!
