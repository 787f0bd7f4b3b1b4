//! What a compiled circuit is made of: aggregates of storage addresses, and
//! advices that read and write them.
use super::storage::{ReaderOf, Storage, TypedAddr, WriterOf};
use itertools::Itertools;
use std::sync::Arc;
use vstd::prelude::*;

verus! {

/// `Itertools::zip_eq` over the elements of two lists, collected in order:
/// the `i`-th pair is made of the `i`-th element of each. It panics when the
/// lists differ in length.
#[verifier::external_body]
fn zip_eq_pairs<'a, A, B>(left: &'a Vec<A>, right: Vec<B>) -> (pairs: Vec<(&'a A, B)>)
    requires
        left.len() == right.len(),
    ensures
        pairs@.len() == left@.len(),
        forall|i: int|
            0 <= i < pairs@.len() ==> *(#[trigger] pairs@[i]).0 == left@[i] && pairs@[i].1
                == right@[i],
{
    left.iter().zip_eq(right.into_iter()).collect()
}

/// An advice that runs against a store of type `S`.
pub trait RTAdvice<S: Storage> {
    /// The cells that the advice reads.
    spec fn input_addrs(&self) -> Seq<S::RawAddr>;

    /// The cells that the advice writes.
    spec fn output_addrs(&self) -> Seq<S::RawAddr>;

    /// Whether the advice can run: what it reads was written, its witness
    /// function accepts it, and what the function returns can be written.
    spec fn callable(&self, storage: &S) -> bool;

    /// Whether `after` is what a run of the advice makes of `before`.
    spec fn called(&self, before: &S, after: &S) -> bool;

    fn inputs(&self) -> (addrs: Vec<S::RawAddr>)
        ensures
            addrs@ == self.input_addrs(),
    ;

    fn outputs(&self) -> (addrs: Vec<S::RawAddr>)
        ensures
            addrs@ == self.output_addrs(),
    ;

    fn call(&self, storage: &mut S)
        requires
            self.callable(old(storage)),
        ensures
            self.called(old(storage), final(storage)),
    ;
}

/// A compiled circuit: the cells that take values from outside, those whose
/// values are handed out, and the advices in the order in which they were
/// recorded.
pub struct RTGraph<S: Storage, A: RTAdvice<S>> {
    pub inputs: Vec<S::RawAddr>,
    pub outputs: Vec<S::RawAddr>,
    pub advices: Vec<A>,
}

/// What runs a compiled circuit against a store.
pub trait GraphBackend<S: Storage, A: RTAdvice<S>>: Sized {
    fn init(s: S, g: RTGraph<S, A>) -> Self;

    fn execute_until_input(&mut self) -> &S;
}

pub trait TypedStorageAddr<S: Storage> {
    type TypedAddr: Into<S::RawAddr>;
}

/// A store that can list the cells of an aggregate of type `DS`.
pub trait DeducteAddressesOf<DS>: Storage {
    /// The cells of the aggregate, from left to right.
    spec fn addresses_of(ds: &DS) -> Seq<Self::RawAddr>;

    fn addresses(ds: &DS) -> (addrs: Vec<Self::RawAddr>)
        ensures
            addrs@ == Self::addresses_of(ds),
    ;
}

/// A store that can read and write an aggregate of type `DS`.
pub trait AllowsStruct<DS>: Storage + DeducteAddressesOf<DS> {
    /// The shape of the values of the aggregate.
    type DataSturct;

    /// Every cell of the aggregate was written.
    spec fn readable(&self, ds: &DS) -> bool;

    /// The cells of the aggregate hold `value`.
    spec fn holds(&self, ds: &DS, value: &Self::DataSturct) -> bool;

    /// `value` can be written to the aggregate: it has the shape of the
    /// aggregate, and no cell is written twice.
    spec fn writable(&self, ds: &DS, value: &Self::DataSturct) -> bool;

    /// `after` is what writing `value` to the aggregate makes of the store.
    spec fn written(&self, ds: &DS, value: &Self::DataSturct, after: &Self) -> bool;

    fn read(&self, ds: &DS) -> (value: Self::DataSturct)
        requires
            self.readable(ds),
        ensures
            self.holds(ds, &value),
    ;

    fn write(&mut self, ds: &DS, value: Self::DataSturct)
        requires
            old(self).writable(ds, &value),
        ensures
            old(self).written(ds, &value, final(self)),
    ;
}

impl<S, T> DeducteAddressesOf<TypedAddr<S, T>> for S where S: Storage {
    open spec fn addresses_of(ds: &TypedAddr<S, T>) -> Seq<S::RawAddr> {
        seq![ds.addr]
    }

    fn addresses(ds: &TypedAddr<S, T>) -> (addrs: Vec<S::RawAddr>) {
        let mut addrs = Vec::new();
        addrs.push(S::to_raw(ds));
        addrs
    }
}

impl<S, T> AllowsStruct<TypedAddr<S, T>> for S where S: Storage + ReaderOf<T> + WriterOf<T>, T: Copy {
    type DataSturct = T;

    open spec fn readable(&self, ds: &TypedAddr<S, T>) -> bool {
        self.cells().contains_key(ds.addr) && self.cells()[ds.addr] is Some
    }

    open spec fn holds(&self, ds: &TypedAddr<S, T>, value: &T) -> bool {
        self.cells().contains_key(ds.addr) && self.cells()[ds.addr] == Some(*value)
    }

    open spec fn writable(&self, ds: &TypedAddr<S, T>, value: &T) -> bool {
        self.cells().contains_key(ds.addr) && self.cells()[ds.addr] is None
    }

    open spec fn written(&self, ds: &TypedAddr<S, T>, value: &T, after: &S) -> bool {
        after.cells() == self.cells().insert(ds.addr, Some(*value))
    }

    fn read(&self, ds: &TypedAddr<S, T>) -> (value: T) {
        *self.get(&S::to_raw(ds))
    }

    fn write(&mut self, ds: &TypedAddr<S, T>, value: T) {
        self.put(&S::to_raw(ds), value)
    }
}

/// The cells of a list of aggregates: those of the first, then those of the
/// second, and so on.
pub open spec fn concat_addresses<S: DeducteAddressesOf<ST>, ST>(ds: Seq<ST>) -> Seq<S::RawAddr>
    decreases ds.len(),
{
    if ds.len() == 0 {
        Seq::empty()
    } else {
        concat_addresses::<S, ST>(ds.drop_last()) + S::addresses_of(&ds.last())
    }
}

/// The stores that writing `values[0]` to `ds[0]`, then `values[1]` to
/// `ds[1]`, and so on, goes through, from `start` on.
pub open spec fn is_write_trace<S: AllowsStruct<ST>, ST>(
    trace: Seq<S>,
    start: S,
    ds: Seq<ST>,
    values: Seq<S::DataSturct>,
) -> bool {
    &&& ds.len() == values.len()
    &&& trace.len() == ds.len() + 1
    &&& trace[0] == start
    &&& forall|i: int|
        0 <= i < ds.len() ==> (#[trigger] trace[i]).written(&ds[i], &values[i], &trace[i + 1])
}

impl<S, ST> DeducteAddressesOf<Vec<ST>> for S where S: Storage + AllowsStruct<ST> {
    open spec fn addresses_of(ds: &Vec<ST>) -> Seq<S::RawAddr> {
        concat_addresses::<S, ST>(ds@)
    }

    fn addresses(ds: &Vec<ST>) -> (addrs: Vec<S::RawAddr>) {
        let mut addrs: Vec<S::RawAddr> = Vec::new();
        let mut i: usize = 0;
        assert(ds@.take(0) =~= Seq::<ST>::empty());
        while i < ds.len()
            invariant
                i <= ds.len(),
                addrs@ == concat_addresses::<S, ST>(ds@.take(i as int)),
            decreases ds.len() - i,
        {
            let mut part = <S as DeducteAddressesOf<ST>>::addresses(&ds[i]);
            addrs.append(&mut part);
            proof {
                let more = ds@.take(i + 1);
                assert(more.drop_last() =~= ds@.take(i as int));
                assert(more.last() == ds@[i as int]);
            }
            i = i + 1;
        }
        assert(ds@.take(ds.len() as int) =~= ds@);
        addrs
    }
}

impl<S, ST> AllowsStruct<Vec<ST>> for S where S: Storage + AllowsStruct<ST> {
    type DataSturct = Vec<<S as AllowsStruct<ST>>::DataSturct>;

    open spec fn readable(&self, ds: &Vec<ST>) -> bool {
        forall|i: int| 0 <= i < ds@.len() ==> self.readable(&#[trigger] ds@[i])
    }

    open spec fn holds(&self, ds: &Vec<ST>, value: &Vec<<S as AllowsStruct<ST>>::DataSturct>) -> bool {
        &&& value@.len() == ds@.len()
        &&& forall|i: int| 0 <= i < ds@.len() ==> self.holds(&#[trigger] ds@[i], &value@[i])
    }

    /// There is one value for each aggregate, and whatever the writes that
    /// come before it make of the store, the next one is possible.
    open spec fn writable(
        &self,
        ds: &Vec<ST>,
        value: &Vec<<S as AllowsStruct<ST>>::DataSturct>,
    ) -> bool {
        &&& value@.len() == ds@.len()
        &&& forall|trace: Seq<S>, i: int|
            0 <= i < ds@.len() && #[trigger] is_write_trace(
                trace,
                *self,
                ds@.take(i),
                value@.take(i),
            ) ==> trace.last().writable(&ds@[i], &value@[i])
    }

    /// The store has gone through the writes of the values to the
    /// aggregates, in their order.
    open spec fn written(
        &self,
        ds: &Vec<ST>,
        value: &Vec<<S as AllowsStruct<ST>>::DataSturct>,
        after: &S,
    ) -> bool {
        exists|trace: Seq<S>| #[trigger]
            is_write_trace(trace, *self, ds@, value@) && trace.last() == *after
    }

    fn read(&self, ds: &Vec<ST>) -> (value: Vec<<S as AllowsStruct<ST>>::DataSturct>) {
        let mut value: Vec<<S as AllowsStruct<ST>>::DataSturct> = Vec::new();
        let mut i: usize = 0;
        while i < ds.len()
            invariant
                i <= ds.len(),
                <S as AllowsStruct<Vec<ST>>>::readable(self, ds),
                value@.len() == i,
                forall|j: int| 0 <= j < i ==> self.holds(&#[trigger] ds@[j], &value@[j]),
            decreases ds.len() - i,
        {
            let item = <S as AllowsStruct<ST>>::read(self, &ds[i]);
            value.push(item);
            i = i + 1;
        }
        value
    }

    fn write(&mut self, ds: &Vec<ST>, value: Vec<<S as AllowsStruct<ST>>::DataSturct>) {
        let ghost whole = value;
        let ghost values = value@;
        let ghost mut trace: Seq<S> = seq![*self];
        let pairs = zip_eq_pairs(ds, value);
        proof {
            assert(ds@.take(0) =~= Seq::<ST>::empty());
            assert(values.take(0) =~= Seq::<<S as AllowsStruct<ST>>::DataSturct>::empty());
        }
        for pair in it: pairs
            invariant
                pairs@.len() == ds@.len(),
                values.len() == ds@.len(),
                forall|i: int|
                    0 <= i < pairs@.len() ==> *(#[trigger] pairs@[i]).0 == ds@[i] && pairs@[i].1
                        == values[i],
                <S as AllowsStruct<Vec<ST>>>::writable(old(self), ds, &whole),
                whole@ == values,
                is_write_trace(
                    trace,
                    *old(self),
                    ds@.take(it.index() as int),
                    values.take(it.index() as int),
                ),
                trace.last() == *self,
        {
            let ghost i = it.index() as int;
            let ghost before = *self;
            assert(pair == pairs@[i]);
            assert(self.writable(&ds@[i], &values[i]));
            <S as AllowsStruct<ST>>::write(self, pair.0, pair.1);
            proof {
                let longer = trace.push(*self);
                assert(ds@.take(i + 1) =~= ds@.take(i).push(ds@[i]));
                assert(values.take(i + 1) =~= values.take(i).push(values[i]));
                assert forall|j: int| 0 <= j < i + 1 implies (#[trigger] longer[j]).written(
                    &ds@.take(i + 1)[j],
                    &values.take(i + 1)[j],
                    &longer[j + 1],
                ) by {
                    if j < i {
                        assert(longer[j] == trace[j]);
                        assert(trace[j].written(
                            &ds@.take(i)[j],
                            &values.take(i)[j],
                            &trace[j + 1],
                        ));
                    } else {
                        assert(longer[j] == before);
                    }
                }
                trace = longer;
            }
        }
        proof {
            assert(ds@.take(ds@.len() as int) =~= ds@);
            assert(values.take(values.len() as int) =~= values);
            assert(is_write_trace(trace, *old(self), ds@, values));
        }
    }
}

impl<S> DeducteAddressesOf<()> for S where S: Storage {
    open spec fn addresses_of(ds: &()) -> Seq<S::RawAddr> {
        Seq::empty()
    }

    fn addresses(ds: &()) -> (addrs: Vec<S::RawAddr>) {
        Vec::new()
    }
}

impl<S> AllowsStruct<()> for S where S: Storage {
    type DataSturct = ();

    open spec fn readable(&self, ds: &()) -> bool {
        true
    }

    open spec fn holds(&self, ds: &(), value: &()) -> bool {
        true
    }

    open spec fn writable(&self, ds: &(), value: &()) -> bool {
        true
    }

    open spec fn written(&self, ds: &(), value: &(), after: &S) -> bool {
        *after == *self
    }

    fn read(&self, ds: &()) -> (value: ()) {
    }

    fn write(&mut self, ds: &(), value: ()) {
    }
}

/// An advice over two aggregates of storage addresses: a run hands what the
/// first holds to the witness function and writes what it returns to the
/// second.
pub struct RuntimeAdvice<I, O, S, W> where S: AllowsStruct<I>, S: AllowsStruct<O>, S: Storage {
    pub input: I,
    pub output: O,
    pub func: Arc<W>,
    pub _pd: std::marker::PhantomData<S>,
}

impl<I, O, S, W> RTAdvice<S> for RuntimeAdvice<I, O, S, W> where
    S: AllowsStruct<I>,
    S: AllowsStruct<O>,
    S: Storage,
    W: Fn(<S as AllowsStruct<I>>::DataSturct) -> <S as AllowsStruct<O>>::DataSturct,
 {
    open spec fn input_addrs(&self) -> Seq<S::RawAddr> {
        <S as DeducteAddressesOf<I>>::addresses_of(&self.input)
    }

    open spec fn output_addrs(&self) -> Seq<S::RawAddr> {
        <S as DeducteAddressesOf<O>>::addresses_of(&self.output)
    }

    open spec fn callable(&self, storage: &S) -> bool {
        &&& <S as AllowsStruct<I>>::readable(storage, &self.input)
        &&& forall|x: <S as AllowsStruct<I>>::DataSturct|
            <S as AllowsStruct<I>>::holds(storage, &self.input, &x) ==> #[trigger] call_requires(
                *self.func,
                (x,),
            )
        &&& forall|x: <S as AllowsStruct<I>>::DataSturct, y: <S as AllowsStruct<O>>::DataSturct|
            <S as AllowsStruct<I>>::holds(storage, &self.input, &x) && #[trigger] call_ensures(
                *self.func,
                (x,),
                y,
            ) ==> <S as AllowsStruct<O>>::writable(storage, &self.output, &y)
    }

    open spec fn called(&self, before: &S, after: &S) -> bool {
        exists|x: <S as AllowsStruct<I>>::DataSturct, y: <S as AllowsStruct<O>>::DataSturct|
            <S as AllowsStruct<I>>::holds(before, &self.input, &x) && #[trigger] call_ensures(
                *self.func,
                (x,),
                y,
            ) && <S as AllowsStruct<O>>::written(before, &self.output, &y, after)
    }

    fn inputs(&self) -> (addrs: Vec<S::RawAddr>) {
        <S as DeducteAddressesOf<I>>::addresses(&self.input)
    }

    fn outputs(&self) -> (addrs: Vec<S::RawAddr>) {
        <S as DeducteAddressesOf<O>>::addresses(&self.output)
    }

    fn call(&self, storage: &mut S) {
        let x = <S as AllowsStruct<I>>::read(storage, &self.input);
        let ghost x0 = x;
        let y = (self.func)(x);
        let ghost y0 = y;
        assert(call_ensures(*self.func, (x0,), y0));
        <S as AllowsStruct<O>>::write(storage, &self.output, y);
    }
}

} // verus!
