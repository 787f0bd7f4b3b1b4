//! Lists and fixed-size arrays of aggregates of one type. The leaves of a
//! list are those of its elements from left to right.
use crate::advices::{DataStruct, Leaf};
use crate::circuit::{Circuit, CircuitState};
use crate::node_struct::{
    alloc_many, concat_raw_addrs, leaves_assigned, leaves_of_all, leaves_valid, leaves_values,
    leaves_writable, leaves_written, lemma_assigned_concat, lemma_roles_repeat,
    lemma_writable_concat, lemma_written_concat, lemma_written_none, repeat_shape, CRhsStruct,
    NodeStruct, SVStruct, SigStruct,
};
use std::collections::VecDeque;
use vstd::prelude::*;

verus! {

/// The values of the leaves of a list of aggregates, from left to right.
pub open spec fn concat_flat<C: Circuit, N: NodeStruct<C>>(values: Seq<N::FStruct>) -> Seq<C::F>
    decreases values.len(),
{
    if values.len() == 0 {
        Seq::empty()
    } else {
        concat_flat::<C, N>(values.drop_last()) + N::flatten(values.last())
    }
}

/// The values of `n` aggregates whose leaves hold `flat`.
pub open spec fn split_values<C: Circuit, N: NodeStruct<C>>(flat: Seq<C::F>, n: nat) -> Seq<
    N::FStruct,
>
    decreases n,
{
    if n == 0 {
        Seq::empty()
    } else {
        let k = flat.len() - N::shape().len();
        split_values::<C, N>(flat.take(k), (n - 1) as nat).push(N::unflatten(flat.skip(k)))
    }
}

/// The `n` aggregates whose leaves are `raws`.
pub open spec fn split_raws<C: Circuit, N: NodeStruct<C>>(raws: Seq<C::RawAddr>, n: nat) -> Seq<
    N,
>
    decreases n,
{
    if n == 0 {
        Seq::empty()
    } else {
        let k = raws.len() - N::shape().len();
        split_raws::<C, N>(raws.take(k), (n - 1) as nat).push(N::from_raw_addrs(raws.skip(k)))
    }
}

/// A list of aggregates has the leaves of as many shapes in a row.
pub proof fn lemma_concat_len<C: Circuit, N: DataStruct<C>>(structs: Seq<N>)
    ensures
        concat_raw_addrs::<C, N>(structs).len() == repeat_shape(N::shape(), structs.len()).len(),
    decreases structs.len(),
{
    if structs.len() > 0 {
        lemma_concat_len::<C, N>(structs.drop_last());
        structs.last().lemma_shape();
    }
}

/// A list of values has one entry for each leaf of as many shapes in a row.
pub proof fn lemma_concat_flat_len<C: Circuit, N: NodeStruct<C>>(values: Seq<N::FStruct>)
    ensures
        concat_flat::<C, N>(values).len() == repeat_shape(N::shape(), values.len()).len(),
    decreases values.len(),
{
    if values.len() > 0 {
        lemma_concat_flat_len::<C, N>(values.drop_last());
        N::lemma_flatten(values.last());
    }
}

/// The `j`-th leaf of the `i`-th of `n` shapes in a row is the `j`-th leaf
/// of the shape.
pub proof fn lemma_repeat_index(shape: Seq<Leaf>, n: nat, i: nat, j: int)
    requires
        i < n,
        0 <= j < shape.len(),
    ensures
        repeat_shape(shape, i).len() + j < repeat_shape(shape, n).len(),
        repeat_shape(shape, n)[repeat_shape(shape, i).len() + j] == shape[j],
        repeat_shape(shape, i).len() + shape.len() <= repeat_shape(shape, n).len(),
    decreases n,
{
    if i + 1 < n {
        lemma_repeat_index(shape, (n - 1) as nat, i, j);
    }
}

/// The aggregates that are made of the leaves of a list are the list.
pub proof fn lemma_split_concat_raws<C: Circuit, N: NodeStruct<C>>(structs: Seq<N>)
    ensures
        split_raws::<C, N>(concat_raw_addrs::<C, N>(structs), structs.len()) == structs,
    decreases structs.len(),
{
    if structs.len() > 0 {
        let front = structs.drop_last();
        let all = concat_raw_addrs::<C, N>(structs);
        let k = all.len() - N::shape().len();
        structs.last().lemma_shape();
        structs.last().lemma_round_trip();
        lemma_split_concat_raws::<C, N>(front);
        assert(all.take(k) =~= concat_raw_addrs::<C, N>(front));
        assert(all.skip(k) =~= structs.last().raw_addrs());
        assert(front.push(structs.last()) =~= structs);
    } else {
        assert(split_raws::<C, N>(concat_raw_addrs::<C, N>(structs), 0) =~= structs);
    }
}

/// The leaves of the aggregates that are made of a list of leaves are the
/// list.
pub proof fn lemma_concat_split_raws<C: Circuit, N: NodeStruct<C>>(raws: Seq<C::RawAddr>, n: nat)
    requires
        raws.len() == repeat_shape(N::shape(), n).len(),
    ensures
        split_raws::<C, N>(raws, n).len() == n,
        concat_raw_addrs::<C, N>(split_raws::<C, N>(raws, n)) == raws,
    decreases n,
{
    if n > 0 {
        let k = raws.len() - N::shape().len();
        let front = split_raws::<C, N>(raws.take(k), (n - 1) as nat);
        let last = N::from_raw_addrs(raws.skip(k));
        lemma_concat_split_raws::<C, N>(raws.take(k), (n - 1) as nat);
        N::lemma_from_raw_addrs(raws.skip(k));
        let whole = front.push(last);
        assert(whole.drop_last() =~= front);
        assert(raws.take(k) + raws.skip(k) =~= raws);
    } else {
        assert(raws =~= Seq::<C::RawAddr>::empty());
    }
}

/// The values that are made of the entries of a list of values are the
/// list.
pub proof fn lemma_split_concat_values<C: Circuit, N: NodeStruct<C>>(values: Seq<N::FStruct>)
    ensures
        split_values::<C, N>(concat_flat::<C, N>(values), values.len()) == values,
    decreases values.len(),
{
    if values.len() > 0 {
        let front = values.drop_last();
        let all = concat_flat::<C, N>(values);
        let k = all.len() - N::shape().len();
        N::lemma_flatten(values.last());
        lemma_split_concat_values::<C, N>(front);
        assert(all.take(k) =~= concat_flat::<C, N>(front));
        assert(all.skip(k) =~= N::flatten(values.last()));
        assert(front.push(values.last()) =~= values);
    } else {
        assert(split_values::<C, N>(concat_flat::<C, N>(values), 0) =~= values);
    }
}

/// The leaves of a list are assigned when those of each element are.
pub proof fn lemma_concat_assigned<C: Circuit, N: DataStruct<C>>(
    state: CircuitState<C::RawAddr, C::F>,
    structs: Seq<N>,
)
    ensures
        leaves_assigned(state, concat_raw_addrs::<C, N>(structs)) <==> forall|i: int|
            0 <= i < structs.len() ==> leaves_assigned(state, (#[trigger] structs[i]).raw_addrs()),
    decreases structs.len(),
{
    if structs.len() > 0 {
        let front = structs.drop_last();
        lemma_concat_assigned::<C, N>(state, front);
        lemma_assigned_concat(state, concat_raw_addrs::<C, N>(front), structs.last().raw_addrs());
        if leaves_assigned(state, concat_raw_addrs::<C, N>(structs)) {
            assert forall|i: int| 0 <= i < structs.len() implies leaves_assigned(
                state,
                (#[trigger] structs[i]).raw_addrs(),
            ) by {
                if i < front.len() {
                    assert(front[i] == structs[i]);
                }
            }
        }
        if forall|i: int|
            0 <= i < structs.len() ==> leaves_assigned(state, (#[trigger] structs[i]).raw_addrs()) {
            assert forall|i: int| 0 <= i < front.len() implies leaves_assigned(
                state,
                (#[trigger] front[i]).raw_addrs(),
            ) by {
                assert(front[i] == structs[i]);
            }
            assert(leaves_assigned(state, structs.last().raw_addrs()));
        }
    }
}

/// When the leaves of a list can be written, so can those of its first `j`
/// elements.
pub proof fn lemma_writable_prefix<C: Circuit, N: DataStruct<C>>(
    state: CircuitState<C::RawAddr, C::F>,
    structs: Seq<N>,
    j: int,
)
    requires
        0 <= j <= structs.len(),
        leaves_writable(state, concat_raw_addrs::<C, N>(structs)),
    ensures
        leaves_writable(state, concat_raw_addrs::<C, N>(structs.take(j))),
    decreases structs.len() - j,
{
    if j < structs.len() {
        lemma_writable_prefix::<C, N>(state, structs, j + 1);
        let longer = structs.take(j + 1);
        assert(longer.drop_last() =~= structs.take(j));
        lemma_writable_concat(
            state,
            state,
            concat_raw_addrs::<C, N>(structs.take(j)),
            Seq::<C::F>::empty(),
            longer.last().raw_addrs(),
        );
    } else {
        assert(structs.take(j) =~= structs);
    }
}

/// The elements of an array as a list.
pub fn array_to_vec<T: Copy, const N: usize>(array: &[T; N]) -> (list: Vec<T>)
    ensures
        list@ == array@,
{
    let mut list: Vec<T> = Vec::new();
    let mut i: usize = 0;
    while i < N
        invariant
            i <= N,
            list@ == array@.take(i as int),
        decreases N - i,
    {
        list.push(array[i]);
        assert(list@ =~= array@.take(i + 1));
        i = i + 1;
    }
    assert(array@.take(N as int) =~= array@);
    list
}

/// `core::array::from_fn` over the places of a list of `N` elements: the
/// array of the elements of the list.
#[verifier::external_body]
fn array_of<T: Copy, const N: usize>(list: &Vec<T>) -> (array: [T; N])
    requires
        list@.len() == N,
    ensures
        array@ == list@,
{
    core::array::from_fn(|i| list[i])
}

/// The values of a list of aggregates, read one aggregate after the other.
pub fn read_many<C: Circuit, N: NodeStruct<C> + Copy>(c: &C, structs: &Vec<N>) -> (values: Vec<
    N::FStruct,
>)
    requires
        leaves_assigned(c@, concat_raw_addrs::<C, N>(structs@)),
    ensures
        values@ == split_values::<C, N>(
            leaves_values(c@, concat_raw_addrs::<C, N>(structs@)),
            structs@.len(),
        ),
{
    let mut values: Vec<N::FStruct> = Vec::new();
    let mut i: usize = 0;
    proof {
        lemma_concat_assigned::<C, N>(c@, structs@);
        assert(structs@.take(0) =~= Seq::<N>::empty());
    }
    while i < structs.len()
        invariant
            i <= structs.len(),
            forall|i: int|
                0 <= i < structs@.len() ==> leaves_assigned(
                    c@,
                    (#[trigger] structs@[i]).raw_addrs(),
                ),
            values@ == split_values::<C, N>(
                leaves_values(c@, concat_raw_addrs::<C, N>(structs@.take(i as int))),
                i as nat,
            ),
        decreases structs.len() - i,
    {
        let next = structs[i];
        let value = next.read_from(c);
        proof {
            let done = structs@.take(i as int);
            let more = structs@.take(i + 1);
            assert(more.drop_last() =~= done);
            assert(more.last() == next);
            let front = concat_raw_addrs::<C, N>(done);
            lemma_assigned_concat(c@, front, next.raw_addrs());
            next.lemma_shape();
            let flat = leaves_values(c@, concat_raw_addrs::<C, N>(more));
            let k = flat.len() - N::shape().len();
            assert(flat.take(k) =~= leaves_values(c@, front));
            assert(flat.skip(k) =~= leaves_values(c@, next.raw_addrs()));
        }
        values.push(value);
        i = i + 1;
    }
    assert(structs@.take(structs.len() as int) =~= structs@);
    values
}

/// Writes `values[i]` to the `i`-th aggregate of a list, for each `i`.
pub fn write_many<C: Circuit, N: NodeStruct<C> + Copy>(
    c: &mut C,
    structs: &Vec<N>,
    values: &Vec<N::FStruct>,
) where N::FStruct: Copy
    requires
        structs@.len() == values@.len(),
        leaves_writable(old(c)@, concat_raw_addrs::<C, N>(structs@)),
    ensures
        leaves_written(
            old(c)@,
            final(c)@,
            concat_raw_addrs::<C, N>(structs@),
            concat_flat::<C, N>(values@),
        ),
{
    let ghost start = c@;
    let mut i: usize = 0;
    proof {
        lemma_written_none(start);
        assert(structs@.take(0) =~= Seq::<N>::empty());
        assert(values@.take(0) =~= Seq::<N::FStruct>::empty());
    }
    while i < structs.len()
        invariant
            i <= structs.len(),
            structs@.len() == values@.len(),
            leaves_writable(start, concat_raw_addrs::<C, N>(structs@)),
            leaves_written(
                start,
                c@,
                concat_raw_addrs::<C, N>(structs@.take(i as int)),
                concat_flat::<C, N>(values@.take(i as int)),
            ),
        decreases structs.len() - i,
    {
        let ghost cur = c@;
        let ghost done = concat_raw_addrs::<C, N>(structs@.take(i as int));
        let ghost flat = concat_flat::<C, N>(values@.take(i as int));
        let next = structs[i];
        let value = values[i];
        proof {
            let more = structs@.take(i + 1);
            assert(more.drop_last() =~= structs@.take(i as int));
            assert(more.last() == next);
            lemma_writable_prefix::<C, N>(start, structs@, i + 1);
            lemma_writable_concat(start, cur, done, flat, next.raw_addrs());
        }
        next.write_to(c, value);
        proof {
            let more = values@.take(i + 1);
            assert(more.drop_last() =~= values@.take(i as int));
            assert(more.last() == value);
            lemma_written_concat(
                start,
                cur,
                c@,
                done,
                flat,
                next.raw_addrs(),
                N::flatten(value),
            );
        }
        i = i + 1;
    }
    assert(structs@.take(structs.len() as int) =~= structs@);
    assert(values@.take(values.len() as int) =~= values@);
}

/// Takes the leaves of `n` aggregates from the front of `raws`.
pub fn parse_many<C: Circuit, N: NodeStruct<C>>(
    c: &C,
    raws: &mut VecDeque<C::RawAddr>,
    n: usize,
) -> (structs: Vec<N>)
    requires
        old(raws)@.len() >= repeat_shape(N::shape(), n as nat).len(),
        leaves_valid(
            c@,
            old(raws)@.take(repeat_shape(N::shape(), n as nat).len() as int),
            repeat_shape(N::shape(), n as nat),
        ),
    ensures
        structs@ == split_raws::<C, N>(
            old(raws)@.take(repeat_shape(N::shape(), n as nat).len() as int),
            n as nat,
        ),
        final(raws)@ == old(raws)@.skip(repeat_shape(N::shape(), n as nat).len() as int),
{
    let ghost all = old(raws)@;
    let ghost total = repeat_shape(N::shape(), n as nat).len() as int;
    let ghost width = N::shape().len() as int;
    let mut structs: Vec<N> = Vec::new();
    let mut i: usize = 0;
    proof {
        assert(all.skip(0) =~= all);
    }
    while i < n
        invariant
            i <= n,
            all == old(raws)@,
            total == repeat_shape(N::shape(), n as nat).len(),
            width == N::shape().len(),
            all.len() >= total,
            leaves_valid(c@, all.take(total), repeat_shape(N::shape(), n as nat)),
            repeat_shape(N::shape(), i as nat).len() <= total,
            raws@ == all.skip(repeat_shape(N::shape(), i as nat).len() as int),
            structs@ == split_raws::<C, N>(
                all.take(repeat_shape(N::shape(), i as nat).len() as int),
                i as nat,
            ),
        decreases n - i,
    {
        let ghost from = repeat_shape(N::shape(), i as nat).len() as int;
        proof {
            if width > 0 {
                lemma_repeat_index(N::shape(), n as nat, i as nat, 0);
            }
            assert(from + width <= total);
            let part = raws@.take(width);
            assert forall|j: int| 0 <= j < width implies c@.nodes.contains_key(#[trigger] part[j])
                && N::shape()[j].accepts(c@.nodes[part[j]]) by {
                lemma_repeat_index(N::shape(), n as nat, i as nat, j);
                assert(part[j] == all.take(total)[from + j]);
            }
        }
        let next = N::try_from_raw_addr(c, raws);
        proof {
            let longer = all.take(from + width);
            assert(longer.take(from) =~= all.take(from));
            assert(longer.skip(from) =~= all.skip(from).take(width));
            assert(raws@ =~= all.skip(from + width));
        }
        structs.push(next);
        i = i + 1;
    }
    structs
}

/// The array that holds the elements of a list of length `N`.
pub open spec fn array_from_seq<T, const N: usize>(list: Seq<T>) -> [T; N] {
    choose|array: [T; N]| array@ == list
}

/// A list of length `N` is held by an array.
proof fn lemma_array_exists<T, const N: usize>(list: Seq<T>, base: [T; N], filled: nat) -> (array: [
    T;
    N
])
    requires
        list.len() == N,
        filled <= N,
    ensures
        array@.take(filled as int) == list.take(filled as int),
    decreases filled,
{
    if filled == 0 {
        assert(base@.take(0) =~= list.take(0));
        base
    } else {
        let before = lemma_array_exists::<T, N>(list, base, (filled - 1) as nat);
        let array = vstd::array::spec_array_update(before, filled - 1, list[filled - 1]);
        assert(array@.take(filled as int) =~= list.take(filled as int)) by {
            assert(before@.take(filled - 1) == list.take(filled - 1));
            assert forall|i: int| 0 <= i < filled implies array@.take(filled as int)[i]
                == list.take(filled as int)[i] by {
                if i < filled - 1 {
                    assert(before@.take(filled - 1)[i] == list.take(filled - 1)[i]);
                }
            }
        }
        array
    }
}

/// The array of a list of length `N` holds the list, and an array is the
/// array of what it holds.
pub proof fn lemma_array_from_seq<T, const N: usize>(list: Seq<T>)
    requires
        list.len() == N,
    ensures
        array_from_seq::<T, N>(list)@ == list,
        forall|array: [T; N]| array@ == list ==> array == array_from_seq::<T, N>(list),
{
    let witness = lemma_array_exists::<T, N>(list, arbitrary(), N as nat);
    assert(witness@.take(N as int) =~= witness@);
    assert(list.take(N as int) =~= list);
    assert(witness@ == list);
    assert forall|array: [T; N]| array@ == list implies array == array_from_seq::<T, N>(list) by {
        assert(array =~= array_from_seq::<T, N>(list));
    }
}

impl<C: Circuit, T: DataStruct<C> + Copy, const N: usize> DataStruct<C> for [T; N] {
    type FStruct = [T::FStruct; N];

    open spec fn raw_addrs(&self) -> Seq<C::RawAddr> {
        concat_raw_addrs::<C, T>(self@)
    }

    open spec fn shape() -> Seq<Leaf> {
        repeat_shape(T::shape(), N as nat)
    }

    proof fn lemma_shape(&self) {
        lemma_concat_len::<C, T>(self@);
    }

    fn alloc_to(c: &mut C) -> (s: Self) {
        let list = alloc_many::<C, T>(c, N);
        array_of(&list)
    }
}

impl<C: Circuit, T: NodeStruct<C> + Copy, const N: usize> NodeStruct<C> for [T; N] where
    T::FStruct: Copy,
 {
    open spec fn flatten(value: [T::FStruct; N]) -> Seq<C::F> {
        concat_flat::<C, T>(value@)
    }

    open spec fn unflatten(values: Seq<C::F>) -> [T::FStruct; N] {
        array_from_seq(split_values::<C, T>(values, N as nat))
    }

    open spec fn from_raw_addrs(raws: Seq<C::RawAddr>) -> Self {
        array_from_seq(split_raws::<C, T>(raws, N as nat))
    }

    proof fn lemma_flatten(value: [T::FStruct; N]) {
        lemma_concat_flat_len::<C, T>(value@);
        lemma_split_concat_values::<C, T>(value@);
        lemma_array_from_seq::<T::FStruct, N>(value@);
    }

    proof fn lemma_from_raw_addrs(raws: Seq<C::RawAddr>) {
        lemma_concat_split_raws::<C, T>(raws, N as nat);
        lemma_array_from_seq::<T, N>(split_raws::<C, T>(raws, N as nat));
    }

    proof fn lemma_round_trip(&self) {
        lemma_split_concat_raws::<C, T>(self@);
        lemma_array_from_seq::<T, N>(self@);
    }

    fn read_from(self, c: &C) -> (value: [T::FStruct; N]) {
        let list = array_to_vec(&self);
        let values = read_many::<C, T>(c, &list);
        proof {
            lemma_concat_len::<C, T>(self@);
            lemma_read_len::<C, T>(c@, self@);
            lemma_array_from_seq::<T::FStruct, N>(values@);
        }
        array_of(&values)
    }

    fn write_to(self, c: &mut C, value: [T::FStruct; N]) {
        let list = array_to_vec(&self);
        let values = array_to_vec(&value);
        write_many::<C, T>(c, &list, &values);
    }

    fn to_raw_addr(&self, c: &C) -> (raws: VecDeque<C::RawAddr>) {
        let list = array_to_vec(self);
        let leaves = leaves_of_all::<C, T>(c, &list);
        let mut raws: VecDeque<C::RawAddr> = VecDeque::new();
        let mut i: usize = 0;
        while i < leaves.len()
            invariant
                i <= leaves.len(),
                raws@ == leaves@.take(i as int),
            decreases leaves.len() - i,
        {
            raws.push_back(leaves[i]);
            assert(raws@ =~= leaves@.take(i + 1));
            i = i + 1;
        }
        assert(leaves@.take(leaves.len() as int) =~= leaves@);
        raws
    }

    fn try_from_raw_addr(c: &C, raws: &mut VecDeque<C::RawAddr>) -> (s: Self) {
        let list = parse_many::<C, T>(c, raws, N);
        proof {
            let taken = old(raws)@.take(repeat_shape(T::shape(), N as nat).len() as int);
            lemma_concat_split_raws::<C, T>(taken, N as nat);
            lemma_array_from_seq::<T, N>(list@);
        }
        array_of(&list)
    }
}

/// The values that are read from `n` aggregates are `n` values.
pub proof fn lemma_read_len<C: Circuit, N: NodeStruct<C>>(
    state: CircuitState<C::RawAddr, C::F>,
    structs: Seq<N>,
)
    ensures
        split_values::<C, N>(
            leaves_values(state, concat_raw_addrs::<C, N>(structs)),
            structs.len(),
        ).len() == structs.len(),
{
    lemma_split_len::<C, N>(leaves_values(state, concat_raw_addrs::<C, N>(structs)), structs.len());
}

/// `n` values are made of the entries of a list, whatever the list.
pub proof fn lemma_split_len<C: Circuit, N: NodeStruct<C>>(flat: Seq<C::F>, n: nat)
    ensures
        split_values::<C, N>(flat, n).len() == n,
    decreases n,
{
    if n > 0 {
        lemma_split_len::<C, N>(flat.take(flat.len() - N::shape().len()), (n - 1) as nat);
    }
}

impl<C: Circuit, T: SVStruct<C> + Copy, const N: usize> SVStruct<C> for [T; N] where
    T::FStruct: Copy,
 {
    proof fn lemma_all_variables() {
        T::lemma_all_variables();
        lemma_roles_repeat(T::shape(), N as nat);
    }
}

impl<C: Circuit, T: SigStruct<C> + Copy, const N: usize> SigStruct<C> for [T; N] where
    T::FStruct: Copy,
 {
    proof fn lemma_all_signals() {
        T::lemma_all_signals();
        lemma_roles_repeat(T::shape(), N as nat);
    }
}

impl<C: Circuit, T: CRhsStruct<C> + Copy, const N: usize> CRhsStruct<C> for [T; N] where
    T::FStruct: Copy,
 {
    proof fn lemma_all_constr_rhs() {
        T::lemma_all_constr_rhs();
        lemma_roles_repeat(T::shape(), N as nat);
    }
}

} // verus!
