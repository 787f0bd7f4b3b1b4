//! Aggregates that can be allocated, read, written, enumerated and parsed.
use crate::advices::{
    allocated_leaves, lemma_allocated_concat, lemma_allocated_none, DataStruct, Leaf, Role,
};
use crate::circuit::{Circuit, CircuitState, StandardVariables};
use std::collections::VecDeque;
use vstd::prelude::*;

verus! {

/// Each address is a node that can stand behind the leaf at its place.
pub open spec fn leaves_valid<A, V>(state: CircuitState<A, V>, raws: Seq<A>, shape: Seq<Leaf>) -> bool {
    &&& raws.len() == shape.len()
    &&& forall|i: int|
        0 <= i < raws.len() ==> state.nodes.contains_key(#[trigger] raws[i]) && shape[i].accepts(
            state.nodes[raws[i]],
        )
}

/// Each address has a value.
pub open spec fn leaves_assigned<A, V>(state: CircuitState<A, V>, raws: Seq<A>) -> bool {
    forall|i: int| 0 <= i < raws.len() ==> state.values.contains_key(#[trigger] raws[i])
}

/// The values at the addresses, in their order.
pub open spec fn leaves_values<A, V>(state: CircuitState<A, V>, raws: Seq<A>) -> Seq<V> {
    Seq::new(raws.len(), |i: int| state.values[raws[i]])
}

/// Each address is a node without a value, and none occurs twice.
pub open spec fn leaves_writable<A, V>(state: CircuitState<A, V>, raws: Seq<A>) -> bool {
    &&& raws.no_duplicates()
    &&& forall|i: int|
        0 <= i < raws.len() ==> state.nodes.contains_key(#[trigger] raws[i])
            && !state.values.contains_key(raws[i])
}

/// `after` is `before` with `values[i]` written to `raws[i]` for each `i`,
/// and nothing else changed.
pub open spec fn leaves_written<A, V>(
    before: CircuitState<A, V>,
    after: CircuitState<A, V>,
    raws: Seq<A>,
    values: Seq<V>,
) -> bool {
    &&& raws.len() == values.len()
    &&& after.nodes == before.nodes
    &&& after.bounds == before.bounds
    &&& forall|a: A| #[trigger]
        after.values.contains_key(a) <==> before.values.contains_key(a) || raws.contains(a)
    &&& forall|a: A|
        before.values.contains_key(a) ==> #[trigger] after.values[a] == before.values[a]
    &&& forall|i: int| 0 <= i < raws.len() ==> after.values[#[trigger] raws[i]] == values[i]
}

/// Every leaf of the shape is a signal.
pub open spec fn all_signals(shape: Seq<Leaf>) -> bool {
    forall|i: int| 0 <= i < shape.len() ==> (#[trigger] shape[i]).role == Role::Signal
}

/// Every leaf of the shape is a variable or a signal.
pub open spec fn all_variables(shape: Seq<Leaf>) -> bool {
    forall|i: int|
        0 <= i < shape.len() ==> (#[trigger] shape[i]).role == Role::Signal || shape[i].role
            == Role::Variable
}

/// Every leaf of the shape is the right-hand side of a constraint.
pub open spec fn all_constr_rhs(shape: Seq<Leaf>) -> bool {
    forall|i: int| 0 <= i < shape.len() ==> (#[trigger] shape[i]).role == Role::ConstrRhs
}

/// Leaves that have just been allocated are valid and can be written.
pub proof fn lemma_allocated_valid<A, V>(
    before: CircuitState<A, V>,
    after: CircuitState<A, V>,
    raws: Seq<A>,
    shape: Seq<Leaf>,
)
    requires
        crate::advices::allocated_leaves(before, after, raws, shape),
        before.values.dom().subset_of(before.nodes.dom()),
    ensures
        leaves_valid(after, raws, shape),
        leaves_writable(after, raws),
{
    assert forall|i: int| 0 <= i < raws.len() implies after.nodes.contains_key(#[trigger] raws[i])
        && shape[i].accepts(after.nodes[raws[i]]) && !after.values.contains_key(raws[i]) by {
        assert(raws.contains(raws[i]));
        shape[i].lemma_allocated_accepted();
        if before.values.contains_key(raws[i]) {
            assert(before.values.dom().contains(raws[i]));
            assert(before.nodes.dom().contains(raws[i]));
        }
    }
}

/// Valid leaves stay valid when nodes are allocated.
pub proof fn lemma_valid_after_alloc<A, V>(
    before: CircuitState<A, V>,
    after: CircuitState<A, V>,
    new_raws: Seq<A>,
    new_shape: Seq<Leaf>,
    raws: Seq<A>,
    shape: Seq<Leaf>,
)
    requires
        crate::advices::allocated_leaves(before, after, new_raws, new_shape),
        leaves_valid(before, raws, shape),
    ensures
        leaves_valid(after, raws, shape),
{
    assert forall|i: int| 0 <= i < raws.len() implies after.nodes.contains_key(#[trigger] raws[i])
        && shape[i].accepts(after.nodes[raws[i]]) by {
        assert(before.nodes.contains_key(raws[i]));
        assert(after.nodes[raws[i]] == before.nodes[raws[i]]);
    }
}

/// A list of leaves is valid when its two halves are.
pub proof fn lemma_valid_concat<A, V>(
    state: CircuitState<A, V>,
    r1: Seq<A>,
    sh1: Seq<Leaf>,
    r2: Seq<A>,
    sh2: Seq<Leaf>,
)
    requires
        r1.len() == sh1.len(),
        r2.len() == sh2.len(),
    ensures
        leaves_valid(state, r1 + r2, sh1 + sh2) <==> leaves_valid(state, r1, sh1) && leaves_valid(
            state,
            r2,
            sh2,
        ),
{
    let r = r1 + r2;
    let sh = sh1 + sh2;
    if leaves_valid(state, r, sh) {
        assert forall|i: int| 0 <= i < r1.len() implies state.nodes.contains_key(
            #[trigger] r1[i],
        ) && sh1[i].accepts(state.nodes[r1[i]]) by {
            assert(r[i] == r1[i] && sh[i] == sh1[i]);
        }
        assert forall|i: int| 0 <= i < r2.len() implies state.nodes.contains_key(
            #[trigger] r2[i],
        ) && sh2[i].accepts(state.nodes[r2[i]]) by {
            assert(r[i + r1.len()] == r2[i] && sh[i + r1.len()] == sh2[i]);
        }
    }
    if leaves_valid(state, r1, sh1) && leaves_valid(state, r2, sh2) {
        assert forall|i: int| 0 <= i < r.len() implies state.nodes.contains_key(#[trigger] r[i])
            && sh[i].accepts(state.nodes[r[i]]) by {
            if i < r1.len() {
                assert(r[i] == r1[i] && sh[i] == sh1[i]);
            } else {
                assert(r[i] == r2[i - r1.len()] && sh[i] == sh2[i - r1.len()]);
            }
        }
    }
}

/// A list of leaves is assigned when its two halves are, and its values are
/// those of the halves.
pub proof fn lemma_assigned_concat<A, V>(state: CircuitState<A, V>, r1: Seq<A>, r2: Seq<A>)
    ensures
        leaves_assigned(state, r1 + r2) <==> leaves_assigned(state, r1) && leaves_assigned(
            state,
            r2,
        ),
        leaves_values(state, r1 + r2) == leaves_values(state, r1) + leaves_values(state, r2),
{
    let r = r1 + r2;
    if leaves_assigned(state, r) {
        assert forall|i: int| 0 <= i < r1.len() implies state.values.contains_key(
            #[trigger] r1[i],
        ) by {
            assert(r[i] == r1[i]);
        }
        assert forall|i: int| 0 <= i < r2.len() implies state.values.contains_key(
            #[trigger] r2[i],
        ) by {
            assert(r[i + r1.len()] == r2[i]);
        }
    }
    if leaves_assigned(state, r1) && leaves_assigned(state, r2) {
        assert forall|i: int| 0 <= i < r.len() implies state.values.contains_key(
            #[trigger] r[i],
        ) by {
            if i < r1.len() {
                assert(r[i] == r1[i]);
            } else {
                assert(r[i] == r2[i - r1.len()]);
            }
        }
    }
    assert(leaves_values(state, r1 + r2) =~= leaves_values(state, r1) + leaves_values(state, r2));
}

/// When a list of leaves can be written, its first half can, and after that
/// its second half.
pub proof fn lemma_writable_concat<A, V>(
    s0: CircuitState<A, V>,
    s1: CircuitState<A, V>,
    r1: Seq<A>,
    v1: Seq<V>,
    r2: Seq<A>,
)
    requires
        leaves_writable(s0, r1 + r2),
    ensures
        leaves_writable(s0, r1),
        leaves_written(s0, s1, r1, v1) ==> leaves_writable(s1, r2),
{
    let r = r1 + r2;
    assert forall|i: int, j: int| 0 <= i < r1.len() && 0 <= j < r1.len() && i != j implies r1[i]
        != r1[j] by {
        assert(r[i] == r1[i] && r[j] == r1[j]);
    }
    assert forall|i: int| 0 <= i < r1.len() implies s0.nodes.contains_key(#[trigger] r1[i])
        && !s0.values.contains_key(r1[i]) by {
        assert(r[i] == r1[i]);
    }
    if leaves_written(s0, s1, r1, v1) {
        assert forall|i: int, j: int|
            0 <= i < r2.len() && 0 <= j < r2.len() && i != j implies r2[i] != r2[j] by {
            assert(r[i + r1.len()] == r2[i] && r[j + r1.len()] == r2[j]);
        }
        assert forall|i: int| 0 <= i < r2.len() implies s1.nodes.contains_key(#[trigger] r2[i])
            && !s1.values.contains_key(r2[i]) by {
            assert(r[i + r1.len()] == r2[i]);
            if r1.contains(r2[i]) {
                let j = choose|j: int| 0 <= j < r1.len() && r1[j] == r2[i];
                assert(r[j] == r1[j]);
            }
        }
    }
}

/// The first write of one node is the write of a list of one value.
pub proof fn lemma_written_one<A, V>(before: CircuitState<A, V>, addr: A, value: V)
    requires
        !before.values.contains_key(addr),
    ensures
        leaves_written(before, before.with_value(addr, value), seq![addr], seq![value]),
{
    let after = before.with_value(addr, value);
    let raws = seq![addr];
    assert(raws[0] == addr);
    assert forall|a: A| #[trigger]
        after.values.contains_key(a) <==> before.values.contains_key(a) || raws.contains(a) by {
        if raws.contains(a) {
            let i = choose|i: int| 0 <= i < raws.len() && raws[i] == a;
            assert(a == addr);
        }
    }
}

/// The leaves of two shapes are all signals when those of each are.
pub proof fn lemma_roles_concat(sh1: Seq<Leaf>, sh2: Seq<Leaf>)
    ensures
        all_signals(sh1) && all_signals(sh2) ==> all_signals(sh1 + sh2),
        all_variables(sh1) && all_variables(sh2) ==> all_variables(sh1 + sh2),
        all_constr_rhs(sh1) && all_constr_rhs(sh2) ==> all_constr_rhs(sh1 + sh2),
{
    let sh = sh1 + sh2;
    assert forall|i: int| 0 <= i < sh.len() implies sh[i] == if i < sh1.len() {
        sh1[i]
    } else {
        sh2[i - sh1.len()]
    } by {}
}

/// Two writes in a row are the write of both lists of values.
pub proof fn lemma_written_concat<A, V>(
    s0: CircuitState<A, V>,
    s1: CircuitState<A, V>,
    s2: CircuitState<A, V>,
    r1: Seq<A>,
    v1: Seq<V>,
    r2: Seq<A>,
    v2: Seq<V>,
)
    requires
        leaves_writable(s0, r1 + r2),
        leaves_written(s0, s1, r1, v1),
        leaves_written(s1, s2, r2, v2),
    ensures
        leaves_written(s0, s2, r1 + r2, v1 + v2),
{
    let r = r1 + r2;
    let v = v1 + v2;
    assert forall|a: A| #[trigger]
        s2.values.contains_key(a) <==> s0.values.contains_key(a) || r.contains(a) by {
        if r1.contains(a) {
            let i = choose|i: int| 0 <= i < r1.len() && r1[i] == a;
            assert(r[i] == a);
        }
        if r2.contains(a) {
            let i = choose|i: int| 0 <= i < r2.len() && r2[i] == a;
            assert(r[i + r1.len()] == a);
        }
        if r.contains(a) {
            let i = choose|i: int| 0 <= i < r.len() && r[i] == a;
            if i < r1.len() {
                assert(r1[i] == a);
            } else {
                assert(r2[i - r1.len()] == a);
            }
        }
        assert(s1.values.contains_key(a) <==> s0.values.contains_key(a) || r1.contains(a));
    }
    assert forall|a: A| s0.values.contains_key(a) implies #[trigger] s2.values[a]
        == s0.values[a] by {
        assert(s1.values.contains_key(a));
        assert(s1.values[a] == s0.values[a]);
    }
    assert forall|i: int| 0 <= i < r.len() implies s2.values[#[trigger] r[i]] == v[i] by {
        if i < r1.len() {
            assert(r[i] == r1[i]);
            assert(r1.contains(r1[i]));
            assert(s1.values.contains_key(r1[i]));
            assert(s2.values[r1[i]] == s1.values[r1[i]]);
        } else {
            assert(r[i] == r2[i - r1.len()]);
        }
    }
}

/// A node that was written cannot be written again, and its value stays
/// what it is when other nodes are written.
pub proof fn lemma_written_once<A, V>(
    s0: CircuitState<A, V>,
    s1: CircuitState<A, V>,
    s2: CircuitState<A, V>,
    first: Seq<A>,
    values: Seq<V>,
    later: Seq<A>,
    later_values: Seq<V>,
    i: int,
)
    requires
        leaves_written(s0, s1, first, values),
        0 <= i < first.len(),
        leaves_written(s1, s2, later, later_values),
        leaves_writable(s1, later),
    ensures
        s1.values.contains_key(first[i]),
        !later.contains(first[i]),
        s2.values.contains_key(first[i]),
        s2.values[first[i]] == s1.values[first[i]],
{
    assert(first.contains(first[i]));
    if later.contains(first[i]) {
        let j = choose|j: int| 0 <= j < later.len() && later[j] == first[i];
        assert(!s1.values.contains_key(later[j]));
    }
}

/// Writing nothing changes nothing.
pub proof fn lemma_written_none<A, V>(state: CircuitState<A, V>)
    ensures
        leaves_written(state, state, Seq::<A>::empty(), Seq::<V>::empty()),
{
}

/// An element is among the first `i + 1` of a list when it is among the
/// first `i` or is the one at place `i`.
pub proof fn lemma_take_contains<A>(s: Seq<A>, i: int, a: A)
    requires
        0 <= i < s.len(),
    ensures
        s.take(i + 1).contains(a) <==> s.take(i).contains(a) || a == s[i],
{
    let more = s.take(i + 1);
    let fewer = s.take(i);
    if more.contains(a) {
        let j = choose|j: int| 0 <= j < more.len() && more[j] == a;
        if j < i {
            assert(fewer[j] == a);
        }
    }
    if fewer.contains(a) {
        let j = choose|j: int| 0 <= j < fewer.len() && fewer[j] == a;
        assert(more[j] == a);
    }
    if a == s[i] {
        assert(more[i] == a);
    }
}

/// The values of a list of nodes, read one by one.
pub fn read_all<C: StandardVariables>(c: &C, raws: &Vec<C::RawAddr>) -> (values: Vec<C::F>)
    requires
        leaves_assigned(c@, raws@),
    ensures
        values@ == leaves_values(c@, raws@),
{
    let mut values: Vec<C::F> = Vec::new();
    let mut i: usize = 0;
    while i < raws.len()
        invariant
            i <= raws.len(),
            leaves_assigned(c@, raws@),
            values@ == leaves_values(c@, raws@.take(i as int)),
        decreases raws.len() - i,
    {
        let v = c.read(raws[i]);
        values.push(v);
        assert(values@ =~= leaves_values(c@, raws@.take(i + 1)));
        i = i + 1;
    }
    assert(raws@.take(raws.len() as int) =~= raws@);
    values
}

/// Writes `values[i]` to `raws[i]` for each `i`. No node of the list has
/// been written before.
pub fn write_all<C: StandardVariables>(c: &mut C, raws: &Vec<C::RawAddr>, values: &Vec<C::F>)
    requires
        raws.len() == values.len(),
        leaves_writable(old(c)@, raws@),
    ensures
        leaves_written(old(c)@, final(c)@, raws@, values@),
{
    let ghost start = c@;
    let mut i: usize = 0;
    proof {
        lemma_written_none(start);
        assert(raws@.take(0) =~= Seq::<C::RawAddr>::empty());
        assert(values@.take(0) =~= Seq::<C::F>::empty());
    }
    while i < raws.len()
        invariant
            i <= raws.len(),
            raws.len() == values.len(),
            leaves_writable(start, raws@),
            leaves_written(start, c@, raws@.take(i as int), values@.take(i as int)),
        decreases raws.len() - i,
    {
        let ghost cur = c@;
        let ghost done = raws@.take(i as int);
        let ghost addr = raws@[i as int];
        proof {
            if done.contains(addr) {
                let j = choose|j: int| 0 <= j < done.len() && done[j] == addr;
                assert(raws@[j] == raws@[i as int]);
            }
            assert(!cur.values.contains_key(addr));
            assert(cur.nodes.contains_key(addr));
        }
        c.write(raws[i], values[i]);
        proof {
            lemma_written_one(cur, addr, values@[i as int]);
            assert(raws@.take(i + 1) =~= done + seq![addr]);
            assert(values@.take(i + 1) =~= values@.take(i as int) + seq![values@[i as int]]);
            assert(leaves_writable(start, done + seq![addr])) by {
                let part = done + seq![addr];
                assert forall|k: int| 0 <= k < part.len() implies part[k] == raws@[k] by {}
            }
            lemma_written_concat(
                start,
                cur,
                c@,
                done,
                values@.take(i as int),
                seq![addr],
                seq![values@[i as int]],
            );
        }
        i = i + 1;
    }
    assert(raws@.take(raws.len() as int) =~= raws@);
    assert(values@.take(values.len() as int) =~= values@);
}

/// The leaves of a list of aggregates: those of the first, then those of the
/// second, and so on.
pub open spec fn concat_raw_addrs<C: Circuit, N: DataStruct<C>>(structs: Seq<N>) -> Seq<
    C::RawAddr,
>
    decreases structs.len(),
{
    if structs.len() == 0 {
        Seq::empty()
    } else {
        concat_raw_addrs::<C, N>(structs.drop_last()) + structs.last().raw_addrs()
    }
}

/// The shape of `n` aggregates of shape `shape` in a row.
pub open spec fn repeat_shape(shape: Seq<Leaf>, n: nat) -> Seq<Leaf>
    decreases n,
{
    if n == 0 {
        Seq::empty()
    } else {
        repeat_shape(shape, (n - 1) as nat) + shape
    }
}

/// The leaves of `n` aggregates of one kind are of that kind.
pub proof fn lemma_roles_repeat(shape: Seq<Leaf>, n: nat)
    ensures
        all_signals(shape) ==> all_signals(repeat_shape(shape, n)),
        all_variables(shape) ==> all_variables(repeat_shape(shape, n)),
        all_constr_rhs(shape) ==> all_constr_rhs(repeat_shape(shape, n)),
    decreases n,
{
    if n > 0 {
        lemma_roles_repeat(shape, (n - 1) as nat);
        lemma_roles_concat(repeat_shape(shape, (n - 1) as nat), shape);
    }
}

/// Every leaf of a list of valid aggregates is valid.
pub proof fn lemma_concat_valid<C: Circuit, N: DataStruct<C>>(
    state: CircuitState<C::RawAddr, C::F>,
    structs: Seq<N>,
)
    requires
        forall|i: int|
            0 <= i < structs.len() ==> leaves_valid(
                state,
                (#[trigger] structs[i]).raw_addrs(),
                N::shape(),
            ),
    ensures
        leaves_valid(
            state,
            concat_raw_addrs::<C, N>(structs),
            repeat_shape(N::shape(), structs.len()),
        ),
    decreases structs.len(),
{
    if structs.len() > 0 {
        let front = structs.drop_last();
        assert forall|i: int| 0 <= i < front.len() implies leaves_valid(
            state,
            (#[trigger] front[i]).raw_addrs(),
            N::shape(),
        ) by {
            assert(front[i] == structs[i]);
        }
        lemma_concat_valid::<C, N>(state, front);
        assert(leaves_valid(state, structs.last().raw_addrs(), N::shape()));
        lemma_valid_concat(
            state,
            concat_raw_addrs::<C, N>(front),
            repeat_shape(N::shape(), front.len()),
            structs.last().raw_addrs(),
            N::shape(),
        );
    }
}

/// Appends the elements of a queue to a list.
pub fn append_deque<A: Copy>(list: &mut Vec<A>, more: &VecDeque<A>)
    ensures
        final(list)@ == old(list)@ + more@,
{
    let mut i: usize = 0;
    assert(list@ =~= old(list)@ + more@.take(0));
    while i < more.len()
        invariant
            i <= more.len(),
            list@ == old(list)@ + more@.take(i as int),
        decreases more.len() - i,
    {
        list.push(more[i]);
        assert(list@ =~= old(list)@ + more@.take(i + 1));
        i = i + 1;
    }
    assert(more@.take(more.len() as int) =~= more@);
}

/// The leaves of one aggregate as a list.
pub fn leaves_of<C: Circuit, N: NodeStruct<C>>(c: &C, s: &N) -> (raws: Vec<C::RawAddr>)
    ensures
        raws@ == s.raw_addrs(),
{
    let queue = s.to_raw_addr(c);
    let mut raws: Vec<C::RawAddr> = Vec::new();
    append_deque(&mut raws, &queue);
    assert(raws@ =~= queue@);
    raws
}

/// The leaves of a list of aggregates as one list.
pub fn leaves_of_all<C: Circuit, N: NodeStruct<C>>(c: &C, structs: &Vec<N>) -> (raws: Vec<
    C::RawAddr,
>)
    ensures
        raws@ == concat_raw_addrs::<C, N>(structs@),
{
    let mut raws: Vec<C::RawAddr> = Vec::new();
    let mut i: usize = 0;
    assert(structs@.take(0) =~= Seq::<N>::empty());
    while i < structs.len()
        invariant
            i <= structs.len(),
            raws@ == concat_raw_addrs::<C, N>(structs@.take(i as int)),
        decreases structs.len() - i,
    {
        let queue = structs[i].to_raw_addr(c);
        append_deque(&mut raws, &queue);
        proof {
            let more = structs@.take(i + 1);
            assert(more.drop_last() =~= structs@.take(i as int));
            assert(more.last() == structs@[i as int]);
        }
        i = i + 1;
    }
    assert(structs@.take(structs.len() as int) =~= structs@);
    raws
}

/// Allocates `n` aggregates of one type, one after the other.
pub fn alloc_many<C: Circuit, N: DataStruct<C>>(c: &mut C, n: usize) -> (out: Vec<N>)
    ensures
        out@.len() == n,
        allocated_leaves(
            old(c)@,
            final(c)@,
            concat_raw_addrs::<C, N>(out@),
            repeat_shape(N::shape(), n as nat),
        ),
{
    let ghost start = c@;
    let mut out: Vec<N> = Vec::new();
    let mut i: usize = 0;
    proof {
        lemma_allocated_none(start);
    }
    while i < n
        invariant
            i <= n,
            out@.len() == i,
            allocated_leaves(
                start,
                c@,
                concat_raw_addrs::<C, N>(out@),
                repeat_shape(N::shape(), i as nat),
            ),
        decreases n - i,
    {
        let ghost mid = c@;
        let ghost done = out@;
        let next = N::alloc_to(c);
        proof {
            lemma_allocated_concat(
                start,
                mid,
                c@,
                concat_raw_addrs::<C, N>(done),
                repeat_shape(N::shape(), i as nat),
                next.raw_addrs(),
                N::shape(),
            );
        }
        out.push(next);
        proof {
            assert(out@.drop_last() =~= done);
        }
        i = i + 1;
    }
    out
}

/// An aggregate that is read and written when the graph runs, that can be
/// listed as raw addresses, and that can be parsed from such a list.
pub trait NodeStruct<C: Circuit>: DataStruct<C> {
    /// The values of the leaves, from left to right.
    spec fn flatten(value: Self::FStruct) -> Seq<C::F>;

    /// The value of the aggregate whose leaves hold `values`.
    spec fn unflatten(values: Seq<C::F>) -> Self::FStruct;

    /// The aggregate whose leaves are `raws`.
    spec fn from_raw_addrs(raws: Seq<C::RawAddr>) -> Self;

    /// A value has one entry for each leaf, and it is the value of its entries.
    proof fn lemma_flatten(value: Self::FStruct)
        ensures
            Self::flatten(value).len() == Self::shape().len(),
            Self::unflatten(Self::flatten(value)) == value,
    ;

    /// The aggregate that is made of a list of leaves has these leaves.
    proof fn lemma_from_raw_addrs(raws: Seq<C::RawAddr>)
        requires
            raws.len() == Self::shape().len(),
        ensures
            Self::from_raw_addrs(raws).raw_addrs() == raws,
    ;

    /// An aggregate is the one that is made of its leaves.
    proof fn lemma_round_trip(&self)
        ensures
            Self::from_raw_addrs(self.raw_addrs()) == *self,
    ;

    /// Reads every leaf.
    fn read_from(self, c: &C) -> (value: Self::FStruct)
        requires
            leaves_assigned(c@, self.raw_addrs()),
        ensures
            value == Self::unflatten(leaves_values(c@, self.raw_addrs())),
    ;

    /// Writes every leaf. No leaf has been written before.
    fn write_to(self, c: &mut C, value: Self::FStruct)
        requires
            leaves_writable(old(c)@, self.raw_addrs()),
        ensures
            leaves_written(old(c)@, final(c)@, self.raw_addrs(), Self::flatten(value)),
    ;

    /// Lists the leaves from left to right.
    fn to_raw_addr(&self, c: &C) -> (raws: VecDeque<C::RawAddr>)
        ensures
            raws@ == self.raw_addrs(),
    ;

    /// Takes the leaves of one aggregate from the front of `raws`. Each of
    /// them is a node of `c` of the type and role that its leaf demands.
    fn try_from_raw_addr(c: &C, raws: &mut VecDeque<C::RawAddr>) -> (s: Self)
        requires
            old(raws)@.len() >= Self::shape().len(),
            leaves_valid(c@, old(raws)@.take(Self::shape().len() as int), Self::shape()),
        ensures
            s == Self::from_raw_addrs(old(raws)@.take(Self::shape().len() as int)),
            final(raws)@ == old(raws)@.skip(Self::shape().len() as int),
    ;
}

/// An aggregate of signals and variables: advices read and write it.
pub trait SVStruct<C: Circuit>: NodeStruct<C> {
    proof fn lemma_all_variables()
        ensures
            all_variables(Self::shape()),
    ;
}

/// An aggregate of signals: constraints take it as input.
pub trait SigStruct<C: Circuit>: NodeStruct<C> {
    proof fn lemma_all_signals()
        ensures
            all_signals(Self::shape()),
    ;
}

/// An aggregate of right-hand sides: constraints write it.
pub trait CRhsStruct<C: Circuit>: NodeStruct<C> {
    proof fn lemma_all_constr_rhs()
        ensures
            all_constr_rhs(Self::shape()),
    ;
}

impl<C: Circuit> NodeStruct<C> for () {
    open spec fn flatten(value: ()) -> Seq<C::F> {
        Seq::empty()
    }

    open spec fn unflatten(values: Seq<C::F>) -> () {
        ()
    }

    open spec fn from_raw_addrs(raws: Seq<C::RawAddr>) -> Self {
        ()
    }

    proof fn lemma_flatten(value: ()) {
    }

    proof fn lemma_from_raw_addrs(raws: Seq<C::RawAddr>) {
        assert(raws =~= Seq::<C::RawAddr>::empty());
    }

    proof fn lemma_round_trip(&self) {
    }

    fn read_from(self, c: &C) -> (value: ()) {
    }

    fn write_to(self, c: &mut C, value: ()) {
    }

    fn to_raw_addr(&self, c: &C) -> (raws: VecDeque<C::RawAddr>) {
        VecDeque::new()
    }

    fn try_from_raw_addr(c: &C, raws: &mut VecDeque<C::RawAddr>) -> (s: Self) {
        assert(raws@.skip(0) =~= raws@);
    }
}

/// Parsing the enumeration of an aggregate, whatever follows it, gives the
/// aggregate back and leaves what followed.
pub proof fn lemma_parse_inverts_enumeration<C: Circuit, N: NodeStruct<C>>(
    s: N,
    rest: Seq<C::RawAddr>,
)
    ensures
        ({
            let raws = s.raw_addrs() + rest;
            let n = N::shape().len() as int;
            &&& n == s.raw_addrs().len()
            &&& N::from_raw_addrs(raws.take(n)) == s
            &&& raws.skip(n) == rest
        }),
{
    s.lemma_shape();
    s.lemma_round_trip();
    let raws = s.raw_addrs() + rest;
    let n = N::shape().len() as int;
    assert(raws.take(n) =~= s.raw_addrs());
    assert(raws.skip(n) =~= rest);
}

} // verus!
