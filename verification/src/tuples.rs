//! Tuples of aggregates, from two to twelve components. The leaves of a tuple
//! are those of its components from left to right. A tuple of more than two
//! components is handled as the pair of its first components and its last.
use crate::advices::{lemma_allocated_concat, DataStruct, Leaf};
use crate::circuit::Circuit;
use crate::node_struct::{
    lemma_assigned_concat, lemma_roles_concat, lemma_valid_concat, lemma_writable_concat,
    lemma_written_concat, leaves_values, CRhsStruct, NodeStruct, SVStruct, SigStruct,
};
use std::collections::VecDeque;
use vstd::prelude::*;

verus! {

impl<C: Circuit, T1: DataStruct<C>, T2: DataStruct<C>> DataStruct<C> for (T1, T2) {
    type FStruct = (T1::FStruct, T2::FStruct);

    open spec fn raw_addrs(&self) -> Seq<C::RawAddr> {
        self.0.raw_addrs() + self.1.raw_addrs()
    }

    open spec fn shape() -> Seq<Leaf> {
        T1::shape() + T2::shape()
    }

    proof fn lemma_shape(&self) {
        self.0.lemma_shape();
        self.1.lemma_shape();
    }

    fn alloc_to(c: &mut C) -> (s: Self) {
        let first = T1::alloc_to(c);
        let ghost mid = c@;
        let second = T2::alloc_to(c);
        proof {
            lemma_allocated_concat(
                old(c)@,
                mid,
                c@,
                first.raw_addrs(),
                T1::shape(),
                second.raw_addrs(),
                T2::shape(),
            );
        }
        (first, second)
    }
}

impl<C: Circuit, T1: NodeStruct<C>, T2: NodeStruct<C>> NodeStruct<C> for (T1, T2) {
    open spec fn flatten(value: (T1::FStruct, T2::FStruct)) -> Seq<C::F> {
        T1::flatten(value.0) + T2::flatten(value.1)
    }

    open spec fn unflatten(values: Seq<C::F>) -> (T1::FStruct, T2::FStruct) {
        let n = T1::shape().len() as int;
        (T1::unflatten(values.take(n)), T2::unflatten(values.skip(n)))
    }

    open spec fn from_raw_addrs(raws: Seq<C::RawAddr>) -> Self {
        let n = T1::shape().len() as int;
        (T1::from_raw_addrs(raws.take(n)), T2::from_raw_addrs(raws.skip(n)))
    }

    proof fn lemma_flatten(value: (T1::FStruct, T2::FStruct)) {
        T1::lemma_flatten(value.0);
        T2::lemma_flatten(value.1);
        let flat = Self::flatten(value);
        let n = T1::shape().len() as int;
        assert(flat.take(n) =~= T1::flatten(value.0));
        assert(flat.skip(n) =~= T2::flatten(value.1));
    }

    proof fn lemma_from_raw_addrs(raws: Seq<C::RawAddr>) {
        let n = T1::shape().len() as int;
        T1::lemma_from_raw_addrs(raws.take(n));
        T2::lemma_from_raw_addrs(raws.skip(n));
        assert(raws.take(n) + raws.skip(n) =~= raws);
    }

    proof fn lemma_round_trip(&self) {
        self.0.lemma_shape();
        self.0.lemma_round_trip();
        self.1.lemma_round_trip();
        let raws = self.raw_addrs();
        let n = T1::shape().len() as int;
        assert(raws.take(n) =~= self.0.raw_addrs());
        assert(raws.skip(n) =~= self.1.raw_addrs());
    }

    fn read_from(self, c: &C) -> (value: (T1::FStruct, T2::FStruct)) {
        proof {
            self.0.lemma_shape();
            lemma_assigned_concat(c@, self.0.raw_addrs(), self.1.raw_addrs());
            let n = T1::shape().len() as int;
            let values = leaves_values(c@, self.raw_addrs());
            assert(values.take(n) =~= leaves_values(c@, self.0.raw_addrs()));
            assert(values.skip(n) =~= leaves_values(c@, self.1.raw_addrs()));
        }
        let first = self.0.read_from(c);
        let second = self.1.read_from(c);
        (first, second)
    }

    fn write_to(self, c: &mut C, value: (T1::FStruct, T2::FStruct)) {
        let ghost r1 = self.0.raw_addrs();
        let ghost r2 = self.1.raw_addrs();
        let ghost v1 = T1::flatten(value.0);
        let ghost v2 = T2::flatten(value.1);
        proof {
            lemma_writable_concat(old(c)@, old(c)@, r1, v1, r2);
        }
        self.0.write_to(c, value.0);
        let ghost mid = c@;
        proof {
            lemma_writable_concat(old(c)@, mid, r1, v1, r2);
        }
        self.1.write_to(c, value.1);
        proof {
            lemma_written_concat(old(c)@, mid, c@, r1, v1, r2, v2);
        }
    }

    fn to_raw_addr(&self, c: &C) -> (raws: VecDeque<C::RawAddr>) {
        let mut raws = self.0.to_raw_addr(c);
        let mut more = self.1.to_raw_addr(c);
        raws.append(&mut more);
        raws
    }

    fn try_from_raw_addr(c: &C, raws: &mut VecDeque<C::RawAddr>) -> (s: Self) {
        let ghost n1 = T1::shape().len() as int;
        let ghost n2 = T2::shape().len() as int;
        let ghost all = raws@.take(n1 + n2);
        proof {
            assert(all =~= all.take(n1) + all.skip(n1));
            lemma_valid_concat(c@, all.take(n1), T1::shape(), all.skip(n1), T2::shape());
            assert(raws@.take(n1) =~= all.take(n1));
            assert(raws@.skip(n1).take(n2) =~= all.skip(n1));
        }
        let first = T1::try_from_raw_addr(c, raws);
        let second = T2::try_from_raw_addr(c, raws);
        proof {
            assert(raws@ =~= old(raws)@.skip(n1 + n2));
        }
        (first, second)
    }
}

impl<C: Circuit, T1: SVStruct<C>, T2: SVStruct<C>> SVStruct<C> for (T1, T2) {
    proof fn lemma_all_variables() {
        T1::lemma_all_variables();
        T2::lemma_all_variables();
        lemma_roles_concat(T1::shape(), T2::shape());
    }
}

impl<C: Circuit, T1: SigStruct<C>, T2: SigStruct<C>> SigStruct<C> for (T1, T2) {
    proof fn lemma_all_signals() {
        T1::lemma_all_signals();
        T2::lemma_all_signals();
        lemma_roles_concat(T1::shape(), T2::shape());
    }
}

impl<C: Circuit, T1: CRhsStruct<C>, T2: CRhsStruct<C>> CRhsStruct<C> for (T1, T2) {
    proof fn lemma_all_constr_rhs() {
        T1::lemma_all_constr_rhs();
        T2::lemma_all_constr_rhs();
        lemma_roles_concat(T1::shape(), T2::shape());
    }
}

impl<C: Circuit, T1: DataStruct<C>, T2: DataStruct<C>, T3: DataStruct<C>> DataStruct<C> for (T1, T2, T3) {
    type FStruct = (T1::FStruct, T2::FStruct, T3::FStruct);

    open spec fn raw_addrs(&self) -> Seq<C::RawAddr> {
        <(T1, T2) as DataStruct<C>>::raw_addrs(&(self.0, self.1)) + self.2.raw_addrs()
    }

    open spec fn shape() -> Seq<Leaf> {
        <(T1, T2) as DataStruct<C>>::shape() + T3::shape()
    }

    proof fn lemma_shape(&self) {
        <((T1, T2), T3) as DataStruct<C>>::lemma_shape(&((self.0, self.1), self.2));
    }

    fn alloc_to(c: &mut C) -> (s: Self) {
        let ((n1, n2), n3) = <((T1, T2), T3) as DataStruct<C>>::alloc_to(c);
        (n1, n2, n3)
    }
}

impl<C: Circuit, T1: NodeStruct<C>, T2: NodeStruct<C>, T3: NodeStruct<C>> NodeStruct<C> for (T1, T2, T3) {
    open spec fn flatten(value: (T1::FStruct, T2::FStruct, T3::FStruct)) -> Seq<C::F> {
        <(T1, T2) as NodeStruct<C>>::flatten((value.0, value.1)) + T3::flatten(value.2)
    }

    open spec fn unflatten(values: Seq<C::F>) -> (T1::FStruct, T2::FStruct, T3::FStruct) {
        let p = <((T1, T2), T3) as NodeStruct<C>>::unflatten(values);
        (p.0.0, p.0.1, p.1)
    }

    open spec fn from_raw_addrs(raws: Seq<C::RawAddr>) -> Self {
        let p = <((T1, T2), T3) as NodeStruct<C>>::from_raw_addrs(raws);
        (p.0.0, p.0.1, p.1)
    }

    proof fn lemma_flatten(value: (T1::FStruct, T2::FStruct, T3::FStruct)) {
        <((T1, T2), T3) as NodeStruct<C>>::lemma_flatten(((value.0, value.1), value.2));
    }

    proof fn lemma_from_raw_addrs(raws: Seq<C::RawAddr>) {
        <((T1, T2), T3) as NodeStruct<C>>::lemma_from_raw_addrs(raws);
    }

    proof fn lemma_round_trip(&self) {
        <((T1, T2), T3) as NodeStruct<C>>::lemma_round_trip(&((self.0, self.1), self.2));
    }

    fn read_from(self, c: &C) -> (value: (T1::FStruct, T2::FStruct, T3::FStruct)) {
        let (n1, n2, n3) = self;
        let ((v1, v2), v3) = <((T1, T2), T3) as NodeStruct<C>>::read_from(((n1, n2), n3), c);
        (v1, v2, v3)
    }

    fn write_to(self, c: &mut C, value: (T1::FStruct, T2::FStruct, T3::FStruct)) {
        let (n1, n2, n3) = self;
        let (v1, v2, v3) = value;
        <((T1, T2), T3) as NodeStruct<C>>::write_to(((n1, n2), n3), c, ((v1, v2), v3));
    }

    fn to_raw_addr(&self, c: &C) -> (raws: VecDeque<C::RawAddr>) {
        let mut raws = self.0.to_raw_addr(c);
        let mut more = self.1.to_raw_addr(c);
        raws.append(&mut more);
        let mut more = self.2.to_raw_addr(c);
        raws.append(&mut more);
        raws
    }

    fn try_from_raw_addr(c: &C, raws: &mut VecDeque<C::RawAddr>) -> (s: Self) {
        let ((n1, n2), n3) = <((T1, T2), T3) as NodeStruct<C>>::try_from_raw_addr(c, raws);
        (n1, n2, n3)
    }
}

impl<C: Circuit, T1: SVStruct<C>, T2: SVStruct<C>, T3: SVStruct<C>> SVStruct<C> for (T1, T2, T3) {
    proof fn lemma_all_variables() {
        <(T1, T2) as SVStruct<C>>::lemma_all_variables();
        T3::lemma_all_variables();
        lemma_roles_concat(<(T1, T2) as DataStruct<C>>::shape(), T3::shape());
    }
}

impl<C: Circuit, T1: SigStruct<C>, T2: SigStruct<C>, T3: SigStruct<C>> SigStruct<C> for (T1, T2, T3) {
    proof fn lemma_all_signals() {
        <(T1, T2) as SigStruct<C>>::lemma_all_signals();
        T3::lemma_all_signals();
        lemma_roles_concat(<(T1, T2) as DataStruct<C>>::shape(), T3::shape());
    }
}

impl<C: Circuit, T1: CRhsStruct<C>, T2: CRhsStruct<C>, T3: CRhsStruct<C>> CRhsStruct<C> for (T1, T2, T3) {
    proof fn lemma_all_constr_rhs() {
        <(T1, T2) as CRhsStruct<C>>::lemma_all_constr_rhs();
        T3::lemma_all_constr_rhs();
        lemma_roles_concat(<(T1, T2) as DataStruct<C>>::shape(), T3::shape());
    }
}

impl<C: Circuit, T1: DataStruct<C>, T2: DataStruct<C>, T3: DataStruct<C>, T4: DataStruct<C>> DataStruct<C> for (T1, T2, T3, T4) {
    type FStruct = (T1::FStruct, T2::FStruct, T3::FStruct, T4::FStruct);

    open spec fn raw_addrs(&self) -> Seq<C::RawAddr> {
        <(T1, T2, T3) as DataStruct<C>>::raw_addrs(&(self.0, self.1, self.2)) + self.3.raw_addrs()
    }

    open spec fn shape() -> Seq<Leaf> {
        <(T1, T2, T3) as DataStruct<C>>::shape() + T4::shape()
    }

    proof fn lemma_shape(&self) {
        <((T1, T2, T3), T4) as DataStruct<C>>::lemma_shape(&((self.0, self.1, self.2), self.3));
    }

    fn alloc_to(c: &mut C) -> (s: Self) {
        let ((n1, n2, n3), n4) = <((T1, T2, T3), T4) as DataStruct<C>>::alloc_to(c);
        (n1, n2, n3, n4)
    }
}

impl<C: Circuit, T1: NodeStruct<C>, T2: NodeStruct<C>, T3: NodeStruct<C>, T4: NodeStruct<C>> NodeStruct<C> for (T1, T2, T3, T4) {
    open spec fn flatten(value: (T1::FStruct, T2::FStruct, T3::FStruct, T4::FStruct)) -> Seq<C::F> {
        <(T1, T2, T3) as NodeStruct<C>>::flatten((value.0, value.1, value.2)) + T4::flatten(value.3)
    }

    open spec fn unflatten(values: Seq<C::F>) -> (T1::FStruct, T2::FStruct, T3::FStruct, T4::FStruct) {
        let p = <((T1, T2, T3), T4) as NodeStruct<C>>::unflatten(values);
        (p.0.0, p.0.1, p.0.2, p.1)
    }

    open spec fn from_raw_addrs(raws: Seq<C::RawAddr>) -> Self {
        let p = <((T1, T2, T3), T4) as NodeStruct<C>>::from_raw_addrs(raws);
        (p.0.0, p.0.1, p.0.2, p.1)
    }

    proof fn lemma_flatten(value: (T1::FStruct, T2::FStruct, T3::FStruct, T4::FStruct)) {
        <((T1, T2, T3), T4) as NodeStruct<C>>::lemma_flatten(((value.0, value.1, value.2), value.3));
    }

    proof fn lemma_from_raw_addrs(raws: Seq<C::RawAddr>) {
        <((T1, T2, T3), T4) as NodeStruct<C>>::lemma_from_raw_addrs(raws);
    }

    proof fn lemma_round_trip(&self) {
        <((T1, T2, T3), T4) as NodeStruct<C>>::lemma_round_trip(&((self.0, self.1, self.2), self.3));
    }

    fn read_from(self, c: &C) -> (value: (T1::FStruct, T2::FStruct, T3::FStruct, T4::FStruct)) {
        let (n1, n2, n3, n4) = self;
        let ((v1, v2, v3), v4) = <((T1, T2, T3), T4) as NodeStruct<C>>::read_from(((n1, n2, n3), n4), c);
        (v1, v2, v3, v4)
    }

    fn write_to(self, c: &mut C, value: (T1::FStruct, T2::FStruct, T3::FStruct, T4::FStruct)) {
        let (n1, n2, n3, n4) = self;
        let (v1, v2, v3, v4) = value;
        <((T1, T2, T3), T4) as NodeStruct<C>>::write_to(((n1, n2, n3), n4), c, ((v1, v2, v3), v4));
    }

    fn to_raw_addr(&self, c: &C) -> (raws: VecDeque<C::RawAddr>) {
        let mut raws = self.0.to_raw_addr(c);
        let mut more = self.1.to_raw_addr(c);
        raws.append(&mut more);
        let mut more = self.2.to_raw_addr(c);
        raws.append(&mut more);
        let mut more = self.3.to_raw_addr(c);
        raws.append(&mut more);
        raws
    }

    fn try_from_raw_addr(c: &C, raws: &mut VecDeque<C::RawAddr>) -> (s: Self) {
        let ((n1, n2, n3), n4) = <((T1, T2, T3), T4) as NodeStruct<C>>::try_from_raw_addr(c, raws);
        (n1, n2, n3, n4)
    }
}

impl<C: Circuit, T1: SVStruct<C>, T2: SVStruct<C>, T3: SVStruct<C>, T4: SVStruct<C>> SVStruct<C> for (T1, T2, T3, T4) {
    proof fn lemma_all_variables() {
        <(T1, T2, T3) as SVStruct<C>>::lemma_all_variables();
        T4::lemma_all_variables();
        lemma_roles_concat(<(T1, T2, T3) as DataStruct<C>>::shape(), T4::shape());
    }
}

impl<C: Circuit, T1: SigStruct<C>, T2: SigStruct<C>, T3: SigStruct<C>, T4: SigStruct<C>> SigStruct<C> for (T1, T2, T3, T4) {
    proof fn lemma_all_signals() {
        <(T1, T2, T3) as SigStruct<C>>::lemma_all_signals();
        T4::lemma_all_signals();
        lemma_roles_concat(<(T1, T2, T3) as DataStruct<C>>::shape(), T4::shape());
    }
}

impl<C: Circuit, T1: CRhsStruct<C>, T2: CRhsStruct<C>, T3: CRhsStruct<C>, T4: CRhsStruct<C>> CRhsStruct<C> for (T1, T2, T3, T4) {
    proof fn lemma_all_constr_rhs() {
        <(T1, T2, T3) as CRhsStruct<C>>::lemma_all_constr_rhs();
        T4::lemma_all_constr_rhs();
        lemma_roles_concat(<(T1, T2, T3) as DataStruct<C>>::shape(), T4::shape());
    }
}

impl<C: Circuit, T1: DataStruct<C>, T2: DataStruct<C>, T3: DataStruct<C>, T4: DataStruct<C>, T5: DataStruct<C>> DataStruct<C> for (T1, T2, T3, T4, T5) {
    type FStruct = (T1::FStruct, T2::FStruct, T3::FStruct, T4::FStruct, T5::FStruct);

    open spec fn raw_addrs(&self) -> Seq<C::RawAddr> {
        <(T1, T2, T3, T4) as DataStruct<C>>::raw_addrs(&(self.0, self.1, self.2, self.3)) + self.4.raw_addrs()
    }

    open spec fn shape() -> Seq<Leaf> {
        <(T1, T2, T3, T4) as DataStruct<C>>::shape() + T5::shape()
    }

    proof fn lemma_shape(&self) {
        <((T1, T2, T3, T4), T5) as DataStruct<C>>::lemma_shape(&((self.0, self.1, self.2, self.3), self.4));
    }

    fn alloc_to(c: &mut C) -> (s: Self) {
        let ((n1, n2, n3, n4), n5) = <((T1, T2, T3, T4), T5) as DataStruct<C>>::alloc_to(c);
        (n1, n2, n3, n4, n5)
    }
}

impl<C: Circuit, T1: NodeStruct<C>, T2: NodeStruct<C>, T3: NodeStruct<C>, T4: NodeStruct<C>, T5: NodeStruct<C>> NodeStruct<C> for (T1, T2, T3, T4, T5) {
    open spec fn flatten(value: (T1::FStruct, T2::FStruct, T3::FStruct, T4::FStruct, T5::FStruct)) -> Seq<C::F> {
        <(T1, T2, T3, T4) as NodeStruct<C>>::flatten((value.0, value.1, value.2, value.3)) + T5::flatten(value.4)
    }

    open spec fn unflatten(values: Seq<C::F>) -> (T1::FStruct, T2::FStruct, T3::FStruct, T4::FStruct, T5::FStruct) {
        let p = <((T1, T2, T3, T4), T5) as NodeStruct<C>>::unflatten(values);
        (p.0.0, p.0.1, p.0.2, p.0.3, p.1)
    }

    open spec fn from_raw_addrs(raws: Seq<C::RawAddr>) -> Self {
        let p = <((T1, T2, T3, T4), T5) as NodeStruct<C>>::from_raw_addrs(raws);
        (p.0.0, p.0.1, p.0.2, p.0.3, p.1)
    }

    proof fn lemma_flatten(value: (T1::FStruct, T2::FStruct, T3::FStruct, T4::FStruct, T5::FStruct)) {
        <((T1, T2, T3, T4), T5) as NodeStruct<C>>::lemma_flatten(((value.0, value.1, value.2, value.3), value.4));
    }

    proof fn lemma_from_raw_addrs(raws: Seq<C::RawAddr>) {
        <((T1, T2, T3, T4), T5) as NodeStruct<C>>::lemma_from_raw_addrs(raws);
    }

    proof fn lemma_round_trip(&self) {
        <((T1, T2, T3, T4), T5) as NodeStruct<C>>::lemma_round_trip(&((self.0, self.1, self.2, self.3), self.4));
    }

    fn read_from(self, c: &C) -> (value: (T1::FStruct, T2::FStruct, T3::FStruct, T4::FStruct, T5::FStruct)) {
        let (n1, n2, n3, n4, n5) = self;
        let ((v1, v2, v3, v4), v5) = <((T1, T2, T3, T4), T5) as NodeStruct<C>>::read_from(((n1, n2, n3, n4), n5), c);
        (v1, v2, v3, v4, v5)
    }

    fn write_to(self, c: &mut C, value: (T1::FStruct, T2::FStruct, T3::FStruct, T4::FStruct, T5::FStruct)) {
        let (n1, n2, n3, n4, n5) = self;
        let (v1, v2, v3, v4, v5) = value;
        <((T1, T2, T3, T4), T5) as NodeStruct<C>>::write_to(((n1, n2, n3, n4), n5), c, ((v1, v2, v3, v4), v5));
    }

    fn to_raw_addr(&self, c: &C) -> (raws: VecDeque<C::RawAddr>) {
        let mut raws = self.0.to_raw_addr(c);
        let mut more = self.1.to_raw_addr(c);
        raws.append(&mut more);
        let mut more = self.2.to_raw_addr(c);
        raws.append(&mut more);
        let mut more = self.3.to_raw_addr(c);
        raws.append(&mut more);
        let mut more = self.4.to_raw_addr(c);
        raws.append(&mut more);
        raws
    }

    fn try_from_raw_addr(c: &C, raws: &mut VecDeque<C::RawAddr>) -> (s: Self) {
        let ((n1, n2, n3, n4), n5) = <((T1, T2, T3, T4), T5) as NodeStruct<C>>::try_from_raw_addr(c, raws);
        (n1, n2, n3, n4, n5)
    }
}

impl<C: Circuit, T1: SVStruct<C>, T2: SVStruct<C>, T3: SVStruct<C>, T4: SVStruct<C>, T5: SVStruct<C>> SVStruct<C> for (T1, T2, T3, T4, T5) {
    proof fn lemma_all_variables() {
        <(T1, T2, T3, T4) as SVStruct<C>>::lemma_all_variables();
        T5::lemma_all_variables();
        lemma_roles_concat(<(T1, T2, T3, T4) as DataStruct<C>>::shape(), T5::shape());
    }
}

impl<C: Circuit, T1: SigStruct<C>, T2: SigStruct<C>, T3: SigStruct<C>, T4: SigStruct<C>, T5: SigStruct<C>> SigStruct<C> for (T1, T2, T3, T4, T5) {
    proof fn lemma_all_signals() {
        <(T1, T2, T3, T4) as SigStruct<C>>::lemma_all_signals();
        T5::lemma_all_signals();
        lemma_roles_concat(<(T1, T2, T3, T4) as DataStruct<C>>::shape(), T5::shape());
    }
}

impl<C: Circuit, T1: CRhsStruct<C>, T2: CRhsStruct<C>, T3: CRhsStruct<C>, T4: CRhsStruct<C>, T5: CRhsStruct<C>> CRhsStruct<C> for (T1, T2, T3, T4, T5) {
    proof fn lemma_all_constr_rhs() {
        <(T1, T2, T3, T4) as CRhsStruct<C>>::lemma_all_constr_rhs();
        T5::lemma_all_constr_rhs();
        lemma_roles_concat(<(T1, T2, T3, T4) as DataStruct<C>>::shape(), T5::shape());
    }
}

impl<C: Circuit, T1: DataStruct<C>, T2: DataStruct<C>, T3: DataStruct<C>, T4: DataStruct<C>, T5: DataStruct<C>, T6: DataStruct<C>> DataStruct<C> for (T1, T2, T3, T4, T5, T6) {
    type FStruct = (T1::FStruct, T2::FStruct, T3::FStruct, T4::FStruct, T5::FStruct, T6::FStruct);

    open spec fn raw_addrs(&self) -> Seq<C::RawAddr> {
        <(T1, T2, T3, T4, T5) as DataStruct<C>>::raw_addrs(&(self.0, self.1, self.2, self.3, self.4)) + self.5.raw_addrs()
    }

    open spec fn shape() -> Seq<Leaf> {
        <(T1, T2, T3, T4, T5) as DataStruct<C>>::shape() + T6::shape()
    }

    proof fn lemma_shape(&self) {
        <((T1, T2, T3, T4, T5), T6) as DataStruct<C>>::lemma_shape(&((self.0, self.1, self.2, self.3, self.4), self.5));
    }

    fn alloc_to(c: &mut C) -> (s: Self) {
        let ((n1, n2, n3, n4, n5), n6) = <((T1, T2, T3, T4, T5), T6) as DataStruct<C>>::alloc_to(c);
        (n1, n2, n3, n4, n5, n6)
    }
}

impl<C: Circuit, T1: NodeStruct<C>, T2: NodeStruct<C>, T3: NodeStruct<C>, T4: NodeStruct<C>, T5: NodeStruct<C>, T6: NodeStruct<C>> NodeStruct<C> for (T1, T2, T3, T4, T5, T6) {
    open spec fn flatten(value: (T1::FStruct, T2::FStruct, T3::FStruct, T4::FStruct, T5::FStruct, T6::FStruct)) -> Seq<C::F> {
        <(T1, T2, T3, T4, T5) as NodeStruct<C>>::flatten((value.0, value.1, value.2, value.3, value.4)) + T6::flatten(value.5)
    }

    open spec fn unflatten(values: Seq<C::F>) -> (T1::FStruct, T2::FStruct, T3::FStruct, T4::FStruct, T5::FStruct, T6::FStruct) {
        let p = <((T1, T2, T3, T4, T5), T6) as NodeStruct<C>>::unflatten(values);
        (p.0.0, p.0.1, p.0.2, p.0.3, p.0.4, p.1)
    }

    open spec fn from_raw_addrs(raws: Seq<C::RawAddr>) -> Self {
        let p = <((T1, T2, T3, T4, T5), T6) as NodeStruct<C>>::from_raw_addrs(raws);
        (p.0.0, p.0.1, p.0.2, p.0.3, p.0.4, p.1)
    }

    proof fn lemma_flatten(value: (T1::FStruct, T2::FStruct, T3::FStruct, T4::FStruct, T5::FStruct, T6::FStruct)) {
        <((T1, T2, T3, T4, T5), T6) as NodeStruct<C>>::lemma_flatten(((value.0, value.1, value.2, value.3, value.4), value.5));
    }

    proof fn lemma_from_raw_addrs(raws: Seq<C::RawAddr>) {
        <((T1, T2, T3, T4, T5), T6) as NodeStruct<C>>::lemma_from_raw_addrs(raws);
    }

    proof fn lemma_round_trip(&self) {
        <((T1, T2, T3, T4, T5), T6) as NodeStruct<C>>::lemma_round_trip(&((self.0, self.1, self.2, self.3, self.4), self.5));
    }

    fn read_from(self, c: &C) -> (value: (T1::FStruct, T2::FStruct, T3::FStruct, T4::FStruct, T5::FStruct, T6::FStruct)) {
        let (n1, n2, n3, n4, n5, n6) = self;
        let ((v1, v2, v3, v4, v5), v6) = <((T1, T2, T3, T4, T5), T6) as NodeStruct<C>>::read_from(((n1, n2, n3, n4, n5), n6), c);
        (v1, v2, v3, v4, v5, v6)
    }

    fn write_to(self, c: &mut C, value: (T1::FStruct, T2::FStruct, T3::FStruct, T4::FStruct, T5::FStruct, T6::FStruct)) {
        let (n1, n2, n3, n4, n5, n6) = self;
        let (v1, v2, v3, v4, v5, v6) = value;
        <((T1, T2, T3, T4, T5), T6) as NodeStruct<C>>::write_to(((n1, n2, n3, n4, n5), n6), c, ((v1, v2, v3, v4, v5), v6));
    }

    fn to_raw_addr(&self, c: &C) -> (raws: VecDeque<C::RawAddr>) {
        let mut raws = self.0.to_raw_addr(c);
        let mut more = self.1.to_raw_addr(c);
        raws.append(&mut more);
        let mut more = self.2.to_raw_addr(c);
        raws.append(&mut more);
        let mut more = self.3.to_raw_addr(c);
        raws.append(&mut more);
        let mut more = self.4.to_raw_addr(c);
        raws.append(&mut more);
        let mut more = self.5.to_raw_addr(c);
        raws.append(&mut more);
        raws
    }

    fn try_from_raw_addr(c: &C, raws: &mut VecDeque<C::RawAddr>) -> (s: Self) {
        let ((n1, n2, n3, n4, n5), n6) = <((T1, T2, T3, T4, T5), T6) as NodeStruct<C>>::try_from_raw_addr(c, raws);
        (n1, n2, n3, n4, n5, n6)
    }
}

impl<C: Circuit, T1: SVStruct<C>, T2: SVStruct<C>, T3: SVStruct<C>, T4: SVStruct<C>, T5: SVStruct<C>, T6: SVStruct<C>> SVStruct<C> for (T1, T2, T3, T4, T5, T6) {
    proof fn lemma_all_variables() {
        <(T1, T2, T3, T4, T5) as SVStruct<C>>::lemma_all_variables();
        T6::lemma_all_variables();
        lemma_roles_concat(<(T1, T2, T3, T4, T5) as DataStruct<C>>::shape(), T6::shape());
    }
}

impl<C: Circuit, T1: SigStruct<C>, T2: SigStruct<C>, T3: SigStruct<C>, T4: SigStruct<C>, T5: SigStruct<C>, T6: SigStruct<C>> SigStruct<C> for (T1, T2, T3, T4, T5, T6) {
    proof fn lemma_all_signals() {
        <(T1, T2, T3, T4, T5) as SigStruct<C>>::lemma_all_signals();
        T6::lemma_all_signals();
        lemma_roles_concat(<(T1, T2, T3, T4, T5) as DataStruct<C>>::shape(), T6::shape());
    }
}

impl<C: Circuit, T1: CRhsStruct<C>, T2: CRhsStruct<C>, T3: CRhsStruct<C>, T4: CRhsStruct<C>, T5: CRhsStruct<C>, T6: CRhsStruct<C>> CRhsStruct<C> for (T1, T2, T3, T4, T5, T6) {
    proof fn lemma_all_constr_rhs() {
        <(T1, T2, T3, T4, T5) as CRhsStruct<C>>::lemma_all_constr_rhs();
        T6::lemma_all_constr_rhs();
        lemma_roles_concat(<(T1, T2, T3, T4, T5) as DataStruct<C>>::shape(), T6::shape());
    }
}

impl<C: Circuit, T1: DataStruct<C>, T2: DataStruct<C>, T3: DataStruct<C>, T4: DataStruct<C>, T5: DataStruct<C>, T6: DataStruct<C>, T7: DataStruct<C>> DataStruct<C> for (T1, T2, T3, T4, T5, T6, T7) {
    type FStruct = (T1::FStruct, T2::FStruct, T3::FStruct, T4::FStruct, T5::FStruct, T6::FStruct, T7::FStruct);

    open spec fn raw_addrs(&self) -> Seq<C::RawAddr> {
        <(T1, T2, T3, T4, T5, T6) as DataStruct<C>>::raw_addrs(&(self.0, self.1, self.2, self.3, self.4, self.5)) + self.6.raw_addrs()
    }

    open spec fn shape() -> Seq<Leaf> {
        <(T1, T2, T3, T4, T5, T6) as DataStruct<C>>::shape() + T7::shape()
    }

    proof fn lemma_shape(&self) {
        <((T1, T2, T3, T4, T5, T6), T7) as DataStruct<C>>::lemma_shape(&((self.0, self.1, self.2, self.3, self.4, self.5), self.6));
    }

    fn alloc_to(c: &mut C) -> (s: Self) {
        let ((n1, n2, n3, n4, n5, n6), n7) = <((T1, T2, T3, T4, T5, T6), T7) as DataStruct<C>>::alloc_to(c);
        (n1, n2, n3, n4, n5, n6, n7)
    }
}

impl<C: Circuit, T1: NodeStruct<C>, T2: NodeStruct<C>, T3: NodeStruct<C>, T4: NodeStruct<C>, T5: NodeStruct<C>, T6: NodeStruct<C>, T7: NodeStruct<C>> NodeStruct<C> for (T1, T2, T3, T4, T5, T6, T7) {
    open spec fn flatten(value: (T1::FStruct, T2::FStruct, T3::FStruct, T4::FStruct, T5::FStruct, T6::FStruct, T7::FStruct)) -> Seq<C::F> {
        <(T1, T2, T3, T4, T5, T6) as NodeStruct<C>>::flatten((value.0, value.1, value.2, value.3, value.4, value.5)) + T7::flatten(value.6)
    }

    open spec fn unflatten(values: Seq<C::F>) -> (T1::FStruct, T2::FStruct, T3::FStruct, T4::FStruct, T5::FStruct, T6::FStruct, T7::FStruct) {
        let p = <((T1, T2, T3, T4, T5, T6), T7) as NodeStruct<C>>::unflatten(values);
        (p.0.0, p.0.1, p.0.2, p.0.3, p.0.4, p.0.5, p.1)
    }

    open spec fn from_raw_addrs(raws: Seq<C::RawAddr>) -> Self {
        let p = <((T1, T2, T3, T4, T5, T6), T7) as NodeStruct<C>>::from_raw_addrs(raws);
        (p.0.0, p.0.1, p.0.2, p.0.3, p.0.4, p.0.5, p.1)
    }

    proof fn lemma_flatten(value: (T1::FStruct, T2::FStruct, T3::FStruct, T4::FStruct, T5::FStruct, T6::FStruct, T7::FStruct)) {
        <((T1, T2, T3, T4, T5, T6), T7) as NodeStruct<C>>::lemma_flatten(((value.0, value.1, value.2, value.3, value.4, value.5), value.6));
    }

    proof fn lemma_from_raw_addrs(raws: Seq<C::RawAddr>) {
        <((T1, T2, T3, T4, T5, T6), T7) as NodeStruct<C>>::lemma_from_raw_addrs(raws);
    }

    proof fn lemma_round_trip(&self) {
        <((T1, T2, T3, T4, T5, T6), T7) as NodeStruct<C>>::lemma_round_trip(&((self.0, self.1, self.2, self.3, self.4, self.5), self.6));
    }

    fn read_from(self, c: &C) -> (value: (T1::FStruct, T2::FStruct, T3::FStruct, T4::FStruct, T5::FStruct, T6::FStruct, T7::FStruct)) {
        let (n1, n2, n3, n4, n5, n6, n7) = self;
        let ((v1, v2, v3, v4, v5, v6), v7) = <((T1, T2, T3, T4, T5, T6), T7) as NodeStruct<C>>::read_from(((n1, n2, n3, n4, n5, n6), n7), c);
        (v1, v2, v3, v4, v5, v6, v7)
    }

    fn write_to(self, c: &mut C, value: (T1::FStruct, T2::FStruct, T3::FStruct, T4::FStruct, T5::FStruct, T6::FStruct, T7::FStruct)) {
        let (n1, n2, n3, n4, n5, n6, n7) = self;
        let (v1, v2, v3, v4, v5, v6, v7) = value;
        <((T1, T2, T3, T4, T5, T6), T7) as NodeStruct<C>>::write_to(((n1, n2, n3, n4, n5, n6), n7), c, ((v1, v2, v3, v4, v5, v6), v7));
    }

    fn to_raw_addr(&self, c: &C) -> (raws: VecDeque<C::RawAddr>) {
        let mut raws = self.0.to_raw_addr(c);
        let mut more = self.1.to_raw_addr(c);
        raws.append(&mut more);
        let mut more = self.2.to_raw_addr(c);
        raws.append(&mut more);
        let mut more = self.3.to_raw_addr(c);
        raws.append(&mut more);
        let mut more = self.4.to_raw_addr(c);
        raws.append(&mut more);
        let mut more = self.5.to_raw_addr(c);
        raws.append(&mut more);
        let mut more = self.6.to_raw_addr(c);
        raws.append(&mut more);
        raws
    }

    fn try_from_raw_addr(c: &C, raws: &mut VecDeque<C::RawAddr>) -> (s: Self) {
        let ((n1, n2, n3, n4, n5, n6), n7) = <((T1, T2, T3, T4, T5, T6), T7) as NodeStruct<C>>::try_from_raw_addr(c, raws);
        (n1, n2, n3, n4, n5, n6, n7)
    }
}

impl<C: Circuit, T1: SVStruct<C>, T2: SVStruct<C>, T3: SVStruct<C>, T4: SVStruct<C>, T5: SVStruct<C>, T6: SVStruct<C>, T7: SVStruct<C>> SVStruct<C> for (T1, T2, T3, T4, T5, T6, T7) {
    proof fn lemma_all_variables() {
        <(T1, T2, T3, T4, T5, T6) as SVStruct<C>>::lemma_all_variables();
        T7::lemma_all_variables();
        lemma_roles_concat(<(T1, T2, T3, T4, T5, T6) as DataStruct<C>>::shape(), T7::shape());
    }
}

impl<C: Circuit, T1: SigStruct<C>, T2: SigStruct<C>, T3: SigStruct<C>, T4: SigStruct<C>, T5: SigStruct<C>, T6: SigStruct<C>, T7: SigStruct<C>> SigStruct<C> for (T1, T2, T3, T4, T5, T6, T7) {
    proof fn lemma_all_signals() {
        <(T1, T2, T3, T4, T5, T6) as SigStruct<C>>::lemma_all_signals();
        T7::lemma_all_signals();
        lemma_roles_concat(<(T1, T2, T3, T4, T5, T6) as DataStruct<C>>::shape(), T7::shape());
    }
}

impl<C: Circuit, T1: CRhsStruct<C>, T2: CRhsStruct<C>, T3: CRhsStruct<C>, T4: CRhsStruct<C>, T5: CRhsStruct<C>, T6: CRhsStruct<C>, T7: CRhsStruct<C>> CRhsStruct<C> for (T1, T2, T3, T4, T5, T6, T7) {
    proof fn lemma_all_constr_rhs() {
        <(T1, T2, T3, T4, T5, T6) as CRhsStruct<C>>::lemma_all_constr_rhs();
        T7::lemma_all_constr_rhs();
        lemma_roles_concat(<(T1, T2, T3, T4, T5, T6) as DataStruct<C>>::shape(), T7::shape());
    }
}

impl<C: Circuit, T1: DataStruct<C>, T2: DataStruct<C>, T3: DataStruct<C>, T4: DataStruct<C>, T5: DataStruct<C>, T6: DataStruct<C>, T7: DataStruct<C>, T8: DataStruct<C>> DataStruct<C> for (T1, T2, T3, T4, T5, T6, T7, T8) {
    type FStruct = (T1::FStruct, T2::FStruct, T3::FStruct, T4::FStruct, T5::FStruct, T6::FStruct, T7::FStruct, T8::FStruct);

    open spec fn raw_addrs(&self) -> Seq<C::RawAddr> {
        <(T1, T2, T3, T4, T5, T6, T7) as DataStruct<C>>::raw_addrs(&(self.0, self.1, self.2, self.3, self.4, self.5, self.6)) + self.7.raw_addrs()
    }

    open spec fn shape() -> Seq<Leaf> {
        <(T1, T2, T3, T4, T5, T6, T7) as DataStruct<C>>::shape() + T8::shape()
    }

    proof fn lemma_shape(&self) {
        <((T1, T2, T3, T4, T5, T6, T7), T8) as DataStruct<C>>::lemma_shape(&((self.0, self.1, self.2, self.3, self.4, self.5, self.6), self.7));
    }

    fn alloc_to(c: &mut C) -> (s: Self) {
        let ((n1, n2, n3, n4, n5, n6, n7), n8) = <((T1, T2, T3, T4, T5, T6, T7), T8) as DataStruct<C>>::alloc_to(c);
        (n1, n2, n3, n4, n5, n6, n7, n8)
    }
}

impl<C: Circuit, T1: NodeStruct<C>, T2: NodeStruct<C>, T3: NodeStruct<C>, T4: NodeStruct<C>, T5: NodeStruct<C>, T6: NodeStruct<C>, T7: NodeStruct<C>, T8: NodeStruct<C>> NodeStruct<C> for (T1, T2, T3, T4, T5, T6, T7, T8) {
    open spec fn flatten(value: (T1::FStruct, T2::FStruct, T3::FStruct, T4::FStruct, T5::FStruct, T6::FStruct, T7::FStruct, T8::FStruct)) -> Seq<C::F> {
        <(T1, T2, T3, T4, T5, T6, T7) as NodeStruct<C>>::flatten((value.0, value.1, value.2, value.3, value.4, value.5, value.6)) + T8::flatten(value.7)
    }

    open spec fn unflatten(values: Seq<C::F>) -> (T1::FStruct, T2::FStruct, T3::FStruct, T4::FStruct, T5::FStruct, T6::FStruct, T7::FStruct, T8::FStruct) {
        let p = <((T1, T2, T3, T4, T5, T6, T7), T8) as NodeStruct<C>>::unflatten(values);
        (p.0.0, p.0.1, p.0.2, p.0.3, p.0.4, p.0.5, p.0.6, p.1)
    }

    open spec fn from_raw_addrs(raws: Seq<C::RawAddr>) -> Self {
        let p = <((T1, T2, T3, T4, T5, T6, T7), T8) as NodeStruct<C>>::from_raw_addrs(raws);
        (p.0.0, p.0.1, p.0.2, p.0.3, p.0.4, p.0.5, p.0.6, p.1)
    }

    proof fn lemma_flatten(value: (T1::FStruct, T2::FStruct, T3::FStruct, T4::FStruct, T5::FStruct, T6::FStruct, T7::FStruct, T8::FStruct)) {
        <((T1, T2, T3, T4, T5, T6, T7), T8) as NodeStruct<C>>::lemma_flatten(((value.0, value.1, value.2, value.3, value.4, value.5, value.6), value.7));
    }

    proof fn lemma_from_raw_addrs(raws: Seq<C::RawAddr>) {
        <((T1, T2, T3, T4, T5, T6, T7), T8) as NodeStruct<C>>::lemma_from_raw_addrs(raws);
    }

    proof fn lemma_round_trip(&self) {
        <((T1, T2, T3, T4, T5, T6, T7), T8) as NodeStruct<C>>::lemma_round_trip(&((self.0, self.1, self.2, self.3, self.4, self.5, self.6), self.7));
    }

    fn read_from(self, c: &C) -> (value: (T1::FStruct, T2::FStruct, T3::FStruct, T4::FStruct, T5::FStruct, T6::FStruct, T7::FStruct, T8::FStruct)) {
        let (n1, n2, n3, n4, n5, n6, n7, n8) = self;
        let ((v1, v2, v3, v4, v5, v6, v7), v8) = <((T1, T2, T3, T4, T5, T6, T7), T8) as NodeStruct<C>>::read_from(((n1, n2, n3, n4, n5, n6, n7), n8), c);
        (v1, v2, v3, v4, v5, v6, v7, v8)
    }

    fn write_to(self, c: &mut C, value: (T1::FStruct, T2::FStruct, T3::FStruct, T4::FStruct, T5::FStruct, T6::FStruct, T7::FStruct, T8::FStruct)) {
        let (n1, n2, n3, n4, n5, n6, n7, n8) = self;
        let (v1, v2, v3, v4, v5, v6, v7, v8) = value;
        <((T1, T2, T3, T4, T5, T6, T7), T8) as NodeStruct<C>>::write_to(((n1, n2, n3, n4, n5, n6, n7), n8), c, ((v1, v2, v3, v4, v5, v6, v7), v8));
    }

    fn to_raw_addr(&self, c: &C) -> (raws: VecDeque<C::RawAddr>) {
        let mut raws = self.0.to_raw_addr(c);
        let mut more = self.1.to_raw_addr(c);
        raws.append(&mut more);
        let mut more = self.2.to_raw_addr(c);
        raws.append(&mut more);
        let mut more = self.3.to_raw_addr(c);
        raws.append(&mut more);
        let mut more = self.4.to_raw_addr(c);
        raws.append(&mut more);
        let mut more = self.5.to_raw_addr(c);
        raws.append(&mut more);
        let mut more = self.6.to_raw_addr(c);
        raws.append(&mut more);
        let mut more = self.7.to_raw_addr(c);
        raws.append(&mut more);
        raws
    }

    fn try_from_raw_addr(c: &C, raws: &mut VecDeque<C::RawAddr>) -> (s: Self) {
        let ((n1, n2, n3, n4, n5, n6, n7), n8) = <((T1, T2, T3, T4, T5, T6, T7), T8) as NodeStruct<C>>::try_from_raw_addr(c, raws);
        (n1, n2, n3, n4, n5, n6, n7, n8)
    }
}

impl<C: Circuit, T1: SVStruct<C>, T2: SVStruct<C>, T3: SVStruct<C>, T4: SVStruct<C>, T5: SVStruct<C>, T6: SVStruct<C>, T7: SVStruct<C>, T8: SVStruct<C>> SVStruct<C> for (T1, T2, T3, T4, T5, T6, T7, T8) {
    proof fn lemma_all_variables() {
        <(T1, T2, T3, T4, T5, T6, T7) as SVStruct<C>>::lemma_all_variables();
        T8::lemma_all_variables();
        lemma_roles_concat(<(T1, T2, T3, T4, T5, T6, T7) as DataStruct<C>>::shape(), T8::shape());
    }
}

impl<C: Circuit, T1: SigStruct<C>, T2: SigStruct<C>, T3: SigStruct<C>, T4: SigStruct<C>, T5: SigStruct<C>, T6: SigStruct<C>, T7: SigStruct<C>, T8: SigStruct<C>> SigStruct<C> for (T1, T2, T3, T4, T5, T6, T7, T8) {
    proof fn lemma_all_signals() {
        <(T1, T2, T3, T4, T5, T6, T7) as SigStruct<C>>::lemma_all_signals();
        T8::lemma_all_signals();
        lemma_roles_concat(<(T1, T2, T3, T4, T5, T6, T7) as DataStruct<C>>::shape(), T8::shape());
    }
}

impl<C: Circuit, T1: CRhsStruct<C>, T2: CRhsStruct<C>, T3: CRhsStruct<C>, T4: CRhsStruct<C>, T5: CRhsStruct<C>, T6: CRhsStruct<C>, T7: CRhsStruct<C>, T8: CRhsStruct<C>> CRhsStruct<C> for (T1, T2, T3, T4, T5, T6, T7, T8) {
    proof fn lemma_all_constr_rhs() {
        <(T1, T2, T3, T4, T5, T6, T7) as CRhsStruct<C>>::lemma_all_constr_rhs();
        T8::lemma_all_constr_rhs();
        lemma_roles_concat(<(T1, T2, T3, T4, T5, T6, T7) as DataStruct<C>>::shape(), T8::shape());
    }
}

impl<C: Circuit, T1: DataStruct<C>, T2: DataStruct<C>, T3: DataStruct<C>, T4: DataStruct<C>, T5: DataStruct<C>, T6: DataStruct<C>, T7: DataStruct<C>, T8: DataStruct<C>, T9: DataStruct<C>> DataStruct<C> for (T1, T2, T3, T4, T5, T6, T7, T8, T9) {
    type FStruct = (T1::FStruct, T2::FStruct, T3::FStruct, T4::FStruct, T5::FStruct, T6::FStruct, T7::FStruct, T8::FStruct, T9::FStruct);

    open spec fn raw_addrs(&self) -> Seq<C::RawAddr> {
        <(T1, T2, T3, T4, T5, T6, T7, T8) as DataStruct<C>>::raw_addrs(&(self.0, self.1, self.2, self.3, self.4, self.5, self.6, self.7)) + self.8.raw_addrs()
    }

    open spec fn shape() -> Seq<Leaf> {
        <(T1, T2, T3, T4, T5, T6, T7, T8) as DataStruct<C>>::shape() + T9::shape()
    }

    proof fn lemma_shape(&self) {
        <((T1, T2, T3, T4, T5, T6, T7, T8), T9) as DataStruct<C>>::lemma_shape(&((self.0, self.1, self.2, self.3, self.4, self.5, self.6, self.7), self.8));
    }

    fn alloc_to(c: &mut C) -> (s: Self) {
        let ((n1, n2, n3, n4, n5, n6, n7, n8), n9) = <((T1, T2, T3, T4, T5, T6, T7, T8), T9) as DataStruct<C>>::alloc_to(c);
        (n1, n2, n3, n4, n5, n6, n7, n8, n9)
    }
}

impl<C: Circuit, T1: NodeStruct<C>, T2: NodeStruct<C>, T3: NodeStruct<C>, T4: NodeStruct<C>, T5: NodeStruct<C>, T6: NodeStruct<C>, T7: NodeStruct<C>, T8: NodeStruct<C>, T9: NodeStruct<C>> NodeStruct<C> for (T1, T2, T3, T4, T5, T6, T7, T8, T9) {
    open spec fn flatten(value: (T1::FStruct, T2::FStruct, T3::FStruct, T4::FStruct, T5::FStruct, T6::FStruct, T7::FStruct, T8::FStruct, T9::FStruct)) -> Seq<C::F> {
        <(T1, T2, T3, T4, T5, T6, T7, T8) as NodeStruct<C>>::flatten((value.0, value.1, value.2, value.3, value.4, value.5, value.6, value.7)) + T9::flatten(value.8)
    }

    open spec fn unflatten(values: Seq<C::F>) -> (T1::FStruct, T2::FStruct, T3::FStruct, T4::FStruct, T5::FStruct, T6::FStruct, T7::FStruct, T8::FStruct, T9::FStruct) {
        let p = <((T1, T2, T3, T4, T5, T6, T7, T8), T9) as NodeStruct<C>>::unflatten(values);
        (p.0.0, p.0.1, p.0.2, p.0.3, p.0.4, p.0.5, p.0.6, p.0.7, p.1)
    }

    open spec fn from_raw_addrs(raws: Seq<C::RawAddr>) -> Self {
        let p = <((T1, T2, T3, T4, T5, T6, T7, T8), T9) as NodeStruct<C>>::from_raw_addrs(raws);
        (p.0.0, p.0.1, p.0.2, p.0.3, p.0.4, p.0.5, p.0.6, p.0.7, p.1)
    }

    proof fn lemma_flatten(value: (T1::FStruct, T2::FStruct, T3::FStruct, T4::FStruct, T5::FStruct, T6::FStruct, T7::FStruct, T8::FStruct, T9::FStruct)) {
        <((T1, T2, T3, T4, T5, T6, T7, T8), T9) as NodeStruct<C>>::lemma_flatten(((value.0, value.1, value.2, value.3, value.4, value.5, value.6, value.7), value.8));
    }

    proof fn lemma_from_raw_addrs(raws: Seq<C::RawAddr>) {
        <((T1, T2, T3, T4, T5, T6, T7, T8), T9) as NodeStruct<C>>::lemma_from_raw_addrs(raws);
    }

    proof fn lemma_round_trip(&self) {
        <((T1, T2, T3, T4, T5, T6, T7, T8), T9) as NodeStruct<C>>::lemma_round_trip(&((self.0, self.1, self.2, self.3, self.4, self.5, self.6, self.7), self.8));
    }

    fn read_from(self, c: &C) -> (value: (T1::FStruct, T2::FStruct, T3::FStruct, T4::FStruct, T5::FStruct, T6::FStruct, T7::FStruct, T8::FStruct, T9::FStruct)) {
        let (n1, n2, n3, n4, n5, n6, n7, n8, n9) = self;
        let ((v1, v2, v3, v4, v5, v6, v7, v8), v9) = <((T1, T2, T3, T4, T5, T6, T7, T8), T9) as NodeStruct<C>>::read_from(((n1, n2, n3, n4, n5, n6, n7, n8), n9), c);
        (v1, v2, v3, v4, v5, v6, v7, v8, v9)
    }

    fn write_to(self, c: &mut C, value: (T1::FStruct, T2::FStruct, T3::FStruct, T4::FStruct, T5::FStruct, T6::FStruct, T7::FStruct, T8::FStruct, T9::FStruct)) {
        let (n1, n2, n3, n4, n5, n6, n7, n8, n9) = self;
        let (v1, v2, v3, v4, v5, v6, v7, v8, v9) = value;
        <((T1, T2, T3, T4, T5, T6, T7, T8), T9) as NodeStruct<C>>::write_to(((n1, n2, n3, n4, n5, n6, n7, n8), n9), c, ((v1, v2, v3, v4, v5, v6, v7, v8), v9));
    }

    fn to_raw_addr(&self, c: &C) -> (raws: VecDeque<C::RawAddr>) {
        let mut raws = self.0.to_raw_addr(c);
        let mut more = self.1.to_raw_addr(c);
        raws.append(&mut more);
        let mut more = self.2.to_raw_addr(c);
        raws.append(&mut more);
        let mut more = self.3.to_raw_addr(c);
        raws.append(&mut more);
        let mut more = self.4.to_raw_addr(c);
        raws.append(&mut more);
        let mut more = self.5.to_raw_addr(c);
        raws.append(&mut more);
        let mut more = self.6.to_raw_addr(c);
        raws.append(&mut more);
        let mut more = self.7.to_raw_addr(c);
        raws.append(&mut more);
        let mut more = self.8.to_raw_addr(c);
        raws.append(&mut more);
        raws
    }

    fn try_from_raw_addr(c: &C, raws: &mut VecDeque<C::RawAddr>) -> (s: Self) {
        let ((n1, n2, n3, n4, n5, n6, n7, n8), n9) = <((T1, T2, T3, T4, T5, T6, T7, T8), T9) as NodeStruct<C>>::try_from_raw_addr(c, raws);
        (n1, n2, n3, n4, n5, n6, n7, n8, n9)
    }
}

impl<C: Circuit, T1: SVStruct<C>, T2: SVStruct<C>, T3: SVStruct<C>, T4: SVStruct<C>, T5: SVStruct<C>, T6: SVStruct<C>, T7: SVStruct<C>, T8: SVStruct<C>, T9: SVStruct<C>> SVStruct<C> for (T1, T2, T3, T4, T5, T6, T7, T8, T9) {
    proof fn lemma_all_variables() {
        <(T1, T2, T3, T4, T5, T6, T7, T8) as SVStruct<C>>::lemma_all_variables();
        T9::lemma_all_variables();
        lemma_roles_concat(<(T1, T2, T3, T4, T5, T6, T7, T8) as DataStruct<C>>::shape(), T9::shape());
    }
}

impl<C: Circuit, T1: SigStruct<C>, T2: SigStruct<C>, T3: SigStruct<C>, T4: SigStruct<C>, T5: SigStruct<C>, T6: SigStruct<C>, T7: SigStruct<C>, T8: SigStruct<C>, T9: SigStruct<C>> SigStruct<C> for (T1, T2, T3, T4, T5, T6, T7, T8, T9) {
    proof fn lemma_all_signals() {
        <(T1, T2, T3, T4, T5, T6, T7, T8) as SigStruct<C>>::lemma_all_signals();
        T9::lemma_all_signals();
        lemma_roles_concat(<(T1, T2, T3, T4, T5, T6, T7, T8) as DataStruct<C>>::shape(), T9::shape());
    }
}

impl<C: Circuit, T1: CRhsStruct<C>, T2: CRhsStruct<C>, T3: CRhsStruct<C>, T4: CRhsStruct<C>, T5: CRhsStruct<C>, T6: CRhsStruct<C>, T7: CRhsStruct<C>, T8: CRhsStruct<C>, T9: CRhsStruct<C>> CRhsStruct<C> for (T1, T2, T3, T4, T5, T6, T7, T8, T9) {
    proof fn lemma_all_constr_rhs() {
        <(T1, T2, T3, T4, T5, T6, T7, T8) as CRhsStruct<C>>::lemma_all_constr_rhs();
        T9::lemma_all_constr_rhs();
        lemma_roles_concat(<(T1, T2, T3, T4, T5, T6, T7, T8) as DataStruct<C>>::shape(), T9::shape());
    }
}

impl<C: Circuit, T1: DataStruct<C>, T2: DataStruct<C>, T3: DataStruct<C>, T4: DataStruct<C>, T5: DataStruct<C>, T6: DataStruct<C>, T7: DataStruct<C>, T8: DataStruct<C>, T9: DataStruct<C>, T10: DataStruct<C>> DataStruct<C> for (T1, T2, T3, T4, T5, T6, T7, T8, T9, T10) {
    type FStruct = (T1::FStruct, T2::FStruct, T3::FStruct, T4::FStruct, T5::FStruct, T6::FStruct, T7::FStruct, T8::FStruct, T9::FStruct, T10::FStruct);

    open spec fn raw_addrs(&self) -> Seq<C::RawAddr> {
        <(T1, T2, T3, T4, T5, T6, T7, T8, T9) as DataStruct<C>>::raw_addrs(&(self.0, self.1, self.2, self.3, self.4, self.5, self.6, self.7, self.8)) + self.9.raw_addrs()
    }

    open spec fn shape() -> Seq<Leaf> {
        <(T1, T2, T3, T4, T5, T6, T7, T8, T9) as DataStruct<C>>::shape() + T10::shape()
    }

    proof fn lemma_shape(&self) {
        <((T1, T2, T3, T4, T5, T6, T7, T8, T9), T10) as DataStruct<C>>::lemma_shape(&((self.0, self.1, self.2, self.3, self.4, self.5, self.6, self.7, self.8), self.9));
    }

    fn alloc_to(c: &mut C) -> (s: Self) {
        let ((n1, n2, n3, n4, n5, n6, n7, n8, n9), n10) = <((T1, T2, T3, T4, T5, T6, T7, T8, T9), T10) as DataStruct<C>>::alloc_to(c);
        (n1, n2, n3, n4, n5, n6, n7, n8, n9, n10)
    }
}

impl<C: Circuit, T1: NodeStruct<C>, T2: NodeStruct<C>, T3: NodeStruct<C>, T4: NodeStruct<C>, T5: NodeStruct<C>, T6: NodeStruct<C>, T7: NodeStruct<C>, T8: NodeStruct<C>, T9: NodeStruct<C>, T10: NodeStruct<C>> NodeStruct<C> for (T1, T2, T3, T4, T5, T6, T7, T8, T9, T10) {
    open spec fn flatten(value: (T1::FStruct, T2::FStruct, T3::FStruct, T4::FStruct, T5::FStruct, T6::FStruct, T7::FStruct, T8::FStruct, T9::FStruct, T10::FStruct)) -> Seq<C::F> {
        <(T1, T2, T3, T4, T5, T6, T7, T8, T9) as NodeStruct<C>>::flatten((value.0, value.1, value.2, value.3, value.4, value.5, value.6, value.7, value.8)) + T10::flatten(value.9)
    }

    open spec fn unflatten(values: Seq<C::F>) -> (T1::FStruct, T2::FStruct, T3::FStruct, T4::FStruct, T5::FStruct, T6::FStruct, T7::FStruct, T8::FStruct, T9::FStruct, T10::FStruct) {
        let p = <((T1, T2, T3, T4, T5, T6, T7, T8, T9), T10) as NodeStruct<C>>::unflatten(values);
        (p.0.0, p.0.1, p.0.2, p.0.3, p.0.4, p.0.5, p.0.6, p.0.7, p.0.8, p.1)
    }

    open spec fn from_raw_addrs(raws: Seq<C::RawAddr>) -> Self {
        let p = <((T1, T2, T3, T4, T5, T6, T7, T8, T9), T10) as NodeStruct<C>>::from_raw_addrs(raws);
        (p.0.0, p.0.1, p.0.2, p.0.3, p.0.4, p.0.5, p.0.6, p.0.7, p.0.8, p.1)
    }

    proof fn lemma_flatten(value: (T1::FStruct, T2::FStruct, T3::FStruct, T4::FStruct, T5::FStruct, T6::FStruct, T7::FStruct, T8::FStruct, T9::FStruct, T10::FStruct)) {
        <((T1, T2, T3, T4, T5, T6, T7, T8, T9), T10) as NodeStruct<C>>::lemma_flatten(((value.0, value.1, value.2, value.3, value.4, value.5, value.6, value.7, value.8), value.9));
    }

    proof fn lemma_from_raw_addrs(raws: Seq<C::RawAddr>) {
        <((T1, T2, T3, T4, T5, T6, T7, T8, T9), T10) as NodeStruct<C>>::lemma_from_raw_addrs(raws);
    }

    proof fn lemma_round_trip(&self) {
        <((T1, T2, T3, T4, T5, T6, T7, T8, T9), T10) as NodeStruct<C>>::lemma_round_trip(&((self.0, self.1, self.2, self.3, self.4, self.5, self.6, self.7, self.8), self.9));
    }

    fn read_from(self, c: &C) -> (value: (T1::FStruct, T2::FStruct, T3::FStruct, T4::FStruct, T5::FStruct, T6::FStruct, T7::FStruct, T8::FStruct, T9::FStruct, T10::FStruct)) {
        let (n1, n2, n3, n4, n5, n6, n7, n8, n9, n10) = self;
        let ((v1, v2, v3, v4, v5, v6, v7, v8, v9), v10) = <((T1, T2, T3, T4, T5, T6, T7, T8, T9), T10) as NodeStruct<C>>::read_from(((n1, n2, n3, n4, n5, n6, n7, n8, n9), n10), c);
        (v1, v2, v3, v4, v5, v6, v7, v8, v9, v10)
    }

    fn write_to(self, c: &mut C, value: (T1::FStruct, T2::FStruct, T3::FStruct, T4::FStruct, T5::FStruct, T6::FStruct, T7::FStruct, T8::FStruct, T9::FStruct, T10::FStruct)) {
        let (n1, n2, n3, n4, n5, n6, n7, n8, n9, n10) = self;
        let (v1, v2, v3, v4, v5, v6, v7, v8, v9, v10) = value;
        <((T1, T2, T3, T4, T5, T6, T7, T8, T9), T10) as NodeStruct<C>>::write_to(((n1, n2, n3, n4, n5, n6, n7, n8, n9), n10), c, ((v1, v2, v3, v4, v5, v6, v7, v8, v9), v10));
    }

    fn to_raw_addr(&self, c: &C) -> (raws: VecDeque<C::RawAddr>) {
        let mut raws = self.0.to_raw_addr(c);
        let mut more = self.1.to_raw_addr(c);
        raws.append(&mut more);
        let mut more = self.2.to_raw_addr(c);
        raws.append(&mut more);
        let mut more = self.3.to_raw_addr(c);
        raws.append(&mut more);
        let mut more = self.4.to_raw_addr(c);
        raws.append(&mut more);
        let mut more = self.5.to_raw_addr(c);
        raws.append(&mut more);
        let mut more = self.6.to_raw_addr(c);
        raws.append(&mut more);
        let mut more = self.7.to_raw_addr(c);
        raws.append(&mut more);
        let mut more = self.8.to_raw_addr(c);
        raws.append(&mut more);
        let mut more = self.9.to_raw_addr(c);
        raws.append(&mut more);
        raws
    }

    fn try_from_raw_addr(c: &C, raws: &mut VecDeque<C::RawAddr>) -> (s: Self) {
        let ((n1, n2, n3, n4, n5, n6, n7, n8, n9), n10) = <((T1, T2, T3, T4, T5, T6, T7, T8, T9), T10) as NodeStruct<C>>::try_from_raw_addr(c, raws);
        (n1, n2, n3, n4, n5, n6, n7, n8, n9, n10)
    }
}

impl<C: Circuit, T1: SVStruct<C>, T2: SVStruct<C>, T3: SVStruct<C>, T4: SVStruct<C>, T5: SVStruct<C>, T6: SVStruct<C>, T7: SVStruct<C>, T8: SVStruct<C>, T9: SVStruct<C>, T10: SVStruct<C>> SVStruct<C> for (T1, T2, T3, T4, T5, T6, T7, T8, T9, T10) {
    proof fn lemma_all_variables() {
        <(T1, T2, T3, T4, T5, T6, T7, T8, T9) as SVStruct<C>>::lemma_all_variables();
        T10::lemma_all_variables();
        lemma_roles_concat(<(T1, T2, T3, T4, T5, T6, T7, T8, T9) as DataStruct<C>>::shape(), T10::shape());
    }
}

impl<C: Circuit, T1: SigStruct<C>, T2: SigStruct<C>, T3: SigStruct<C>, T4: SigStruct<C>, T5: SigStruct<C>, T6: SigStruct<C>, T7: SigStruct<C>, T8: SigStruct<C>, T9: SigStruct<C>, T10: SigStruct<C>> SigStruct<C> for (T1, T2, T3, T4, T5, T6, T7, T8, T9, T10) {
    proof fn lemma_all_signals() {
        <(T1, T2, T3, T4, T5, T6, T7, T8, T9) as SigStruct<C>>::lemma_all_signals();
        T10::lemma_all_signals();
        lemma_roles_concat(<(T1, T2, T3, T4, T5, T6, T7, T8, T9) as DataStruct<C>>::shape(), T10::shape());
    }
}

impl<C: Circuit, T1: CRhsStruct<C>, T2: CRhsStruct<C>, T3: CRhsStruct<C>, T4: CRhsStruct<C>, T5: CRhsStruct<C>, T6: CRhsStruct<C>, T7: CRhsStruct<C>, T8: CRhsStruct<C>, T9: CRhsStruct<C>, T10: CRhsStruct<C>> CRhsStruct<C> for (T1, T2, T3, T4, T5, T6, T7, T8, T9, T10) {
    proof fn lemma_all_constr_rhs() {
        <(T1, T2, T3, T4, T5, T6, T7, T8, T9) as CRhsStruct<C>>::lemma_all_constr_rhs();
        T10::lemma_all_constr_rhs();
        lemma_roles_concat(<(T1, T2, T3, T4, T5, T6, T7, T8, T9) as DataStruct<C>>::shape(), T10::shape());
    }
}

impl<C: Circuit, T1: DataStruct<C>, T2: DataStruct<C>, T3: DataStruct<C>, T4: DataStruct<C>, T5: DataStruct<C>, T6: DataStruct<C>, T7: DataStruct<C>, T8: DataStruct<C>, T9: DataStruct<C>, T10: DataStruct<C>, T11: DataStruct<C>> DataStruct<C> for (T1, T2, T3, T4, T5, T6, T7, T8, T9, T10, T11) {
    type FStruct = (T1::FStruct, T2::FStruct, T3::FStruct, T4::FStruct, T5::FStruct, T6::FStruct, T7::FStruct, T8::FStruct, T9::FStruct, T10::FStruct, T11::FStruct);

    open spec fn raw_addrs(&self) -> Seq<C::RawAddr> {
        <(T1, T2, T3, T4, T5, T6, T7, T8, T9, T10) as DataStruct<C>>::raw_addrs(&(self.0, self.1, self.2, self.3, self.4, self.5, self.6, self.7, self.8, self.9)) + self.10.raw_addrs()
    }

    open spec fn shape() -> Seq<Leaf> {
        <(T1, T2, T3, T4, T5, T6, T7, T8, T9, T10) as DataStruct<C>>::shape() + T11::shape()
    }

    proof fn lemma_shape(&self) {
        <((T1, T2, T3, T4, T5, T6, T7, T8, T9, T10), T11) as DataStruct<C>>::lemma_shape(&((self.0, self.1, self.2, self.3, self.4, self.5, self.6, self.7, self.8, self.9), self.10));
    }

    fn alloc_to(c: &mut C) -> (s: Self) {
        let ((n1, n2, n3, n4, n5, n6, n7, n8, n9, n10), n11) = <((T1, T2, T3, T4, T5, T6, T7, T8, T9, T10), T11) as DataStruct<C>>::alloc_to(c);
        (n1, n2, n3, n4, n5, n6, n7, n8, n9, n10, n11)
    }
}

impl<C: Circuit, T1: NodeStruct<C>, T2: NodeStruct<C>, T3: NodeStruct<C>, T4: NodeStruct<C>, T5: NodeStruct<C>, T6: NodeStruct<C>, T7: NodeStruct<C>, T8: NodeStruct<C>, T9: NodeStruct<C>, T10: NodeStruct<C>, T11: NodeStruct<C>> NodeStruct<C> for (T1, T2, T3, T4, T5, T6, T7, T8, T9, T10, T11) {
    open spec fn flatten(value: (T1::FStruct, T2::FStruct, T3::FStruct, T4::FStruct, T5::FStruct, T6::FStruct, T7::FStruct, T8::FStruct, T9::FStruct, T10::FStruct, T11::FStruct)) -> Seq<C::F> {
        <(T1, T2, T3, T4, T5, T6, T7, T8, T9, T10) as NodeStruct<C>>::flatten((value.0, value.1, value.2, value.3, value.4, value.5, value.6, value.7, value.8, value.9)) + T11::flatten(value.10)
    }

    open spec fn unflatten(values: Seq<C::F>) -> (T1::FStruct, T2::FStruct, T3::FStruct, T4::FStruct, T5::FStruct, T6::FStruct, T7::FStruct, T8::FStruct, T9::FStruct, T10::FStruct, T11::FStruct) {
        let p = <((T1, T2, T3, T4, T5, T6, T7, T8, T9, T10), T11) as NodeStruct<C>>::unflatten(values);
        (p.0.0, p.0.1, p.0.2, p.0.3, p.0.4, p.0.5, p.0.6, p.0.7, p.0.8, p.0.9, p.1)
    }

    open spec fn from_raw_addrs(raws: Seq<C::RawAddr>) -> Self {
        let p = <((T1, T2, T3, T4, T5, T6, T7, T8, T9, T10), T11) as NodeStruct<C>>::from_raw_addrs(raws);
        (p.0.0, p.0.1, p.0.2, p.0.3, p.0.4, p.0.5, p.0.6, p.0.7, p.0.8, p.0.9, p.1)
    }

    proof fn lemma_flatten(value: (T1::FStruct, T2::FStruct, T3::FStruct, T4::FStruct, T5::FStruct, T6::FStruct, T7::FStruct, T8::FStruct, T9::FStruct, T10::FStruct, T11::FStruct)) {
        <((T1, T2, T3, T4, T5, T6, T7, T8, T9, T10), T11) as NodeStruct<C>>::lemma_flatten(((value.0, value.1, value.2, value.3, value.4, value.5, value.6, value.7, value.8, value.9), value.10));
    }

    proof fn lemma_from_raw_addrs(raws: Seq<C::RawAddr>) {
        <((T1, T2, T3, T4, T5, T6, T7, T8, T9, T10), T11) as NodeStruct<C>>::lemma_from_raw_addrs(raws);
    }

    proof fn lemma_round_trip(&self) {
        <((T1, T2, T3, T4, T5, T6, T7, T8, T9, T10), T11) as NodeStruct<C>>::lemma_round_trip(&((self.0, self.1, self.2, self.3, self.4, self.5, self.6, self.7, self.8, self.9), self.10));
    }

    fn read_from(self, c: &C) -> (value: (T1::FStruct, T2::FStruct, T3::FStruct, T4::FStruct, T5::FStruct, T6::FStruct, T7::FStruct, T8::FStruct, T9::FStruct, T10::FStruct, T11::FStruct)) {
        let (n1, n2, n3, n4, n5, n6, n7, n8, n9, n10, n11) = self;
        let ((v1, v2, v3, v4, v5, v6, v7, v8, v9, v10), v11) = <((T1, T2, T3, T4, T5, T6, T7, T8, T9, T10), T11) as NodeStruct<C>>::read_from(((n1, n2, n3, n4, n5, n6, n7, n8, n9, n10), n11), c);
        (v1, v2, v3, v4, v5, v6, v7, v8, v9, v10, v11)
    }

    fn write_to(self, c: &mut C, value: (T1::FStruct, T2::FStruct, T3::FStruct, T4::FStruct, T5::FStruct, T6::FStruct, T7::FStruct, T8::FStruct, T9::FStruct, T10::FStruct, T11::FStruct)) {
        let (n1, n2, n3, n4, n5, n6, n7, n8, n9, n10, n11) = self;
        let (v1, v2, v3, v4, v5, v6, v7, v8, v9, v10, v11) = value;
        <((T1, T2, T3, T4, T5, T6, T7, T8, T9, T10), T11) as NodeStruct<C>>::write_to(((n1, n2, n3, n4, n5, n6, n7, n8, n9, n10), n11), c, ((v1, v2, v3, v4, v5, v6, v7, v8, v9, v10), v11));
    }

    fn to_raw_addr(&self, c: &C) -> (raws: VecDeque<C::RawAddr>) {
        let mut raws = self.0.to_raw_addr(c);
        let mut more = self.1.to_raw_addr(c);
        raws.append(&mut more);
        let mut more = self.2.to_raw_addr(c);
        raws.append(&mut more);
        let mut more = self.3.to_raw_addr(c);
        raws.append(&mut more);
        let mut more = self.4.to_raw_addr(c);
        raws.append(&mut more);
        let mut more = self.5.to_raw_addr(c);
        raws.append(&mut more);
        let mut more = self.6.to_raw_addr(c);
        raws.append(&mut more);
        let mut more = self.7.to_raw_addr(c);
        raws.append(&mut more);
        let mut more = self.8.to_raw_addr(c);
        raws.append(&mut more);
        let mut more = self.9.to_raw_addr(c);
        raws.append(&mut more);
        let mut more = self.10.to_raw_addr(c);
        raws.append(&mut more);
        raws
    }

    fn try_from_raw_addr(c: &C, raws: &mut VecDeque<C::RawAddr>) -> (s: Self) {
        let ((n1, n2, n3, n4, n5, n6, n7, n8, n9, n10), n11) = <((T1, T2, T3, T4, T5, T6, T7, T8, T9, T10), T11) as NodeStruct<C>>::try_from_raw_addr(c, raws);
        (n1, n2, n3, n4, n5, n6, n7, n8, n9, n10, n11)
    }
}

impl<C: Circuit, T1: SVStruct<C>, T2: SVStruct<C>, T3: SVStruct<C>, T4: SVStruct<C>, T5: SVStruct<C>, T6: SVStruct<C>, T7: SVStruct<C>, T8: SVStruct<C>, T9: SVStruct<C>, T10: SVStruct<C>, T11: SVStruct<C>> SVStruct<C> for (T1, T2, T3, T4, T5, T6, T7, T8, T9, T10, T11) {
    proof fn lemma_all_variables() {
        <(T1, T2, T3, T4, T5, T6, T7, T8, T9, T10) as SVStruct<C>>::lemma_all_variables();
        T11::lemma_all_variables();
        lemma_roles_concat(<(T1, T2, T3, T4, T5, T6, T7, T8, T9, T10) as DataStruct<C>>::shape(), T11::shape());
    }
}

impl<C: Circuit, T1: SigStruct<C>, T2: SigStruct<C>, T3: SigStruct<C>, T4: SigStruct<C>, T5: SigStruct<C>, T6: SigStruct<C>, T7: SigStruct<C>, T8: SigStruct<C>, T9: SigStruct<C>, T10: SigStruct<C>, T11: SigStruct<C>> SigStruct<C> for (T1, T2, T3, T4, T5, T6, T7, T8, T9, T10, T11) {
    proof fn lemma_all_signals() {
        <(T1, T2, T3, T4, T5, T6, T7, T8, T9, T10) as SigStruct<C>>::lemma_all_signals();
        T11::lemma_all_signals();
        lemma_roles_concat(<(T1, T2, T3, T4, T5, T6, T7, T8, T9, T10) as DataStruct<C>>::shape(), T11::shape());
    }
}

impl<C: Circuit, T1: CRhsStruct<C>, T2: CRhsStruct<C>, T3: CRhsStruct<C>, T4: CRhsStruct<C>, T5: CRhsStruct<C>, T6: CRhsStruct<C>, T7: CRhsStruct<C>, T8: CRhsStruct<C>, T9: CRhsStruct<C>, T10: CRhsStruct<C>, T11: CRhsStruct<C>> CRhsStruct<C> for (T1, T2, T3, T4, T5, T6, T7, T8, T9, T10, T11) {
    proof fn lemma_all_constr_rhs() {
        <(T1, T2, T3, T4, T5, T6, T7, T8, T9, T10) as CRhsStruct<C>>::lemma_all_constr_rhs();
        T11::lemma_all_constr_rhs();
        lemma_roles_concat(<(T1, T2, T3, T4, T5, T6, T7, T8, T9, T10) as DataStruct<C>>::shape(), T11::shape());
    }
}

impl<C: Circuit, T1: DataStruct<C>, T2: DataStruct<C>, T3: DataStruct<C>, T4: DataStruct<C>, T5: DataStruct<C>, T6: DataStruct<C>, T7: DataStruct<C>, T8: DataStruct<C>, T9: DataStruct<C>, T10: DataStruct<C>, T11: DataStruct<C>, T12: DataStruct<C>> DataStruct<C> for (T1, T2, T3, T4, T5, T6, T7, T8, T9, T10, T11, T12) {
    type FStruct = (T1::FStruct, T2::FStruct, T3::FStruct, T4::FStruct, T5::FStruct, T6::FStruct, T7::FStruct, T8::FStruct, T9::FStruct, T10::FStruct, T11::FStruct, T12::FStruct);

    open spec fn raw_addrs(&self) -> Seq<C::RawAddr> {
        <(T1, T2, T3, T4, T5, T6, T7, T8, T9, T10, T11) as DataStruct<C>>::raw_addrs(&(self.0, self.1, self.2, self.3, self.4, self.5, self.6, self.7, self.8, self.9, self.10)) + self.11.raw_addrs()
    }

    open spec fn shape() -> Seq<Leaf> {
        <(T1, T2, T3, T4, T5, T6, T7, T8, T9, T10, T11) as DataStruct<C>>::shape() + T12::shape()
    }

    proof fn lemma_shape(&self) {
        <((T1, T2, T3, T4, T5, T6, T7, T8, T9, T10, T11), T12) as DataStruct<C>>::lemma_shape(&((self.0, self.1, self.2, self.3, self.4, self.5, self.6, self.7, self.8, self.9, self.10), self.11));
    }

    fn alloc_to(c: &mut C) -> (s: Self) {
        let ((n1, n2, n3, n4, n5, n6, n7, n8, n9, n10, n11), n12) = <((T1, T2, T3, T4, T5, T6, T7, T8, T9, T10, T11), T12) as DataStruct<C>>::alloc_to(c);
        (n1, n2, n3, n4, n5, n6, n7, n8, n9, n10, n11, n12)
    }
}

impl<C: Circuit, T1: NodeStruct<C>, T2: NodeStruct<C>, T3: NodeStruct<C>, T4: NodeStruct<C>, T5: NodeStruct<C>, T6: NodeStruct<C>, T7: NodeStruct<C>, T8: NodeStruct<C>, T9: NodeStruct<C>, T10: NodeStruct<C>, T11: NodeStruct<C>, T12: NodeStruct<C>> NodeStruct<C> for (T1, T2, T3, T4, T5, T6, T7, T8, T9, T10, T11, T12) {
    open spec fn flatten(value: (T1::FStruct, T2::FStruct, T3::FStruct, T4::FStruct, T5::FStruct, T6::FStruct, T7::FStruct, T8::FStruct, T9::FStruct, T10::FStruct, T11::FStruct, T12::FStruct)) -> Seq<C::F> {
        <(T1, T2, T3, T4, T5, T6, T7, T8, T9, T10, T11) as NodeStruct<C>>::flatten((value.0, value.1, value.2, value.3, value.4, value.5, value.6, value.7, value.8, value.9, value.10)) + T12::flatten(value.11)
    }

    open spec fn unflatten(values: Seq<C::F>) -> (T1::FStruct, T2::FStruct, T3::FStruct, T4::FStruct, T5::FStruct, T6::FStruct, T7::FStruct, T8::FStruct, T9::FStruct, T10::FStruct, T11::FStruct, T12::FStruct) {
        let p = <((T1, T2, T3, T4, T5, T6, T7, T8, T9, T10, T11), T12) as NodeStruct<C>>::unflatten(values);
        (p.0.0, p.0.1, p.0.2, p.0.3, p.0.4, p.0.5, p.0.6, p.0.7, p.0.8, p.0.9, p.0.10, p.1)
    }

    open spec fn from_raw_addrs(raws: Seq<C::RawAddr>) -> Self {
        let p = <((T1, T2, T3, T4, T5, T6, T7, T8, T9, T10, T11), T12) as NodeStruct<C>>::from_raw_addrs(raws);
        (p.0.0, p.0.1, p.0.2, p.0.3, p.0.4, p.0.5, p.0.6, p.0.7, p.0.8, p.0.9, p.0.10, p.1)
    }

    proof fn lemma_flatten(value: (T1::FStruct, T2::FStruct, T3::FStruct, T4::FStruct, T5::FStruct, T6::FStruct, T7::FStruct, T8::FStruct, T9::FStruct, T10::FStruct, T11::FStruct, T12::FStruct)) {
        <((T1, T2, T3, T4, T5, T6, T7, T8, T9, T10, T11), T12) as NodeStruct<C>>::lemma_flatten(((value.0, value.1, value.2, value.3, value.4, value.5, value.6, value.7, value.8, value.9, value.10), value.11));
    }

    proof fn lemma_from_raw_addrs(raws: Seq<C::RawAddr>) {
        <((T1, T2, T3, T4, T5, T6, T7, T8, T9, T10, T11), T12) as NodeStruct<C>>::lemma_from_raw_addrs(raws);
    }

    proof fn lemma_round_trip(&self) {
        <((T1, T2, T3, T4, T5, T6, T7, T8, T9, T10, T11), T12) as NodeStruct<C>>::lemma_round_trip(&((self.0, self.1, self.2, self.3, self.4, self.5, self.6, self.7, self.8, self.9, self.10), self.11));
    }

    fn read_from(self, c: &C) -> (value: (T1::FStruct, T2::FStruct, T3::FStruct, T4::FStruct, T5::FStruct, T6::FStruct, T7::FStruct, T8::FStruct, T9::FStruct, T10::FStruct, T11::FStruct, T12::FStruct)) {
        let (n1, n2, n3, n4, n5, n6, n7, n8, n9, n10, n11, n12) = self;
        let ((v1, v2, v3, v4, v5, v6, v7, v8, v9, v10, v11), v12) = <((T1, T2, T3, T4, T5, T6, T7, T8, T9, T10, T11), T12) as NodeStruct<C>>::read_from(((n1, n2, n3, n4, n5, n6, n7, n8, n9, n10, n11), n12), c);
        (v1, v2, v3, v4, v5, v6, v7, v8, v9, v10, v11, v12)
    }

    fn write_to(self, c: &mut C, value: (T1::FStruct, T2::FStruct, T3::FStruct, T4::FStruct, T5::FStruct, T6::FStruct, T7::FStruct, T8::FStruct, T9::FStruct, T10::FStruct, T11::FStruct, T12::FStruct)) {
        let (n1, n2, n3, n4, n5, n6, n7, n8, n9, n10, n11, n12) = self;
        let (v1, v2, v3, v4, v5, v6, v7, v8, v9, v10, v11, v12) = value;
        <((T1, T2, T3, T4, T5, T6, T7, T8, T9, T10, T11), T12) as NodeStruct<C>>::write_to(((n1, n2, n3, n4, n5, n6, n7, n8, n9, n10, n11), n12), c, ((v1, v2, v3, v4, v5, v6, v7, v8, v9, v10, v11), v12));
    }

    fn to_raw_addr(&self, c: &C) -> (raws: VecDeque<C::RawAddr>) {
        let mut raws = self.0.to_raw_addr(c);
        let mut more = self.1.to_raw_addr(c);
        raws.append(&mut more);
        let mut more = self.2.to_raw_addr(c);
        raws.append(&mut more);
        let mut more = self.3.to_raw_addr(c);
        raws.append(&mut more);
        let mut more = self.4.to_raw_addr(c);
        raws.append(&mut more);
        let mut more = self.5.to_raw_addr(c);
        raws.append(&mut more);
        let mut more = self.6.to_raw_addr(c);
        raws.append(&mut more);
        let mut more = self.7.to_raw_addr(c);
        raws.append(&mut more);
        let mut more = self.8.to_raw_addr(c);
        raws.append(&mut more);
        let mut more = self.9.to_raw_addr(c);
        raws.append(&mut more);
        let mut more = self.10.to_raw_addr(c);
        raws.append(&mut more);
        let mut more = self.11.to_raw_addr(c);
        raws.append(&mut more);
        raws
    }

    fn try_from_raw_addr(c: &C, raws: &mut VecDeque<C::RawAddr>) -> (s: Self) {
        let ((n1, n2, n3, n4, n5, n6, n7, n8, n9, n10, n11), n12) = <((T1, T2, T3, T4, T5, T6, T7, T8, T9, T10, T11), T12) as NodeStruct<C>>::try_from_raw_addr(c, raws);
        (n1, n2, n3, n4, n5, n6, n7, n8, n9, n10, n11, n12)
    }
}

impl<C: Circuit, T1: SVStruct<C>, T2: SVStruct<C>, T3: SVStruct<C>, T4: SVStruct<C>, T5: SVStruct<C>, T6: SVStruct<C>, T7: SVStruct<C>, T8: SVStruct<C>, T9: SVStruct<C>, T10: SVStruct<C>, T11: SVStruct<C>, T12: SVStruct<C>> SVStruct<C> for (T1, T2, T3, T4, T5, T6, T7, T8, T9, T10, T11, T12) {
    proof fn lemma_all_variables() {
        <(T1, T2, T3, T4, T5, T6, T7, T8, T9, T10, T11) as SVStruct<C>>::lemma_all_variables();
        T12::lemma_all_variables();
        lemma_roles_concat(<(T1, T2, T3, T4, T5, T6, T7, T8, T9, T10, T11) as DataStruct<C>>::shape(), T12::shape());
    }
}

impl<C: Circuit, T1: SigStruct<C>, T2: SigStruct<C>, T3: SigStruct<C>, T4: SigStruct<C>, T5: SigStruct<C>, T6: SigStruct<C>, T7: SigStruct<C>, T8: SigStruct<C>, T9: SigStruct<C>, T10: SigStruct<C>, T11: SigStruct<C>, T12: SigStruct<C>> SigStruct<C> for (T1, T2, T3, T4, T5, T6, T7, T8, T9, T10, T11, T12) {
    proof fn lemma_all_signals() {
        <(T1, T2, T3, T4, T5, T6, T7, T8, T9, T10, T11) as SigStruct<C>>::lemma_all_signals();
        T12::lemma_all_signals();
        lemma_roles_concat(<(T1, T2, T3, T4, T5, T6, T7, T8, T9, T10, T11) as DataStruct<C>>::shape(), T12::shape());
    }
}

impl<C: Circuit, T1: CRhsStruct<C>, T2: CRhsStruct<C>, T3: CRhsStruct<C>, T4: CRhsStruct<C>, T5: CRhsStruct<C>, T6: CRhsStruct<C>, T7: CRhsStruct<C>, T8: CRhsStruct<C>, T9: CRhsStruct<C>, T10: CRhsStruct<C>, T11: CRhsStruct<C>, T12: CRhsStruct<C>> CRhsStruct<C> for (T1, T2, T3, T4, T5, T6, T7, T8, T9, T10, T11, T12) {
    proof fn lemma_all_constr_rhs() {
        <(T1, T2, T3, T4, T5, T6, T7, T8, T9, T10, T11) as CRhsStruct<C>>::lemma_all_constr_rhs();
        T12::lemma_all_constr_rhs();
        lemma_roles_concat(<(T1, T2, T3, T4, T5, T6, T7, T8, T9, T10, T11) as DataStruct<C>>::shape(), T12::shape());
    }
}

} // verus!
