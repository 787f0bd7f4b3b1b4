//! Capabilities of a circuit builder and the typed handles that gadgets hold.
//!
//! A builder owns every piece of state; a handle is a plain index into it.
//! What a builder holds per node is described by [`CircuitState`], and every
//! capability states its effect on that description.
use crate::advices::{lemma_allocated_one, CompileableStruct, DataStruct, Leaf, Role, TAdvice};
use crate::backend::api::{AllowsStruct, DeducteAddressesOf, RuntimeAdvice};
use crate::backend::storage::{Storage, TypedAddr};
use std::sync::Arc;
use crate::node_struct::{lemma_written_one, CRhsStruct, NodeStruct, SVStruct, SigStruct};
use num_bigint::BigUint;
use std::collections::VecDeque;
use std::marker::PhantomData;
use vstd::prelude::*;

verus! {

/// `num_bigint::BigUint`: a number without an upper limit. Nothing is known
/// of it but what the wrappers of its functions say.
#[verifier::external_type_specification]
#[verifier::external_body]
pub struct ExBigUint(BigUint);

/// `BigUint::clone`: the copy is the same number as `b`.
#[verifier::external_body]
pub(crate) fn clone_bound(b: &BigUint) -> (r: BigUint)
    ensures
        r == *b,
{
    b.clone()
}

/// Identity of the value type a node was allocated for.
#[derive(Clone, Copy, Debug, PartialEq, Eq, Structural, Hash)]
pub enum InnerType {
    Field,
    U64,
    U32,
    U16,
    U8,
    Bool,
}

/// What a builder records about one node, apart from its range bound.
#[derive(Clone, Copy, Debug, PartialEq, Eq, Structural)]
pub struct NodeMeta {
    pub inner_type: InnerType,
    pub is_var: bool,
    pub is_sig: bool,
    pub is_primary: bool,
    pub is_const: bool,
    pub is_constr_rhs: bool,
    /// Largest degree of a constraint declared on this node so far.
    pub degree: usize,
}

impl NodeMeta {
    /// A node as allocation leaves it: typed, with no flag set.
    pub open spec fn fresh(inner_type: InnerType) -> NodeMeta {
        NodeMeta {
            inner_type,
            is_var: false,
            is_sig: false,
            is_primary: false,
            is_const: false,
            is_constr_rhs: false,
            degree: 0,
        }
    }

    pub open spec fn variable(inner_type: InnerType) -> NodeMeta {
        NodeMeta { is_var: true, ..Self::fresh(inner_type) }
    }

    pub open spec fn dependent_signal(inner_type: InnerType) -> NodeMeta {
        NodeMeta { is_var: true, is_sig: true, ..Self::fresh(inner_type) }
    }

    pub open spec fn primary_signal(inner_type: InnerType) -> NodeMeta {
        NodeMeta { is_var: true, is_sig: true, is_primary: true, ..Self::fresh(inner_type) }
    }

    pub open spec fn constant(inner_type: InnerType) -> NodeMeta {
        NodeMeta { is_var: true, is_const: true, ..Self::fresh(inner_type) }
    }

    pub open spec fn constr_rhs(inner_type: InnerType) -> NodeMeta {
        NodeMeta { is_constr_rhs: true, ..Self::fresh(inner_type) }
    }

    /// The nodes that the typed allocations make have coherent roles.
    pub proof fn lemma_allocated_roles(inner_type: InnerType)
        ensures
            Self::fresh(inner_type).coherent(),
            Self::variable(inner_type).coherent(),
            Self::dependent_signal(inner_type).coherent(),
            Self::primary_signal(inner_type).coherent(),
            Self::constant(inner_type).coherent(),
            Self::constr_rhs(inner_type).coherent(),
    {
    }

    /// The roles of a node do not contradict each other: a signal is a
    /// variable, a primary signal is a signal, and a constant is a variable
    /// that is neither a signal nor the right-hand side of a constraint.
    pub open spec fn coherent(self) -> bool {
        &&& self.is_sig ==> self.is_var
        &&& self.is_primary ==> self.is_sig
        &&& self.is_const ==> self.is_var && !self.is_sig && !self.is_constr_rhs
    }
}

/// The nodes of a builder: the metadata of each allocated node, the range
/// bound of those that have one, and the value of those that were written.
#[verifier::ext_equal]
#[verifier::reject_recursive_types(A)]
pub struct CircuitState<A, V> {
    pub nodes: Map<A, NodeMeta>,
    pub bounds: Map<A, BigUint>,
    pub values: Map<A, V>,
}

impl<A, V> CircuitState<A, V> {
    pub open spec fn with_node(self, addr: A, meta: NodeMeta) -> Self {
        CircuitState { nodes: self.nodes.insert(addr, meta), ..self }
    }

    pub open spec fn with_bound(self, addr: A, bound: Option<BigUint>) -> Self {
        CircuitState {
            bounds: match bound {
                Some(b) => self.bounds.insert(addr, b),
                None => self.bounds.remove(addr),
            },
            ..self
        }
    }

    pub open spec fn with_value(self, addr: A, value: V) -> Self {
        CircuitState { values: self.values.insert(addr, value), ..self }
    }

    /// In a coherent state every signal is a variable, every primary signal
    /// is a signal, and every constant is a variable that is neither a signal
    /// nor the right-hand side of a constraint.
    pub proof fn lemma_roles(self, addr: A)
        requires
            self.coherent(),
            self.nodes.contains_key(addr),
        ensures
            self.nodes[addr].is_sig ==> self.nodes[addr].is_var,
            self.nodes[addr].is_primary ==> self.nodes[addr].is_sig,
            self.nodes[addr].is_const ==> self.nodes[addr].is_var && !self.nodes[addr].is_sig
                && !self.nodes[addr].is_constr_rhs,
    {
    }

    /// A node whose roles are coherent keeps a state coherent.
    pub proof fn lemma_with_coherent_node(self, addr: A, meta: NodeMeta)
        requires
            self.coherent(),
            meta.coherent(),
        ensures
            self.with_node(addr, meta).coherent(),
    {
        let after = self.with_node(addr, meta);
        assert forall|a: A| after.bounds.dom().contains(a) implies after.nodes.dom().contains(a) by {
            assert(self.bounds.dom().contains(a));
            assert(self.nodes.dom().contains(a));
        }
        assert forall|a: A| after.values.dom().contains(a) implies after.nodes.dom().contains(a) by {
            assert(self.values.dom().contains(a));
            assert(self.nodes.dom().contains(a));
        }
    }

    /// Every node's roles are coherent, and only nodes have bounds or values.
    pub open spec fn coherent(self) -> bool {
        &&& forall|a: A| self.nodes.contains_key(a) ==> (#[trigger] self.nodes[a]).coherent()
        &&& self.bounds.dom().subset_of(self.nodes.dom())
        &&& self.values.dom().subset_of(self.nodes.dom())
    }
}

/// Says which [`InnerType`] stands for `T` in a builder's configuration.
pub trait HasVartype<T> {
    spec fn tag() -> InnerType;

    fn type_tag() -> (t: InnerType)
        ensures
            t == Self::tag(),
    ;
}

/// `T` may be the inner type of a signal.
pub trait HasSigtype<T>: HasVartype<T> {

}

pub trait FieldUtils {

}

/// A handle that names one node of a builder of type `C`.
pub trait ToRawAddr<C: Circuit> {
    spec fn raw(&self) -> C::RawAddr;

    fn to_raw_addr(&self) -> (a: C::RawAddr)
        ensures
            a == self.raw(),
    ;
}

/// The allocator of raw addresses.
pub trait Circuit: Sized {
    type F: Copy + From<u64>;

    type RawAddr: Copy;

    type Config;

    spec fn view(&self) -> CircuitState<Self::RawAddr, Self::F>;

    fn inner_type(&self, addr: Self::RawAddr) -> (t: InnerType)
        requires
            self@.nodes.contains_key(addr),
        ensures
            t == self@.nodes[addr].inner_type,
    ;

    /// Allocates a node with inner type `T`. No flag is set, and the node has
    /// neither a bound nor a value.
    fn _alloc_raw<T>(&mut self) -> (addr: Self::RawAddr) where Self::Config: HasVartype<T>
        ensures
            !old(self)@.nodes.contains_key(addr),
            final(self)@ == old(self)@.with_node(
                addr,
                NodeMeta::fresh(<Self::Config as HasVartype<T>>::tag()),
            ),
    ;
}

pub trait VariableFlag: Circuit {
    /// Whether the node is read and written when the graph runs.
    fn is_var(&self, addr: Self::RawAddr) -> (b: bool)
        requires
            self@.nodes.contains_key(addr),
        ensures
            b == self@.nodes[addr].is_var,
    ;

    /// Sets the variable flag whatever the other flags are.
    fn _set_var_flag(&mut self, addr: Self::RawAddr, value: bool)
        requires
            old(self)@.nodes.contains_key(addr),
        ensures
            final(self)@ == old(self)@.with_node(
                addr,
                NodeMeta { is_var: value, ..old(self)@.nodes[addr] },
            ),
    ;
}

pub trait SignalFlag: Circuit + VariableFlag {
    /// Whether the node can be constrained.
    fn is_sig(&self, addr: Self::RawAddr) -> (b: bool)
        requires
            self@.nodes.contains_key(addr),
        ensures
            b == self@.nodes[addr].is_sig,
    ;

    /// Sets the signal flag whatever the other flags are.
    fn _set_sig_flag(&mut self, addr: Self::RawAddr, value: bool)
        requires
            old(self)@.nodes.contains_key(addr),
        ensures
            final(self)@ == old(self)@.with_node(
                addr,
                NodeMeta { is_sig: value, ..old(self)@.nodes[addr] },
            ),
    ;
}

pub trait PrimarySignalFlag: Circuit + SignalFlag {
    /// Whether the node is a signal that is committed to as it stands.
    fn is_primary(&self, addr: Self::RawAddr) -> (b: bool)
        requires
            self@.nodes.contains_key(addr),
        ensures
            b == self@.nodes[addr].is_primary,
    ;

    /// Sets the primary flag whatever the other flags are.
    fn _set_primary_flag(&mut self, addr: Self::RawAddr, value: bool)
        requires
            old(self)@.nodes.contains_key(addr),
        ensures
            final(self)@ == old(self)@.with_node(
                addr,
                NodeMeta { is_primary: value, ..old(self)@.nodes[addr] },
            ),
    ;
}

pub trait RangeBound: Circuit {
    /// The range bound of a node, `None` where none is known.
    fn bound(&self, addr: Self::RawAddr) -> (b: Option<BigUint>)
        requires
            self@.nodes.contains_key(addr),
        ensures
            b == if self@.bounds.contains_key(addr) {
                Some(self@.bounds[addr])
            } else {
                None
            },
    ;

    /// Sets or clears the range bound of a node whatever bound it had.
    fn _set_bound(&mut self, addr: Self::RawAddr, value: Option<&BigUint>)
        requires
            old(self)@.nodes.contains_key(addr),
        ensures
            final(self)@ == old(self)@.with_bound(
                addr,
                match value {
                    Some(b) => Some(*b),
                    None => None,
                },
            ),
    ;
}

pub trait ConstrRhsFlag: Circuit {
    /// Whether the node holds the right-hand side of a constraint.
    fn is_constr_rhs(&self, addr: Self::RawAddr) -> (b: bool)
        requires
            self@.nodes.contains_key(addr),
        ensures
            b == self@.nodes[addr].is_constr_rhs,
    ;

    /// Sets the constraint flag whatever the other flags are.
    fn _set_constr_rhs_flag(&mut self, addr: Self::RawAddr, value: bool)
        requires
            old(self)@.nodes.contains_key(addr),
        ensures
            final(self)@ == old(self)@.with_node(
                addr,
                NodeMeta { is_constr_rhs: value, ..old(self)@.nodes[addr] },
            ),
    ;
}

pub trait ConstantFlag: Circuit + VariableFlag {
    /// Whether the value of the node is fixed when the circuit is defined.
    fn is_const(&self, addr: Self::RawAddr) -> (b: bool)
        requires
            self@.nodes.contains_key(addr),
        ensures
            b == self@.nodes[addr].is_const,
    ;

    /// Sets the constant flag whatever the other flags are.
    fn _set_const_flag(&mut self, addr: Self::RawAddr, value: bool)
        requires
            old(self)@.nodes.contains_key(addr),
        ensures
            final(self)@ == old(self)@.with_node(
                addr,
                NodeMeta { is_const: value, ..old(self)@.nodes[addr] },
            ),
    ;
}

/// The values of the nodes. A node is written at most once.
pub trait StandardVariables: Circuit {
    fn read(&self, addr: Self::RawAddr) -> (v: Self::F)
        requires
            self@.values.contains_key(addr),
        ensures
            v == self@.values[addr],
    ;

    fn write(&mut self, addr: Self::RawAddr, value: Self::F)
        requires
            old(self)@.nodes.contains_key(addr),
            !old(self)@.values.contains_key(addr),
        ensures
            final(self)@ == old(self)@.with_value(addr, value),
    ;
}

// ---------------------------------------------------------------------------
// Variables

/// A node that advices read and write.
pub struct Var<C: Circuit, T> {
    raw_addr: C::RawAddr,
    _marker: PhantomData<T>,
}

impl<C: Circuit, T> Var<C, T> {
    pub closed spec fn view(&self) -> C::RawAddr {
        self.raw_addr
    }

    /// Two handles of one node are the same handle.
    pub proof fn lemma_eq(self, other: Self)
        requires
            self@ == other@,
        ensures
            self == other,
    {
    }
}

impl<C: Circuit, T> Clone for Var<C, T> {
    fn clone(&self) -> (r: Self)
        ensures
            r == *self,
    {
        Var { raw_addr: self.raw_addr, _marker: PhantomData }
    }
}

impl<C: Circuit, T> Copy for Var<C, T> {

}

impl<C: Circuit, T> ToRawAddr<C> for Var<C, T> {
    open spec fn raw(&self) -> C::RawAddr {
        self@
    }

    fn to_raw_addr(&self) -> (a: C::RawAddr) {
        self.raw_addr
    }
}

pub trait Variables: Circuit + VariableFlag {
    /// The typed handle of a node that is a variable of inner type `T`.
    fn var_from_raw_addr<T>(&self, raw_addr: Self::RawAddr) -> (v: Var<Self, T>) where
        Self::Config: HasVartype<T>,

        requires
            self@.nodes.contains_key(raw_addr),
            self@.nodes[raw_addr].inner_type == <Self::Config as HasVartype<T>>::tag(),
            self@.nodes[raw_addr].is_var,
        ensures
            v@ == raw_addr,
    ;

    fn alloc_var<T>(&mut self) -> (v: Var<Self, T>) where Self::Config: HasVartype<T>
        ensures
            !old(self)@.nodes.contains_key(v@),
            final(self)@ == old(self)@.with_node(
                v@,
                NodeMeta::variable(<Self::Config as HasVartype<T>>::tag()),
            ),
    ;
}

impl<C: Circuit + VariableFlag> Variables for C {
    fn var_from_raw_addr<T>(&self, raw_addr: Self::RawAddr) -> (v: Var<Self, T>) where
        Self::Config: HasVartype<T>,
     {
        Var { raw_addr, _marker: PhantomData }
    }

    fn alloc_var<T>(&mut self) -> (v: Var<Self, T>) where Self::Config: HasVartype<T> {
        let raw_addr = self._alloc_raw::<T>();
        self._set_var_flag(raw_addr, true);
        self.var_from_raw_addr(raw_addr)
    }
}

// ---------------------------------------------------------------------------
// Signals

/// A node that constraints may speak of.
pub struct Sig<C: Circuit, T> {
    raw_addr: C::RawAddr,
    _marker: PhantomData<T>,
}

impl<C: Circuit, T> Sig<C, T> {
    pub closed spec fn view(&self) -> C::RawAddr {
        self.raw_addr
    }

    /// Two handles of one node are the same handle.
    pub proof fn lemma_eq(self, other: Self)
        requires
            self@ == other@,
        ensures
            self == other,
    {
    }
}

impl<C: Circuit, T> Clone for Sig<C, T> {
    fn clone(&self) -> (r: Self)
        ensures
            r == *self,
    {
        Sig { raw_addr: self.raw_addr, _marker: PhantomData }
    }
}

impl<C: Circuit, T> Copy for Sig<C, T> {

}

impl<C: Circuit, T> ToRawAddr<C> for Sig<C, T> {
    open spec fn raw(&self) -> C::RawAddr {
        self@
    }

    fn to_raw_addr(&self) -> (a: C::RawAddr) {
        assert(self.raw() == self@);
        self.raw_addr
    }
}

pub trait Signals: Circuit + SignalFlag + PrimarySignalFlag {
    /// The typed handle of a node that is a signal of inner type `T`.
    fn sig_from_raw_addr<T>(&self, raw_addr: Self::RawAddr) -> (s: Sig<Self, T>) where
        Self::Config: HasSigtype<T>,

        requires
            self@.nodes.contains_key(raw_addr),
            self@.nodes[raw_addr].inner_type == <Self::Config as HasVartype<T>>::tag(),
            self@.nodes[raw_addr].is_var,
            self@.nodes[raw_addr].is_sig,
        ensures
            s@ == raw_addr,
    ;

    /// Allocates a signal that is committed to.
    fn alloc_sig<T>(&mut self) -> (s: Sig<Self, T>) where Self::Config: HasSigtype<T>
        ensures
            !old(self)@.nodes.contains_key(s@),
            final(self)@ == old(self)@.with_node(
                s@,
                NodeMeta::primary_signal(<Self::Config as HasVartype<T>>::tag()),
            ),
    ;

    /// Allocates a signal that is not committed to: one that a linear
    /// combination of other signals determines.
    fn _alloc_sig_dependent<T>(&mut self) -> (s: Sig<Self, T>) where Self::Config: HasSigtype<T>
        ensures
            !old(self)@.nodes.contains_key(s@),
            final(self)@ == old(self)@.with_node(
                s@,
                NodeMeta::dependent_signal(<Self::Config as HasVartype<T>>::tag()),
            ),
    ;
}

impl<C: Circuit + SignalFlag + PrimarySignalFlag> Signals for C {
    fn sig_from_raw_addr<T>(&self, raw_addr: Self::RawAddr) -> (s: Sig<Self, T>) where
        Self::Config: HasSigtype<T>,
     {
        Sig { raw_addr, _marker: PhantomData }
    }

    fn alloc_sig<T>(&mut self) -> (s: Sig<Self, T>) where Self::Config: HasSigtype<T> {
        let raw_addr = self._alloc_raw::<T>();
        self._set_var_flag(raw_addr, true);
        self._set_sig_flag(raw_addr, true);
        self._set_primary_flag(raw_addr, true);
        self.sig_from_raw_addr(raw_addr)
    }

    fn _alloc_sig_dependent<T>(&mut self) -> (s: Sig<Self, T>) where Self::Config: HasSigtype<T> {
        let raw_addr = self._alloc_raw::<T>();
        self._set_var_flag(raw_addr, true);
        self._set_sig_flag(raw_addr, true);
        self.sig_from_raw_addr(raw_addr)
    }
}

// ---------------------------------------------------------------------------
// Constants

/// A variable whose value is fixed when the circuit is defined.
pub struct Const<C: Circuit, T> {
    raw_addr: C::RawAddr,
    _marker: PhantomData<T>,
}

impl<C: Circuit, T> Const<C, T> {
    pub closed spec fn view(&self) -> C::RawAddr {
        self.raw_addr
    }

    /// Two handles of one node are the same handle.
    pub proof fn lemma_eq(self, other: Self)
        requires
            self@ == other@,
        ensures
            self == other,
    {
    }
}

impl<C: Circuit, T> Clone for Const<C, T> {
    fn clone(&self) -> (r: Self)
        ensures
            r == *self,
    {
        Const { raw_addr: self.raw_addr, _marker: PhantomData }
    }
}

impl<C: Circuit, T> Copy for Const<C, T> {

}

impl<C: Circuit, T> ToRawAddr<C> for Const<C, T> {
    open spec fn raw(&self) -> C::RawAddr {
        self@
    }

    fn to_raw_addr(&self) -> (a: C::RawAddr) {
        self.raw_addr
    }
}

pub trait Constants: Circuit + ConstantFlag {
    /// The typed handle of a node that is a constant of inner type `T`.
    fn const_from_raw_addr<T>(&self, raw_addr: Self::RawAddr) -> (k: Const<Self, T>) where
        Self::Config: HasVartype<T>,

        requires
            self@.nodes.contains_key(raw_addr),
            self@.nodes[raw_addr].inner_type == <Self::Config as HasVartype<T>>::tag(),
            self@.nodes[raw_addr].is_var,
            self@.nodes[raw_addr].is_const,
        ensures
            k@ == raw_addr,
    ;

    fn alloc_const<T>(&mut self) -> (k: Const<Self, T>) where Self::Config: HasVartype<T>
        ensures
            !old(self)@.nodes.contains_key(k@),
            final(self)@ == old(self)@.with_node(
                k@,
                NodeMeta::constant(<Self::Config as HasVartype<T>>::tag()),
            ),
    ;
}

impl<C: Circuit + ConstantFlag> Constants for C {
    fn const_from_raw_addr<T>(&self, raw_addr: Self::RawAddr) -> (k: Const<Self, T>) where
        Self::Config: HasVartype<T>,
     {
        Const { raw_addr, _marker: PhantomData }
    }

    fn alloc_const<T>(&mut self) -> (k: Const<Self, T>) where Self::Config: HasVartype<T> {
        let raw_addr = self._alloc_raw::<T>();
        self._set_const_flag(raw_addr, true);
        self._set_var_flag(raw_addr, true);
        self.const_from_raw_addr(raw_addr)
    }
}

// ---------------------------------------------------------------------------
// Right-hand sides of constraints

/// The node that receives what a constraint evaluates to.
pub struct ConstrRhs<C: Circuit, T> {
    raw_addr: C::RawAddr,
    _marker: PhantomData<T>,
}

impl<C: Circuit, T> ConstrRhs<C, T> {
    pub closed spec fn view(&self) -> C::RawAddr {
        self.raw_addr
    }

    /// Two handles of one node are the same handle.
    pub proof fn lemma_eq(self, other: Self)
        requires
            self@ == other@,
        ensures
            self == other,
    {
    }
}

impl<C: Circuit, T> Clone for ConstrRhs<C, T> {
    fn clone(&self) -> (r: Self)
        ensures
            r == *self,
    {
        ConstrRhs { raw_addr: self.raw_addr, _marker: PhantomData }
    }
}

impl<C: Circuit, T> Copy for ConstrRhs<C, T> {

}

impl<C: Circuit, T> ToRawAddr<C> for ConstrRhs<C, T> {
    open spec fn raw(&self) -> C::RawAddr {
        self@
    }

    fn to_raw_addr(&self) -> (a: C::RawAddr) {
        self.raw_addr
    }
}

pub trait ConstrRhss: Circuit + ConstrRhsFlag {
    /// The typed handle of a node that is a right-hand side of inner type `T`.
    fn constr_rhs_from_raw_addr<T>(&self, raw_addr: Self::RawAddr) -> (r: ConstrRhs<
        Self,
        T,
    >) where Self::Config: HasSigtype<T>
        requires
            self@.nodes.contains_key(raw_addr),
            self@.nodes[raw_addr].inner_type == <Self::Config as HasVartype<T>>::tag(),
            self@.nodes[raw_addr].is_constr_rhs,
        ensures
            r@ == raw_addr,
    ;

    fn alloc_constr_rhs<T>(&mut self) -> (r: ConstrRhs<Self, T>) where Self::Config: HasSigtype<T>
        ensures
            !old(self)@.nodes.contains_key(r@),
            final(self)@ == old(self)@.with_node(
                r@,
                NodeMeta::constr_rhs(<Self::Config as HasVartype<T>>::tag()),
            ),
    ;
}

impl<C: Circuit + ConstrRhsFlag> ConstrRhss for C {
    fn constr_rhs_from_raw_addr<T>(&self, raw_addr: Self::RawAddr) -> (r: ConstrRhs<
        Self,
        T,
    >) where Self::Config: HasSigtype<T> {
        ConstrRhs { raw_addr, _marker: PhantomData }
    }

    fn alloc_constr_rhs<T>(&mut self) -> (r: ConstrRhs<Self, T>) where Self::Config: HasSigtype<T> {
        let raw_addr = self._alloc_raw::<T>();
        self._set_constr_rhs_flag(raw_addr, true);
        self.constr_rhs_from_raw_addr(raw_addr)
    }
}

// ---------------------------------------------------------------------------
// Untyped permits

/// The right to read and write a node when the graph runs.
pub struct RWPermit<C: Circuit> {
    raw_addr: C::RawAddr,
}

impl<C: Circuit> RWPermit<C> {
    pub closed spec fn view(&self) -> C::RawAddr {
        self.raw_addr
    }
}

impl<C: Circuit> Clone for RWPermit<C> {
    fn clone(&self) -> (r: Self)
        ensures
            r == *self,
    {
        RWPermit { raw_addr: self.raw_addr }
    }
}

impl<C: Circuit> Copy for RWPermit<C> {

}

impl<C: Circuit> ToRawAddr<C> for RWPermit<C> {
    open spec fn raw(&self) -> C::RawAddr {
        self@
    }

    fn to_raw_addr(&self) -> (a: C::RawAddr) {
        self.raw_addr
    }
}

/// The right to name a node in a constraint.
pub struct CsPermit<C: Circuit> {
    raw_addr: C::RawAddr,
}

impl<C: Circuit> CsPermit<C> {
    pub closed spec fn view(&self) -> C::RawAddr {
        self.raw_addr
    }
}

impl<C: Circuit> Clone for CsPermit<C> {
    fn clone(&self) -> (r: Self)
        ensures
            r == *self,
    {
        CsPermit { raw_addr: self.raw_addr }
    }
}

impl<C: Circuit> Copy for CsPermit<C> {

}

impl<C: Circuit> ToRawAddr<C> for CsPermit<C> {
    open spec fn raw(&self) -> C::RawAddr {
        self@
    }

    fn to_raw_addr(&self) -> (a: C::RawAddr) {
        self.raw_addr
    }
}

// ---------------------------------------------------------------------------
// Conversions

/// A conversion between handles that allocates nothing: the result names the
/// node that `self` names.
pub trait _Into<T> {
    spec fn into_spec(self) -> T where Self: Sized;

    fn _into(self) -> (r: T) where Self: Sized
        ensures
            r == self.into_spec(),
    ;
}

pub trait _From<T: _Into<Self>>: Sized {
    fn _from(value: T) -> (r: Self)
        ensures
            r == value.into_spec(),
    ;
}

impl<T1: _Into<T2>, T2> _From<T1> for T2 {
    fn _from(value: T1) -> (r: Self) {
        value._into()
    }
}

/// Reads a variable of inner type `T1` as one of inner type `T2`.
impl<C, T1, T2> _Into<Var<C, T2>> for Var<C, T1> where
    C: Circuit + VariableFlag + Conversion<T1, T2>,
    C::Config: HasVartype<T1> + HasVartype<T2>,
 {
    closed spec fn into_spec(self) -> Var<C, T2> {
        Var { raw_addr: self.raw_addr, _marker: PhantomData }
    }

    fn _into(self) -> (r: Var<C, T2>)
        ensures
            Var::view(&r) == self@,
    {
        Var { raw_addr: self.raw_addr, _marker: PhantomData }
    }
}

/// Reads a signal of inner type `T1` as one of inner type `T2`.
impl<C, T1, T2> _Into<Sig<C, T2>> for Sig<C, T1> where
    C: Circuit + Conversion<T1, T2>,
    C::Config: HasSigtype<T1> + HasSigtype<T2>,
 {
    closed spec fn into_spec(self) -> Sig<C, T2> {
        Sig { raw_addr: self.raw_addr, _marker: PhantomData }
    }

    fn _into(self) -> (r: Sig<C, T2>)
        ensures
            Sig::view(&r) == self@,
    {
        Sig { raw_addr: self.raw_addr, _marker: PhantomData }
    }
}

/// Reads a signal of inner type `T1` as a variable of inner type `T2`.
impl<C, T1, T2> _Into<Var<C, T2>> for Sig<C, T1> where
    C: Circuit + Conversion<T1, T2>,
    C::Config: HasSigtype<T1> + HasSigtype<T2>,
 {
    closed spec fn into_spec(self) -> Var<C, T2> {
        Var { raw_addr: self.raw_addr, _marker: PhantomData }
    }

    fn _into(self) -> (r: Var<C, T2>)
        ensures
            Var::view(&r) == self@,
    {
        Var { raw_addr: self.raw_addr, _marker: PhantomData }
    }
}

/// Reads a constant of inner type `T1` as one of inner type `T2`.
impl<C, T1, T2> _Into<Const<C, T2>> for Const<C, T1> where
    C: Circuit + Conversion<T1, T2>,
    C::Config: HasVartype<T1> + HasVartype<T2>,
 {
    closed spec fn into_spec(self) -> Const<C, T2> {
        Const { raw_addr: self.raw_addr, _marker: PhantomData }
    }

    fn _into(self) -> (r: Const<C, T2>)
        ensures
            Const::view(&r) == self@,
    {
        Const { raw_addr: self.raw_addr, _marker: PhantomData }
    }
}

/// Reads a constant of inner type `T1` as a variable of inner type `T2`.
impl<C, T1, T2> _Into<Var<C, T2>> for Const<C, T1> where
    C: Circuit + Conversion<T1, T2>,
    C::Config: HasVartype<T1> + HasVartype<T2>,
 {
    closed spec fn into_spec(self) -> Var<C, T2> {
        Var { raw_addr: self.raw_addr, _marker: PhantomData }
    }

    fn _into(self) -> (r: Var<C, T2>)
        ensures
            Var::view(&r) == self@,
    {
        Var { raw_addr: self.raw_addr, _marker: PhantomData }
    }
}

impl<C, T> _Into<RWPermit<C>> for Var<C, T> where C: Circuit, C::Config: HasVartype<T> {
    closed spec fn into_spec(self) -> RWPermit<C> {
        RWPermit { raw_addr: self.raw_addr }
    }

    fn _into(self) -> (r: RWPermit<C>)
        ensures
            RWPermit::view(&r) == self@,
    {
        RWPermit { raw_addr: self.raw_addr }
    }
}

impl<C, T> _Into<RWPermit<C>> for Sig<C, T> where C: Circuit, C::Config: HasSigtype<T> {
    closed spec fn into_spec(self) -> RWPermit<C> {
        RWPermit { raw_addr: self.raw_addr }
    }

    fn _into(self) -> (r: RWPermit<C>)
        ensures
            RWPermit::view(&r) == self@,
    {
        RWPermit { raw_addr: self.raw_addr }
    }
}

impl<C, T> _Into<RWPermit<C>> for Const<C, T> where C: Circuit, C::Config: HasVartype<T> {
    closed spec fn into_spec(self) -> RWPermit<C> {
        RWPermit { raw_addr: self.raw_addr }
    }

    fn _into(self) -> (r: RWPermit<C>)
        ensures
            RWPermit::view(&r) == self@,
    {
        RWPermit { raw_addr: self.raw_addr }
    }
}

impl<C, T> _Into<CsPermit<C>> for Sig<C, T> where C: Circuit, C::Config: HasSigtype<T> {
    closed spec fn into_spec(self) -> CsPermit<C> {
        CsPermit { raw_addr: self.raw_addr }
    }

    fn _into(self) -> (r: CsPermit<C>)
        ensures
            CsPermit::view(&r) == self@,
    {
        CsPermit { raw_addr: self.raw_addr }
    }
}

/// A conversion of values between two inner types of one builder.
pub trait Conversion<A, B> {
    /// Whether `convert` is described by `converted`.
    spec fn obeys_conversion() -> bool;

    spec fn converted(value: A) -> B;

    fn convert(value: A) -> (r: B)
        ensures
            Self::obeys_conversion() ==> r == Self::converted(value),
    ;
}

impl<C: Circuit> Conversion<u64, C::F> for C {
    open spec fn obeys_conversion() -> bool {
        <C::F as vstd::std_specs::convert::FromSpec<u64>>::obeys_from_spec()
    }

    open spec fn converted(value: u64) -> C::F {
        <C::F as vstd::std_specs::convert::FromSpec<u64>>::from_spec(value)
    }

    #[inline(always)]
    fn convert(value: u64) -> (r: C::F) {
        C::F::from(value)
    }
}

impl<C: Circuit> Conversion<u32, C::F> for C {
    open spec fn obeys_conversion() -> bool {
        <C::F as vstd::std_specs::convert::FromSpec<u64>>::obeys_from_spec()
    }

    open spec fn converted(value: u32) -> C::F {
        <C::F as vstd::std_specs::convert::FromSpec<u64>>::from_spec(value as u64)
    }

    #[inline(always)]
    fn convert(value: u32) -> (r: C::F) {
        <Self as Conversion<u64, C::F>>::convert(value as u64)
    }
}

impl<C: Circuit> Conversion<u16, C::F> for C {
    open spec fn obeys_conversion() -> bool {
        <C::F as vstd::std_specs::convert::FromSpec<u64>>::obeys_from_spec()
    }

    open spec fn converted(value: u16) -> C::F {
        <C::F as vstd::std_specs::convert::FromSpec<u64>>::from_spec(value as u64)
    }

    #[inline(always)]
    fn convert(value: u16) -> (r: C::F) {
        <Self as Conversion<u64, C::F>>::convert(value as u64)
    }
}

impl<C: Circuit> Conversion<u8, C::F> for C {
    open spec fn obeys_conversion() -> bool {
        <C::F as vstd::std_specs::convert::FromSpec<u64>>::obeys_from_spec()
    }

    open spec fn converted(value: u8) -> C::F {
        <C::F as vstd::std_specs::convert::FromSpec<u64>>::from_spec(value as u64)
    }

    #[inline(always)]
    fn convert(value: u8) -> (r: C::F) {
        <Self as Conversion<u64, C::F>>::convert(value as u64)
    }
}

impl<C: Circuit> Conversion<bool, C::F> for C {
    open spec fn obeys_conversion() -> bool {
        <C::F as vstd::std_specs::convert::FromSpec<u64>>::obeys_from_spec()
    }

    open spec fn converted(value: bool) -> C::F {
        <C::F as vstd::std_specs::convert::FromSpec<u64>>::from_spec(
            if value {
                1u64
            } else {
                0u64
            },
        )
    }

    #[inline(always)]
    fn convert(value: bool) -> (r: C::F) {
        <Self as Conversion<u64, C::F>>::convert(
            if value {
                1
            } else {
                0
            },
        )
    }
}

// ---------------------------------------------------------------------------
// Var as an aggregate of one leaf

impl<C, T> DataStruct<C> for Var<C, T> where
    C: Circuit + VariableFlag,
    C::Config: HasVartype<T>,
 {
    type FStruct = C::F;

    open spec fn raw_addrs(&self) -> Seq<C::RawAddr> {
        seq![self@]
    }

    open spec fn shape() -> Seq<Leaf> {
        seq![Leaf { inner_type: <C::Config as HasVartype<T>>::tag(), role: Role::Variable }]
    }

    proof fn lemma_shape(&self) {
    }

    fn alloc_to(c: &mut C) -> (s: Self) {
        let s = c.alloc_var::<T>();
        proof {
            lemma_allocated_one(
                old(c)@,
                s@,
                Leaf { inner_type: <C::Config as HasVartype<T>>::tag(), role: Role::Variable },
            );
        }
        s
    }
}

impl<C, T> NodeStruct<C> for Var<C, T> where
    C: Circuit + VariableFlag + StandardVariables,
    C::Config: HasVartype<T>,
 {
    open spec fn flatten(value: C::F) -> Seq<C::F> {
        seq![value]
    }

    open spec fn unflatten(values: Seq<C::F>) -> C::F {
        values[0]
    }

    closed spec fn from_raw_addrs(raws: Seq<C::RawAddr>) -> Self {
        Var { raw_addr: raws[0], _marker: PhantomData }
    }

    proof fn lemma_flatten(value: C::F) {
    }

    proof fn lemma_from_raw_addrs(raws: Seq<C::RawAddr>) {
        assert(seq![raws[0]] =~= raws);
    }

    proof fn lemma_round_trip(&self) {
    }

    fn read_from(self, c: &C) -> (value: C::F) {
        assert(self.raw_addrs()[0] == self.raw_addr);
        c.read(self.raw_addr)
    }

    fn write_to(self, c: &mut C, value: C::F) {
        assert(self.raw_addrs()[0] == self.raw_addr);
        c.write(self.raw_addr, value);
        proof {
            lemma_written_one(old(c)@, self.raw_addr, value);
        }
    }

    fn to_raw_addr(&self, c: &C) -> (raws: VecDeque<C::RawAddr>) {
        let mut raws = VecDeque::new();
        raws.push_back(self.raw_addr);
        raws
    }

    fn try_from_raw_addr(c: &C, raws: &mut VecDeque<C::RawAddr>) -> (s: Self) {
        assert(raws@.take(1)[0] == raws@[0]);
        let raw = raws.pop_front().unwrap();
        c.var_from_raw_addr::<T>(raw)
    }
}

impl<C, T> SVStruct<C> for Var<C, T> where
    C: Circuit + VariableFlag + StandardVariables,
    C::Config: HasVartype<T>,
 {
    proof fn lemma_all_variables() {
    }
}

// ---------------------------------------------------------------------------
// Sig as an aggregate of one leaf

impl<C, T> DataStruct<C> for Sig<C, T> where
    C: Circuit + SignalFlag + PrimarySignalFlag,
    C::Config: HasSigtype<T>,
 {
    type FStruct = C::F;

    open spec fn raw_addrs(&self) -> Seq<C::RawAddr> {
        seq![self@]
    }

    open spec fn shape() -> Seq<Leaf> {
        seq![Leaf { inner_type: <C::Config as HasVartype<T>>::tag(), role: Role::Signal }]
    }

    proof fn lemma_shape(&self) {
    }

    fn alloc_to(c: &mut C) -> (s: Self) {
        let s = c.alloc_sig::<T>();
        proof {
            lemma_allocated_one(
                old(c)@,
                s@,
                Leaf { inner_type: <C::Config as HasVartype<T>>::tag(), role: Role::Signal },
            );
        }
        s
    }
}

impl<C, T> NodeStruct<C> for Sig<C, T> where
    C: Circuit + SignalFlag + PrimarySignalFlag + StandardVariables,
    C::Config: HasSigtype<T>,
 {
    open spec fn flatten(value: C::F) -> Seq<C::F> {
        seq![value]
    }

    open spec fn unflatten(values: Seq<C::F>) -> C::F {
        values[0]
    }

    closed spec fn from_raw_addrs(raws: Seq<C::RawAddr>) -> Self {
        Sig { raw_addr: raws[0], _marker: PhantomData }
    }

    proof fn lemma_flatten(value: C::F) {
    }

    proof fn lemma_from_raw_addrs(raws: Seq<C::RawAddr>) {
        assert(seq![raws[0]] =~= raws);
    }

    proof fn lemma_round_trip(&self) {
    }

    fn read_from(self, c: &C) -> (value: C::F) {
        assert(self.raw_addrs()[0] == self.raw_addr);
        c.read(self.raw_addr)
    }

    fn write_to(self, c: &mut C, value: C::F) {
        assert(self.raw_addrs()[0] == self.raw_addr);
        c.write(self.raw_addr, value);
        proof {
            lemma_written_one(old(c)@, self.raw_addr, value);
        }
    }

    fn to_raw_addr(&self, c: &C) -> (raws: VecDeque<C::RawAddr>) {
        let mut raws = VecDeque::new();
        raws.push_back(self.raw_addr);
        raws
    }

    fn try_from_raw_addr(c: &C, raws: &mut VecDeque<C::RawAddr>) -> (s: Self) {
        assert(raws@.take(1)[0] == raws@[0]);
        let raw = raws.pop_front().unwrap();
        c.sig_from_raw_addr::<T>(raw)
    }
}

impl<C, T> SVStruct<C> for Sig<C, T> where
    C: Circuit + SignalFlag + PrimarySignalFlag + StandardVariables,
    C::Config: HasSigtype<T>,
 {
    proof fn lemma_all_variables() {
    }
}

impl<C, T> SigStruct<C> for Sig<C, T> where
    C: Circuit + SignalFlag + PrimarySignalFlag + StandardVariables,
    C::Config: HasSigtype<T>,
 {
    proof fn lemma_all_signals() {
    }
}

// ---------------------------------------------------------------------------
// ConstrRhs as an aggregate of one leaf

impl<C, T> DataStruct<C> for ConstrRhs<C, T> where
    C: Circuit + ConstrRhsFlag,
    C::Config: HasSigtype<T>,
 {
    type FStruct = C::F;

    open spec fn raw_addrs(&self) -> Seq<C::RawAddr> {
        seq![self@]
    }

    open spec fn shape() -> Seq<Leaf> {
        seq![Leaf { inner_type: <C::Config as HasVartype<T>>::tag(), role: Role::ConstrRhs }]
    }

    proof fn lemma_shape(&self) {
    }

    fn alloc_to(c: &mut C) -> (s: Self) {
        let s = c.alloc_constr_rhs::<T>();
        proof {
            lemma_allocated_one(
                old(c)@,
                s@,
                Leaf { inner_type: <C::Config as HasVartype<T>>::tag(), role: Role::ConstrRhs },
            );
        }
        s
    }
}

impl<C, T> NodeStruct<C> for ConstrRhs<C, T> where
    C: Circuit + ConstrRhsFlag + StandardVariables,
    C::Config: HasSigtype<T>,
 {
    open spec fn flatten(value: C::F) -> Seq<C::F> {
        seq![value]
    }

    open spec fn unflatten(values: Seq<C::F>) -> C::F {
        values[0]
    }

    closed spec fn from_raw_addrs(raws: Seq<C::RawAddr>) -> Self {
        ConstrRhs { raw_addr: raws[0], _marker: PhantomData }
    }

    proof fn lemma_flatten(value: C::F) {
    }

    proof fn lemma_from_raw_addrs(raws: Seq<C::RawAddr>) {
        assert(seq![raws[0]] =~= raws);
    }

    proof fn lemma_round_trip(&self) {
    }

    fn read_from(self, c: &C) -> (value: C::F) {
        assert(self.raw_addrs()[0] == self.raw_addr);
        c.read(self.raw_addr)
    }

    fn write_to(self, c: &mut C, value: C::F) {
        assert(self.raw_addrs()[0] == self.raw_addr);
        c.write(self.raw_addr, value);
        proof {
            lemma_written_one(old(c)@, self.raw_addr, value);
        }
    }

    fn to_raw_addr(&self, c: &C) -> (raws: VecDeque<C::RawAddr>) {
        let mut raws = VecDeque::new();
        raws.push_back(self.raw_addr);
        raws
    }

    fn try_from_raw_addr(c: &C, raws: &mut VecDeque<C::RawAddr>) -> (s: Self) {
        assert(raws@.take(1)[0] == raws@[0]);
        let raw = raws.pop_front().unwrap();
        c.constr_rhs_from_raw_addr::<T>(raw)
    }
}

impl<C, T> CRhsStruct<C> for ConstrRhs<C, T> where
    C: Circuit + ConstrRhsFlag + StandardVariables,
    C::Config: HasSigtype<T>,
 {
    proof fn lemma_all_constr_rhs() {
    }
}

// ---------------------------------------------------------------------------
// Advices

impl<C, S, F, T> CompileableStruct<C, S, F, TypedAddr<S, T>> for Sig<C, T> where
    C: Circuit + SignalFlag + PrimarySignalFlag,
    C::Config: HasSigtype<T>,
    S: Storage + AllowsStruct<TypedAddr<S, T>>,
    F: Fn(C::RawAddr) -> S::RawAddr,
 {
    fn compile(&self, s: &mut S, mapping: &F) -> (compiled: TypedAddr<S, T>) {
        assert(self.raw_addrs()[0] == self.raw_addr);
        let addr = mapping(self.raw_addr);
        let compiled = TypedAddr { addr, _pd: PhantomData };
        assert(<S as DeducteAddressesOf<TypedAddr<S, T>>>::addresses_of(&compiled)[0] == addr);
        compiled
    }
}

/// `Arc::clone`: another handle of the same value.
#[verifier::external_body]
pub(crate) fn share<W>(func: &Arc<W>) -> (shared: Arc<W>)
    ensures
        shared == *func,
{
    func.clone()
}

/// An advice of a builder: when the graph runs, `func` is handed the values
/// of `input`, and what it returns is written to `output`. The function is
/// shared with the advice that this one is lowered to.
pub struct Advice<I, DI, O, DO, C, S, F, W> where
    I: DataStruct<C>,
    I: CompileableStruct<C, S, F, DI>,
    S: AllowsStruct<DI>,
    O: DataStruct<C>,
    O: CompileableStruct<C, S, F, DO>,
    S: AllowsStruct<DO>,
    C: Circuit,
    S: Storage,
    F: Fn(C::RawAddr) -> S::RawAddr,
 {
    pub input: I,
    pub output: O,
    pub func: Arc<W>,
    pub _pd: PhantomData<(C, F, DI, DO, S)>,
}

impl<I, DI, O, DO, C, S, F, W> TAdvice<C, S, F> for Advice<I, DI, O, DO, C, S, F, W> where
    I: DataStruct<C>,
    I: CompileableStruct<C, S, F, DI>,
    S: AllowsStruct<DI>,
    O: DataStruct<C>,
    O: CompileableStruct<C, S, F, DO>,
    S: AllowsStruct<DO>,
    C: Circuit,
    S: Storage,
    F: Fn(C::RawAddr) -> S::RawAddr,
    W: Fn(<S as AllowsStruct<DI>>::DataSturct) -> <S as AllowsStruct<DO>>::DataSturct,
 {
    type Compiled = RuntimeAdvice<DI, DO, S, W>;

    open spec fn input_raws(&self) -> Seq<C::RawAddr> {
        self.input.raw_addrs()
    }

    open spec fn output_raws(&self) -> Seq<C::RawAddr> {
        self.output.raw_addrs()
    }

    fn compile(&self, s: &mut S, mapping: &F) -> (compiled: RuntimeAdvice<DI, DO, S, W>)
        ensures
            compiled.func == self.func,
    {
        let input = self.input.compile(s, mapping);
        let output = self.output.compile(s, mapping);
        RuntimeAdvice { input, output, func: share(&self.func), _pd: PhantomData }
    }
}

impl<C, S, F, A> TAdvice<C, S, F> for Box<A> where
    C: Circuit,
    S: Storage,
    F: Fn(C::RawAddr) -> S::RawAddr,
    A: TAdvice<C, S, F>,
 {
    type Compiled = A::Compiled;

    open spec fn input_raws(&self) -> Seq<C::RawAddr> {
        (**self).input_raws()
    }

    open spec fn output_raws(&self) -> Seq<C::RawAddr> {
        (**self).output_raws()
    }

    fn compile(&self, s: &mut S, mapping: &F) -> (compiled: A::Compiled) {
        (**self).compile(s, mapping)
    }
}

// ---------------------------------------------------------------------------
// Aggregates that constraints take

/// An aggregate whose leaves may be named in a constraint.
pub trait CsStruct<C: Circuit>: DataStruct<C> {
    /// The permits of the leaves, from left to right.
    fn serialize_cs(&self) -> (permits: Vec<CsPermit<C>>)
        ensures
            permits@.len() == self.raw_addrs().len(),
            forall|i: int|
                0 <= i < permits@.len() ==> (#[trigger] permits@[i])@ == self.raw_addrs()[i],
    ;
}

impl<C, T> CsStruct<C> for Sig<C, T> where
    C: Circuit + SignalFlag + PrimarySignalFlag,
    C::Config: HasSigtype<T>,
 {
    fn serialize_cs(&self) -> (permits: Vec<CsPermit<C>>) {
        let mut permits: Vec<CsPermit<C>> = Vec::new();
        permits.push(CsPermit { raw_addr: self.raw_addr });
        assert(self.raw_addrs()[0] == self.raw_addr);
        permits
    }
}

} // verus!
