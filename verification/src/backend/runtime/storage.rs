//! The value store of one execution: cells that are written once.
use std::collections::BTreeSet;
use vstd::prelude::*;

verus! {

/// A tag identifying the signal that becomes readable. It is the address of
/// every kind of value in [`MyStorage`].
#[derive(Debug, Clone, Copy, PartialEq, Eq, Structural, Hash, PartialOrd, Ord)]
pub struct SignalId(pub usize);

pub trait Storage {
    type Addr;
}

/// The cells that a store holds for values of type `T`: `None` for a cell
/// that was not written yet.
pub trait Cells<T>: Storage {
    spec fn cells(&self) -> Map<Self::Addr, Option<T>>;
}

/// Whether a value can be put into the cell at `addr`: the cell exists and
/// was not written.
pub open spec fn writable<A, T>(cells: Map<A, Option<T>>, addr: A) -> bool {
    cells.contains_key(addr) && cells[addr] is None
}

/// The cells once the values of a list were put, one after the other.
pub open spec fn after_puts<A, T>(cells: Map<A, Option<T>>, puts: Seq<(A, T)>) -> Map<
    A,
    Option<T>,
>
    decreases puts.len(),
{
    if puts.len() == 0 {
        cells
    } else {
        after_puts(cells, puts.drop_last()).insert(puts.last().0, Some(puts.last().1))
    }
}

/// Whether each value of a list can be put when its turn has come.
pub open spec fn puts_allowed<A, T>(cells: Map<A, Option<T>>, puts: Seq<(A, T)>) -> bool
    decreases puts.len(),
{
    puts.len() == 0 || (puts_allowed(cells, puts.drop_last()) && writable(
        after_puts(cells, puts.drop_last()),
        puts.last().0,
    ))
}

/// Puts keep the cells and what was written, and leave empty only what was
/// empty.
pub proof fn lemma_puts_keep<A, T>(cells: Map<A, Option<T>>, puts: Seq<(A, T)>)
    requires
        puts_allowed(cells, puts),
    ensures
        forall|a: A| cells.contains_key(a) ==> after_puts(cells, puts).contains_key(a),
        forall|a: A|
            cells.contains_key(a) && cells[a] is Some ==> after_puts(cells, puts)[a] == cells[a],
        forall|a: A| writable(after_puts(cells, puts), a) ==> writable(cells, a),
    decreases puts.len(),
{
    if puts.len() > 0 {
        lemma_puts_keep(cells, puts.drop_last());
    }
}

/// Over the life of a store a cell is put at most once: among puts that
/// were all allowed, no two name one cell, each names a cell that was empty
/// at the start, and each value is still there at the end.
pub proof fn lemma_each_cell_put_once<A, T>(cells: Map<A, Option<T>>, puts: Seq<(A, T)>, i: int)
    requires
        puts_allowed(cells, puts),
        0 <= i < puts.len(),
    ensures
        writable(cells, puts[i].0),
        forall|j: int| 0 <= j < puts.len() && j != i ==> puts[j].0 != puts[i].0,
        after_puts(cells, puts).contains_key(puts[i].0),
        after_puts(cells, puts)[puts[i].0] == Some(puts[i].1),
    decreases puts.len(),
{
    let front = puts.drop_last();
    lemma_puts_keep(cells, front);
    if i < front.len() {
        lemma_each_cell_put_once(cells, front, i);
        assert(front[i] == puts[i]);
        assert forall|j: int| 0 <= j < puts.len() && j != i implies puts[j].0 != puts[i].0 by {
            if j < front.len() {
                assert(front[j] == puts[j]);
            }
        }
    } else {
        assert forall|j: int| 0 <= j < puts.len() && j != i implies puts[j].0 != puts[i].0 by {
            lemma_each_cell_put_once(cells, front, j);
            assert(front[j] == puts[j]);
        }
    }
}

pub trait AllocatorOf<T>: Cells<T> {
    /// A new cell, which is empty.
    fn allocate(&mut self) -> (addr: Self::Addr)
        ensures
            !old(self).cells().contains_key(addr),
            final(self).cells() == old(self).cells().insert(addr, None),
    ;
}

pub trait WriterOf<T>: Cells<T> {
    /// Writes a cell that was not written before.
    fn put(&mut self, addr: &Self::Addr, val: T)
        requires
            writable(old(self).cells(), *addr),
        ensures
            final(self).cells() == old(self).cells().insert(*addr, Some(val)),
    ;
}

pub trait ReaderOf<T>: Cells<T> {
    /// The value of a cell, `None` where it was not written.
    fn get(&self, addr: &Self::Addr) -> (val: Option<&T>)
        requires
            self.cells().contains_key(*addr),
        ensures
            match val {
                Some(v) => self.cells()[*addr] == Some(*v),
                None => self.cells()[*addr] is None,
            },
    ;
}

/// A store that reports the cells that someone waits for, once they are
/// written.
pub trait AsyncStorage<V>: Cells<V> {
    /// The cells that someone waits for.
    spec fn interests(&self) -> Set<Self::Addr>;

    /// The cells of interest that were written since the last poll, in the
    /// order in which they were written.
    spec fn ready(&self) -> Seq<Self::Addr>;

    fn register_interest_in(&mut self, addr: Self::Addr)
        ensures
            final(self).interests() == old(self).interests().insert(addr),
            final(self).ready() == old(self).ready(),
            final(self).cells() == old(self).cells(),
    ;

    /// Hands out the cells that are ready, and forgets them.
    fn poll(&mut self) -> (ready: Vec<Self::Addr>)
        ensures
            ready@ == old(self).ready(),
            final(self).ready() == Seq::<Self::Addr>::empty(),
            final(self).interests() == old(self).interests(),
            final(self).cells() == old(self).cells(),
    ;
}

/// Why a value was not put into a cell.
#[derive(Debug, Clone, Copy, PartialEq, Eq, Structural)]
pub enum PutError {
    /// There is no cell at this address.
    NoSuchCell(SignalId),
    /// The cell was written before.
    WrittenTwice(SignalId),
}

/// A store of `usize` values.
pub struct MyStorage {
    data: Vec<Option<usize>>,
    interests: BTreeSet<usize>,
    ready: Vec<SignalId>,
}

impl MyStorage {
    pub fn new() -> (storage: Self)
        ensures
            storage.cells() == Map::<SignalId, Option<usize>>::empty(),
            storage.interests() == Set::<SignalId>::empty(),
            storage.ready() == Seq::<SignalId>::empty(),
            storage.len() == 0,
    {
        let storage = MyStorage { data: Vec::new(), interests: BTreeSet::new(), ready: Vec::new() };
        assert(storage.cells() =~= Map::<SignalId, Option<usize>>::empty());
        assert(storage.interests() =~= Set::<SignalId>::empty());
        storage
    }

    /// The number of cells. The cells are those at the addresses below it,
    /// and the next cell gets this address.
    pub closed spec fn len(&self) -> nat {
        self.data.len() as nat
    }

    pub proof fn lemma_addresses(&self)
        ensures
            forall|a: SignalId| self.cells().contains_key(a) <==> a.0 < self.len(),
            self.cells().dom().finite(),
            self.cells().dom().len() == self.len(),
    {
        let n = self.len();
        let below = |k: int| SignalId(k as usize);
        let places = Set::new(|k: int| 0 <= k < n);
        vstd::set_lib::lemma_int_range(0, n as int);
        assert(places =~= vstd::set_lib::set_int_range(0, n as int));
        assert(self.cells().dom() =~= places.map(below)) by {
            assert forall|a: SignalId| self.cells().dom().contains(a) implies places.map(
                below,
            ).contains(a) by {
                assert(places.contains(a.0 as int));
                assert(below(a.0 as int) == a);
            }
        }
        vstd::set_lib::lemma_map_size(places, places.map(below), below);
    }

    /// Whether there is a cell at `addr`.
    pub fn contains(&self, addr: &SignalId) -> (b: bool)
        ensures
            b == self.cells().contains_key(*addr),
    {
        addr.0 < self.data.len()
    }

    /// Writes a cell, unless there is none at `addr` or it was written
    /// before: then nothing changes.
    pub fn try_put(&mut self, addr: &SignalId, val: usize) -> (r: Result<(), PutError>)
        ensures
            match r {
                Ok(()) => writable(old(self).cells(), *addr) && final(self).cells() == old(
                    self,
                ).cells().insert(*addr, Some(val)) && final(self).interests() == old(
                    self,
                ).interests() && final(self).ready() == if old(self).interests().contains(*addr) {
                    old(self).ready().push(*addr)
                } else {
                    old(self).ready()
                },
                Err(e) => !writable(old(self).cells(), *addr) && *final(self) == *old(self) && e
                    == if old(self).cells().contains_key(*addr) {
                    PutError::WrittenTwice(*addr)
                } else {
                    PutError::NoSuchCell(*addr)
                },
            },
    {
        if addr.0 >= self.data.len() {
            return Err(PutError::NoSuchCell(*addr));
        }
        if self.data[addr.0].is_some() {
            return Err(PutError::WrittenTwice(*addr));
        }
        self.put(addr, val);
        Ok(())
    }
}

impl Default for MyStorage {
    fn default() -> (storage: Self)
        ensures
            storage.cells() == Map::<SignalId, Option<usize>>::empty(),
            storage.interests() == Set::<SignalId>::empty(),
            storage.ready() == Seq::<SignalId>::empty(),
            storage.len() == 0,
    {
        MyStorage::new()
    }
}

impl Storage for MyStorage {
    type Addr = SignalId;
}

impl Cells<usize> for MyStorage {
    closed spec fn cells(&self) -> Map<SignalId, Option<usize>> {
        Map::new(|a: SignalId| a.0 < self.data.len(), |a: SignalId| self.data[a.0 as int])
    }
}

impl AllocatorOf<usize> for MyStorage {
    fn allocate(&mut self) -> (addr: SignalId)
        ensures
            final(self).interests() == old(self).interests(),
            final(self).ready() == old(self).ready(),
            addr.0 == old(self).len(),
            final(self).len() == old(self).len() + 1,
    {
        self.data.push(None);
        assert(self.cells() =~= old(self).cells().insert(
            SignalId((self.data.len() - 1) as usize),
            None,
        ));
        SignalId(self.data.len() - 1)
    }
}

impl ReaderOf<usize> for MyStorage {
    fn get(&self, addr: &SignalId) -> (val: Option<&usize>) {
        self.data[addr.0].as_ref()
    }
}

impl WriterOf<usize> for MyStorage {
    fn put(&mut self, addr: &SignalId, val: usize)
        ensures
            final(self).interests() == old(self).interests(),
            final(self).ready() == if old(self).interests().contains(*addr) {
                old(self).ready().push(*addr)
            } else {
                old(self).ready()
            },
    {
        self.data[addr.0] = Some(val);
        if self.interests.contains(&addr.0) {
            self.ready.push(*addr);
        }
        assert(self.cells() =~= old(self).cells().insert(*addr, Some(val)));
    }
}

impl AsyncStorage<usize> for MyStorage {
    closed spec fn interests(&self) -> Set<SignalId> {
        Set::new(|a: SignalId| self.interests@.contains(a.0))
    }

    closed spec fn ready(&self) -> Seq<SignalId> {
        self.ready@
    }

    fn register_interest_in(&mut self, addr: SignalId) {
        self.interests.insert(addr.0);
        assert(self.interests() =~= old(self).interests().insert(addr));
    }

    fn poll(&mut self) -> (ready: Vec<SignalId>) {
        let mut ready: Vec<SignalId> = Vec::new();
        core::mem::swap(&mut self.ready, &mut ready);
        ready
    }
}

} // verus!
