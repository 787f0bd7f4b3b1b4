use circuit_core::advices::{compile_all, Advices, CompileableStruct, TAdvice};
use circuit_core::backend::api::{AllowsStruct, DeducteAddressesOf, RTAdvice, RuntimeAdvice};
use circuit_core::backend::storage::{AllocatorOf, ReaderOf, Storage, TypedAddr, WriterOf};
use circuit_core::circuit::{Advice, Conversion, InnerType, Sig, Signals, ToRawAddr};
use circuit_core::circuit_impl_simple::{SimpleRaw, TypeConfig};
use circuit_core::example::{
    ExampleCircuit, ExampleConfig, ExampleRawAddr, ExampleStorage, ExampleTable,
};
use halo2curves::bn256::Fr;
use std::marker::PhantomData;
use std::sync::Arc;

type FieldAddr = TypedAddr<ExampleStorage, Fr>;
type U64Addr = TypedAddr<ExampleStorage, u64>;

fn field_cell(storage: &mut ExampleStorage) -> FieldAddr {
    TypedAddr { addr: <ExampleStorage as AllocatorOf<Fr>>::allocate(storage), _pd: PhantomData }
}

fn u64_cell(storage: &mut ExampleStorage) -> U64Addr {
    TypedAddr { addr: <ExampleStorage as AllocatorOf<u64>>::allocate(storage), _pd: PhantomData }
}

#[test]
fn cells_of_two_types_share_no_address() {
    let mut storage = ExampleStorage::new();
    let f0 = storage.allocate_field();
    let u0 = storage.allocate_u64();
    let f1 = <ExampleStorage as AllocatorOf<Fr>>::allocate(&mut storage);
    assert_eq!(f0, ExampleRawAddr { addr: 0, typeid: InnerType::Field });
    assert_eq!(u0, ExampleRawAddr { addr: 0, typeid: InnerType::U64 });
    assert_eq!(f1, ExampleRawAddr { addr: 1, typeid: InnerType::Field });
    storage.put(&f0, Fr::from(5));
    storage.put(&u0, 6u64);
    storage.put(&f1, Fr::from(7));
    assert_eq!(<ExampleStorage as ReaderOf<Fr>>::get(&storage, &f0), &Fr::from(5));
    assert_eq!(<ExampleStorage as ReaderOf<u64>>::get(&storage, &u0), &6);
    assert_eq!(<ExampleStorage as ReaderOf<Fr>>::get(&storage, &f1), &Fr::from(7));
    let typed: FieldAddr = TypedAddr { addr: f1, _pd: PhantomData };
    assert_eq!(ExampleStorage::to_raw(&typed), f1);
}

#[test]
fn aggregates_of_storage_addresses() {
    let mut storage = ExampleStorage::new();
    let a = field_cell(&mut storage);
    let b = field_cell(&mut storage);
    let n = u64_cell(&mut storage);
    assert_eq!(<ExampleStorage as DeducteAddressesOf<FieldAddr>>::addresses(&a), vec![a.addr]);
    storage.write(&n, 9u64);
    assert_eq!(storage.read(&n), 9);

    let list = vec![a, b];
    assert_eq!(
        <ExampleStorage as DeducteAddressesOf<Vec<FieldAddr>>>::addresses(&list),
        vec![list[0].addr, list[1].addr]
    );
    // The first value goes to the first cell.
    storage.write(&list, vec![Fr::from(1), Fr::from(2)]);
    assert_eq!(storage.read(&list), vec![Fr::from(1), Fr::from(2)]);
    assert_eq!(storage.read(&list[1]), Fr::from(2));

    assert!(<ExampleStorage as DeducteAddressesOf<()>>::addresses(&()).is_empty());
    <ExampleStorage as AllowsStruct<()>>::write(&mut storage, &(), ());
    <ExampleStorage as AllowsStruct<()>>::read(&storage, &());
}

#[test]
fn runtime_advice_reads_calls_and_writes() {
    let mut storage = ExampleStorage::new();
    let inputs = vec![field_cell(&mut storage), field_cell(&mut storage)];
    let output = field_cell(&mut storage);
    storage.write(&inputs, vec![Fr::from(42), Fr::from(1337)]);
    let advice = RuntimeAdvice {
        input: inputs,
        output,
        func: Arc::new(|values: Vec<Fr>| values[0] * values[1]),
        _pd: PhantomData,
    };
    assert_eq!(advice.inputs(), vec![advice.input[0].addr, advice.input[1].addr]);
    assert_eq!(advice.outputs(), vec![advice.output.addr]);
    advice.call(&mut storage);
    assert_eq!(storage.read(&advice.output), Fr::from(42 * 1337));
}

type Mapping = fn(SimpleRaw) -> ExampleRawAddr;
type Witness = fn(Fr) -> Fr;
type S = Sig<ExampleTable, Fr>;
type Recorded =
    Advice<S, FieldAddr, S, FieldAddr, ExampleTable, ExampleStorage, Mapping, Witness>;

fn cell_of(raw: SimpleRaw) -> ExampleRawAddr {
    ExampleRawAddr { addr: raw.0 + 10, typeid: InnerType::Field }
}

fn same_cell(raw: SimpleRaw) -> ExampleRawAddr {
    ExampleRawAddr { addr: raw.0, typeid: InnerType::Field }
}

fn double(value: Fr) -> Fr {
    value + value
}

fn square(value: Fr) -> Fr {
    value * value
}

fn recorded(input: S, output: S, func: Witness) -> Recorded {
    Advice { input, output, func: Arc::new(func), _pd: PhantomData }
}

#[test]
fn signal_lowers_to_the_mapped_cell() {
    let mut table = ExampleTable::new();
    let a: S = table.alloc_sig();
    let b: S = table.alloc_sig();
    let mapping: Mapping = cell_of;
    let mut storage = ExampleStorage::new();
    let compiled: FieldAddr = b.compile(&mut storage, &mapping);
    assert_eq!(compiled.addr, cell_of(ToRawAddr::to_raw_addr(&b)));
    assert_eq!(compiled.addr, ExampleRawAddr { addr: 11, typeid: InnerType::Field });
    <() as CompileableStruct<ExampleTable, ExampleStorage, Mapping, ()>>::compile(
        &(),
        &mut storage,
        &mapping,
    );
    assert_eq!(ToRawAddr::to_raw_addr(&a), SimpleRaw(0));
}

#[test]
fn advices_lower_one_by_one_in_order() {
    let mut table = ExampleTable::new();
    let x: S = table.alloc_sig();
    let y: S = table.alloc_sig();
    let z: S = table.alloc_sig();

    let mut storage = ExampleStorage::new();
    let cells = [
        storage.allocate_field(),
        storage.allocate_field(),
        storage.allocate_field(),
    ];
    storage.put(&cells[0], Fr::from(3));
    let mapping: Mapping = same_cell;

    let list = vec![recorded(x, y, double), recorded(y, z, square)];
    let lowered = compile_all::<ExampleTable, ExampleStorage, Mapping, Recorded>(
        &list,
        &mut storage,
        &mapping,
    );
    assert_eq!(lowered.len(), 2);
    assert_eq!(lowered[0].inputs(), vec![cells[0]]);
    assert_eq!(lowered[0].outputs(), vec![cells[1]]);
    assert_eq!(lowered[1].inputs(), vec![cells[1]]);
    assert_eq!(lowered[1].outputs(), vec![cells[2]]);
    // The witness functions are those of the recorded advices: (3 + 3)^2.
    lowered[0].call(&mut storage);
    lowered[1].call(&mut storage);
    assert_eq!(<ExampleStorage as ReaderOf<Fr>>::get(&storage, &cells[2]), &Fr::from(36));

    let boxed = Box::new(recorded(x, z, double));
    let again = <Box<Recorded> as TAdvice<ExampleTable, ExampleStorage, Mapping>>::compile(
        &boxed,
        &mut storage,
        &mapping,
    );
    assert_eq!(again.inputs(), vec![cells[0]]);
    assert_eq!(again.outputs(), vec![cells[2]]);
}

#[test]
fn execution_graph_follows_the_log() {
    let mut circuit: ExampleCircuit<Recorded> = ExampleCircuit::new();
    let x = circuit.alloc_sig();
    let y = circuit.alloc_sig();
    let z = circuit.alloc_sig();
    circuit.advise_to_unassigned(recorded(x, y, square));
    circuit.advise_to_unassigned(recorded(y, z, double));
    assert!(circuit.node_table().contains(SimpleRaw(2)));
    assert!(!circuit.node_table().contains(SimpleRaw(3)));

    let mut storage = ExampleStorage::new();
    let cells = [
        storage.allocate_field(),
        storage.allocate_field(),
        storage.allocate_field(),
    ];
    let mapping: Mapping = same_cell;
    let graph = circuit.compile_execution_graph(&mut storage, &mapping);
    assert_eq!(graph.advices.len(), 2);
    assert_eq!(graph.advices[0].outputs(), vec![cells[1]]);
    assert_eq!(graph.advices[1].inputs(), vec![cells[1]]);
    storage.put(&cells[0], Fr::from(5));
    for advice in graph.advices.iter() {
        advice.call(&mut storage);
    }
    // 5^2 + 5^2
    assert_eq!(<ExampleStorage as ReaderOf<Fr>>::get(&storage, &cells[2]), &Fr::from(50));
}

#[test]
fn example_configuration_is_that_of_bn256() {
    assert_eq!(<ExampleTable as Conversion<Fr, Fr>>::convert(Fr::from(9)), Fr::from(9));
    assert_eq!(<ExampleTable as Conversion<u64, Fr>>::convert(9), Fr::from(9));
    let g = halo2curves::bn256::G1Affine::generator();
    assert_eq!(ExampleConfig::msm(&vec![Fr::from(1)], &vec![g]), g);
}
