use circuit_core::advices::DataStruct;
use circuit_core::arrays::{array_to_vec, parse_many, read_many, write_many};
use circuit_core::circuit::{ConstrRhs, CsStruct, Sig, Signals, ToRawAddr, Var, Variables};
use circuit_core::circuit_impl_simple::{Bn256, NodeTable, SimpleRaw};
use circuit_core::default_io_impl::IO;
use circuit_core::node_struct::{
    alloc_many, append_deque, leaves_of, leaves_of_all, read_all, write_all, NodeStruct,
};
use halo2curves::bn256::Fr;
use std::collections::VecDeque;

type Table = NodeTable<Bn256>;
type S = Sig<Table, Fr>;

fn raws(from: usize, to: usize) -> Vec<SimpleRaw> {
    (from..to).map(SimpleRaw).collect()
}

#[test]
fn tuple_with_array_round_trip() {
    let mut table = Table::new();
    type Shape = (S, [S; 4], S);
    let shape = <Shape as DataStruct<Table>>::alloc_to(&mut table);
    let listed = NodeStruct::<Table>::to_raw_addr(&shape, &table);
    assert_eq!(listed, VecDeque::from(raws(0, 6)));
    assert_eq!(ToRawAddr::to_raw_addr(&shape.0), SimpleRaw(0));
    assert_eq!(ToRawAddr::to_raw_addr(&shape.1[0]), SimpleRaw(1));
    assert_eq!(ToRawAddr::to_raw_addr(&shape.1[3]), SimpleRaw(4));
    assert_eq!(ToRawAddr::to_raw_addr(&shape.2), SimpleRaw(5));

    let mut queue = listed.clone();
    let parsed = <Shape as NodeStruct<Table>>::try_from_raw_addr(&table, &mut queue);
    assert!(queue.is_empty());
    assert_eq!(NodeStruct::<Table>::to_raw_addr(&parsed, &table), listed);
}

#[test]
fn twelve_tuple_enumerates_left_to_right() {
    let mut table = Table::new();
    type Wide = (S, S, S, S, S, S, S, S, S, S, S, (S, S));
    let wide = <Wide as DataStruct<Table>>::alloc_to(&mut table);
    let listed = NodeStruct::<Table>::to_raw_addr(&wide, &table);
    assert_eq!(listed, VecDeque::from(raws(0, 13)));
    let values = (
        Fr::from(1),
        Fr::from(2),
        Fr::from(3),
        Fr::from(4),
        Fr::from(5),
        Fr::from(6),
        Fr::from(7),
        Fr::from(8),
        Fr::from(9),
        Fr::from(10),
        Fr::from(11),
        (Fr::from(12), Fr::from(13)),
    );
    wide.write_to(&mut table, values);
    assert_eq!(wide.read_from(&table), values);
    assert_eq!(wide.11 .1.read_from(&table), Fr::from(13));
    let mut queue = listed.clone();
    queue.push_back(SimpleRaw(99));
    let parsed = <Wide as NodeStruct<Table>>::try_from_raw_addr(&table, &mut queue);
    assert_eq!(queue, VecDeque::from(vec![SimpleRaw(99)]));
    assert_eq!(parsed.read_from(&table), values);
}

#[test]
fn every_tuple_arity_parses_what_it_lists() {
    let mut table = Table::new();
    let t2 = <(S, S) as DataStruct<Table>>::alloc_to(&mut table);
    let t3 = <(S, S, S) as DataStruct<Table>>::alloc_to(&mut table);
    let t4 = <(S, S, S, S) as DataStruct<Table>>::alloc_to(&mut table);
    let t5 = <(S, S, S, S, S) as DataStruct<Table>>::alloc_to(&mut table);
    let t6 = <(S, S, S, S, S, S) as DataStruct<Table>>::alloc_to(&mut table);
    let t7 = <(S, S, S, S, S, S, S) as DataStruct<Table>>::alloc_to(&mut table);
    let t8 = <(S, S, S, S, S, S, S, S) as DataStruct<Table>>::alloc_to(&mut table);
    let t9 = <(S, S, S, S, S, S, S, S, S) as DataStruct<Table>>::alloc_to(&mut table);
    let t10 = <(S, S, S, S, S, S, S, S, S, S) as DataStruct<Table>>::alloc_to(&mut table);
    let t11 = <(S, S, S, S, S, S, S, S, S, S, S) as DataStruct<Table>>::alloc_to(&mut table);
    let t12 = <(S, S, S, S, S, S, S, S, S, S, S, S) as DataStruct<Table>>::alloc_to(&mut table);
    let mut all = VecDeque::new();
    all.append(&mut NodeStruct::<Table>::to_raw_addr(&t2, &table));
    all.append(&mut NodeStruct::<Table>::to_raw_addr(&t3, &table));
    all.append(&mut NodeStruct::<Table>::to_raw_addr(&t4, &table));
    all.append(&mut NodeStruct::<Table>::to_raw_addr(&t5, &table));
    all.append(&mut NodeStruct::<Table>::to_raw_addr(&t6, &table));
    all.append(&mut NodeStruct::<Table>::to_raw_addr(&t7, &table));
    all.append(&mut NodeStruct::<Table>::to_raw_addr(&t8, &table));
    all.append(&mut NodeStruct::<Table>::to_raw_addr(&t9, &table));
    all.append(&mut NodeStruct::<Table>::to_raw_addr(&t10, &table));
    all.append(&mut NodeStruct::<Table>::to_raw_addr(&t11, &table));
    all.append(&mut NodeStruct::<Table>::to_raw_addr(&t12, &table));
    // 2 + 3 + ... + 12 leaves, in the order of allocation
    assert_eq!(all, VecDeque::from(raws(0, 77)));

    let p2 = <(S, S) as NodeStruct<Table>>::try_from_raw_addr(&table, &mut all);
    assert_eq!(all.len(), 75);
    assert_eq!(ToRawAddr::to_raw_addr(&p2.1), SimpleRaw(1));
    let p3 = <(S, S, S) as NodeStruct<Table>>::try_from_raw_addr(&table, &mut all);
    assert_eq!(ToRawAddr::to_raw_addr(&p3.2), SimpleRaw(4));
    let _ = <(S, S, S, S) as NodeStruct<Table>>::try_from_raw_addr(&table, &mut all);
    let _ = <(S, S, S, S, S) as NodeStruct<Table>>::try_from_raw_addr(&table, &mut all);
    let _ = <(S, S, S, S, S, S) as NodeStruct<Table>>::try_from_raw_addr(&table, &mut all);
    let _ = <(S, S, S, S, S, S, S) as NodeStruct<Table>>::try_from_raw_addr(&table, &mut all);
    let _ = <(S, S, S, S, S, S, S, S) as NodeStruct<Table>>::try_from_raw_addr(&table, &mut all);
    let _ =
        <(S, S, S, S, S, S, S, S, S) as NodeStruct<Table>>::try_from_raw_addr(&table, &mut all);
    let _ =
        <(S, S, S, S, S, S, S, S, S, S) as NodeStruct<Table>>::try_from_raw_addr(&table, &mut all);
    let p11 = <(S, S, S, S, S, S, S, S, S, S, S) as NodeStruct<Table>>::try_from_raw_addr(
        &table, &mut all,
    );
    assert_eq!(ToRawAddr::to_raw_addr(&p11.0), SimpleRaw(54));
    let p12 = <(S, S, S, S, S, S, S, S, S, S, S, S) as NodeStruct<Table>>::try_from_raw_addr(
        &table, &mut all,
    );
    assert_eq!(ToRawAddr::to_raw_addr(&p12.0), SimpleRaw(65));
    assert_eq!(ToRawAddr::to_raw_addr(&p12.11), SimpleRaw(76));
    assert!(all.is_empty());
}

#[test]
fn array_reads_what_was_written() {
    let mut table = Table::new();
    let pairs = <[(S, Var<Table, Fr>); 3] as DataStruct<Table>>::alloc_to(&mut table);
    let values = [
        (Fr::from(1), Fr::from(2)),
        (Fr::from(3), Fr::from(4)),
        (Fr::from(5), Fr::from(6)),
    ];
    pairs.write_to(&mut table, values);
    assert_eq!(pairs.read_from(&table), values);
    assert_eq!(pairs[1].1.read_from(&table), Fr::from(4));
    assert_eq!(table.value(SimpleRaw(4)), Some(Fr::from(5)));
    assert_eq!(array_to_vec(&values), values.to_vec());

    let empty = <[S; 0] as DataStruct<Table>>::alloc_to(&mut table);
    assert!(NodeStruct::<Table>::to_raw_addr(&empty, &table).is_empty());
    assert!(!table.contains(SimpleRaw(6)));
}

#[test]
fn unit_has_no_leaves() {
    let mut table = Table::new();
    <() as DataStruct<Table>>::alloc_to(&mut table);
    assert!(!table.contains(SimpleRaw(0)));
    assert!(NodeStruct::<Table>::to_raw_addr(&(), &table).is_empty());
    let mut queue = VecDeque::from(raws(0, 2));
    <() as NodeStruct<Table>>::try_from_raw_addr(&table, &mut queue);
    assert_eq!(queue.len(), 2);
}

#[test]
fn lists_of_aggregates() {
    let mut table = Table::new();
    let pairs: Vec<(S, S)> = alloc_many(&mut table, 3);
    assert_eq!(leaves_of_all(&table, &pairs), raws(0, 6));
    assert_eq!(leaves_of(&table, &pairs[2]), raws(4, 6));
    let values = vec![
        (Fr::from(10), Fr::from(11)),
        (Fr::from(12), Fr::from(13)),
        (Fr::from(14), Fr::from(15)),
    ];
    write_many(&mut table, &pairs, &values);
    assert_eq!(read_many(&table, &pairs), values);
    assert_eq!(
        read_all(&table, &raws(0, 6)),
        (10..16).map(Fr::from).collect::<Vec<Fr>>()
    );
    let mut queue = VecDeque::from(raws(0, 6));
    let parsed: Vec<(S, S)> = parse_many(&table, &mut queue, 2);
    assert_eq!(queue, VecDeque::from(raws(4, 6)));
    assert_eq!(read_many(&table, &parsed), values[..2].to_vec());

    let more: Vec<S> = alloc_many(&mut table, 2);
    write_all(&mut table, &raws(6, 8), &vec![Fr::from(7), Fr::from(8)]);
    assert_eq!(more[1].read_from(&table), Fr::from(8));
    let mut list = vec![1, 2];
    append_deque(&mut list, &VecDeque::from(vec![3, 4]));
    assert_eq!(list, vec![1, 2, 3, 4]);
}

#[test]
fn scalars_check_nothing_but_hold_the_address() {
    let mut table = Table::new();
    let var: Var<Table, Fr> = table.alloc_var();
    let sig: S = table.alloc_sig();
    let rhs = <ConstrRhs<Table, Fr> as DataStruct<Table>>::alloc_to(&mut table);
    let mut queue = VecDeque::from(raws(0, 3));
    let v = <Var<Table, Fr> as NodeStruct<Table>>::try_from_raw_addr(&table, &mut queue);
    let s = <S as NodeStruct<Table>>::try_from_raw_addr(&table, &mut queue);
    let r = <ConstrRhs<Table, Fr> as NodeStruct<Table>>::try_from_raw_addr(&table, &mut queue);
    assert_eq!(ToRawAddr::to_raw_addr(&v), ToRawAddr::to_raw_addr(&var));
    assert_eq!(ToRawAddr::to_raw_addr(&s), ToRawAddr::to_raw_addr(&sig));
    assert_eq!(ToRawAddr::to_raw_addr(&r), ToRawAddr::to_raw_addr(&rhs));
    let permits = sig.serialize_cs();
    assert_eq!(permits.len(), 1);
    assert_eq!(ToRawAddr::to_raw_addr(&permits[0]), SimpleRaw(1));
}

#[test]
fn input_and_output_objects() {
    let mut table = Table::new();
    let pair = <(S, S) as DataStruct<Table>>::alloc_to(&mut table);
    let input = pair.inputize(&mut table);
    let output = pair.outputize(&mut table);
    assert!(!table.contains(SimpleRaw(2)));
    input.call(&mut table, (Fr::from(3), Fr::from(4)));
    assert_eq!(output.call(&table), (Fr::from(3), Fr::from(4)));
    assert_eq!(output.call(&table), (Fr::from(3), Fr::from(4)));
}
