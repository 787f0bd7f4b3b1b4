use circuit_core::advices::{DataStruct, WrongLength};
use circuit_core::circuit::{
    Circuit, ConstantFlag, Constants, ConstrRhs, ConstrRhsFlag, ConstrRhss, Conversion, InnerType,
    PrimarySignalFlag, RangeBound, Sig, SignalFlag, Signals, ToRawAddr, Var, VariableFlag,
    Variables, _Into,
};
use circuit_core::circuit_impl_simple::{
    Bn256, Execution, InternalAdvice, NodeTable, Operation, SimpleCircuit, SimpleRaw, TypeConfig,
};
use circuit_core::node_struct::NodeStruct;
use halo2curves::bn256::{Fr, G1Affine, G1};
use halo2curves::group::{Curve, Group};
use num_bigint::BigUint;
use std::collections::VecDeque;

type Witness = fn(Vec<Fr>) -> Vec<Fr>;
type Table = NodeTable<Bn256>;

fn key(start: u64, len: u64) -> Vec<G1Affine> {
    (start..start + len).map(|k| (G1::generator() * Fr::from(k)).to_affine()).collect()
}

fn circuit_with_keys(keys: Vec<Vec<G1Affine>>) -> SimpleCircuit<Bn256, Witness> {
    SimpleCircuit::init(VecDeque::from(keys))
}

fn product(values: Vec<Fr>) -> Vec<Fr> {
    vec![values.iter().fold(Fr::from(1), |acc, v| acc * v)]
}

#[test]
fn round_advance_commits_with_msm() {
    let first_key = key(1, 4);
    let mut circuit = circuit_with_keys(vec![first_key.clone(), key(10, 2)]);
    let signals: Vec<Sig<Table, Fr>> = (0..4).map(|_| circuit.private_input()).collect();
    let (public, commitment) = circuit.next_round();
    for (i, sig) in signals.iter().enumerate() {
        circuit.write(*sig, Fr::from(i as u64 + 1));
    }
    let committed = commitment.call(circuit.node_table());

    let values: Vec<Fr> = (1..=4).map(Fr::from).collect();
    let expected = halo2curves::msm::best_multiexp(&values, &first_key).to_affine();
    assert_eq!(committed, expected);
    // 1*1G + 2*2G + 3*3G + 4*4G = 30G
    assert_eq!(committed, (G1::generator() * Fr::from(30)).to_affine());
    assert_eq!(committed, Bn256::msm(&values, &first_key));
    assert_eq!(public.call(circuit.node_table()), Vec::<Fr>::new());
}

#[test]
fn public_output_moves_a_signal_between_the_groups() {
    let mut circuit = circuit_with_keys(vec![key(1, 1), key(2, 1)]);
    let a = circuit.private_input();
    let b = circuit.private_input();
    let c = circuit.public_input();
    circuit.public_output(a);
    let (public, commitment) = circuit.next_round();
    circuit.write(a, Fr::from(5));
    circuit.write(b, Fr::from(6));
    circuit.write(c, Fr::from(7));
    // `c` joined the public group before `a` did.
    assert_eq!(public.call(circuit.node_table()), vec![Fr::from(7), Fr::from(5)]);
    assert_eq!(
        commitment.call(circuit.node_table()),
        (G1::generator() * Fr::from(6)).to_affine()
    );
}

#[test]
fn constraint_degree_is_the_largest_declared() {
    let mut circuit = circuit_with_keys(vec![key(1, 1)]);
    let x = circuit.private_input();
    let raw = ToRawAddr::to_raw_addr(&x);
    assert_eq!(circuit.node_table().meta(raw).degree, 0);
    let _: ConstrRhs<Table, Fr> = circuit.enforce(product as Witness, 5, x);
    assert_eq!(circuit.node_table().meta(raw).degree, 5);
    let _: ConstrRhs<Table, Fr> = circuit.enforce(product as Witness, 2, x);
    assert_eq!(circuit.node_table().meta(raw).degree, 5);
    let _: ConstrRhs<Table, Fr> = circuit.enforce(product as Witness, 7, x);
    assert_eq!(circuit.node_table().meta(raw).degree, 7);
}

#[test]
fn enforce_variadic_raises_every_input_and_allocates_the_outputs() {
    let mut circuit = circuit_with_keys(vec![key(1, 1)]);
    let x = circuit.private_input();
    let y = circuit.private_input();
    let z = circuit.private_input();
    let _: ConstrRhs<Table, Fr> = circuit.enforce(product as Witness, 4, y);
    let out: Vec<ConstrRhs<Table, Fr>> =
        circuit.enforce_variadic(product as Witness, 3, 2, vec![(x, y), (y, x)]);
    assert_eq!(out.len(), 2);
    assert_ne!(ToRawAddr::to_raw_addr(&out[0]), ToRawAddr::to_raw_addr(&out[1]));
    let table = circuit.node_table();
    assert_eq!(table.meta(ToRawAddr::to_raw_addr(&x)).degree, 3);
    assert_eq!(table.meta(ToRawAddr::to_raw_addr(&y)).degree, 4);
    assert_eq!(table.meta(ToRawAddr::to_raw_addr(&z)).degree, 0);
    for rhs in out.iter() {
        let meta = table.meta(ToRawAddr::to_raw_addr(rhs));
        assert!(meta.is_constr_rhs && !meta.is_var && !meta.is_sig);
    }
}

#[test]
fn advise_records_a_step_that_runs() {
    let mut circuit = circuit_with_keys(vec![key(1, 1)]);
    let a = circuit.private_input();
    let b = circuit.private_input();
    let c: Sig<Table, Fr> = circuit.advise(product as Witness, (a, b));
    // Two inputs, then the step.
    assert_eq!(circuit.num_operations(), 3);
    assert!(!circuit.advice_is_ready(0));
    assert!(!circuit.advice_is_ready(2));
    circuit.write((a, b), (Fr::from(42), Fr::from(1337)));
    assert!(!circuit.advice_is_ready(1));
    assert!(circuit.advice_is_ready(2));
    assert_eq!(circuit.run_advice(2), Ok(()));
    assert_eq!(c.read_from(circuit.node_table()), Fr::from(42 * 1337));
    assert_eq!((a, b).read_from(circuit.node_table()), (Fr::from(42), Fr::from(1337)));
    // The output was written: the step cannot run again.
    assert!(!circuit.advice_is_ready(2));
}

#[test]
fn log_runs_entry_by_entry() {
    let mut circuit = circuit_with_keys(vec![key(2, 1), key(7, 1)]);
    let a = circuit.private_input();
    let b = circuit.private_input();
    let c: Sig<Table, Fr> = circuit.advise(product as Witness, (a, b));
    circuit.public_output(b);
    circuit.next_round();
    let d = circuit.public_input();
    // Two inputs, the step, the readout, the commitment, one input.
    assert_eq!(circuit.num_operations(), 6);

    let mut inputs = VecDeque::from(vec![Fr::from(42), Fr::from(1337)]);
    let mut execution = Execution::new();
    // The step waits for its inputs, and so do the entries of the round.
    assert_eq!(circuit.run_entry(2, &mut inputs, &mut execution), Ok(false));
    assert_eq!(circuit.run_entry(3, &mut inputs, &mut execution), Ok(false));
    assert_eq!(circuit.run_entry(4, &mut inputs, &mut execution), Ok(false));
    assert_eq!(inputs.len(), 2);

    // The log runs as far as the values from outside reach.
    assert_eq!(circuit.run_log(&mut inputs, &mut execution), Ok(5));
    assert!(inputs.is_empty());
    assert_eq!((a, b).read_from(circuit.node_table()), (Fr::from(42), Fr::from(1337)));
    assert_eq!(c.read_from(circuit.node_table()), Fr::from(42 * 1337));
    assert_eq!(execution.public_values, vec![vec![Fr::from(1337)]]);
    // `a` alone is left in the private group: 42 * 2G.
    assert_eq!(execution.commitments, vec![(G1::generator() * Fr::from(84)).to_affine()]);
    assert_eq!(circuit.node_table().value(ToRawAddr::to_raw_addr(&d)), None);

    // What has run does not run again: the first input was written.
    inputs.push_back(Fr::from(5));
    assert_eq!(circuit.run_log(&mut inputs, &mut execution), Ok(0));
    assert_eq!(circuit.run_entry(5, &mut inputs, &mut execution), Ok(true));
    assert_eq!(d.read_from(circuit.node_table()), Fr::from(5));
    // The readout of a round can be had again, the step cannot.
    assert_eq!(circuit.run_entry(3, &mut inputs, &mut execution), Ok(true));
    assert_eq!(execution.public_values.len(), 2);
    assert_eq!(circuit.run_entry(2, &mut inputs, &mut execution), Ok(false));
    assert_eq!(execution.commitments.len(), 1);
}

fn pair(values: Vec<Fr>) -> Vec<Fr> {
    vec![values[0], values[0]]
}

#[test]
fn wrong_number_of_values_stops_the_run() {
    let mut circuit = circuit_with_keys(vec![key(1, 1)]);
    let a = circuit.private_input();
    // One output, and a function that returns two values.
    let out: Sig<Table, Fr> = circuit.advise(pair as Witness, a);
    // Two outputs, and a function that returns one value.
    let rhs: (ConstrRhs<Table, Fr>, ConstrRhs<Table, Fr>) =
        circuit.enforce(product as Witness, 3, a);
    let mut inputs = VecDeque::from(vec![Fr::from(9)]);
    let mut execution = Execution::new();
    let wrong = WrongLength { expected: 1, returned: 2 };
    assert_eq!(circuit.run_log(&mut inputs, &mut execution), Err((1, wrong)));
    // The input was taken, and the step has written nothing.
    assert_eq!(a.read_from(circuit.node_table()), Fr::from(9));
    assert_eq!(circuit.node_table().value(ToRawAddr::to_raw_addr(&out)), None);
    assert_eq!(circuit.run_entry(1, &mut inputs, &mut execution), Err(wrong));
    assert_eq!(circuit.run_advice(1), Err(wrong));

    let few = WrongLength { expected: 2, returned: 1 };
    assert_eq!(circuit.run_constraints(), Err((0, few)));
    assert_eq!(circuit.run_constraint(0), Err(few));
    assert_eq!(circuit.node_table().value(ToRawAddr::to_raw_addr(&rhs.0)), None);
    assert_eq!(circuit.node_table().value(ToRawAddr::to_raw_addr(&rhs.1)), None);
}

#[test]
fn step_runs_against_any_table_with_its_nodes() {
    let mut table = Table::new();
    let a: Sig<Table, Fr> = table.alloc_sig();
    let b: Sig<Table, Fr> = table.alloc_sig();
    let c: Sig<Table, Fr> = table.alloc_sig();
    (a, b).write_to(&mut table, (Fr::from(3), Fr::from(5)));
    let step = InternalAdvice {
        inputs: vec![ToRawAddr::to_raw_addr(&b), ToRawAddr::to_raw_addr(&a), SimpleRaw(1)],
        outputs: vec![ToRawAddr::to_raw_addr(&c)],
        func: product as Witness,
    };
    assert!(table.all_assigned(&step.inputs));
    assert!(table.all_writable(&step.outputs));
    assert_eq!(step.call(&mut table), Ok(()));
    assert_eq!(c.read_from(&table), Fr::from(5 * 3 * 5));
    assert!(!table.all_writable(&step.outputs));
    assert!(table.all_assigned(&step.outputs));
}

#[test]
fn nodes_are_written_once() {
    let mut table = Table::new();
    let a: Sig<Table, Fr> = table.alloc_sig();
    let b: Sig<Table, Fr> = table.alloc_sig();
    let (ra, rb) = (ToRawAddr::to_raw_addr(&a), ToRawAddr::to_raw_addr(&b));
    assert!(table.all_writable(&vec![ra, rb]));
    assert!(table.all_writable(&vec![]));
    // A list that names a node twice would write it twice.
    assert!(!table.all_writable(&vec![ra, rb, ra]));
    // There is no node at the third place.
    assert!(!table.all_writable(&vec![SimpleRaw(2)]));
    assert!(!table.all_assigned(&vec![SimpleRaw(2)]));
    assert!(!table.all_assigned(&vec![ra]));
    a.write_to(&mut table, Fr::from(1));
    assert!(!table.all_writable(&vec![ra]));
    assert!(!table.all_writable(&vec![rb, ra]));
    assert!(table.all_writable(&vec![rb]));
    assert!(table.all_assigned(&vec![ra, ra]));
    assert!(!table.all_assigned(&vec![ra, rb]));
    assert_eq!(table.value(ra), Some(Fr::from(1)));
    assert_eq!(table.value(rb), None);
}

#[test]
fn constraint_is_recorded_with_its_degree_and_evaluates() {
    let mut circuit = circuit_with_keys(vec![key(1, 1)]);
    let x = circuit.private_input();
    let y = circuit.private_input();
    let rhs: ConstrRhs<Table, Fr> = circuit.enforce(product as Witness, 2, (x, y));
    assert_eq!(circuit.num_constraints(), 1);
    assert_eq!(circuit.constraint_degree(0), 2);
    // Constraints are not entries of the log.
    assert_eq!(circuit.num_operations(), 2);
    assert!(!circuit.constraint_is_ready(0));
    circuit.write(x, Fr::from(6));
    circuit.write(y, Fr::from(7));
    assert!(circuit.constraint_is_ready(0));
    assert_eq!(circuit.run_constraint(0), Ok(()));
    assert_eq!(rhs.read_from(circuit.node_table()), Fr::from(42));
    assert!(!circuit.constraint_is_ready(0));
}

#[test]
fn constraints_are_evaluated_in_the_order_of_their_declaration() {
    let mut circuit = circuit_with_keys(vec![key(1, 1)]);
    let x = circuit.private_input();
    let y = circuit.private_input();
    let first: ConstrRhs<Table, Fr> = circuit.enforce(product as Witness, 2, (x, y));
    let second: ConstrRhs<Table, Fr> = circuit.enforce(product as Witness, 1, x);
    // Nothing is written: the first constraint cannot be evaluated.
    assert_eq!(circuit.run_constraints(), Ok(0));
    circuit.write(x, Fr::from(6));
    // The second constraint could be evaluated, but the first comes first.
    assert_eq!(circuit.run_constraints(), Ok(0));
    assert!(circuit.constraint_is_ready(1));
    circuit.write(y, Fr::from(7));
    assert_eq!(circuit.run_constraints(), Ok(2));
    assert_eq!(first.read_from(circuit.node_table()), Fr::from(42));
    assert_eq!(second.read_from(circuit.node_table()), Fr::from(6));
    // What was evaluated is not evaluated again.
    assert_eq!(circuit.run_constraints(), Ok(0));
}

#[test]
fn round_advance_logs_the_readout_and_the_commitment() {
    let mut circuit = circuit_with_keys(vec![key(1, 1), key(5, 1), key(9, 0)]);
    let a = circuit.private_input();
    let (public, commitment) = circuit.next_round();
    // One input, the readout, the commitment.
    assert_eq!(circuit.num_operations(), 3);
    assert!(matches!(circuit.operation(0), Operation::Input(SimpleRaw(0))));
    assert!(matches!(circuit.operation(1), Operation::PublicValues(_)));
    assert!(matches!(circuit.operation(2), Operation::Commitment(_)));
    let b = circuit.private_input();
    assert!(matches!(circuit.operation(3), Operation::Input(SimpleRaw(1))));
    // The commitment waits for the value of its signal; nothing is public.
    assert!(!commitment.can_call(circuit.node_table()));
    assert!(public.can_call(circuit.node_table()));
    circuit.write(a, Fr::from(2));
    assert!(commitment.can_call(circuit.node_table()));
    circuit.write(b, Fr::from(3));
    assert_eq!(commitment.call(circuit.node_table()), (G1::generator() * Fr::from(2)).to_affine());
    assert_eq!(
        commitment.duplicate().call(circuit.node_table()),
        commitment.call(circuit.node_table())
    );
    assert_eq!(public.duplicate().call(circuit.node_table()), Vec::<Fr>::new());
    // The second round commits under the second key: 3 * 5G.
    let (_, second) = circuit.next_round();
    assert_eq!(second.call(circuit.node_table()), (G1::generator() * Fr::from(15)).to_affine());
    assert_eq!(circuit.num_operations(), 6);
}

#[test]
fn advise_variadic_allocates_distinct_outputs() {
    let mut circuit = circuit_with_keys(vec![key(1, 1)]);
    let a = circuit.private_input();
    let outs: Vec<(Sig<Table, Fr>, Sig<Table, Fr>)> =
        circuit.advise_variadic(product as Witness, 3, vec![a, a]);
    assert_eq!(outs.len(), 3);
    let mut raws = Vec::new();
    for out in outs.iter() {
        raws.extend(NodeStruct::<Table>::to_raw_addr(out, circuit.node_table()));
    }
    assert_eq!(
        raws,
        vec![SimpleRaw(1), SimpleRaw(2), SimpleRaw(3), SimpleRaw(4), SimpleRaw(5), SimpleRaw(6)]
    );
}

#[test]
fn typed_allocation_sets_the_flags() {
    let mut table = Table::new();
    let raw = table._alloc_raw::<u64>();
    assert_eq!(raw, SimpleRaw(0));
    let meta = table.meta(raw);
    assert_eq!(meta.inner_type, InnerType::U64);
    assert!(!meta.is_var && !meta.is_sig && !meta.is_primary && !meta.is_const);
    assert!(!meta.is_constr_rhs);
    assert_eq!(meta.degree, 0);
    assert_eq!(table.inner_type(raw), InnerType::U64);

    let var: Var<Table, bool> = table.alloc_var();
    let sig: Sig<Table, Fr> = table.alloc_sig();
    let dep: Sig<Table, u8> = table._alloc_sig_dependent();
    let konst = table.alloc_const::<u32>();
    let rhs: ConstrRhs<Table, Fr> = table.alloc_constr_rhs();

    let v = ToRawAddr::to_raw_addr(&var);
    assert_eq!(table.inner_type(v), InnerType::Bool);
    assert!(table.is_var(v) && !table.is_sig(v) && !table.is_const(v));

    let s = ToRawAddr::to_raw_addr(&sig);
    assert_eq!(table.inner_type(s), InnerType::Field);
    assert!(table.is_var(s) && table.is_sig(s) && table.is_primary(s));

    let d = ToRawAddr::to_raw_addr(&dep);
    assert_eq!(table.inner_type(d), InnerType::U8);
    assert!(table.is_var(d) && table.is_sig(d) && !table.is_primary(d));

    let k = ToRawAddr::to_raw_addr(&konst);
    assert_eq!(table.inner_type(k), InnerType::U32);
    assert!(table.is_const(k) && table.is_var(k) && !table.is_sig(k));
    assert!(!table.is_constr_rhs(k));

    let r = ToRawAddr::to_raw_addr(&rhs);
    assert!(table.is_constr_rhs(r) && !table.is_var(r) && !table.is_const(r));
    assert_eq!((v, s, d, k, r), (SimpleRaw(1), SimpleRaw(2), SimpleRaw(3), SimpleRaw(4), SimpleRaw(5)));
    assert!(table.contains(r) && !table.contains(SimpleRaw(6)));
}

#[test]
fn conversion_of_handles_keeps_the_address() {
    let mut table = Table::new();
    let sig: Sig<Table, u8> = table.alloc_sig();
    let as_field: Sig<Table, Fr> = sig._into();
    let as_var: Var<Table, Fr> = sig._into();
    assert_eq!(ToRawAddr::to_raw_addr(&as_field), ToRawAddr::to_raw_addr(&sig));
    assert_eq!(ToRawAddr::to_raw_addr(&as_var), ToRawAddr::to_raw_addr(&sig));
    // No node was allocated for the conversions.
    assert!(!table.contains(SimpleRaw(1)));
}

#[test]
fn conversion_of_values_goes_through_u64() {
    assert_eq!(<Table as Conversion<u64, Fr>>::convert(1337), Fr::from(1337));
    assert_eq!(<Table as Conversion<u32, Fr>>::convert(70000), Fr::from(70000));
    assert_eq!(<Table as Conversion<u16, Fr>>::convert(65535), Fr::from(65535));
    assert_eq!(<Table as Conversion<u8, Fr>>::convert(255), Fr::from(255));
    assert_eq!(<Table as Conversion<bool, Fr>>::convert(true), Fr::from(1));
    assert_eq!(<Table as Conversion<bool, Fr>>::convert(false), Fr::from(0));
}

#[test]
fn range_bound_is_set_and_cleared() {
    let mut table = Table::new();
    let sig: Sig<Table, Fr> = table.alloc_sig();
    let raw = ToRawAddr::to_raw_addr(&sig);
    assert_eq!(table.bound(raw), None);
    table._set_bound(raw, Some(&BigUint::from(256u32)));
    assert_eq!(table.bound(raw), Some(BigUint::from(256u32)));
    table._set_bound(raw, None);
    assert_eq!(table.bound(raw), None);
}

#[test]
fn tuple_round_trip() {
    let mut table = Table::new();
    type Triple = (Sig<Table, Fr>, (Var<Table, Fr>, ConstrRhs<Table, Fr>), Sig<Table, Fr>);
    let triple = <Triple as DataStruct<Table>>::alloc_to(&mut table);
    let mut raws = NodeStruct::<Table>::to_raw_addr(&triple, &table);
    assert_eq!(
        raws,
        VecDeque::from(vec![SimpleRaw(0), SimpleRaw(1), SimpleRaw(2), SimpleRaw(3)])
    );
    raws.push_back(SimpleRaw(77));
    let parsed = <Triple as NodeStruct<Table>>::try_from_raw_addr(&table, &mut raws);
    assert_eq!(raws, VecDeque::from(vec![SimpleRaw(77)]));
    assert_eq!(
        NodeStruct::<Table>::to_raw_addr(&parsed, &table),
        NodeStruct::<Table>::to_raw_addr(&triple, &table)
    );
}
