use sensemaker::compute::{compute_objective_assessment, Aggregate};
use sensemaker::entry::{
    Dimension, Entry, EntryHash, FloatBits, Method, Program, RangeValue,
};
use sensemaker::error::WeError;
use sensemaker::ledger::Ledger;
use sensemaker::method::{
    create_assessment, create_method, delete_method, get_method, get_methods,
    get_methods_for_dimension, run_method, CreateAssessmentInput, DimensionRole,
    GetMethodsForDimensionInput, MethodOutcome, QueryParams, RunMethodInput,
};

fn integer(x: u32) -> RangeValue {
    RangeValue::Integer(x)
}

fn float(x: f64) -> RangeValue {
    RangeValue::Float(FloatBits(x.to_bits()))
}

#[test]
fn sum_of_integers_is_an_integer() {
    assert_eq!(
        compute_objective_assessment(Program::Sum, &vec![integer(2), integer(3)]),
        Ok(Aggregate::Integer(5))
    );
}

#[test]
fn sum_with_a_float_is_a_float() {
    assert_eq!(
        compute_objective_assessment(Program::Sum, &vec![integer(2), float(1.5)]),
        Ok(Aggregate::Float { divisor: 1 })
    );
}

#[test]
fn sum_of_nothing_is_an_error() {
    assert_eq!(compute_objective_assessment(Program::Sum, &vec![]), Err(WeError::ComputationError));
}

#[test]
fn sum_that_overflows_is_a_computation_error() {
    assert_eq!(
        compute_objective_assessment(Program::Sum, &vec![integer(u32::MAX), integer(1)]),
        Err(WeError::ComputationError)
    );
    assert_eq!(
        compute_objective_assessment(Program::Sum, &vec![integer(u32::MAX), integer(0)]),
        Ok(Aggregate::Integer(u32::MAX))
    );
}

#[test]
fn average_of_integers_truncates() {
    assert_eq!(
        compute_objective_assessment(Program::Average, &vec![integer(2), integer(3)]),
        Ok(Aggregate::Integer(2))
    );
    assert_eq!(
        compute_objective_assessment(Program::Average, &vec![integer(u32::MAX), integer(u32::MAX)]),
        Ok(Aggregate::Integer(u32::MAX))
    );
}

#[test]
fn average_with_a_float_divides_by_the_count() {
    assert_eq!(
        compute_objective_assessment(Program::Average, &vec![integer(3), float(3.0)]),
        Ok(Aggregate::Float { divisor: 2 })
    );
}

#[test]
fn average_of_nothing_is_a_computation_error() {
    assert_eq!(
        compute_objective_assessment(Program::Average, &vec![]),
        Err(WeError::ComputationError)
    );
}

fn dimension(ledger: &mut Ledger, name: &str) -> EntryHash {
    ledger
        .create_entry(Entry::Dimension(Dimension {
            name: name.to_string(),
            range_eh: EntryHash(0),
            computed: false,
        }))
        .unwrap()
        .0
}

fn assess(ledger: &mut Ledger, resource: EntryHash, dim: EntryHash, value: RangeValue) -> EntryHash {
    create_assessment(
        ledger,
        CreateAssessmentInput {
            value,
            dimension_eh: dim,
            resource_eh: resource,
            resource_def_eh: EntryHash(0),
        },
    )
    .unwrap()
}

fn method(ledger: &mut Ledger, program: Program, inputs: Vec<EntryHash>, output: EntryHash) -> EntryHash {
    create_method(
        ledger,
        Method {
            name: "m".to_string(),
            program,
            input_dimension_ehs: inputs,
            output_dimension_eh: output,
        },
    )
    .unwrap()
}

fn query(d: EntryHash, role: &str) -> GetMethodsForDimensionInput {
    GetMethodsForDimensionInput {
        query: Some(QueryParams { dimension_type: role.to_string(), dimension_eh: d }),
    }
}

#[test]
fn methods_for_dimension_follow_the_declared_role() {
    let mut ledger = Ledger::new();
    let a = dimension(&mut ledger, "a");
    let b = dimension(&mut ledger, "b");
    let out = dimension(&mut ledger, "out");
    let m1 = method(&mut ledger, Program::Sum, vec![a], out);
    let m2 = method(&mut ledger, Program::Average, vec![a, b], out);
    let m3 = method(&mut ledger, Program::Sum, vec![b], a);
    assert_eq!(get_methods_for_dimension(&ledger, query(a, "input")), Ok(vec![m1, m2]));
    assert_eq!(get_methods_for_dimension(&ledger, query(a, "output")), Ok(vec![m3]));
    assert_eq!(get_methods_for_dimension(&ledger, query(b, "input")), Ok(vec![m2, m3]));
    assert_eq!(get_methods_for_dimension(&ledger, query(out, "output")), Ok(vec![m1, m2]));
    assert_eq!(get_methods_for_dimension(&ledger, query(out, "input")), Ok(vec![]));
    assert_eq!(get_methods_for_dimension(&ledger, GetMethodsForDimensionInput { query: None }), Ok(vec![m1, m2, m3]));
    assert_eq!(get_methods(&ledger), vec![m1, m2, m3]);
}

#[test]
fn methods_for_dimension_reject_bad_queries() {
    let mut ledger = Ledger::new();
    let a = dimension(&mut ledger, "a");
    assert_eq!(get_methods_for_dimension(&ledger, query(a, "sideways")), Err(WeError::InvalidReference));
    assert_eq!(get_methods_for_dimension(&ledger, query(EntryHash(40), "input")), Err(WeError::NotFound));
    let m = method(&mut ledger, Program::Sum, vec![a], a);
    assert_eq!(get_methods_for_dimension(&ledger, query(m, "input")), Err(WeError::TypeMismatch));
}

#[test]
fn deleted_method_is_no_longer_listed() {
    let mut ledger = Ledger::new();
    let a = dimension(&mut ledger, "a");
    let m = method(&mut ledger, Program::Sum, vec![a], a);
    assert_eq!(get_method(&ledger, m), Some(m));
    let action = (0..20)
        .map(sensemaker::entry::ActionHash)
        .find(|x| ledger.written_by(*x) == Some(m))
        .unwrap();
    delete_method(&mut ledger, action).unwrap();
    assert_eq!(get_method(&ledger, m), None);
    assert_eq!(get_methods_for_dimension(&ledger, query(a, "input")), Ok(vec![]));
}

#[test]
fn role_parsing() {
    assert_eq!(DimensionRole::parse(&"input".to_string()), Some(DimensionRole::Input));
    assert_eq!(DimensionRole::parse(&"output".to_string()), Some(DimensionRole::Output));
    assert_eq!(DimensionRole::parse(&"Input".to_string()), None);
}

#[test]
fn run_method_sums_every_assessor_across_dimensions() {
    let mut ledger = Ledger::new();
    let a = dimension(&mut ledger, "a");
    let b = dimension(&mut ledger, "b");
    let out = dimension(&mut ledger, "out");
    let resource = EntryHash(100);
    let other = EntryHash(101);
    assess(&mut ledger, resource, a, integer(2));
    assess(&mut ledger, resource, a, integer(2));
    assess(&mut ledger, resource, b, integer(5));
    assess(&mut ledger, other, a, integer(50));
    let m = method(&mut ledger, Program::Sum, vec![a, b], out);
    let r = run_method(
        &mut ledger,
        RunMethodInput { resource_eh: resource, resource_def_eh: EntryHash(7), method_eh: m },
    )
    .unwrap();
    match r {
        MethodOutcome::Recorded(h) => match ledger.entry(h) {
            Entry::Assessment(x) => {
                assert_eq!(x.value, integer(9));
                assert_eq!(x.dimension_eh, out);
                assert_eq!(x.resource_eh, resource);
                assert_eq!(x.resource_def_eh, EntryHash(7));
            },
            _ => panic!("not an assessment"),
        },
        MethodOutcome::Pending(_) => panic!("integer run left pending"),
    }
}

#[test]
fn run_method_average_and_float_results() {
    let mut ledger = Ledger::new();
    let a = dimension(&mut ledger, "a");
    let out = dimension(&mut ledger, "out");
    let resource = EntryHash(100);
    assess(&mut ledger, resource, a, integer(3));
    assess(&mut ledger, resource, a, float(3.0));
    let m = method(&mut ledger, Program::Average, vec![a], out);
    let r = run_method(
        &mut ledger,
        RunMethodInput { resource_eh: resource, resource_def_eh: EntryHash(7), method_eh: m },
    )
    .unwrap();
    match r {
        MethodOutcome::Pending(p) => {
            assert_eq!(p.values, vec![integer(3), float(3.0)]);
            assert_eq!(p.divisor, 2);
            assert_eq!(p.dimension_eh, out);
        },
        MethodOutcome::Recorded(_) => panic!("float run recorded"),
    }
}

#[test]
fn run_method_errors() {
    let mut ledger = Ledger::new();
    let a = dimension(&mut ledger, "a");
    let resource = EntryHash(100);
    let input = |m| RunMethodInput { resource_eh: resource, resource_def_eh: EntryHash(7), method_eh: m };
    assert_eq!(run_method(&mut ledger, input(EntryHash(55))).err(), Some(WeError::NotFound));
    assert_eq!(run_method(&mut ledger, input(a)).err(), Some(WeError::TypeMismatch));
    let no_inputs = method(&mut ledger, Program::Sum, vec![], a);
    assert_eq!(run_method(&mut ledger, input(no_inputs)).err(), Some(WeError::ComputationError));
    let empty = method(&mut ledger, Program::Average, vec![a], a);
    assert_eq!(run_method(&mut ledger, input(empty)).err(), Some(WeError::ComputationError));
}
