use superposition_core::experiment::{
    check_variant_override_coverage, check_variant_types, check_variants_override_coverage,
    fetch_variant_id, Experiment, ExperimentStatusType, ExperimentationFlags, InvalidComposition,
    Variant, VariantNotFound, VariantType,
};
use superposition_core::json::Value;
use superposition_core::json_map::JsonMap;
use superposition_core::validate::{is_valid_experiment, validate_experiment};

fn s(x: &str) -> String {
    x.to_string()
}

fn vstr(x: &str) -> Value {
    Value::Str(s(x))
}

fn obj(entries: Vec<(&str, Value)>) -> Value {
    Value::Obj(entries.into_iter().map(|(k, v)| (s(k), v)).collect())
}

fn arr(items: Vec<Value>) -> Value {
    Value::Arr(items)
}

fn condition(op: &str, var: &str, val: Value) -> Value {
    obj(vec![(op, arr(vec![obj(vec![("var", vstr(var))]), val]))])
}

fn variant(id: &str, t: VariantType) -> Variant {
    Variant { id: s(id), variant_type: t, overrides: JsonMap::new() }
}

fn experiment(id: i64, context: Value, keys: Vec<&str>, status: ExperimentStatusType) -> Experiment {
    Experiment {
        id,
        context,
        override_keys: keys.into_iter().map(s).collect(),
        status,
        variants: vec![],
    }
}

fn flags(same_over: bool, diff_over: bool, same_non: bool) -> ExperimentationFlags {
    ExperimentationFlags {
        allow_same_keys_overlapping_ctx: same_over,
        allow_diff_keys_overlapping_ctx: diff_over,
        allow_same_keys_non_overlapping_ctx: same_non,
    }
}

#[test]
fn variant_types_two_controls_fail() {
    let vs = vec![
        variant("c1", VariantType::CONTROL),
        variant("c2", VariantType::CONTROL),
        variant("e1", VariantType::EXPERIMENTAL),
    ];
    assert_eq!(
        check_variant_types(&vs),
        Err(InvalidComposition::ControlCountNotOne)
    );
}

#[test]
fn variant_types_control_alone_fails() {
    let vs = vec![variant("c1", VariantType::CONTROL)];
    assert_eq!(
        check_variant_types(&vs),
        Err(InvalidComposition::NoExperimentalVariant)
    );
}

#[test]
fn variant_types_no_control_fails() {
    let vs = vec![variant("e1", VariantType::EXPERIMENTAL)];
    assert_eq!(
        check_variant_types(&vs),
        Err(InvalidComposition::ControlCountNotOne)
    );
}

#[test]
fn variant_types_one_control_one_experimental_ok() {
    let vs = vec![
        variant("c1", VariantType::CONTROL),
        variant("e1", VariantType::EXPERIMENTAL),
    ];
    assert_eq!(check_variant_types(&vs), Ok(()));
}

#[test]
fn coverage_exact_match() {
    let mut m = JsonMap::new();
    m.insert(s("a"), Value::Int(1));
    m.insert(s("b"), Value::Int(2));
    assert!(check_variant_override_coverage(&m, &vec![s("a"), s("b")]));
}

#[test]
fn coverage_missing_key() {
    let mut m = JsonMap::new();
    m.insert(s("a"), Value::Int(1));
    assert!(!check_variant_override_coverage(&m, &vec![s("a"), s("b")]));
}

#[test]
fn coverage_extra_key_rejected_by_cardinality() {
    let mut m = JsonMap::new();
    m.insert(s("a"), Value::Int(1));
    m.insert(s("b"), Value::Int(2));
    m.insert(s("c"), Value::Int(3));
    assert!(!check_variant_override_coverage(&m, &vec![s("a"), s("b")]));
}

#[test]
fn coverage_all_variants() {
    let mut m1 = JsonMap::new();
    m1.insert(s("a"), Value::Int(1));
    let mut m2 = JsonMap::new();
    m2.insert(s("a"), Value::Int(2));
    let keys = vec![s("a")];
    assert!(check_variants_override_coverage(&vec![m1, m2], &keys));
}

#[test]
fn coverage_one_variant_failing_fails_all() {
    let mut m1 = JsonMap::new();
    m1.insert(s("a"), Value::Int(1));
    let m2 = JsonMap::new();
    let keys = vec![s("a")];
    assert!(!check_variants_override_coverage(&vec![m1, m2], &keys));
}

#[test]
fn all_flags_true_skips_snapshot_inspection() {
    // The snapshot's contexts are malformed on purpose: with every class
    // tolerated they must never be read.
    let active = vec![
        experiment(7, Value::Null, vec!["k1"], ExperimentStatusType::CREATED),
        experiment(8, Value::Int(0), vec!["k1"], ExperimentStatusType::INPROGRESS),
    ];
    let ctx = condition("==", "city", vstr("NYC"));
    let r = is_valid_experiment(&ctx, &vec![s("k1")], &flags(true, true, true), &active);
    assert_eq!(r, Ok((true, String::new())));
}

#[test]
fn same_keys_overlapping_ctx_rejected() {
    let active = vec![experiment(
        7,
        condition("==", "city", vstr("NYC")),
        vec!["k1"],
        ExperimentStatusType::CREATED,
    )];
    let ctx = condition("==", "city", vstr("NYC"));
    let r = is_valid_experiment(&ctx, &vec![s("k1")], &flags(false, true, true), &active).unwrap();
    assert!(!r.0);
    assert!(!r.1.is_empty());
}

#[test]
fn diff_keys_overlapping_ctx_rejected() {
    let active = vec![experiment(
        7,
        condition("==", "city", vstr("NYC")),
        vec!["k1", "k2"],
        ExperimentStatusType::CREATED,
    )];
    let ctx = condition("==", "city", vstr("NYC"));
    // The active experiment's key set is not covered by the candidate's.
    let r = is_valid_experiment(&ctx, &vec![s("k1")], &flags(true, false, true), &active).unwrap();
    assert!(!r.0);
    assert!(!r.1.is_empty());
}

#[test]
fn superset_keys_overlapping_ctx_allowed_with_diff_restriction() {
    let active = vec![experiment(
        7,
        condition("==", "city", vstr("NYC")),
        vec!["k1"],
        ExperimentStatusType::CREATED,
    )];
    let ctx = condition("==", "city", vstr("NYC"));
    // The candidate covers the active key set, so only the same-keys class
    // could reject, and it is tolerated here.
    let r = is_valid_experiment(
        &ctx,
        &vec![s("k1"), s("k2")],
        &flags(true, false, true),
        &active,
    )
    .unwrap();
    assert!(r.0);
    assert!(r.1.is_empty());
}

#[test]
fn same_keys_non_overlapping_ctx_rejected() {
    let active = vec![experiment(
        7,
        condition("==", "city", vstr("LA")),
        vec!["k1"],
        ExperimentStatusType::CREATED,
    )];
    let ctx = condition("==", "city", vstr("NYC"));
    let r = is_valid_experiment(&ctx, &vec![s("k1")], &flags(true, true, false), &active).unwrap();
    assert!(!r.0);
    assert!(!r.1.is_empty());
}

#[test]
fn non_conflicting_candidate_approved() {
    let active = vec![experiment(
        7,
        condition("==", "city", vstr("LA")),
        vec!["k2"],
        ExperimentStatusType::CREATED,
    )];
    let ctx = condition("==", "tier", Value::Int(1));
    let r = is_valid_experiment(&ctx, &vec![s("k1")], &flags(false, false, false), &active)
        .unwrap();
    assert!(r.0);
    assert!(r.1.is_empty());
}

#[test]
fn malformed_candidate_context_propagates_error() {
    let active = vec![experiment(
        7,
        condition("==", "city", vstr("LA")),
        vec!["k1"],
        ExperimentStatusType::CREATED,
    )];
    let r = is_valid_experiment(&Value::Null, &vec![s("k1")], &flags(false, true, true), &active);
    assert!(r.is_err());
}

#[test]
fn validation_is_repeatable() {
    let active = vec![
        experiment(
            7,
            condition("==", "city", vstr("NYC")),
            vec!["k1"],
            ExperimentStatusType::CREATED,
        ),
        experiment(
            8,
            condition("==", "city", vstr("LA")),
            vec!["k2"],
            ExperimentStatusType::INPROGRESS,
        ),
    ];
    let ctx = condition("==", "city", vstr("NYC"));
    let keys = vec![s("k1")];
    let f = flags(false, true, true);
    let first = is_valid_experiment(&ctx, &keys, &f, &active);
    let second = is_valid_experiment(&ctx, &keys, &f, &active);
    assert_eq!(first, second);
}

#[test]
fn validate_experiment_skips_concluded_and_edited() {
    let snapshot = vec![
        experiment(
            1,
            condition("==", "city", vstr("NYC")),
            vec!["k1"],
            ExperimentStatusType::CONCLUDED,
        ),
        experiment(
            2,
            condition("==", "city", vstr("NYC")),
            vec!["k1"],
            ExperimentStatusType::CREATED,
        ),
    ];
    let ctx = condition("==", "city", vstr("NYC"));
    // Experiment 2 is the one under edit, experiment 1 is concluded: nothing
    // is held against the candidate.
    let r = validate_experiment(&ctx, &vec![s("k1")], Some(2), &flags(false, false, false), snapshot)
        .unwrap();
    assert!(r.0);
}

#[test]
fn validate_experiment_rejects_against_active_record() {
    let snapshot = vec![experiment(
        2,
        condition("==", "city", vstr("NYC")),
        vec!["k1"],
        ExperimentStatusType::INPROGRESS,
    )];
    let ctx = condition("==", "city", vstr("NYC"));
    let r = validate_experiment(&ctx, &vec![s("k1")], None, &flags(false, true, true), snapshot)
        .unwrap();
    assert!(!r.0);
    assert!(!r.1.is_empty());
}

#[test]
fn fetch_variant_id_finds_first_of_role() {
    let e = Experiment {
        id: 1,
        context: Value::Null,
        override_keys: vec![],
        status: ExperimentStatusType::CREATED,
        variants: vec![
            variant("c1", VariantType::CONTROL),
            variant("e1", VariantType::EXPERIMENTAL),
            variant("e2", VariantType::EXPERIMENTAL),
        ],
    };
    assert_eq!(fetch_variant_id(&e, VariantType::EXPERIMENTAL), Ok(s("e1")));
    assert_eq!(fetch_variant_id(&e, VariantType::CONTROL), Ok(s("c1")));
}

#[test]
fn fetch_variant_id_fails_without_role() {
    let e = Experiment {
        id: 1,
        context: Value::Null,
        override_keys: vec![],
        status: ExperimentStatusType::CREATED,
        variants: vec![variant("e1", VariantType::EXPERIMENTAL)],
    };
    assert_eq!(fetch_variant_id(&e, VariantType::CONTROL), Err(VariantNotFound));
}
