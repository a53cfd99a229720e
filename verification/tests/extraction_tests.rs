use superposition_core::context::{
    add_variant_dimension_to_ctx, are_overlapping_contexts, extract_dimensions, ContextError,
};
use superposition_core::json::Value;
use superposition_core::json_map::JsonMap;

fn s(x: &str) -> String {
    x.to_string()
}

fn vstr(x: &str) -> Value {
    Value::Str(s(x))
}

fn obj(entries: Vec<(&str, Value)>) -> Value {
    Value::Obj(entries.into_iter().map(|(k, v)| (s(k), v)).collect())
}

fn arr(items: Vec<Value>) -> Value {
    Value::Arr(items)
}

fn condition(op: &str, var: &str, val: Value) -> Value {
    obj(vec![(op, arr(vec![obj(vec![("var", vstr(var))]), val]))])
}

fn and_ctx(conds: Vec<Value>) -> Value {
    obj(vec![("and", arr(conds))])
}

#[test]
fn extract_single_condition_in_and() {
    let ctx = and_ctx(vec![condition("==", "city", vstr("NYC"))]);
    let m = extract_dimensions(&ctx).unwrap();
    let mut expected = JsonMap::new();
    expected.insert(s("city"), vstr("NYC"));
    assert_eq!(m, expected);
}

#[test]
fn extract_bare_condition_without_and() {
    let ctx = condition("==", "city", vstr("NYC"));
    let m = extract_dimensions(&ctx).unwrap();
    let mut expected = JsonMap::new();
    expected.insert(s("city"), vstr("NYC"));
    assert_eq!(m, expected);
}

#[test]
fn extract_last_binding_wins() {
    let ctx = and_ctx(vec![
        condition("==", "city", vstr("NYC")),
        condition("==", "city", vstr("LA")),
    ]);
    let m = extract_dimensions(&ctx).unwrap();
    let mut expected = JsonMap::new();
    expected.insert(s("city"), vstr("LA"));
    assert_eq!(m, expected);
}

#[test]
fn extract_several_dimensions() {
    let ctx = and_ctx(vec![
        condition("==", "city", vstr("NYC")),
        condition("in", "tier", Value::Int(3)),
    ]);
    let m = extract_dimensions(&ctx).unwrap();
    assert_eq!(m.get(&s("city")), Some(&vstr("NYC")));
    assert_eq!(m.get(&s("tier")), Some(&Value::Int(3)));
    assert_eq!(m.len(), 2);
}

#[test]
fn extract_multiple_operators_in_one_condition() {
    let ctx = and_ctx(vec![Value::Obj(vec![
        (s("=="), arr(vec![obj(vec![("var", vstr("a"))]), Value::Int(1)])),
        (s("in"), arr(vec![obj(vec![("var", vstr("b"))]), Value::Int(2)])),
    ])]);
    let m = extract_dimensions(&ctx).unwrap();
    assert_eq!(m.get(&s("a")), Some(&Value::Int(1)));
    assert_eq!(m.get(&s("b")), Some(&Value::Int(2)));
    assert_eq!(m.len(), 2);
}

#[test]
fn extract_empty_condition_list_yields_empty_map() {
    let ctx = and_ctx(vec![]);
    assert_eq!(extract_dimensions(&ctx).unwrap(), JsonMap::new());
}

#[test]
fn extract_condition_without_operators_binds_nothing() {
    let ctx = and_ctx(vec![obj(vec![])]);
    assert_eq!(extract_dimensions(&ctx).unwrap(), JsonMap::new());
}

#[test]
fn extract_reads_only_the_and_key() {
    // Any key standing beside "and" is not a condition.
    let ctx = obj(vec![
        ("and", arr(vec![condition("==", "city", vstr("NYC"))])),
        ("note", vstr("ignored")),
    ]);
    let m = extract_dimensions(&ctx).unwrap();
    let mut expected = JsonMap::new();
    expected.insert(s("city"), vstr("NYC"));
    assert_eq!(m, expected);
}

#[test]
fn extract_rejects_non_object_context() {
    assert_eq!(
        extract_dimensions(&Value::Null),
        Err(ContextError::ContextNotAnObject)
    );
}

#[test]
fn extract_rejects_non_array_conditions() {
    let ctx = obj(vec![("and", Value::Int(5))]);
    assert_eq!(
        extract_dimensions(&ctx),
        Err(ContextError::ConditionsNotAnArray)
    );
}

#[test]
fn extract_rejects_non_object_condition() {
    let ctx = and_ctx(vec![Value::Int(5)]);
    assert_eq!(
        extract_dimensions(&ctx),
        Err(ContextError::ConditionNotAnObject)
    );
}

#[test]
fn extract_rejects_non_array_operands() {
    let ctx = obj(vec![("==", Value::Int(5))]);
    assert_eq!(
        extract_dimensions(&ctx),
        Err(ContextError::OperandsNotAnArray)
    );
}

#[test]
fn extract_rejects_empty_operand_list() {
    let ctx = obj(vec![("==", arr(vec![]))]);
    assert_eq!(extract_dimensions(&ctx), Err(ContextError::VariableMissing));
}

#[test]
fn extract_rejects_non_object_variable() {
    let ctx = obj(vec![("==", arr(vec![Value::Int(5), Value::Int(6)]))]);
    assert_eq!(
        extract_dimensions(&ctx),
        Err(ContextError::VariableNotAnObject)
    );
}

#[test]
fn extract_rejects_missing_var_field() {
    let ctx = obj(vec![("==", arr(vec![obj(vec![]), Value::Int(6)]))]);
    assert_eq!(extract_dimensions(&ctx), Err(ContextError::VarMissing));
}

#[test]
fn extract_rejects_non_string_var() {
    let ctx = obj(vec![(
        "==",
        arr(vec![obj(vec![("var", Value::Int(5))]), Value::Int(6)]),
    )]);
    assert_eq!(extract_dimensions(&ctx), Err(ContextError::VarNotAString));
}

#[test]
fn extract_rejects_missing_value_operand() {
    let ctx = obj(vec![("==", arr(vec![obj(vec![("var", vstr("city"))])]))]);
    assert_eq!(extract_dimensions(&ctx), Err(ContextError::ValueMissing));
}

#[test]
fn overlaps_same_binding() {
    let a = condition("==", "city", vstr("NYC"));
    let b = condition("==", "city", vstr("NYC"));
    assert_eq!(are_overlapping_contexts(&a, &b), Ok(true));
}

#[test]
fn overlaps_differing_value() {
    let a = condition("==", "city", vstr("NYC"));
    let b = condition("==", "city", vstr("LA"));
    assert_eq!(are_overlapping_contexts(&a, &b), Ok(false));
    assert_eq!(are_overlapping_contexts(&b, &a), Ok(false));
}

#[test]
fn overlaps_empty_context_overlaps_everything() {
    let empty = and_ctx(vec![]);
    let b = condition("==", "city", vstr("NYC"));
    assert_eq!(are_overlapping_contexts(&empty, &b), Ok(true));
    assert_eq!(are_overlapping_contexts(&b, &empty), Ok(true));
}

#[test]
fn overlaps_smaller_map_decides() {
    let small = condition("==", "city", vstr("NYC"));
    let big = and_ctx(vec![
        condition("==", "city", vstr("NYC")),
        condition("==", "tier", Value::Int(1)),
    ]);
    assert_eq!(are_overlapping_contexts(&small, &big), Ok(true));
    assert_eq!(are_overlapping_contexts(&big, &small), Ok(true));
}

#[test]
fn overlaps_disjoint_dimensions() {
    let a = condition("==", "city", vstr("NYC"));
    let b = condition("==", "tier", Value::Int(1));
    assert_eq!(are_overlapping_contexts(&a, &b), Ok(false));
}

#[test]
fn overlaps_propagates_extraction_error() {
    let a = Value::Int(1);
    let b = condition("==", "city", vstr("NYC"));
    assert_eq!(
        are_overlapping_contexts(&a, &b),
        Err(ContextError::ContextNotAnObject)
    );
}

#[test]
fn overlaps_compares_structured_values() {
    let a = condition("in", "tags", arr(vec![vstr("x"), vstr("y")]));
    let b = condition("in", "tags", arr(vec![vstr("x"), vstr("y")]));
    let c = condition("in", "tags", arr(vec![vstr("x"), vstr("z")]));
    assert_eq!(are_overlapping_contexts(&a, &b), Ok(true));
    assert_eq!(are_overlapping_contexts(&a, &c), Ok(false));
}

#[test]
fn add_variant_appends_membership_condition() {
    let ctx = and_ctx(vec![condition("==", "city", vstr("NYC"))]);
    let got = add_variant_dimension_to_ctx(&ctx, s("variant-1")).unwrap();
    let expected = and_ctx(vec![
        condition("==", "city", vstr("NYC")),
        obj(vec![(
            "in",
            arr(vec![vstr("variant-1"), obj(vec![("var", vstr("variantIds"))])]),
        )]),
    ]);
    assert_eq!(got, expected);
}

#[test]
fn add_variant_wraps_bare_condition() {
    let ctx = condition("==", "city", vstr("NYC"));
    let got = add_variant_dimension_to_ctx(&ctx, s("v1")).unwrap();
    let expected = and_ctx(vec![
        condition("==", "city", vstr("NYC")),
        obj(vec![(
            "in",
            arr(vec![vstr("v1"), obj(vec![("var", vstr("variantIds"))])]),
        )]),
    ]);
    assert_eq!(got, expected);
}

#[test]
fn add_variant_rejects_non_object_context() {
    assert_eq!(
        add_variant_dimension_to_ctx(&Value::Bool(true), s("v1")),
        Err(ContextError::ContextNotAnObject)
    );
}

#[test]
fn add_variant_rejects_non_array_conditions() {
    let ctx = obj(vec![("and", vstr("oops"))]);
    assert_eq!(
        add_variant_dimension_to_ctx(&ctx, s("v1")),
        Err(ContextError::ConditionsNotAnArray)
    );
}
