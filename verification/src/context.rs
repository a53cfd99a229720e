//! Targeting contexts: dimension extraction and overlap detection.
//!
//! A targeting context is a JSON-shaped value restricted to a conjunction of
//! conditions: either an object holding the key `"and"` bound to an array of
//! conditions, or a single bare condition. A condition is an object mapping
//! operator names to operand lists; for extraction, the first operand must be
//! an object holding a `"var"` field that names a dimension, and the second
//! operand is the value bound to it. Operator names are deliberately
//! discarded: two contexts are compared only by which dimensions they bind
//! and to which values.

use crate::json::{obj_get, obj_lookup, spec_obj_entries, spec_values, SpecValue, Value};
use crate::json_map::JsonMap;
use vstd::prelude::*;

verus! {

/// How a targeting context can violate the shape extraction requires.
#[derive(Clone, Copy, Debug, PartialEq, Eq, Structural)]
pub enum ContextError {
    /// The context is not an object.
    ContextNotAnObject,
    /// The context's `"and"` value is not an array.
    ConditionsNotAnArray,
    /// A condition is not an object.
    ConditionNotAnObject,
    /// An operand list is not an array.
    OperandsNotAnArray,
    /// An operand list is empty, so it holds no variable reference.
    VariableMissing,
    /// The first operand is not an object.
    VariableNotAnObject,
    /// The first operand has no `"var"` field.
    VarMissing,
    /// The first operand's `"var"` field is not a string.
    VarNotAString,
    /// An operand list has no second element, so it holds no bound value.
    ValueMissing,
}

/// The condition list of a context: the array bound to `"and"`, or the
/// context itself as the sole condition.
pub open spec fn spec_conditions(ctx: SpecValue) -> Result<Seq<SpecValue>, ContextError> {
    match ctx {
        SpecValue::Obj(entries) => match obj_lookup(entries, "and"@) {
            Some(SpecValue::Arr(conds)) => Ok(conds),
            Some(_) => Err(ContextError::ConditionsNotAnArray),
            None => Ok(seq![ctx]),
        },
        _ => Err(ContextError::ContextNotAnObject),
    }
}

/// Binds one operand list into a dimension map: `operands[0]`'s `"var"`
/// field names the dimension, `operands[1]` is the bound value.
pub open spec fn spec_bind_operands(
    operands: Seq<SpecValue>,
    m: Map<Seq<char>, SpecValue>,
) -> Result<Map<Seq<char>, SpecValue>, ContextError> {
    if operands.len() < 1 {
        Err(ContextError::VariableMissing)
    } else {
        match operands[0] {
            SpecValue::Obj(var_entries) => match obj_lookup(var_entries, "var"@) {
                Some(SpecValue::Str(name)) => if operands.len() < 2 {
                    Err(ContextError::ValueMissing)
                } else {
                    Ok(m.insert(name, operands[1]))
                },
                Some(_) => Err(ContextError::VarNotAString),
                None => Err(ContextError::VarMissing),
            },
            _ => Err(ContextError::VariableNotAnObject),
        }
    }
}

/// Folds a condition's operator/operand pairs into a dimension map, in
/// order; a later binding of a dimension overrides an earlier one.
pub open spec fn spec_bind_pairs(
    pairs: Seq<(Seq<char>, SpecValue)>,
    m: Map<Seq<char>, SpecValue>,
) -> Result<Map<Seq<char>, SpecValue>, ContextError>
    decreases pairs.len(),
{
    if pairs.len() == 0 {
        Ok(m)
    } else {
        match pairs[0].1 {
            SpecValue::Arr(operands) => match spec_bind_operands(operands, m) {
                Ok(m2) => spec_bind_pairs(pairs.drop_first(), m2),
                Err(e) => Err(e),
            },
            _ => Err(ContextError::OperandsNotAnArray),
        }
    }
}

/// Folds one condition into a dimension map.
pub open spec fn spec_bind_condition(
    cond: SpecValue,
    m: Map<Seq<char>, SpecValue>,
) -> Result<Map<Seq<char>, SpecValue>, ContextError> {
    match cond {
        SpecValue::Obj(pairs) => spec_bind_pairs(pairs, m),
        _ => Err(ContextError::ConditionNotAnObject),
    }
}

/// Folds a condition list into a dimension map, in order.
pub open spec fn spec_bind_conditions(
    conds: Seq<SpecValue>,
    m: Map<Seq<char>, SpecValue>,
) -> Result<Map<Seq<char>, SpecValue>, ContextError>
    decreases conds.len(),
{
    if conds.len() == 0 {
        Ok(m)
    } else {
        match spec_bind_condition(conds[0], m) {
            Ok(m2) => spec_bind_conditions(conds.drop_first(), m2),
            Err(e) => Err(e),
        }
    }
}

/// The dimension map a context denotes: every condition's bindings folded
/// together, a later binding of a dimension winning over an earlier one.
pub open spec fn spec_extract(ctx: SpecValue) -> Result<Map<Seq<char>, SpecValue>, ContextError> {
    match spec_conditions(ctx) {
        Ok(conds) => spec_bind_conditions(conds, Map::empty()),
        Err(e) => Err(e),
    }
}

/// Binds one operand list into a dimension map.
fn bind_operands(operands: &Vec<Value>, m: JsonMap) -> (r: Result<JsonMap, ContextError>)
    requires
        m.wf(),
    ensures
        match r {
            Ok(m2) => m2.wf() && spec_bind_operands(spec_values(operands@), m@) == Ok::<
                _,
                ContextError,
            >(m2@),
            Err(e) => spec_bind_operands(spec_values(operands@), m@) == Err::<
                Map<Seq<char>, SpecValue>,
                _,
            >(e),
        },
{
    let ghost ops = spec_values(operands@);
    if operands.len() < 1 {
        return Err(ContextError::VariableMissing);
    }
    match &operands[0] {
        Value::Obj(var_entries) => {
            proof {
                assert(ops[0] == operands@[0]@);
                assert(ops[0]->Obj_0 =~= spec_obj_entries(var_entries@));
            }
            let var_key = "var".to_owned();
            match obj_get(var_entries, &var_key) {
                Some(Value::Str(name)) => {
                    if operands.len() < 2 {
                        Err(ContextError::ValueMissing)
                    } else {
                        let value = operands[1].duplicate();
                        let mut m2 = m;
                        m2.insert(name.clone(), value);
                        proof {
                            assert(ops[1] == operands@[1]@);
                        }
                        Ok(m2)
                    }
                },
                Some(_) => Err(ContextError::VarNotAString),
                None => Err(ContextError::VarMissing),
            }
        },
        _ => {
            proof {
                assert(ops[0] == operands@[0]@);
            }
            Err(ContextError::VariableNotAnObject)
        },
    }
}

/// Folds one condition into a dimension map.
#[verifier::loop_isolation(false)]
fn bind_condition(cond: &Value, m: JsonMap) -> (r: Result<JsonMap, ContextError>)
    requires
        m.wf(),
    ensures
        match r {
            Ok(m2) => m2.wf() && spec_bind_condition(cond@, m@) == Ok::<_, ContextError>(m2@),
            Err(e) => spec_bind_condition(cond@, m@) == Err::<Map<Seq<char>, SpecValue>, _>(e),
        },
{
    match cond {
        Value::Obj(pairs) => {
            let ghost ps = spec_obj_entries(pairs@);
            proof {
                assert(cond@->Obj_0 =~= ps);
                assert(ps.skip(0) =~= ps);
            }
            let ghost m0 = m@;
            let mut acc = m;
            let mut i: usize = 0;
            while i < pairs.len()
                invariant
                    acc.wf(),
                    i <= ps.len(),
                    spec_bind_pairs(ps, m0) == spec_bind_pairs(ps.skip(i as int), acc@),
                decreases ps.len() - i,
            {
                proof {
                    assert(ps.skip(i as int)[0] == ps[i as int]);
                }
                let (_op, operand_val) = &pairs[i];
                match operand_val {
                    Value::Arr(operands) => {
                        proof {
                            assert(ps[i as int].1->Arr_0 =~= spec_values(operands@));
                        }
                        match bind_operands(operands, acc) {
                            Ok(m2) => {
                                proof {
                                    assert(ps.skip(i as int).drop_first() =~= ps.skip(
                                        i as int + 1,
                                    ));
                                }
                                acc = m2;
                            },
                            Err(e) => {
                                return Err(e);
                            },
                        }
                    },
                    _ => {
                        return Err(ContextError::OperandsNotAnArray);
                    },
                }
                i += 1;
            }
            proof {
                assert(ps.skip(ps.len() as int) =~= Seq::<(Seq<char>, SpecValue)>::empty());
            }
            Ok(acc)
        },
        _ => Err(ContextError::ConditionNotAnObject),
    }
}

/// Parses a targeting context into its flat dimension map, failing on any
/// value that violates the restricted context shape.
#[verifier::loop_isolation(false)]
pub fn extract_dimensions(context: &Value) -> (r: Result<JsonMap, ContextError>)
    ensures
        match r {
            Ok(m) => m.wf() && spec_extract(context@) == Ok::<_, ContextError>(m@),
            Err(e) => spec_extract(context@) == Err::<Map<Seq<char>, SpecValue>, _>(e),
        },
{
    match context {
        Value::Obj(entries) => {
            proof {
                assert(context@->Obj_0 =~= spec_obj_entries(entries@));
            }
            let and_key = "and".to_owned();
            match obj_get(entries, &and_key) {
                Some(conditions_val) => match conditions_val {
                    Value::Arr(conds) => {
                        let ghost cs = spec_values(conds@);
                        proof {
                            assert(conditions_val@->Arr_0 =~= cs);
                            assert(cs.skip(0) =~= cs);
                        }
                        let mut acc = JsonMap::new();
                        let mut i: usize = 0;
                        while i < conds.len()
                            invariant
                                acc.wf(),
                                i <= cs.len(),
                                spec_bind_conditions(cs, Map::empty()) == spec_bind_conditions(
                                    cs.skip(i as int),
                                    acc@,
                                ),
                            decreases cs.len() - i,
                        {
                            proof {
                                assert(cs.skip(i as int)[0] == cs[i as int]);
                            }
                            match bind_condition(&conds[i], acc) {
                                Ok(m2) => {
                                    proof {
                                        assert(cs.skip(i as int).drop_first() =~= cs.skip(
                                            i as int + 1,
                                        ));
                                    }
                                    acc = m2;
                                },
                                Err(e) => {
                                    return Err(e);
                                },
                            }
                            i += 1;
                        }
                        proof {
                            assert(cs.skip(cs.len() as int) =~= Seq::<SpecValue>::empty());
                        }
                        Ok(acc)
                    },
                    _ => Err(ContextError::ConditionsNotAnArray),
                },
                None => {
                    let m = JsonMap::new();
                    let r = bind_condition(context, m);
                    proof {
                        assert(spec_conditions(context@) == Ok::<_, ContextError>(
                            seq![context@],
                        ));
                        let conds = seq![context@];
                        assert(conds.drop_first() =~= Seq::<SpecValue>::empty());
                        assert(conds[0] == context@);
                        if let Ok(m2) = spec_bind_condition(context@, Map::empty()) {
                            assert(spec_bind_conditions(Seq::<SpecValue>::empty(), m2) == Ok::<
                                _,
                                ContextError,
                            >(m2));
                        }
                        assert(spec_extract(context@) == spec_bind_condition(
                            context@,
                            Map::empty(),
                        ));
                    }
                    r
                },
            }
        },
        _ => Err(ContextError::ContextNotAnObject),
    }
}

/// Every dimension bound by `ref_dims` is bound to an equal value by
/// `other`.
pub open spec fn spec_submap(
    ref_dims: Map<Seq<char>, SpecValue>,
    other: Map<Seq<char>, SpecValue>,
) -> bool {
    forall|k: Seq<char>| #[trigger]
        ref_dims.dom().contains(k) ==> other.dom().contains(k) && other[k] == ref_dims[k]
}

/// Two dimension maps overlap when every binding of the smaller map recurs,
/// with an equal value, in the larger one. A map with no bindings therefore
/// overlaps everything.
pub open spec fn spec_maps_overlap(
    ma: Map<Seq<char>, SpecValue>,
    mb: Map<Seq<char>, SpecValue>,
) -> bool {
    if ma.dom().len() <= mb.dom().len() {
        spec_submap(ma, mb)
    } else {
        spec_submap(mb, ma)
    }
}

/// Whether two contexts can match the same request, or the extraction error
/// of the first context that fails.
pub open spec fn spec_overlap(a: SpecValue, b: SpecValue) -> Result<bool, ContextError> {
    match spec_extract(a) {
        Ok(ma) => match spec_extract(b) {
            Ok(mb) => Ok(spec_maps_overlap(ma, mb)),
            Err(e) => Err(e),
        },
        Err(e) => Err(e),
    }
}

/// Decides whether every binding of `ref_dims` recurs in `other`.
#[verifier::loop_isolation(false)]
fn check_submap(ref_dims: &JsonMap, other: &JsonMap) -> (r: bool)
    requires
        ref_dims.wf(),
        other.wf(),
    ensures
        r == spec_submap(ref_dims@, other@),
{
    let n = ref_dims.len();
    let mut i: usize = 0;
    while i < n
        invariant
            i <= ref_dims.spec_len(),
            forall|j: int|
                0 <= j < i ==> other@.dom().contains(#[trigger] ref_dims.spec_key_at(j))
                    && other@[ref_dims.spec_key_at(j)] == ref_dims@[ref_dims.spec_key_at(j)],
        decreases n - i,
    {
        let entry = ref_dims.entry_at(i);
        match other.get(&entry.0) {
            Some(v) => {
                if !crate::json::val_eq(&entry.1, v) {
                    return false;
                }
            },
            None => {
                return false;
            },
        }
        i += 1;
    }
    proof {
        ref_dims.lemma_dom();
        assert forall|k: Seq<char>| ref_dims@.dom().contains(k) implies other@.dom().contains(k)
            && other@[k] == ref_dims@[k] by {
            let j = choose|j: int|
                0 <= j < ref_dims.spec_len() && ref_dims.spec_key_at(j) == k;
            assert(other@.dom().contains(ref_dims.spec_key_at(j)));
        }
    }
    true
}

/// Decides whether two targeting contexts can simultaneously match one
/// request, by extracting both dimension maps and checking that the smaller
/// map's bindings all recur in the larger one. Extraction failures
/// propagate, the first context's first.
pub fn are_overlapping_contexts(context_a: &Value, context_b: &Value) -> (r: Result<
    bool,
    ContextError,
>)
    ensures
        match r {
            Ok(b) => spec_overlap(context_a@, context_b@) == Ok::<_, ContextError>(b),
            Err(e) => spec_overlap(context_a@, context_b@) == Err::<bool, _>(e),
        },
{
    let dimensions_a = match extract_dimensions(context_a) {
        Ok(m) => m,
        Err(e) => {
            return Err(e);
        },
    };
    let dimensions_b = match extract_dimensions(context_b) {
        Ok(m) => m,
        Err(e) => {
            return Err(e);
        },
    };
    if dimensions_a.len() <= dimensions_b.len() {
        Ok(check_submap(&dimensions_a, &dimensions_b))
    } else {
        Ok(check_submap(&dimensions_b, &dimensions_a))
    }
}

/// The membership condition a variant context appends: the variant's
/// identity first, then the reference to the `"variantIds"` dimension. This
/// operand order is the one the surrounding platform consumes; it is not
/// the order the extractor reads, so built contexts are not meant to flow
/// back through extraction.
pub open spec fn spec_variant_condition(variant: Seq<char>) -> SpecValue {
    SpecValue::Obj(
        seq![
            (
                "in"@,
                SpecValue::Arr(
                    seq![
                        SpecValue::Str(variant),
                        SpecValue::Obj(seq![("var"@, SpecValue::Str("variantIds"@))]),
                    ],
                ),
            ),
        ],
    )
}

/// The context an experiment variant targets: the context's conditions with
/// one membership condition appended, wrapped back into a conjunction.
pub open spec fn spec_with_variant(ctx: SpecValue, variant: Seq<char>) -> Result<
    SpecValue,
    ContextError,
> {
    match spec_conditions(ctx) {
        Ok(conds) => Ok(
            SpecValue::Obj(
                seq![("and"@, SpecValue::Arr(conds.push(spec_variant_condition(variant))))],
            ),
        ),
        Err(e) => Err(e),
    }
}

/// Builds the targeting context of one experiment variant: the context's
/// condition list, normalized as extraction normalizes it, with a condition
/// appended that binds the variant's identity to the `"variantIds"`
/// dimension, re-wrapped as a conjunction.
#[verifier::loop_isolation(false)]
pub fn add_variant_dimension_to_ctx(context_json: &Value, variant: String) -> (r: Result<
    Value,
    ContextError,
>)
    ensures
        match r {
            Ok(v) => spec_with_variant(context_json@, variant@) == Ok::<_, ContextError>(v@),
            Err(e) => spec_with_variant(context_json@, variant@) == Err::<SpecValue, _>(e),
        },
{
    let ghost variant_view = variant@;
    let mut conditions: Vec<Value>;
    match context_json {
        Value::Obj(entries) => {
            proof {
                assert(context_json@->Obj_0 =~= spec_obj_entries(entries@));
            }
            let and_key = "and".to_owned();
            match obj_get(entries, &and_key) {
                Some(conditions_val) => match conditions_val {
                    Value::Arr(conds) => {
                        let mut out: Vec<Value> = Vec::new();
                        let mut i: usize = 0;
                        while i < conds.len()
                            invariant
                                i <= conds@.len(),
                                out@.len() == i as int,
                                forall|j: int| 0 <= j < i ==> out@[j]@ == conds@[j]@,
                            decreases conds@.len() - i,
                        {
                            let d = conds[i].duplicate();
                            out.push(d);
                            i += 1;
                        }
                        proof {
                            assert(spec_values(out@) =~= conditions_val@->Arr_0);
                        }
                        conditions = out;
                    },
                    _ => {
                        return Err(ContextError::ConditionsNotAnArray);
                    },
                },
                None => {
                    let mut out: Vec<Value> = Vec::new();
                    let d = context_json.duplicate();
                    out.push(d);
                    proof {
                        assert(spec_values(out@) =~= seq![context_json@]);
                    }
                    conditions = out;
                },
            }
        },
        _ => {
            return Err(ContextError::ContextNotAnObject);
        },
    }
    let ghost conds0 = spec_values(conditions@);
    let mut var_entries: Vec<(String, Value)> = Vec::new();
    let var_key = "var".to_owned();
    let var_val = Value::Str("variantIds".to_owned());
    proof {
        assert(var_key@ == "var"@);
        assert(var_val@ == SpecValue::Str("variantIds"@));
    }
    var_entries.push((var_key, var_val));
    proof {
        assert(var_entries@.len() == 1);
        assert(var_entries@[0].0@ == "var"@);
        assert(var_entries@[0].1@ == SpecValue::Str("variantIds"@));
    }
    let var_obj = Value::Obj(var_entries);
    proof {
        assert(var_obj@->Obj_0 =~= seq![("var"@, SpecValue::Str("variantIds"@))]);
        assert(var_obj@ == SpecValue::Obj(seq![("var"@, SpecValue::Str("variantIds"@))]));
    }
    let mut member_items: Vec<Value> = Vec::new();
    let variant_val = Value::Str(variant);
    proof {
        assert(variant_val@ == SpecValue::Str(variant_view));
    }
    member_items.push(variant_val);
    member_items.push(var_obj);
    proof {
        assert(member_items@.len() == 2);
        assert(member_items@[0]@ == SpecValue::Str(variant_view));
        assert(member_items@[1]@ == SpecValue::Obj(
            seq![("var"@, SpecValue::Str("variantIds"@))],
        ));
    }
    let members = Value::Arr(member_items);
    proof {
        assert(members@->Arr_0 =~= seq![
            SpecValue::Str(variant_view),
            SpecValue::Obj(seq![("var"@, SpecValue::Str("variantIds"@))]),
        ]);
        assert(members@ == spec_variant_condition(variant_view)->Obj_0[0].1);
    }
    let mut condition_entries: Vec<(String, Value)> = Vec::new();
    let in_key = "in".to_owned();
    proof {
        assert(in_key@ == "in"@);
    }
    condition_entries.push((in_key, members));
    proof {
        assert(condition_entries@.len() == 1);
    }
    let variant_condition = Value::Obj(condition_entries);
    proof {
        assert(variant_condition@->Obj_0 =~= spec_variant_condition(variant_view)->Obj_0);
        assert(variant_condition@ == spec_variant_condition(variant_view));
    }
    conditions.push(variant_condition);
    proof {
        assert(spec_values(conditions@) =~= conds0.push(spec_variant_condition(variant_view)));
    }
    let mut updated_entries: Vec<(String, Value)> = Vec::new();
    let and_name = "and".to_owned();
    let all_conditions = Value::Arr(conditions);
    proof {
        assert(and_name@ == "and"@);
        assert(all_conditions@->Arr_0 =~= conds0.push(spec_variant_condition(variant_view)));
        assert(all_conditions@ == SpecValue::Arr(
            conds0.push(spec_variant_condition(variant_view)),
        ));
    }
    updated_entries.push((and_name, all_conditions));
    proof {
        assert(updated_entries@.len() == 1);
    }
    let updated_ctx = Value::Obj(updated_entries);
    proof {
        assert(updated_ctx@->Obj_0 =~= seq![
            ("and"@, SpecValue::Arr(conds0.push(spec_variant_condition(variant_view)))),
        ]);
    }
    Ok(updated_ctx)
}

/// Binding an operand list keeps the dimension map's domain finite.
proof fn lemma_bind_operands_finite(operands: Seq<SpecValue>, m: Map<Seq<char>, SpecValue>)
    requires
        m.dom().finite(),
    ensures
        spec_bind_operands(operands, m) matches Ok(m2) ==> m2.dom().finite(),
{
}

/// Folding a condition's pairs keeps the dimension map's domain finite.
proof fn lemma_bind_pairs_finite(pairs: Seq<(Seq<char>, SpecValue)>, m: Map<Seq<char>, SpecValue>)
    requires
        m.dom().finite(),
    ensures
        spec_bind_pairs(pairs, m) matches Ok(m2) ==> m2.dom().finite(),
    decreases pairs.len(),
{
    if pairs.len() == 0 {
    } else {
        match pairs[0].1 {
            SpecValue::Arr(operands) => {
                lemma_bind_operands_finite(operands, m);
                match spec_bind_operands(operands, m) {
                    Ok(m2) => {
                        lemma_bind_pairs_finite(pairs.drop_first(), m2);
                    },
                    Err(_) => {},
                }
            },
            _ => {},
        }
    }
}

/// Folding a condition list keeps the dimension map's domain finite.
proof fn lemma_bind_conditions_finite(conds: Seq<SpecValue>, m: Map<Seq<char>, SpecValue>)
    requires
        m.dom().finite(),
    ensures
        spec_bind_conditions(conds, m) matches Ok(m2) ==> m2.dom().finite(),
    decreases conds.len(),
{
    if conds.len() == 0 {
    } else {
        match conds[0] {
            SpecValue::Obj(pairs) => {
                lemma_bind_pairs_finite(pairs, m);
                match spec_bind_pairs(pairs, m) {
                    Ok(m2) => {
                        lemma_bind_conditions_finite(conds.drop_first(), m2);
                    },
                    Err(_) => {},
                }
            },
            _ => {},
        }
    }
}

/// An extracted dimension map binds finitely many dimensions.
pub proof fn lemma_extract_finite(ctx: SpecValue)
    ensures
        spec_extract(ctx) matches Ok(m) ==> m.dom().finite(),
{
    match spec_conditions(ctx) {
        Ok(conds) => {
            lemma_bind_conditions_finite(conds, Map::empty());
        },
        Err(_) => {},
    }
}

/// With equally many bindings on both sides, covering one way is covering
/// both ways.
proof fn lemma_submap_equal_len(ma: Map<Seq<char>, SpecValue>, mb: Map<Seq<char>, SpecValue>)
    requires
        spec_submap(ma, mb),
        ma.dom().finite(),
        mb.dom().finite(),
        ma.dom().len() == mb.dom().len(),
    ensures
        spec_submap(mb, ma),
{
    assert forall|k: Seq<char>| ma.dom().contains(k) implies mb.dom().contains(k) by {}
    assert(ma.dom().subset_of(mb.dom()));
    vstd::set_lib::lemma_subset_equality(ma.dom(), mb.dom());
}

/// Overlap does not depend on the order of the two contexts, whenever both
/// of them extract.
pub proof fn lemma_overlap_symmetric(
    a: SpecValue,
    b: SpecValue,
    ma: Map<Seq<char>, SpecValue>,
    mb: Map<Seq<char>, SpecValue>,
)
    requires
        spec_extract(a) == Ok::<_, ContextError>(ma),
        spec_extract(b) == Ok::<_, ContextError>(mb),
    ensures
        spec_overlap(a, b) == spec_overlap(b, a),
{
    lemma_extract_finite(a);
    lemma_extract_finite(b);
    if ma.dom().len() == mb.dom().len() {
        if spec_submap(ma, mb) {
            lemma_submap_equal_len(ma, mb);
        }
        if spec_submap(mb, ma) {
            lemma_submap_equal_len(mb, ma);
        }
    }
}

/// A context that extracts to no dimensions overlaps every context that
/// extracts at all, whichever side it stands on.
pub proof fn lemma_empty_context_overlaps(
    a: SpecValue,
    b: SpecValue,
    mb: Map<Seq<char>, SpecValue>,
)
    requires
        spec_extract(a) == Ok::<_, ContextError>(Map::<Seq<char>, SpecValue>::empty()),
        spec_extract(b) == Ok::<_, ContextError>(mb),
    ensures
        spec_overlap(a, b) == Ok::<_, ContextError>(true),
        spec_overlap(b, a) == Ok::<_, ContextError>(true),
{
    lemma_extract_finite(b);
    let ma = Map::<Seq<char>, SpecValue>::empty();
    assert(ma.dom() =~= Set::<Seq<char>>::empty());
    if mb.dom().len() <= ma.dom().len() {
        mb.dom().lemma_len0_is_empty();
        assert(spec_submap(mb, ma));
    }
    assert(spec_submap(ma, mb));
}

} // verus!
