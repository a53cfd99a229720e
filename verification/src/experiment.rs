//! Experiments, variants, and the authoring-time composition and coverage
//! checks.

use crate::json::{SpecValue, Value};
use crate::json_map::JsonMap;
use vstd::prelude::*;

verus! {

/// The role of one experiment arm.
#[allow(non_camel_case_types)]
#[derive(Clone, Copy, Debug, PartialEq, Eq, Structural)]
pub enum VariantType {
    CONTROL,
    EXPERIMENTAL,
}

/// The lifecycle state of an experiment. Only `CREATED` and `INPROGRESS`
/// experiments take part in conflict validation.
#[allow(non_camel_case_types)]
#[derive(Clone, Copy, Debug, PartialEq, Eq, Structural)]
pub enum ExperimentStatusType {
    CREATED,
    INPROGRESS,
    CONCLUDED,
}

/// One arm of an experiment: its identity, role, and the configuration
/// overrides it applies.
#[derive(Debug, PartialEq)]
pub struct Variant {
    pub id: String,
    pub variant_type: VariantType,
    pub overrides: JsonMap,
}

/// An experiment: identity, targeting context, the configuration keys it
/// may override, its lifecycle state, and its variants.
#[derive(Debug, PartialEq)]
pub struct Experiment {
    pub id: i64,
    pub context: Value,
    pub override_keys: Vec<String>,
    pub status: ExperimentStatusType,
    pub variants: Vec<Variant>,
}

/// The three flags that each tolerate one class of conflict between a
/// candidate experiment and an active one.
#[derive(Clone, Copy, Debug, PartialEq, Eq, Structural)]
pub struct ExperimentationFlags {
    pub allow_same_keys_overlapping_ctx: bool,
    pub allow_diff_keys_overlapping_ctx: bool,
    pub allow_same_keys_non_overlapping_ctx: bool,
}

/// The views of a list of key names.
pub open spec fn spec_strings(keys: Seq<String>) -> Seq<Seq<char>> {
    Seq::new(keys.len(), |i: int| keys[i]@)
}

/// How a variant list can violate the composition rule.
#[derive(Clone, Copy, Debug, PartialEq, Eq, Structural)]
pub enum InvalidComposition {
    /// The list holds no control variant, or more than one.
    ControlCountNotOne,
    /// The list holds no experimental variant.
    NoExperimentalVariant,
}

/// How many variants of a list carry the given role.
pub open spec fn count_variants(vs: Seq<Variant>, t: VariantType) -> nat
    decreases vs.len(),
{
    if vs.len() == 0 {
        0
    } else {
        count_variants(vs.drop_last(), t) + if vs.last().variant_type == t {
            1nat
        } else {
            0nat
        }
    }
}

/// Checks that a variant list holds exactly one control variant and at
/// least one experimental variant.
#[verifier::loop_isolation(false)]
pub fn check_variant_types(variants: &Vec<Variant>) -> (r: Result<(), InvalidComposition>)
    ensures
        match r {
            Ok(_) => count_variants(variants@, VariantType::CONTROL) == 1 && count_variants(
                variants@,
                VariantType::EXPERIMENTAL,
            ) >= 1,
            Err(InvalidComposition::ControlCountNotOne) => count_variants(
                variants@,
                VariantType::CONTROL,
            ) != 1,
            Err(InvalidComposition::NoExperimentalVariant) => count_variants(
                variants@,
                VariantType::CONTROL,
            ) == 1 && count_variants(variants@, VariantType::EXPERIMENTAL) == 0,
        },
{
    let mut control_variant_cnt: usize = 0;
    let mut experimental_variant_cnt: usize = 0;
    let mut i: usize = 0;
    proof {
        assert(variants@.take(0) =~= Seq::<Variant>::empty());
    }
    while i < variants.len()
        invariant
            i <= variants@.len(),
            control_variant_cnt == count_variants(variants@.take(i as int), VariantType::CONTROL),
            experimental_variant_cnt == count_variants(
                variants@.take(i as int),
                VariantType::EXPERIMENTAL,
            ),
            control_variant_cnt <= i,
            experimental_variant_cnt <= i,
        decreases variants@.len() - i,
    {
        proof {
            assert(variants@.take(i as int + 1).drop_last() =~= variants@.take(i as int));
            assert(variants@.take(i as int + 1).last() == variants@[i as int]);
        }
        match variants[i].variant_type {
            VariantType::CONTROL => {
                control_variant_cnt += 1;
            },
            VariantType::EXPERIMENTAL => {
                experimental_variant_cnt += 1;
            },
        }
        i += 1;
    }
    proof {
        assert(variants@.take(variants@.len() as int) =~= variants@);
    }
    if control_variant_cnt > 1 || control_variant_cnt == 0 {
        Err(InvalidComposition::ControlCountNotOne)
    } else if experimental_variant_cnt < 1 {
        Err(InvalidComposition::NoExperimentalVariant)
    } else {
        Ok(())
    }
}

/// An override map covers a required key list exactly: one binding per
/// required entry, and every required key bound. Equal cardinality together
/// with full presence rules out any extra key.
pub open spec fn spec_covers(m: Map<Seq<char>, SpecValue>, keys: Seq<Seq<char>>) -> bool {
    m.dom().len() == keys.len() && forall|i: int| 0 <= i < keys.len() ==> m.dom().contains(keys[i])
}

/// Checks that a variant's override map covers the required keys exactly:
/// the map holds as many bindings as there are required keys, and every
/// required key is bound.
#[verifier::loop_isolation(false)]
pub fn check_variant_override_coverage(
    variant_override: &JsonMap,
    override_keys: &Vec<String>,
) -> (r: bool)
    requires
        variant_override.wf(),
    ensures
        r == spec_covers(variant_override@, spec_strings(override_keys@)),
{
    if variant_override.len() != override_keys.len() {
        return false;
    }
    let mut i: usize = 0;
    while i < override_keys.len()
        invariant
            i <= override_keys@.len(),
            forall|j: int|
                0 <= j < i ==> variant_override@.dom().contains(#[trigger] spec_strings(
                    override_keys@,
                )[j]),
        decreases override_keys@.len() - i,
    {
        match variant_override.get(&override_keys[i]) {
            None => {
                proof {
                    assert(!variant_override@.dom().contains(
                        spec_strings(override_keys@)[i as int],
                    ));
                }
                return false;
            },
            Some(_) => {},
        }
        i += 1;
    }
    true
}

/// All the given override maps cover the required keys.
pub open spec fn spec_all_cover(overrides: Seq<JsonMap>, keys: Seq<Seq<char>>) -> bool {
    forall|i: int| 0 <= i < overrides.len() ==> spec_covers(#[trigger] overrides[i]@, keys)
}

/// Checks that every variant's override map covers the required keys.
#[verifier::loop_isolation(false)]
pub fn check_variants_override_coverage(
    variant_overrides: &Vec<JsonMap>,
    override_keys: &Vec<String>,
) -> (r: bool)
    requires
        forall|i: int| 0 <= i < variant_overrides@.len() ==> (#[trigger] variant_overrides@[i]).wf(),
    ensures
        r == spec_all_cover(variant_overrides@, spec_strings(override_keys@)),
{
    let mut i: usize = 0;
    while i < variant_overrides.len()
        invariant
            i <= variant_overrides@.len(),
            forall|j: int|
                0 <= j < i ==> spec_covers(
                    #[trigger] variant_overrides@[j]@,
                    spec_strings(override_keys@),
                ),
        decreases variant_overrides@.len() - i,
    {
        if !check_variant_override_coverage(&variant_overrides[i], override_keys) {
            return false;
        }
        i += 1;
    }
    true
}

/// No variant of the requested role exists.
#[derive(Clone, Copy, Debug, PartialEq, Eq, Structural)]
pub struct VariantNotFound;

/// The identity of the first variant carrying the given role.
pub open spec fn spec_first_variant_id(vs: Seq<Variant>, t: VariantType) -> Option<Seq<char>>
    decreases vs.len(),
{
    if vs.len() == 0 {
        None
    } else if vs[0].variant_type == t {
        Some(vs[0].id@)
    } else {
        spec_first_variant_id(vs.drop_first(), t)
    }
}

/// Hands back the identity of the experiment's first variant with the given
/// role, or fails when no variant carries it.
#[verifier::loop_isolation(false)]
pub fn fetch_variant_id(experiment: &Experiment, variant: VariantType) -> (r: Result<
    String,
    VariantNotFound,
>)
    ensures
        match r {
            Ok(id) => spec_first_variant_id(experiment.variants@, variant) == Some(id@),
            Err(_) => spec_first_variant_id(experiment.variants@, variant) is None,
        },
{
    let ghost vs = experiment.variants@;
    proof {
        assert(vs.skip(0) =~= vs);
    }
    let mut i: usize = 0;
    while i < experiment.variants.len()
        invariant
            i <= vs.len(),
            spec_first_variant_id(vs, variant) == spec_first_variant_id(
                vs.skip(i as int),
                variant,
            ),
        decreases vs.len() - i,
    {
        proof {
            assert(vs.skip(i as int)[0] == vs[i as int]);
        }
        let ele = &experiment.variants[i];
        let matches_role = match (ele.variant_type, variant) {
            (VariantType::CONTROL, VariantType::CONTROL) => true,
            (VariantType::EXPERIMENTAL, VariantType::EXPERIMENTAL) => true,
            _ => false,
        };
        if matches_role {
            return Ok(ele.id.clone());
        }
        proof {
            assert(vs.skip(i as int).drop_first() =~= vs.skip(i as int + 1));
        }
        i += 1;
    }
    proof {
        assert(vs.skip(vs.len() as int) =~= Seq::<Variant>::empty());
    }
    Err(VariantNotFound)
}

} // verus!
