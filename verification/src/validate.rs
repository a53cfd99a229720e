//! Experiment conflict validation.
//!
//! A candidate experiment is held against every active experiment. For each
//! pair the validator decides whether the contexts overlap and how the
//! override-key sets relate, then applies the three independently toggled
//! restrictions; the first active experiment that triggers an enabled
//! restriction rejects the candidate with one fixed reason.

use crate::context::{are_overlapping_contexts, spec_overlap, ContextError};
use crate::experiment::{
    spec_strings, Experiment, ExperimentStatusType, ExperimentationFlags,
};
use crate::json::{SpecValue, Value};
use vstd::prelude::*;

verus! {

/// Some key of `a` also stands in `b`.
pub open spec fn spec_intersects(a: Seq<Seq<char>>, b: Seq<Seq<char>>) -> bool {
    exists|i: int| 0 <= i < a.len() && b.contains(a[i])
}

/// Every key of `a` also stands in `b`. The check is deliberately one-sided:
/// the candidate's key set may be a strict superset of the active one's and
/// still count as covering it.
pub open spec fn spec_subset_keys(a: Seq<Seq<char>>, b: Seq<Seq<char>>) -> bool {
    forall|i: int| 0 <= i < a.len() ==> b.contains(a[i])
}

/// All three conflict classes are tolerated, so no check is needed.
pub open spec fn spec_all_flags_allow(flags: ExperimentationFlags) -> bool {
    flags.allow_same_keys_overlapping_ctx && flags.allow_diff_keys_overlapping_ctx
        && flags.allow_same_keys_non_overlapping_ctx
}

/// Whether one active experiment triggers an enabled restriction against
/// the candidate's context and override keys.
pub open spec fn spec_conflicts(
    ctx: SpecValue,
    keys: Seq<Seq<char>>,
    flags: ExperimentationFlags,
    active: Experiment,
) -> Result<bool, ContextError> {
    match spec_overlap(ctx, active.context@) {
        Ok(overlapping) => {
            let active_keys = spec_strings(active.override_keys@);
            let intersects = spec_intersects(active_keys, keys);
            let subset = spec_subset_keys(active_keys, keys);
            Ok(
                (!flags.allow_diff_keys_overlapping_ctx && overlapping && !subset) || (
                !flags.allow_same_keys_overlapping_ctx && overlapping && intersects) || (
                !flags.allow_same_keys_non_overlapping_ctx && !overlapping && intersects),
            )
        },
        Err(e) => Err(e),
    }
}

/// The verdict for a candidate against a list of active experiments: `true`
/// with no restriction enabled or no active experiment triggering one,
/// `false` at the first active experiment that triggers one, or the first
/// extraction error met on the way.
pub open spec fn spec_validate(
    ctx: SpecValue,
    keys: Seq<Seq<char>>,
    flags: ExperimentationFlags,
    exps: Seq<Experiment>,
) -> Result<bool, ContextError>
    decreases exps.len(),
{
    if spec_all_flags_allow(flags) {
        Ok(true)
    } else if exps.len() == 0 {
        Ok(true)
    } else {
        match spec_conflicts(ctx, keys, flags, exps[0]) {
            Ok(triggered) => if triggered {
                Ok(false)
            } else {
                spec_validate(ctx, keys, flags, exps.drop_first())
            },
            Err(e) => Err(e),
        }
    }
}

/// The fixed reason handed back with every rejection.
pub open spec fn spec_conflict_reason() -> Seq<char> {
    "This current context overlaps with an existing experiment or the keys in the context are overlapping"@
}

/// Whether a key name stands in a key list.
#[verifier::loop_isolation(false)]
fn contains_key_name(keys: &Vec<String>, key: &String) -> (r: bool)
    ensures
        r == spec_strings(keys@).contains(key@),
{
    let mut i: usize = 0;
    while i < keys.len()
        invariant
            i <= keys@.len(),
            forall|j: int| 0 <= j < i ==> spec_strings(keys@)[j] != key@,
        decreases keys@.len() - i,
    {
        if keys[i] == *key {
            proof {
                assert(spec_strings(keys@)[i as int] == key@);
            }
            return true;
        }
        i += 1;
    }
    proof {
        assert forall|j: int| 0 <= j < spec_strings(keys@).len() implies spec_strings(keys@)[j]
            != key@ by {}
    }
    false
}

/// Whether some key of `a` also stands in `b`.
#[verifier::loop_isolation(false)]
fn any_key_in(a: &Vec<String>, b: &Vec<String>) -> (r: bool)
    ensures
        r == spec_intersects(spec_strings(a@), spec_strings(b@)),
{
    let mut i: usize = 0;
    while i < a.len()
        invariant
            i <= a@.len(),
            forall|j: int| 0 <= j < i ==> !spec_strings(b@).contains(#[trigger] spec_strings(a@)[j]),
        decreases a@.len() - i,
    {
        if contains_key_name(b, &a[i]) {
            proof {
                assert(spec_strings(b@).contains(spec_strings(a@)[i as int]));
            }
            return true;
        }
        i += 1;
    }
    false
}

/// Whether every key of `a` also stands in `b`.
#[verifier::loop_isolation(false)]
fn all_keys_in(a: &Vec<String>, b: &Vec<String>) -> (r: bool)
    ensures
        r == spec_subset_keys(spec_strings(a@), spec_strings(b@)),
{
    let mut i: usize = 0;
    while i < a.len()
        invariant
            i <= a@.len(),
            forall|j: int| 0 <= j < i ==> spec_strings(b@).contains(#[trigger] spec_strings(a@)[j]),
        decreases a@.len() - i,
    {
        if !contains_key_name(b, &a[i]) {
            proof {
                assert(!spec_strings(b@).contains(spec_strings(a@)[i as int]));
            }
            return false;
        }
        i += 1;
    }
    true
}

/// Decides whether a candidate experiment, given by its targeting context
/// and override keys, may be activated beside the given active experiments
/// under the given flags. Approval comes with an empty reason, rejection
/// with one fixed reason that does not name the conflict class.
#[verifier::loop_isolation(false)]
pub fn is_valid_experiment(
    context: &Value,
    override_keys: &Vec<String>,
    flags: &ExperimentationFlags,
    active_experiments: &Vec<Experiment>,
) -> (r: Result<(bool, String), ContextError>)
    ensures
        match r {
            Ok(p) => {
                &&& spec_validate(
                    context@,
                    spec_strings(override_keys@),
                    *flags,
                    active_experiments@,
                ) == Ok::<_, ContextError>(p.0)
                &&& p.0 ==> p.1@ == Seq::<char>::empty()
                &&& !p.0 ==> p.1@ == spec_conflict_reason()
            },
            Err(e) => spec_validate(
                context@,
                spec_strings(override_keys@),
                *flags,
                active_experiments@,
            ) == Err::<bool, _>(e),
        },
{
    if flags.allow_same_keys_overlapping_ctx && flags.allow_diff_keys_overlapping_ctx
        && flags.allow_same_keys_non_overlapping_ctx {
        return Ok((true, String::new()));
    }
    let ghost exps = active_experiments@;
    let ghost keys = spec_strings(override_keys@);
    proof {
        assert(exps.skip(0) =~= exps);
    }
    let mut i: usize = 0;
    while i < active_experiments.len()
        invariant
            i <= exps.len(),
            spec_validate(context@, keys, *flags, exps) == spec_validate(
                context@,
                keys,
                *flags,
                exps.skip(i as int),
            ),
        decreases exps.len() - i,
    {
        proof {
            assert(exps.skip(i as int)[0] == exps[i as int]);
        }
        let active = &active_experiments[i];
        let overlapping = match are_overlapping_contexts(context, &active.context) {
            Ok(b) => b,
            Err(e) => {
                return Err(e);
            },
        };
        let intersects = any_key_in(&active.override_keys, override_keys);
        let subset = all_keys_in(&active.override_keys, override_keys);
        let mut triggered = false;
        if !flags.allow_diff_keys_overlapping_ctx && overlapping && !subset {
            triggered = true;
        }
        if !flags.allow_same_keys_overlapping_ctx && overlapping && intersects {
            triggered = true;
        }
        if !flags.allow_same_keys_non_overlapping_ctx && !overlapping && intersects {
            triggered = true;
        }
        if triggered {
            let reason =
                "This current context overlaps with an existing experiment or the keys in the context are overlapping".to_owned();
            return Ok((false, reason));
        }
        proof {
            assert(exps.skip(i as int).drop_first() =~= exps.skip(i as int + 1));
        }
        i += 1;
    }
    proof {
        assert(exps.skip(exps.len() as int) =~= Seq::<Experiment>::empty());
    }
    Ok((true, String::new()))
}

/// The experiment identity a validation call leaves out: the one under
/// edit, or identity zero when none is named.
pub open spec fn spec_excluded_id(experiment_id: Option<i64>) -> i64 {
    match experiment_id {
        Some(id) => id,
        None => 0,
    }
}

/// Whether an experiment takes part in conflict validation: it is not the
/// excluded one, and it is `CREATED` or `INPROGRESS`.
pub open spec fn spec_is_active(e: Experiment, excluded_id: i64) -> bool {
    e.id != excluded_id && (e.status == ExperimentStatusType::CREATED || e.status
        == ExperimentStatusType::INPROGRESS)
}

/// The sub-list of experiments that take part in conflict validation, in
/// their given order.
pub open spec fn spec_active_experiments(exps: Seq<Experiment>, excluded_id: i64) -> Seq<
    Experiment,
>
    decreases exps.len(),
{
    if exps.len() == 0 {
        Seq::empty()
    } else {
        let rest = spec_active_experiments(exps.drop_first(), excluded_id);
        if spec_is_active(exps[0], excluded_id) {
            seq![exps[0]] + rest
        } else {
            rest
        }
    }
}

/// Validates a candidate experiment against a snapshot of experiments:
/// keeps those that are `CREATED` or `INPROGRESS` and are not the
/// experiment under edit, then holds the candidate against them.
#[verifier::loop_isolation(false)]
pub fn validate_experiment(
    context: &Value,
    override_keys: &Vec<String>,
    experiment_id: Option<i64>,
    flags: &ExperimentationFlags,
    experiments: Vec<Experiment>,
) -> (r: Result<(bool, String), ContextError>)
    ensures
        match r {
            Ok(p) => {
                &&& spec_validate(
                    context@,
                    spec_strings(override_keys@),
                    *flags,
                    spec_active_experiments(experiments@, spec_excluded_id(experiment_id)),
                ) == Ok::<_, ContextError>(p.0)
                &&& p.0 ==> p.1@ == Seq::<char>::empty()
                &&& !p.0 ==> p.1@ == spec_conflict_reason()
            },
            Err(e) => spec_validate(
                context@,
                spec_strings(override_keys@),
                *flags,
                spec_active_experiments(experiments@, spec_excluded_id(experiment_id)),
            ) == Err::<bool, _>(e),
        },
{
    let excluded_id: i64 = match experiment_id {
        Some(id) => id,
        None => 0,
    };
    let ghost all = experiments@;
    let mut remaining = experiments;
    let mut active_experiments: Vec<Experiment> = Vec::new();
    proof {
        assert(active_experiments@ + spec_active_experiments(remaining@, excluded_id)
            =~= spec_active_experiments(all, excluded_id));
    }
    while remaining.len() > 0
        invariant
            active_experiments@ + spec_active_experiments(remaining@, excluded_id)
                == spec_active_experiments(all, excluded_id),
        decreases remaining@.len(),
    {
        let ghost before = remaining@;
        let e = remaining.remove(0);
        proof {
            assert(remaining@ =~= before.drop_first());
            assert(before[0] == e);
        }
        let is_active = e.id != excluded_id && (match e.status {
            ExperimentStatusType::CREATED => true,
            ExperimentStatusType::INPROGRESS => true,
            ExperimentStatusType::CONCLUDED => false,
        });
        if is_active {
            let ghost al = active_experiments@;
            active_experiments.push(e);
            proof {
                assert(active_experiments@ =~= al.push(e));
                assert(al.push(e) + spec_active_experiments(remaining@, excluded_id) =~= al + (
                seq![e] + spec_active_experiments(remaining@, excluded_id)));
            }
        }
    }
    proof {
        assert(remaining@.len() == 0);
        assert(spec_active_experiments(remaining@, excluded_id) =~= Seq::<Experiment>::empty());
        assert(active_experiments@ + Seq::<Experiment>::empty() =~= active_experiments@);
    }
    is_valid_experiment(context, override_keys, flags, &active_experiments)
}

/// With every conflict class tolerated, validation approves any candidate
/// against any snapshot, without inspecting the snapshot's records.
pub proof fn lemma_all_flags_allow_approves(
    ctx: SpecValue,
    keys: Seq<Seq<char>>,
    flags: ExperimentationFlags,
    exps: Seq<Experiment>,
)
    requires
        spec_all_flags_allow(flags),
    ensures
        spec_validate(ctx, keys, flags, exps) == Ok::<bool, ContextError>(true),
{
}

/// Validation is a function of its inputs alone: two verdicts for the same
/// candidate, flags and snapshot are the same verdict.
pub proof fn lemma_validate_deterministic(
    ctx: SpecValue,
    keys: Seq<Seq<char>>,
    flags: ExperimentationFlags,
    exps: Seq<Experiment>,
    r1: Result<bool, ContextError>,
    r2: Result<bool, ContextError>,
)
    requires
        r1 == spec_validate(ctx, keys, flags, exps),
        r2 == spec_validate(ctx, keys, flags, exps),
    ensures
        r1 == r2,
{
}

} // verus!
