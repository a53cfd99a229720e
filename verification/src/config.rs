//! Configuration prefix filtering.
//!
//! A resolved configuration document is a flat key/value map. Callers may
//! restrict it to the keys starting with one of a comma-separated list of
//! prefixes, handed in through the `"prefix"` query parameter.

use crate::experiment::spec_strings;
use crate::json::{SpecValue, Value};
use crate::json_map::JsonMap;
use vstd::prelude::*;

verus! {

/// The comma-separated pieces of a string: one piece more than there are
/// commas, each piece possibly empty.
pub open spec fn spec_split_csv(s: Seq<char>) -> Seq<Seq<char>>
    decreases s.len(),
{
    if s.len() == 0 {
        seq![Seq::<char>::empty()]
    } else {
        let pre = spec_split_csv(s.drop_last());
        if s.last() == ',' {
            pre.push(Seq::<char>::empty())
        } else {
            pre.update(pre.len() - 1, pre.last().push(s.last()))
        }
    }
}

/// A split always yields at least one piece.
proof fn lemma_split_csv_nonempty(s: Seq<char>)
    ensures
        spec_split_csv(s).len() >= 1,
    decreases s.len(),
{
    if s.len() > 0 {
        lemma_split_csv_nonempty(s.drop_last());
    }
}

/// Splits a string on commas.
#[verifier::loop_isolation(false)]
pub fn split_csv(s: &str) -> (r: Vec<String>)
    ensures
        spec_strings(r@) == spec_split_csv(s@),
{
    let n = s.unicode_len();
    let mut out: Vec<String> = Vec::new();
    let mut start: usize = 0;
    let mut i: usize = 0;
    proof {
        assert(s@.take(0) =~= Seq::<char>::empty());
        assert(s@.subrange(0, 0) =~= Seq::<char>::empty());
        assert(spec_strings(out@).push(s@.subrange(0, 0)) =~= spec_split_csv(s@.take(0)));
    }
    while i < n
        invariant
            start <= i <= n,
            n == s@.len(),
            spec_split_csv(s@.take(i as int)) == spec_strings(out@).push(
                s@.subrange(start as int, i as int),
            ),
        decreases n - i,
    {
        let c = s.get_char(i);
        proof {
            assert(s@.take(i as int + 1).drop_last() =~= s@.take(i as int));
            assert(s@.take(i as int + 1).last() == s@[i as int]);
            lemma_split_csv_nonempty(s@.take(i as int));
        }
        if c == ',' {
            let piece = s.substring_char(start, i).to_owned();
            let ghost old_out = out@;
            out.push(piece);
            proof {
                assert(spec_strings(out@) =~= spec_strings(old_out).push(
                    s@.subrange(start as int, i as int),
                ));
                assert(spec_split_csv(s@.take(i as int + 1)) == spec_split_csv(
                    s@.take(i as int),
                ).push(Seq::<char>::empty()));
                assert(s@.subrange(i as int + 1, i as int + 1) =~= Seq::<char>::empty());
            }
            start = i + 1;
        } else {
            proof {
                let pre = spec_split_csv(s@.take(i as int));
                assert(pre.last() == s@.subrange(start as int, i as int));
                assert(s@.subrange(start as int, i as int).push(s@[i as int]) =~= s@.subrange(
                    start as int,
                    i as int + 1,
                ));
                assert(pre.update(pre.len() - 1, pre.last().push(s@[i as int]))
                    =~= spec_strings(out@).push(s@.subrange(start as int, i as int + 1)));
            }
        }
        i += 1;
    }
    let piece = s.substring_char(start, n).to_owned();
    let ghost old_out = out@;
    out.push(piece);
    proof {
        assert(s@.take(n as int) =~= s@);
        assert(s@.subrange(start as int, n as int) == piece@);
        assert(spec_strings(out@) =~= spec_strings(old_out).push(piece@));
    }
    out
}

/// Whether a key starts with at least one of the prefixes.
pub open spec fn spec_matches_any_prefix(k: Seq<char>, prefixes: Seq<Seq<char>>) -> bool {
    exists|i: int| 0 <= i < prefixes.len() && (#[trigger] prefixes[i]).is_prefix_of(k)
}

/// Whether a string starts with the given prefix.
#[verifier::loop_isolation(false)]
fn str_starts_with(s: &str, prefix: &str) -> (r: bool)
    ensures
        r == prefix@.is_prefix_of(s@),
{
    let n = prefix.unicode_len();
    let m = s.unicode_len();
    if n > m {
        return false;
    }
    let mut i: usize = 0;
    while i < n
        invariant
            i <= n,
            n <= m,
            n == prefix@.len(),
            m == s@.len(),
            forall|j: int| 0 <= j < i ==> prefix@[j] == s@[j],
        decreases n - i,
    {
        if s.get_char(i) != prefix.get_char(i) {
            proof {
                assert(s@.subrange(0, n as int)[i as int] == s@[i as int]);
            }
            return false;
        }
        i += 1;
    }
    proof {
        assert(prefix@ =~= s@.subrange(0, n as int));
    }
    true
}

/// Whether a key starts with at least one of the prefixes.
#[verifier::loop_isolation(false)]
fn matches_any_prefix(key: &str, prefixes: &Vec<String>) -> (r: bool)
    ensures
        r == spec_matches_any_prefix(key@, spec_strings(prefixes@)),
{
    let mut i: usize = 0;
    while i < prefixes.len()
        invariant
            i <= prefixes@.len(),
            forall|j: int|
                0 <= j < i ==> !(#[trigger] spec_strings(prefixes@)[j]).is_prefix_of(key@),
        decreases prefixes@.len() - i,
    {
        if str_starts_with(key, prefixes[i].as_str()) {
            proof {
                assert(spec_strings(prefixes@)[i as int].is_prefix_of(key@));
            }
            return true;
        }
        i += 1;
    }
    false
}

/// Restricts a configuration document to the keys that start with at least
/// one of the given prefixes. With no prefix at all, nothing is kept.
#[verifier::loop_isolation(false)]
pub fn filter_by_prefix(config: &JsonMap, prefixes: &Vec<String>) -> (r: JsonMap)
    requires
        config.wf(),
    ensures
        r.wf(),
        r@ == config@.restrict(
            Set::new(|k: Seq<char>| spec_matches_any_prefix(k, spec_strings(prefixes@))),
        ),
{
    let ghost kept = Set::new(
        |k: Seq<char>| spec_matches_any_prefix(k, spec_strings(prefixes@)),
    );
    let ghost seen = |i: int|
        Set::new(
            |k: Seq<char>| exists|j: int| 0 <= j < i && config.spec_key_at(j) == k,
        );
    let n = config.len();
    let mut out = JsonMap::new();
    proof {
        assert(out@ =~= config@.restrict(kept.intersect(seen(0))));
    }
    let mut i: usize = 0;
    while i < n
        invariant
            i <= n,
            n == config.spec_len(),
            out.wf(),
            out@ == config@.restrict(kept.intersect(seen(i as int))),
        decreases n - i,
    {
        let entry = config.entry_at(i);
        let ghost k = entry.0@;
        if matches_any_prefix(entry.0.as_str(), prefixes) {
            out.insert(entry.0.clone(), entry.1.duplicate());
            proof {
                assert forall|x: Seq<char>| #[trigger] seen(i as int + 1).contains(x) implies
                    seen(i as int).contains(x) || x == k by {
                    let j = choose|j: int| 0 <= j <= i && config.spec_key_at(j) == x;
                }
                assert(out@ =~= config@.restrict(kept.intersect(seen(i as int + 1))));
            }
        } else {
            proof {
                assert forall|x: Seq<char>| #[trigger] seen(i as int + 1).contains(x) implies
                    seen(i as int).contains(x) || x == k by {
                    let j = choose|j: int| 0 <= j <= i && config.spec_key_at(j) == x;
                }
                assert(kept.intersect(seen(i as int + 1)) =~= kept.intersect(seen(i as int)));
            }
        }
        i += 1;
    }
    proof {
        config.lemma_dom();
        assert forall|x: Seq<char>| config@.dom().contains(x) implies seen(n as int).contains(
            x,
        ) by {
            let j = choose|j: int| 0 <= j < config.spec_len() && config.spec_key_at(j) == x;
            assert(seen(n as int).contains(x));
        }
        assert(config@.restrict(kept.intersect(seen(n as int))) =~= config@.restrict(kept));
    }
    out
}

/// The configuration a prefix-filter request leaves behind: restricted by
/// the comma-separated prefixes when the query parameters bind `"prefix"`
/// to a string, unchanged otherwise.
pub open spec fn spec_prefix_filtered(
    params: Map<Seq<char>, SpecValue>,
    config: Map<Seq<char>, SpecValue>,
) -> Map<Seq<char>, SpecValue> {
    if params.dom().contains("prefix"@) {
        match params["prefix"@] {
            SpecValue::Str(p) => config.restrict(
                Set::new(|k: Seq<char>| spec_matches_any_prefix(k, spec_split_csv(p))),
            ),
            _ => config,
        }
    } else {
        config
    }
}

/// Applies the caller-supplied prefix filter: when the query parameters
/// bind `"prefix"` to a string, the configuration is restricted to the keys
/// matching one of its comma-separated prefixes; the `"prefix"` parameter
/// itself is removed either way. Never fails.
pub fn apply_prefix_filter_to_config(query_params_map: &mut JsonMap, config: JsonMap) -> (r:
    JsonMap)
    requires
        old(query_params_map).wf(),
        config.wf(),
    ensures
        final(query_params_map).wf(),
        final(query_params_map)@ == old(query_params_map)@.remove("prefix"@),
        r.wf(),
        r@ == spec_prefix_filtered(old(query_params_map)@, config@),
{
    let prefix_key = "prefix".to_owned();
    let prefixes_opt: Option<Vec<String>> = match query_params_map.get(&prefix_key) {
        Some(v) => match v {
            Value::Str(p) => Some(split_csv(p.as_str())),
            _ => None,
        },
        None => None,
    };
    query_params_map.remove(&prefix_key);
    match prefixes_opt {
        Some(prefixes) => filter_by_prefix(&config, &prefixes),
        None => config,
    }
}

} // verus!
