//! A closed model of JSON-shaped values.
//!
//! Targeting contexts, bound dimension values and configuration documents are
//! all JSON-shaped. They are modelled by [`Value`]: null, booleans, integers,
//! strings, ordered arrays, and objects. An object holds its entries as an
//! ordered list of key/value pairs; producers keep the keys unique, and
//! lookups take the first entry with a matching key.

use vstd::prelude::*;

verus! {

/// A JSON-shaped value.
#[derive(Debug, PartialEq)]
pub enum Value {
    Null,
    Bool(bool),
    Int(i64),
    Str(String),
    Arr(Vec<Value>),
    Obj(Vec<(String, Value)>),
}

/// The mathematical shape of a [`Value`]: the same tree over `int`,
/// `Seq<char>` and `Seq`.
pub enum SpecValue {
    Null,
    Bool(bool),
    Int(int),
    Str(Seq<char>),
    Arr(Seq<SpecValue>),
    Obj(Seq<(Seq<char>, SpecValue)>),
}

impl View for Value {
    type V = SpecValue;

    open spec fn view(&self) -> SpecValue
        decreases self,
    {
        match self {
            Value::Null => SpecValue::Null,
            Value::Bool(b) => SpecValue::Bool(*b),
            Value::Int(n) => SpecValue::Int(*n as int),
            Value::Str(s) => SpecValue::Str(s@),
            Value::Arr(items) => SpecValue::Arr(
                Seq::new(
                    items@.len(),
                    |i: int|
                        if 0 <= i < items@.len() {
                            items@[i]@
                        } else {
                            SpecValue::Null
                        },
                ),
            ),
            Value::Obj(entries) => SpecValue::Obj(
                Seq::new(
                    entries@.len(),
                    |i: int|
                        (
                            entries@[i].0@,
                            if 0 <= i < entries@.len() {
                                entries@[i].1@
                            } else {
                                SpecValue::Null
                            },
                        ),
                ),
            ),
        }
    }
}

impl Value {
    /// A deep copy that keeps the view.
    #[verifier::loop_isolation(false)]
    pub fn duplicate(&self) -> (r: Value)
        ensures
            r@ == self@,
        decreases *self,
    {
        match self {
            Value::Null => Value::Null,
            Value::Bool(b) => Value::Bool(*b),
            Value::Int(n) => Value::Int(*n),
            Value::Str(s) => Value::Str(s.clone()),
            Value::Arr(items) => {
                let mut out: Vec<Value> = Vec::new();
                let mut i: usize = 0;
                while i < items.len()
                    invariant
                        i <= items@.len(),
                        out@.len() == i as int,
                        forall|j: int| 0 <= j < i ==> out@[j]@ == items@[j]@,
                    decreases items@.len() - i,
                {
                    let d = items[i].duplicate();
                    out.push(d);
                    i += 1;
                }
                let r = Value::Arr(out);
                proof {
                    assert(r@->Arr_0 =~= self@->Arr_0);
                }
                r
            },
            Value::Obj(entries) => {
                let mut out: Vec<(String, Value)> = Vec::new();
                let mut i: usize = 0;
                while i < entries.len()
                    invariant
                        i <= entries@.len(),
                        out@.len() == i as int,
                        forall|j: int| 0 <= j < i
                            ==> out@[j].0@ == entries@[j].0@ && out@[j].1@ == entries@[j].1@,
                    decreases entries@.len() - i,
                {
                    let (k, v) = &entries[i];
                    let d = v.duplicate();
                    out.push((k.clone(), d));
                    i += 1;
                }
                let r = Value::Obj(out);
                proof {
                    assert(r@->Obj_0 =~= self@->Obj_0);
                }
                r
            },
        }
    }
}

/// The view of an object's entry list: each key as a `Seq<char>`, each value
/// as a `SpecValue`.
pub open spec fn spec_obj_entries(entries: Seq<(String, Value)>) -> Seq<(Seq<char>, SpecValue)> {
    Seq::new(entries.len(), |i: int| (entries[i].0@, entries[i].1@))
}

/// The view of an array's element list.
pub open spec fn spec_values(items: Seq<Value>) -> Seq<SpecValue> {
    Seq::new(items.len(), |i: int| items[i]@)
}

/// Lookup in an object's entry list: the first entry whose key matches.
pub open spec fn obj_lookup(entries: Seq<(Seq<char>, SpecValue)>, key: Seq<char>) -> Option<
    SpecValue,
>
    decreases entries.len(),
{
    if entries.len() == 0 {
        None
    } else if entries[0].0 == key {
        Some(entries[0].1)
    } else {
        obj_lookup(entries.drop_first(), key)
    }
}

/// Finds the first entry with the given key in an object's entry list.
#[verifier::loop_isolation(false)]
pub fn obj_get<'a>(entries: &'a Vec<(String, Value)>, key: &String) -> (r: Option<&'a Value>)
    ensures
        match r {
            Some(v) => obj_lookup(spec_obj_entries(entries@), key@) == Some(v@),
            None => obj_lookup(spec_obj_entries(entries@), key@) is None,
        },
{
    let ghost all = spec_obj_entries(entries@);
    proof {
        assert(all.skip(0) =~= all);
    }
    let mut i: usize = 0;
    while i < entries.len()
        invariant
            i <= entries@.len(),
            obj_lookup(all, key@) == obj_lookup(all.skip(i as int), key@),
        decreases entries@.len() - i,
    {
        let (k, v) = &entries[i];
        proof {
            assert(all.skip(i as int)[0] == all[i as int]);
        }
        if *k == *key {
            return Some(v);
        }
        proof {
            assert(all.skip(i as int).drop_first() =~= all.skip(i as int + 1));
        }
        i += 1;
    }
    proof {
        assert(all.skip(entries@.len() as int) =~= Seq::<(Seq<char>, SpecValue)>::empty());
    }
    None
}

/// Structural equality of two values, decided recursively.
#[verifier::loop_isolation(false)]
pub fn val_eq(a: &Value, b: &Value) -> (r: bool)
    ensures
        r == (a@ == b@),
    decreases *a,
{
    match (a, b) {
        (Value::Null, Value::Null) => true,
        (Value::Bool(x), Value::Bool(y)) => *x == *y,
        (Value::Int(x), Value::Int(y)) => *x == *y,
        (Value::Str(x), Value::Str(y)) => *x == *y,
        (Value::Arr(x), Value::Arr(y)) => {
            if x.len() != y.len() {
                proof {
                    assert(a@->Arr_0.len() == x@.len());
                    assert(b@->Arr_0.len() == y@.len());
                }
                return false;
            }
            let mut i: usize = 0;
            while i < x.len()
                invariant
                    x@.len() == y@.len(),
                    i <= x@.len(),
                    forall|j: int| 0 <= j < i ==> x@[j]@ == y@[j]@,
                decreases x@.len() - i,
            {
                if !val_eq(&x[i], &y[i]) {
                    assert(a@ != b@) by {
                        assert(a@->Arr_0[i as int] != b@->Arr_0[i as int]);
                    }
                    return false;
                }
                i += 1;
            }
            proof {
                assert(a@->Arr_0 =~= b@->Arr_0);
            }
            true
        },
        (Value::Obj(x), Value::Obj(y)) => {
            if x.len() != y.len() {
                proof {
                    assert(a@->Obj_0.len() == x@.len());
                    assert(b@->Obj_0.len() == y@.len());
                }
                return false;
            }
            let mut i: usize = 0;
            while i < x.len()
                invariant
                    x@.len() == y@.len(),
                    i <= x@.len(),
                    forall|j: int| 0 <= j < i ==> x@[j].0@ == y@[j].0@ && x@[j].1@ == y@[j].1@,
                decreases x@.len() - i,
            {
                let (xk, xv) = &x[i];
                let (yk, yv) = &y[i];
                if !(*xk == *yk) {
                    assert(a@ != b@) by {
                        assert(a@->Obj_0[i as int].0 != b@->Obj_0[i as int].0);
                    }
                    return false;
                }
                if !val_eq(xv, yv) {
                    assert(a@ != b@) by {
                        assert(a@->Obj_0[i as int].1 != b@->Obj_0[i as int].1);
                    }
                    return false;
                }
                i += 1;
            }
            proof {
                assert(a@->Obj_0 =~= b@->Obj_0);
            }
            true
        },
        _ => {
            assert(a@ != b@);
            false
        },
    }
}

} // verus!
