//! The mutation engine: deep merge, recursive defaulting and the in-place
//! patch operations.
//!
//! Patch operations are applied in two phases. Phase one evaluates every
//! operation's expressions against the original (pre-patch) target, producing
//! the fully resolved [`PatchOp`] list; that phase lives with the expression
//! evaluator. Phase two, here, applies the resolved operations sequentially
//! against the mutating target, so no operation sees partial results of its
//! own block's expressions.
//!
//! Deep-merge semantics: a `Null` replacement value removes the key (a
//! tombstone, not "set to null"); two objects merge recursively; anything
//! else replaces the value outright.

use vstd::prelude::*;

use crate::error::{ErrV, Error};
use crate::value::{
    duplicate, entries_of, lemma_entries_of, lemma_obj_at, lemma_obj_vals_wf, obj_del,
    obj_find_idx, obj_get, obj_has, obj_idx, obj_lookup, obj_put, obj_remove, obj_set,
    obj_vals_wf, unique_keys, Val, Value,
};
use vstd::pervasive::VecAdditionalExecFns;

verus! {

broadcast use vstd::seq_lib::group_seq_lib_default;

/// Deep merge: `rep` wins, except that two objects merge key by key and a
/// `Null` replacement removes the key.
pub open spec fn merged(target: Val, rep: Val) -> Val
    decreases rep, 1int,
{
    if rep is Object && target is Object {
        proof {
            assert(decreases_to!(rep => rep->Object_0));
        }
        Val::Object(merge_entries(target->Object_0, rep->Object_0))
    } else {
        rep
    }
}

/// Fold of the replacement entries, in order, over the target entries.
pub open spec fn merge_entries(
    t: Seq<(Seq<char>, Val)>,
    r: Seq<(Seq<char>, Val)>,
) -> Seq<(Seq<char>, Val)>
    decreases r, 0int,
{
    if r.len() == 0 {
        t
    } else {
        proof {
            assert(decreases_to!(r => r[0]));
            assert(decreases_to!(r[0] => r[0].1));
            assert(decreases_to!(r => r.subrange(1, r.len() as int)));
            assert(r.drop_first() == r.subrange(1, r.len() as int));
        }
        let k = r[0].0;
        let v = r[0].1;
        let t1 = if v is Null {
            obj_del(t, k)
        } else if obj_has(t, k) {
            obj_set(t, k, merged(obj_get(t, k), v))
        } else {
            t.push((k, v))
        };
        merge_entries(t1, r.drop_first())
    }
}

/// Executable deep merge; returns the merged value (the original stays
/// untouched, callers overwrite where the original mutated in place).
#[verifier::loop_isolation(false)]
pub fn merge_values(target: &Value, rep: &Value) -> (r: Value)
    requires
        target@.wf(),
        rep@.wf(),
    ensures
        r@ == merged(target@, rep@),
        r@.wf(),
    decreases rep,
{
    broadcast use lemma_entries_of;

    match (target, rep) {
        (Value::Object(te), Value::Object(re)) => {
            let ghost t0 = entries_of(te@);
            let ghost rm = entries_of(re@);
            proof {
                lemma_obj_vals_wf(t0);
                lemma_obj_vals_wf(rm);
            }
            let mut acc: Vec<(String, Value)> = Vec::new();
            let mut i: usize = 0;
            // start from a deep copy of the target's entries
            while i < te.len()
                invariant
                    i <= te.len(),
                    acc@.len() == i as int,
                    forall|k: int|
                        0 <= k < i as int ==> acc@[k].0@ == te@[k].0@ && acc@[k].1@ == te@[k].1@,
                decreases te.len() - i,
            {
                proof {
                    assert(decreases_to!(*te => te@[i as int]));
                }
                let (k, v) = &te[i];
                acc.push((k.clone(), duplicate(v)));
                i = i + 1;
            }
            proof {
                assert(entries_of(acc@) =~= t0);
                assert(rm.skip(0) =~= rm);
            }
            let mut j: usize = 0;
            while j < re.len()
                invariant
                    j <= re.len(),
                    unique_keys(entries_of(acc@)),
                    obj_vals_wf(entries_of(acc@)),
                    merge_entries(entries_of(acc@), rm.skip(j as int)) == merge_entries(t0, rm),
                decreases re.len() - j,
            {
                let ghost acc0 = entries_of(acc@);
                let (k, v) = &re[j];
                proof {
                    assert(rm.skip(j as int)[0] == rm[j as int]);
                    assert(rm.skip(j as int).drop_first() =~= rm.skip(j as int + 1));
                    lemma_obj_vals_wf(entries_of(acc@));
                    assert(rm[j as int].1.wf());
                }
                if matches!(v, Value::Null) {
                    obj_remove(&mut acc, k);
                    proof {
                        if obj_has(acc0, k@) {
                            let ii = obj_idx(acc0, k@);
                            assert(0 <= ii < acc0.len() && acc0[ii].0 == k@);
                            assert forall|a: int|
                                0 <= a < entries_of(acc@).len() implies (#[trigger] entries_of(
                                acc@,
                            )[a]).1.wf() by {
                                if a < ii {
                                    assert(entries_of(acc@)[a] == acc0[a]);
                                    assert(acc0[a].1.wf());
                                } else {
                                    assert(entries_of(acc@)[a] == acc0[a + 1]);
                                    assert(acc0[a + 1].1.wf());
                                }
                            }
                        }
                        lemma_obj_vals_wf(entries_of(acc@));
                    }
                } else {
                    match obj_find_idx(&acc, k) {
                        Some(idx) => {
                            proof {
                                lemma_obj_at(acc0, idx as int);
                                assert(acc0[idx as int].1.wf());
                                assert(decreases_to!(*rep => rep->Object_0));
                                assert(decreases_to!(rep->Object_0 => rep->Object_0@[j as int]));
                                assert(decreases_to!(rep->Object_0@[j as int] => rep->Object_0@[
                                    j as int].1));
                            }
                            let m = merge_values(&acc[idx].1, v);
                            let k2 = k.clone();
                            acc.set(idx, (k2, m));
                            proof {
                                assert(entries_of(acc@) =~= obj_set(
                                    acc0,
                                    k@,
                                    merged(obj_get(acc0, k@), v@),
                                ));
                                assert forall|a: int, b: int|
                                    0 <= a < b < entries_of(acc@).len() implies entries_of(acc@)[
                                    a].0 != entries_of(acc@)[b].0 by {
                                    assert(entries_of(acc@)[a].0 == acc0[a].0);
                                    assert(entries_of(acc@)[b].0 == acc0[b].0);
                                }
                                assert forall|a: int|
                                    0 <= a < entries_of(acc@).len() implies (#[trigger] entries_of(
                                    acc@,
                                )[a]).1.wf() by {
                                    if a != idx as int {
                                        assert(entries_of(acc@)[a] == acc0[a]);
                                        assert(acc0[a].1.wf());
                                    }
                                }
                                lemma_obj_vals_wf(entries_of(acc@));
                            }
                        }
                        None => {
                            acc.push((k.clone(), duplicate(v)));
                            proof {
                                assert(entries_of(acc@) =~= acc0.push((k@, v@)));
                                assert forall|a: int, b: int|
                                    0 <= a < b < entries_of(acc@).len() implies entries_of(acc@)[
                                    a].0 != entries_of(acc@)[b].0 by {
                                    if b == acc0.len() {
                                        assert(entries_of(acc@)[a].0 == acc0[a].0);
                                        if acc0[a].0 == k@ {
                                            assert(obj_has(acc0, k@));
                                        }
                                    }
                                }
                                assert forall|a: int|
                                    0 <= a < entries_of(acc@).len() implies (#[trigger] entries_of(
                                    acc@,
                                )[a]).1.wf() by {
                                    if a < acc0.len() {
                                        assert(entries_of(acc@)[a] == acc0[a]);
                                        assert(acc0[a].1.wf());
                                    }
                                }
                                lemma_obj_vals_wf(entries_of(acc@));
                            }
                        }
                    }
                }
                j = j + 1;
            }
            proof {
                assert(rm.skip(re@.len() as int).len() == 0);
            }
            let r = Value::Object(acc);
            proof {
                lemma_obj_vals_wf(entries_of(acc@));
            }
            r
        }
        _ => {
            let r = duplicate(rep);
            proof {
                assert(!(rep@ is Object && target@ is Object));
            }
            r
        }
    }
}

/// Recursive defaulting: only keys absent at every nesting level are filled;
/// pre-existing nested keys are preserved even under an all-new default tree.
pub open spec fn defaulted(target: Val, dflt: Val) -> Val
    decreases dflt, 1int,
{
    if target is Object && dflt is Object {
        proof {
            assert(decreases_to!(dflt => dflt->Object_0));
        }
        Val::Object(defaulted_entries(target->Object_0, dflt->Object_0))
    } else {
        target
    }
}

/// Fold of the default entries, in order, over the target entries.
pub open spec fn defaulted_entries(
    t: Seq<(Seq<char>, Val)>,
    d: Seq<(Seq<char>, Val)>,
) -> Seq<(Seq<char>, Val)>
    decreases d, 0int,
{
    if d.len() == 0 {
        t
    } else {
        proof {
            assert(decreases_to!(d => d[0]));
            assert(decreases_to!(d[0] => d[0].1));
            assert(decreases_to!(d => d.subrange(1, d.len() as int)));
            assert(d.drop_first() == d.subrange(1, d.len() as int));
        }
        let k = d[0].0;
        let v = d[0].1;
        let t1 = if !obj_has(t, k) {
            t.push((k, v))
        } else if obj_get(t, k) is Object && v is Object {
            obj_set(t, k, defaulted(obj_get(t, k), v))
        } else {
            t
        };
        defaulted_entries(t1, d.drop_first())
    }
}

/// Executable recursive defaulting (the `default`-record patch operation).
#[verifier::loop_isolation(false)]
pub fn value_default(target: &Value, dflt: &Value) -> (r: Value)
    requires
        target@.wf(),
        dflt@.wf(),
    ensures
        r@ == defaulted(target@, dflt@),
        r@.wf(),
    decreases dflt,
{
    broadcast use lemma_entries_of;

    match (target, dflt) {
        (Value::Object(te), Value::Object(de)) => {
            let ghost t0 = entries_of(te@);
            let ghost dm = entries_of(de@);
            proof {
                lemma_obj_vals_wf(t0);
                lemma_obj_vals_wf(dm);
            }
            let mut acc: Vec<(String, Value)> = crate::value::copy_entries(te);
            proof {
                assert(dm.skip(0) =~= dm);
            }
            let mut j: usize = 0;
            while j < de.len()
                invariant
                    j <= de.len(),
                    unique_keys(entries_of(acc@)),
                    obj_vals_wf(entries_of(acc@)),
                    defaulted_entries(entries_of(acc@), dm.skip(j as int)) == defaulted_entries(
                        t0,
                        dm,
                    ),
                decreases de.len() - j,
            {
                let ghost acc0 = entries_of(acc@);
                let (k, v) = &de[j];
                proof {
                    assert(dm.skip(j as int)[0] == dm[j as int]);
                    assert(dm.skip(j as int).drop_first() =~= dm.skip(j as int + 1));
                    lemma_obj_vals_wf(acc0);
                    assert(dm[j as int].1.wf());
                }
                match obj_find_idx(&acc, k) {
                    None => {
                        acc.push((k.clone(), duplicate(v)));
                        proof {
                            assert(entries_of(acc@) =~= acc0.push((k@, v@)));
                            crate::value::lemma_obj_push_wf(acc0, k@, v@);
                        }
                    }
                    Some(idx) => {
                        proof {
                            lemma_obj_at(acc0, idx as int);
                            lemma_obj_vals_wf(acc0);
                            assert(acc0[idx as int].1.wf());
                        }
                        if matches!(&acc[idx].1, Value::Object(_)) && matches!(
                            v,
                            Value::Object(_),
                        ) {
                            proof {
                                assert(decreases_to!(*dflt => dflt->Object_0));
                                assert(decreases_to!(dflt->Object_0 => dflt->Object_0@[j as int]));
                                assert(decreases_to!(dflt->Object_0@[j as int] => dflt->Object_0@[
                                    j as int].1));
                            }
                            let m = value_default(&acc[idx].1, v);
                            let k2 = k.clone();
                            acc.set(idx, (k2, m));
                            proof {
                                assert(entries_of(acc@) =~= obj_set(
                                    acc0,
                                    k@,
                                    defaulted(obj_get(acc0, k@), v@),
                                ));
                                crate::value::lemma_obj_set_wf(
                                    acc0,
                                    k@,
                                    defaulted(obj_get(acc0, k@), v@),
                                );
                            }
                        }
                    }
                }
                j = j + 1;
            }
            proof {
                assert(dm.skip(de@.len() as int).len() == 0);
            }
            let r = Value::Object(acc);
            proof {
                lemma_obj_vals_wf(entries_of(acc@));
            }
            r
        }
        _ => {
            let r = duplicate(target);
            proof {
                assert(!(target@ is Object && dflt@ is Object));
            }
            r
        }
    }
}

/// A patch operation with every expression already evaluated against the
/// pre-patch target (phase one), ready to be applied (phase two).
#[derive(Debug, PartialEq)]
pub enum PatchOp {
    /// Fails if the key is already present.
    Insert { key: String, value: Value },
    /// Fails if the key is absent.
    Update { key: String, value: Value },
    /// Always succeeds.
    Upsert { key: String, value: Value },
    /// Removes the key if present.
    Erase { key: String },
    /// Copies `from` to `to`; fails if `to` exists; no-op if `from` is absent.
    Copy { from: String, to: String },
    /// Moves `from` to `to`; fails if `to` exists; no-op if `from` is absent.
    Move { from: String, to: String },
    /// Deep-merges into the value under the key; an absent key gets a fresh
    /// object first; a present non-object value is a conflict.
    Merge { key: String, value: Value },
    /// Deep-merges into the target itself.
    MergeRecord { value: Value },
    /// Inserts the value only if the key is absent.
    Default { key: String, value: Value },
    /// Recursive defaulting of the whole target.
    DefaultRecord { value: Value },
}

/// Spec-level model of a patch operation.
#[verifier::ext_equal]
pub enum PatchOpV {
    Insert { key: Seq<char>, value: Val },
    Update { key: Seq<char>, value: Val },
    Upsert { key: Seq<char>, value: Val },
    Erase { key: Seq<char> },
    Copy { from: Seq<char>, to: Seq<char> },
    Move { from: Seq<char>, to: Seq<char> },
    Merge { key: Seq<char>, value: Val },
    MergeRecord { value: Val },
    Default { key: Seq<char>, value: Val },
    DefaultRecord { value: Val },
}

impl View for PatchOp {
    type V = PatchOpV;

    open spec fn view(&self) -> PatchOpV {
        match self {
            PatchOp::Insert { key, value } => PatchOpV::Insert { key: key@, value: value@ },
            PatchOp::Update { key, value } => PatchOpV::Update { key: key@, value: value@ },
            PatchOp::Upsert { key, value } => PatchOpV::Upsert { key: key@, value: value@ },
            PatchOp::Erase { key } => PatchOpV::Erase { key: key@ },
            PatchOp::Copy { from, to } => PatchOpV::Copy { from: from@, to: to@ },
            PatchOp::Move { from, to } => PatchOpV::Move { from: from@, to: to@ },
            PatchOp::Merge { key, value } => PatchOpV::Merge { key: key@, value: value@ },
            PatchOp::MergeRecord { value } => PatchOpV::MergeRecord { value: value@ },
            PatchOp::Default { key, value } => PatchOpV::Default { key: key@, value: value@ },
            PatchOp::DefaultRecord { value } => PatchOpV::DefaultRecord { value: value@ },
        }
    }
}

/// The value carried by a patch operation is well-formed.
pub open spec fn patch_op_wf(op: PatchOpV) -> bool {
    match op {
        PatchOpV::Insert { value, .. } => value.wf(),
        PatchOpV::Update { value, .. } => value.wf(),
        PatchOpV::Upsert { value, .. } => value.wf(),
        PatchOpV::Erase { .. } => true,
        PatchOpV::Copy { .. } => true,
        PatchOpV::Move { .. } => true,
        PatchOpV::Merge { value, .. } => value.wf(),
        PatchOpV::MergeRecord { value } => value.wf(),
        PatchOpV::Default { value, .. } => value.wf(),
        PatchOpV::DefaultRecord { value } => value.wf(),
    }
}

/// What one patch operation does to an object (given as its entries).
pub open spec fn apply_patch_op(
    entries: Seq<(Seq<char>, Val)>,
    op: PatchOpV,
) -> Result<Val, ErrV> {
    match op {
        PatchOpV::Insert { key, value } => if obj_has(entries, key) {
            Err(ErrV::PatchKeyExists { key })
        } else {
            Ok(Val::Object(entries.push((key, value))))
        },
        PatchOpV::Update { key, value } => if obj_has(entries, key) {
            Ok(Val::Object(obj_set(entries, key, value)))
        } else {
            Err(ErrV::PatchKeyMissing { key })
        },
        PatchOpV::Upsert { key, value } => Ok(Val::Object(obj_set(entries, key, value))),
        PatchOpV::Erase { key } => Ok(Val::Object(obj_del(entries, key))),
        PatchOpV::Copy { from, to } => if obj_has(entries, to) {
            Err(ErrV::PatchKeyExists { key: to })
        } else if obj_has(entries, from) {
            Ok(Val::Object(entries.push((to, obj_get(entries, from)))))
        } else {
            Ok(Val::Object(entries))
        },
        PatchOpV::Move { from, to } => if obj_has(entries, to) {
            Err(ErrV::PatchKeyExists { key: to })
        } else if obj_has(entries, from) {
            Ok(Val::Object(obj_del(entries, from).push((to, obj_get(entries, from)))))
        } else {
            Ok(Val::Object(entries))
        },
        PatchOpV::Merge { key, value } => if obj_has(entries, key) {
            if obj_get(entries, key) is Object {
                Ok(Val::Object(obj_set(entries, key, merged(obj_get(entries, key), value))))
            } else {
                Err(ErrV::MergeTypeConflict { key })
            }
        } else {
            Ok(Val::Object(entries.push((key, merged(Val::Object(Seq::empty()), value)))))
        },
        PatchOpV::MergeRecord { value } => Ok(merged(Val::Object(entries), value)),
        PatchOpV::Default { key, value } => if obj_has(entries, key) {
            Ok(Val::Object(entries))
        } else {
            Ok(Val::Object(entries.push((key, value))))
        },
        PatchOpV::DefaultRecord { value } => if value is Object {
            Ok(Val::Object(defaulted_entries(entries, value->Object_0)))
        } else {
            Err(ErrV::NeedsObject)
        },
    }
}

/// Running a patch: operations apply in order against the mutating target;
/// the first failure stops the run and leaves the target as the preceding
/// operations made it.
pub open spec fn patch_run(t: Val, ops: Seq<PatchOpV>) -> (Option<ErrV>, Val)
    decreases ops.len(),
{
    if ops.len() == 0 {
        (None, t)
    } else if !(t is Object) {
        (Some(ErrV::NeedsObject), t)
    } else {
        match apply_patch_op(t->Object_0, ops[0]) {
            Ok(t1) => patch_run(t1, ops.drop_first()),
            Err(e) => (Some(e), t),
        }
    }
}

/// Models of a list of patch operations.
pub open spec fn patch_ops_of(s: Seq<PatchOp>) -> Seq<PatchOpV> {
    s.map_values(|o: PatchOp| o@)
}

/// Moves the value out, leaving `Null` behind.
pub fn take_value(v: &mut Value) -> (r: Value)
    ensures
        r == *old(v),
        final(v)@ == Val::Null,
{
    let mut tmp = Value::Null;
    core::mem::swap(v, &mut tmp);
    tmp
}

/// Applies one resolved patch operation to an object, functionally.
pub fn apply_one(entries: &Vec<(String, Value)>, op: &PatchOp) -> (r: Result<Value, Error>)
    requires
        unique_keys(entries_of(entries@)),
        obj_vals_wf(entries_of(entries@)),
        patch_op_wf(op@),
    ensures
        crate::error::rmodels(r, apply_patch_op(entries_of(entries@), op@)),
        r is Ok ==> (r->Ok_0)@.wf(),
{
    broadcast use lemma_entries_of;

    let ghost m0 = entries_of(entries@);
    proof {
        lemma_obj_vals_wf(m0);
    }
    match op {
        PatchOp::Insert { key, value } => {
            match obj_find_idx(entries, key) {
                Some(i) => {
                    proof {
                        lemma_obj_at(m0, i as int);
                    }
                    Err(Error::PatchKeyExists { key: key.clone() })
                }
                None => {
                    let mut acc = crate::value::copy_entries(entries);
                    acc.push((key.clone(), duplicate(value)));
                    proof {
                        assert(entries_of(acc@) =~= m0.push((key@, value@)));
                        crate::value::lemma_obj_push_wf(m0, key@, value@);
                        lemma_obj_vals_wf(entries_of(acc@));
                    }
                    Ok(Value::Object(acc))
                }
            }
        }
        PatchOp::Update { key, value } => {
            let mut acc = crate::value::copy_entries(entries);
            match obj_find_idx(&acc, key) {
                Some(i) => {
                    proof {
                        lemma_obj_at(m0, i as int);
                    }
                    acc.set(i, (key.clone(), duplicate(value)));
                    proof {
                        assert(entries_of(acc@) =~= obj_set(m0, key@, value@));
                        crate::value::lemma_obj_set_wf(m0, key@, value@);
                        lemma_obj_vals_wf(entries_of(acc@));
                    }
                    Ok(Value::Object(acc))
                }
                None => Err(Error::PatchKeyMissing { key: key.clone() }),
            }
        }
        PatchOp::Upsert { key, value } => {
            let mut acc = crate::value::copy_entries(entries);
            obj_put(&mut acc, key.clone(), duplicate(value));
            proof {
                if obj_has(m0, key@) {
                    crate::value::lemma_obj_set_wf(m0, key@, value@);
                } else {
                    crate::value::lemma_obj_push_wf(m0, key@, value@);
                    assert(obj_set(m0, key@, value@) == m0.push((key@, value@)));
                }
                lemma_obj_vals_wf(entries_of(acc@));
            }
            Ok(Value::Object(acc))
        }
        PatchOp::Erase { key } => {
            let mut acc = crate::value::copy_entries(entries);
            obj_remove(&mut acc, key);
            proof {
                crate::value::lemma_obj_del_wf(m0, key@);
                lemma_obj_vals_wf(entries_of(acc@));
            }
            Ok(Value::Object(acc))
        }
        PatchOp::Copy { from, to } => {
            match obj_find_idx(entries, to) {
                Some(i) => {
                    proof {
                        lemma_obj_at(m0, i as int);
                    }
                    Err(Error::PatchKeyExists { key: to.clone() })
                }
                None => {
                    let mut acc = crate::value::copy_entries(entries);
                    match obj_lookup(entries, from) {
                        Some(v) => {
                            let copied = duplicate(v);
                            proof {
                                let fi = obj_idx(m0, from@);
                                assert(0 <= fi < m0.len() && m0[fi].0 == from@);
                                assert(m0[fi].1.wf());
                            }
                            acc.push((to.clone(), copied));
                            proof {
                                assert(entries_of(acc@) =~= m0.push((to@, obj_get(m0, from@))));
                                crate::value::lemma_obj_push_wf(m0, to@, obj_get(m0, from@));
                                lemma_obj_vals_wf(entries_of(acc@));
                            }
                            Ok(Value::Object(acc))
                        }
                        None => {
                            proof {
                                lemma_obj_vals_wf(entries_of(acc@));
                            }
                            Ok(Value::Object(acc))
                        }
                    }
                }
            }
        }
        PatchOp::Move { from, to } => {
            match obj_find_idx(entries, to) {
                Some(i) => {
                    proof {
                        lemma_obj_at(m0, i as int);
                    }
                    Err(Error::PatchKeyExists { key: to.clone() })
                }
                None => {
                    let mut acc = crate::value::copy_entries(entries);
                    match obj_remove(&mut acc, from) {
                        Some(v) => {
                            proof {
                                let fi = obj_idx(m0, from@);
                                assert(0 <= fi < m0.len() && m0[fi].0 == from@);
                                assert(m0[fi].1.wf());
                                crate::value::lemma_obj_del_wf(m0, from@);
                                if obj_has(obj_del(m0, from@), to@) {
                                    let ti = obj_idx(obj_del(m0, from@), to@);
                                    let d = obj_del(m0, from@);
                                    assert(0 <= ti < d.len() && d[ti].0 == to@);
                                    assert(d[ti] == if ti < fi {
                                        m0[ti]
                                    } else {
                                        m0[ti + 1]
                                    });
                                    assert(obj_has(m0, to@));
                                }
                            }
                            acc.push((to.clone(), v));
                            proof {
                                assert(entries_of(acc@) =~= obj_del(m0, from@).push(
                                    (to@, obj_get(m0, from@)),
                                ));
                                crate::value::lemma_obj_push_wf(
                                    obj_del(m0, from@),
                                    to@,
                                    obj_get(m0, from@),
                                );
                                lemma_obj_vals_wf(entries_of(acc@));
                            }
                            Ok(Value::Object(acc))
                        }
                        None => {
                            proof {
                                lemma_obj_vals_wf(entries_of(acc@));
                            }
                            Ok(Value::Object(acc))
                        }
                    }
                }
            }
        }
        PatchOp::Merge { key, value } => {
            match obj_lookup(entries, key) {
                Some(cur) => {
                    proof {
                        let ki = obj_idx(m0, key@);
                        assert(0 <= ki < m0.len() && m0[ki].0 == key@);
                        assert(m0[ki].1.wf());
                    }
                    if matches!(cur, Value::Object(_)) {
                        let m = merge_values(cur, value);
                        let mut acc = crate::value::copy_entries(entries);
                        obj_put(&mut acc, key.clone(), m);
                        proof {
                            crate::value::lemma_obj_set_wf(
                                m0,
                                key@,
                                merged(obj_get(m0, key@), value@),
                            );
                            lemma_obj_vals_wf(entries_of(acc@));
                        }
                        Ok(Value::Object(acc))
                    } else {
                        Err(Error::MergeTypeConflict { key: key.clone() })
                    }
                }
                None => {
                    let fresh = Value::Object(Vec::new());
                    proof {
                        assert(fresh@ == Val::Object(entries_of(Seq::<(String, Value)>::empty())));
                        assert(entries_of(Seq::<(String, Value)>::empty())
                            =~= Seq::<(Seq<char>, Val)>::empty());
                    }
                    let m = merge_values(&fresh, value);
                    let mut acc = crate::value::copy_entries(entries);
                    acc.push((key.clone(), m));
                    proof {
                        assert(entries_of(acc@) =~= m0.push(
                            (key@, merged(Val::Object(Seq::empty()), value@)),
                        ));
                        crate::value::lemma_obj_push_wf(
                            m0,
                            key@,
                            merged(Val::Object(Seq::empty()), value@),
                        );
                        lemma_obj_vals_wf(entries_of(acc@));
                    }
                    Ok(Value::Object(acc))
                }
            }
        }
        PatchOp::MergeRecord { value } => {
            let whole = Value::Object(crate::value::copy_entries(entries));
            proof {
                lemma_obj_vals_wf(m0);
            }
            let m = merge_values(&whole, value);
            Ok(m)
        }
        PatchOp::Default { key, value } => {
            let mut acc = crate::value::copy_entries(entries);
            match obj_find_idx(&acc, key) {
                Some(i) => {
                    proof {
                        lemma_obj_at(m0, i as int);
                        lemma_obj_vals_wf(entries_of(acc@));
                    }
                    Ok(Value::Object(acc))
                }
                None => {
                    acc.push((key.clone(), duplicate(value)));
                    proof {
                        assert(entries_of(acc@) =~= m0.push((key@, value@)));
                        crate::value::lemma_obj_push_wf(m0, key@, value@);
                        lemma_obj_vals_wf(entries_of(acc@));
                    }
                    Ok(Value::Object(acc))
                }
            }
        }
        PatchOp::DefaultRecord { value } => {
            if matches!(value, Value::Object(_)) {
                let whole = Value::Object(crate::value::copy_entries(entries));
                proof {
                    lemma_obj_vals_wf(m0);
                }
                let d = value_default(&whole, value);
                Ok(d)
            } else {
                Err(Error::NeedsObject)
            }
        }
    }
}

/// Phase two of `patch`: applies the resolved operations in order against the
/// mutating target. On failure the target keeps the state the preceding
/// operations produced (the caller surfaces the error).
#[verifier::loop_isolation(false)]
pub fn patch_apply(target: &mut Value, ops: &Vec<PatchOp>) -> (r: Result<(), Error>)
    requires
        old(target)@.wf(),
        forall|i: int| 0 <= i < ops@.len() ==> patch_op_wf((#[trigger] ops@[i])@),
    ensures
        final(target)@ == patch_run(old(target)@, patch_ops_of(ops@)).1,
        final(target)@.wf(),
        match r {
            Ok(()) => patch_run(old(target)@, patch_ops_of(ops@)).0 is None,
            Err(e) => patch_run(old(target)@, patch_ops_of(ops@)).0 == Some(e@),
        },
{
    broadcast use lemma_entries_of;

    let ghost all = patch_ops_of(ops@);
    let mut cur = take_value(target);
    let mut i: usize = 0;
    proof {
        assert(all.skip(0) =~= all);
    }
    while i < ops.len()
        invariant
            i <= ops.len(),
            cur@.wf(),
            patch_run(cur@, all.skip(i as int)) == patch_run(old(target)@, all),
        decreases ops.len() - i,
    {
        proof {
            assert(all.skip(i as int)[0] == all[i as int]);
            assert(all.skip(i as int).drop_first() =~= all.skip(i as int + 1));
        }
        if let Value::Object(entries) = &cur {
            proof {
                lemma_obj_vals_wf(entries_of(entries@));
            }
            match apply_one(entries, &ops[i]) {
                Ok(next) => {
                    cur = next;
                }
                Err(e) => {
                    *target = cur;
                    return Err(e);
                }
            }
        } else {
            *target = cur;
            return Err(Error::NeedsObject);
        }
        i = i + 1;
    }
    proof {
        assert(all.skip(ops@.len() as int).len() == 0);
    }
    *target = cur;
    Ok(())
}

/// Every part of `before` survives in `after`: an object's keys are all
/// still present with recursively preserved values, and anything else is
/// unchanged outright.
pub open spec fn preserved_in(before: Val, after: Val) -> bool
    decreases before, 1int,
{
    if before is Object && after is Object {
        proof {
            assert(decreases_to!(before => before->Object_0));
        }
        preserved_entries(before->Object_0, after->Object_0)
    } else {
        before == after
    }
}

/// Every entry of `b` is present in `a` with a preserved value.
pub open spec fn preserved_entries(
    b: Seq<(Seq<char>, Val)>,
    a: Seq<(Seq<char>, Val)>,
) -> bool
    decreases b, 0int,
{
    if b.len() == 0 {
        true
    } else {
        proof {
            assert(decreases_to!(b => b[0]));
            assert(decreases_to!(b[0] => b[0].1));
            assert(decreases_to!(b => b.subrange(1, b.len() as int)));
            assert(b.drop_first() == b.subrange(1, b.len() as int));
        }
        obj_has(a, b[0].0) && preserved_in(b[0].1, obj_get(a, b[0].0)) && preserved_entries(
            b.drop_first(),
            a,
        )
    }
}

/// `preserved_entries` is the pointwise statement.
pub proof fn lemma_preserved_entries_iff(b: Seq<(Seq<char>, Val)>, a: Seq<(Seq<char>, Val)>)
    ensures
        preserved_entries(b, a) <==> (forall|i: int|
            0 <= i < b.len() ==> obj_has(a, (#[trigger] b[i]).0) && preserved_in(
                b[i].1,
                obj_get(a, b[i].0),
            )),
    decreases b.len(),
{
    if b.len() > 0 {
        lemma_preserved_entries_iff(b.drop_first(), a);
        assert(preserved_entries(b, a) == (obj_has(a, b[0].0) && preserved_in(
            b[0].1,
            obj_get(a, b[0].0),
        ) && preserved_entries(b.drop_first(), a)));
        assert forall|i: int|
            0 <= i < b.drop_first().len() implies #[trigger] b.drop_first()[i] == b[i + 1] by {}
        if preserved_entries(b, a) {
            assert forall|i: int|
                0 <= i < b.len() implies obj_has(a, (#[trigger] b[i]).0) && preserved_in(
                b[i].1,
                obj_get(a, b[i].0),
            ) by {
                if i > 0 {
                    assert(b.drop_first()[i - 1] == b[i]);
                }
            }
        }
        if forall|i: int|
            0 <= i < b.len() ==> obj_has(a, (#[trigger] b[i]).0) && preserved_in(
                b[i].1,
                obj_get(a, b[i].0),
            ) {
            assert(obj_has(a, b[0].0) && preserved_in(b[0].1, obj_get(a, b[0].0)));
            assert forall|i: int|
                0 <= i < b.drop_first().len() implies obj_has(
                a,
                (#[trigger] b.drop_first()[i]).0,
            ) && preserved_in(b.drop_first()[i].1, obj_get(a, b.drop_first()[i].0)) by {
                assert(b.drop_first()[i] == b[i + 1]);
            }
        }
    }
}

/// Preservation is reflexive on well-formed values.
pub proof fn lemma_preserved_refl(v: Val)
    requires
        v.wf(),
    ensures
        preserved_in(v, v),
    decreases v,
{
    if v is Object {
        let m = v->Object_0;
        crate::value::lemma_wf_unfold(v);
        crate::value::lemma_obj_vals_wf(m);
        lemma_preserved_entries_iff(m, m);
        assert forall|i: int|
            0 <= i < m.len() implies obj_has(m, (#[trigger] m[i]).0) && preserved_in(
            m[i].1,
            obj_get(m, m[i].0),
        ) by {
            lemma_obj_at(m, i);
            assert(m[i].1.wf());
            assert(decreases_to!(v => m));
            assert(decreases_to!(m => m[i]));
            assert(decreases_to!(m[i] => m[i].1));
            lemma_preserved_refl(m[i].1);
        }
    }
}

/// Preservation composes.
pub proof fn lemma_preserved_trans(a: Val, b: Val, c: Val)
    requires
        preserved_in(a, b),
        preserved_in(b, c),
    ensures
        preserved_in(a, c),
    decreases a,
{
    if a is Object && b is Object && c is Object {
        let am = a->Object_0;
        let bm = b->Object_0;
        let cm = c->Object_0;
        lemma_preserved_entries_iff(am, bm);
        lemma_preserved_entries_iff(bm, cm);
        lemma_preserved_entries_iff(am, cm);
        assert forall|i: int|
            0 <= i < am.len() implies obj_has(cm, (#[trigger] am[i]).0) && preserved_in(
            am[i].1,
            obj_get(cm, am[i].0),
        ) by {
            let k = am[i].0;
            assert(obj_has(bm, k) && preserved_in(am[i].1, obj_get(bm, k)));
            let bj = obj_idx(bm, k);
            assert(0 <= bj < bm.len() && bm[bj].0 == k);
            assert(obj_has(cm, bm[bj].0) && preserved_in(bm[bj].1, obj_get(cm, bm[bj].0)));
            assert(decreases_to!(a => am));
            assert(decreases_to!(am => am[i]));
            assert(decreases_to!(am[i] => am[i].1));
            lemma_preserved_trans(am[i].1, obj_get(bm, k), obj_get(cm, k));
        }
    } else if a is Object && b is Object {
        // c matches b exactly (b is an object, so preserved_in(b, c) forces
        // c == b), contradiction with c not an object
        assert(b == c);
    } else {
        assert(a == b);
    }
}

/// Recursive defaulting preserves everything that was already there: only
/// true gaps are filled, and deeply pre-existing keys survive even under an
/// otherwise-new default subtree.
pub proof fn lemma_defaulted_preserves(target: Val, dflt: Val)
    requires
        target.wf(),
        dflt.wf(),
    ensures
        preserved_in(target, defaulted(target, dflt)),
    decreases dflt, 2int,
{
    if target is Object && dflt is Object {
        crate::value::lemma_wf_unfold(target);
        crate::value::lemma_wf_unfold(dflt);
        crate::value::lemma_obj_vals_wf(dflt->Object_0);
        assert(decreases_to!(dflt => dflt->Object_0));
        lemma_defaulted_entries_preserves(target->Object_0, dflt->Object_0);
    } else {
        lemma_preserved_refl(target);
    }
}

/// The fold of the default entries preserves the target's entries, keeps its
/// keys unique and its values well-formed.
pub proof fn lemma_defaulted_entries_preserves(
    t: Seq<(Seq<char>, Val)>,
    d: Seq<(Seq<char>, Val)>,
)
    requires
        unique_keys(t),
        obj_vals_wf(t),
        obj_vals_wf(d),
    ensures
        unique_keys(defaulted_entries(t, d)),
        obj_vals_wf(defaulted_entries(t, d)),
        preserved_entries(t, defaulted_entries(t, d)),
    decreases d, 1int,
{
    crate::value::lemma_obj_vals_wf(t);
    crate::value::lemma_obj_vals_wf(d);
    lemma_preserved_entries_iff(t, t);
    assert forall|i: int|
        0 <= i < t.len() implies obj_has(t, (#[trigger] t[i]).0) && preserved_in(
        t[i].1,
        obj_get(t, t[i].0),
    ) by {
        lemma_obj_at(t, i);
        lemma_preserved_refl(t[i].1);
    }
    assert(preserved_entries(t, t));
    if d.len() > 0 {
        let k = d[0].0;
        let v = d[0].1;
        assert(decreases_to!(d => d[0]));
        assert(decreases_to!(d[0] => d[0].1));
        assert(decreases_to!(d => d.subrange(1, d.len() as int)));
        assert(d.drop_first() == d.subrange(1, d.len() as int));
        let t1 = if !obj_has(t, k) {
            t.push((k, v))
        } else if obj_get(t, k) is Object && v is Object {
            obj_set(t, k, defaulted(obj_get(t, k), v))
        } else {
            t
        };
        assert(d[0].1.wf());
        if !obj_has(t, k) {
            crate::value::lemma_obj_push_wf(t, k, v);
            lemma_preserved_entries_iff(t, t1);
            assert forall|i: int|
                0 <= i < t.len() implies obj_has(t1, (#[trigger] t[i]).0) && preserved_in(
                t[i].1,
                obj_get(t1, t[i].0),
            ) by {
                lemma_obj_at(t, i);
                lemma_obj_at(t1, i);
                assert(t1[i] == t[i]);
                lemma_preserved_refl(t[i].1);
            }
        } else if obj_get(t, k) is Object && v is Object {
            let ki = obj_idx(t, k);
            assert(0 <= ki < t.len() && t[ki].0 == k);
            assert(t[ki].1.wf());
            crate::value::lemma_wf_unfold(obj_get(t, k));
            crate::value::lemma_wf_unfold(v);
            crate::value::lemma_obj_vals_wf(obj_get(t, k)->Object_0);
            crate::value::lemma_obj_vals_wf(v->Object_0);
            lemma_defaulted_entries_preserves(obj_get(t, k)->Object_0, v->Object_0);
            let nv = defaulted(obj_get(t, k), v);
            assert(nv is Object && nv->Object_0 == defaulted_entries(
                obj_get(t, k)->Object_0,
                v->Object_0,
            ));
            crate::value::lemma_wf_unfold(nv);
            assert(nv.wf());
            crate::value::lemma_obj_set_wf(t, k, nv);
            assert(preserved_in(obj_get(t, k), nv));
            lemma_preserved_entries_iff(t, t1);
            assert forall|i: int|
                0 <= i < t.len() implies obj_has(t1, (#[trigger] t[i]).0) && preserved_in(
                t[i].1,
                obj_get(t1, t[i].0),
            ) by {
                lemma_obj_at(t, i);
                lemma_obj_at(t1, i);
                if i == ki {
                    assert(t1[i] == (k, nv));
                } else {
                    assert(t1[i] == t[i]);
                    lemma_preserved_refl(t[i].1);
                }
            }
        }
        // recurse over the remaining default entries
        crate::value::lemma_obj_vals_wf(t1);
        assert forall|i: int| 0 <= i < t1.len() implies (#[trigger] t1[i]).1.wf() by {
            if obj_has(t, k) && obj_get(t, k) is Object && v is Object {
                if i != obj_idx(t, k) {
                    assert(t1[i] == t[i]);
                }
            } else if !obj_has(t, k) {
                if i < t.len() {
                    assert(t1[i] == t[i]);
                }
            } else {
                assert(t1[i] == t[i]);
            }
        }
        assert forall|i: int|
            0 <= i < d.drop_first().len() implies (#[trigger] d.drop_first()[i]).1.wf() by {
            assert(d.drop_first()[i] == d[i + 1]);
        }
        crate::value::lemma_obj_vals_wf(d.drop_first());
        lemma_defaulted_entries_preserves(t1, d.drop_first());
        assert(defaulted_entries(t, d) == defaulted_entries(t1, d.drop_first()));
        // compose: t preserved in t1, t1 preserved in the final fold
        lemma_preserved_entries_iff(t, t1);
        lemma_preserved_entries_iff(t1, defaulted_entries(t, d));
        lemma_preserved_entries_iff(t, defaulted_entries(t, d));
        assert forall|i: int|
            0 <= i < t.len() implies obj_has(
            defaulted_entries(t, d),
            (#[trigger] t[i]).0,
        ) && preserved_in(t[i].1, obj_get(defaulted_entries(t, d), t[i].0)) by {
            let kk = t[i].0;
            assert(obj_has(t1, kk) && preserved_in(t[i].1, obj_get(t1, kk)));
            let j = obj_idx(t1, kk);
            assert(0 <= j < t1.len() && t1[j].0 == kk);
            assert(obj_has(defaulted_entries(t, d), t1[j].0) && preserved_in(
                t1[j].1,
                obj_get(defaulted_entries(t, d), t1[j].0),
            ));
            lemma_preserved_trans(
                t[i].1,
                obj_get(t1, kk),
                obj_get(defaulted_entries(t, d), kk),
            );
        }
    }
}

} // verus!

