//! The dynamic value model: a recursive tagged union over null, booleans,
//! integers, strings, byte strings, arrays and records (objects).
//!
//! Records are kept as insertion-ordered key/value vectors whose keys are
//! unique; that invariant is [`Val::wf`] and every operation of the library
//! preserves it. The mathematical model of a [`Value`] is the spec datatype
//! [`Val`], reached through the `@` (view) operator.

use vstd::prelude::*;

verus! {

broadcast use vstd::seq_lib::group_seq_lib_default;

/// Spec-level model of a dynamic value: strings become character sequences,
/// byte strings become byte sequences, arrays and objects become sequences.
#[verifier::ext_equal]
pub enum Val {
    Null,
    Bool(bool),
    U64(u64),
    I64(i64),
    Str(Seq<char>),
    Bytes(Seq<u8>),
    Array(Seq<Val>),
    Object(Seq<(Seq<char>, Val)>),
}

impl Val {
    /// Well-formedness: object keys are unique at every nesting level.
    pub open spec fn wf(self) -> bool
        decreases self, 2int,
    {
        match self {
            Val::Array(items) => {
                proof {
                    assert(decreases_to!(self => self->Array_0));
                }
                arr_wf(items)
            }
            Val::Object(entries) => {
                proof {
                    assert(decreases_to!(self => self->Object_0));
                }
                unique_keys(entries) && obj_vals_wf(entries)
            }
            _ => true,
        }
    }
}

/// All elements of an array are well-formed.
pub open spec fn arr_wf(s: Seq<Val>) -> bool
    decreases s, 1int,
{
    if s.len() == 0 {
        true
    } else {
        proof {
            assert(decreases_to!(s => s.subrange(0, s.len() - 1)));
            assert(s.drop_last() == s.subrange(0, s.len() - 1));
            assert(decreases_to!(s => s[s.len() - 1]));
        }
        arr_wf(s.drop_last()) && s.last().wf()
    }
}

/// All values of an object's entries are well-formed.
pub open spec fn obj_vals_wf(s: Seq<(Seq<char>, Val)>) -> bool
    decreases s, 1int,
{
    if s.len() == 0 {
        true
    } else {
        proof {
            assert(decreases_to!(s => s.subrange(0, s.len() - 1)));
            assert(s.drop_last() == s.subrange(0, s.len() - 1));
            assert(decreases_to!(s => s[s.len() - 1]));
            assert(decreases_to!(s[s.len() - 1] => s[s.len() - 1].1));
        }
        obj_vals_wf(s.drop_last()) && s.last().1.wf()
    }
}

/// `arr_wf` is the pointwise statement.
pub broadcast proof fn lemma_arr_wf(s: Seq<Val>)
    ensures
        #[trigger] arr_wf(s) <==> (forall|i: int| 0 <= i < s.len() ==> (#[trigger] s[i]).wf()),
    decreases s.len(),
{
    if s.len() > 0 {
        lemma_arr_wf(s.drop_last());
        assert(s.last() == s[s.len() - 1]);
        assert forall|i: int| 0 <= i < s.len() - 1 implies s.drop_last()[i] == s[i] by {}
    }
}

/// `obj_vals_wf` is the pointwise statement.
pub broadcast proof fn lemma_obj_vals_wf(s: Seq<(Seq<char>, Val)>)
    ensures
        #[trigger] obj_vals_wf(s) <==> (forall|i: int|
            0 <= i < s.len() ==> (#[trigger] s[i]).1.wf()),
    decreases s.len(),
{
    if s.len() > 0 {
        lemma_obj_vals_wf(s.drop_last());
        assert(s.last() == s[s.len() - 1]);
        assert forall|i: int| 0 <= i < s.len() - 1 implies s.drop_last()[i] == s[i] by {}
    }
}

/// Does an object (a sequence of key/value pairs) hold the given key?
pub open spec fn obj_has(entries: Seq<(Seq<char>, Val)>, key: Seq<char>) -> bool {
    exists|i: int| 0 <= i < entries.len() && entries[i].0 == key
}

/// Index of some entry with the given key (unique when keys are unique).
pub open spec fn obj_idx(entries: Seq<(Seq<char>, Val)>, key: Seq<char>) -> int {
    choose|i: int| 0 <= i < entries.len() && entries[i].0 == key
}

/// The value stored under the given key.
pub open spec fn obj_get(entries: Seq<(Seq<char>, Val)>, key: Seq<char>) -> Val {
    entries[obj_idx(entries, key)].1
}

/// The keys of an object, as a set.
pub open spec fn obj_dom(entries: Seq<(Seq<char>, Val)>) -> Set<Seq<char>> {
    Set::new(|k: Seq<char>| obj_has(entries, k))
}

/// No two entries share a key.
pub open spec fn unique_keys(entries: Seq<(Seq<char>, Val)>) -> bool {
    forall|i: int, j: int| 0 <= i < j < entries.len() ==> entries[i].0 != entries[j].0
}

/// Set a key: overwrite in place if present, else append.
pub open spec fn obj_set(
    entries: Seq<(Seq<char>, Val)>,
    key: Seq<char>,
    v: Val,
) -> Seq<(Seq<char>, Val)> {
    if obj_has(entries, key) {
        entries.update(obj_idx(entries, key), (key, v))
    } else {
        entries.push((key, v))
    }
}

/// Remove a key if present.
pub open spec fn obj_del(entries: Seq<(Seq<char>, Val)>, key: Seq<char>) -> Seq<(Seq<char>, Val)> {
    if obj_has(entries, key) {
        entries.remove(obj_idx(entries, key))
    } else {
        entries
    }
}

/// Appending a fresh key keeps an object well-formed.
pub proof fn lemma_obj_push_wf(m: Seq<(Seq<char>, Val)>, k: Seq<char>, v: Val)
    requires
        unique_keys(m),
        obj_vals_wf(m),
        !obj_has(m, k),
        v.wf(),
    ensures
        unique_keys(m.push((k, v))),
        obj_vals_wf(m.push((k, v))),
{
    let m1 = m.push((k, v));
    assert forall|a: int, b: int| 0 <= a < b < m1.len() implies m1[a].0 != m1[b].0 by {
        if b == m.len() {
            if m[a].0 == k {
                assert(obj_has(m, k));
            }
        }
    }
    lemma_obj_vals_wf(m);
    assert forall|a: int| 0 <= a < m1.len() implies (#[trigger] m1[a]).1.wf() by {
        if a < m.len() {
            assert(m1[a] == m[a]);
        }
    }
    lemma_obj_vals_wf(m1);
}

/// Overwriting a present key keeps an object well-formed.
pub proof fn lemma_obj_set_wf(m: Seq<(Seq<char>, Val)>, k: Seq<char>, v: Val)
    requires
        unique_keys(m),
        obj_vals_wf(m),
        obj_has(m, k),
        v.wf(),
    ensures
        unique_keys(obj_set(m, k, v)),
        obj_vals_wf(obj_set(m, k, v)),
{
    let i = obj_idx(m, k);
    assert(0 <= i < m.len() && m[i].0 == k);
    let m1 = obj_set(m, k, v);
    assert forall|a: int, b: int| 0 <= a < b < m1.len() implies m1[a].0 != m1[b].0 by {
        assert(m1[a].0 == m[a].0);
        assert(m1[b].0 == m[b].0);
    }
    lemma_obj_vals_wf(m);
    assert forall|a: int| 0 <= a < m1.len() implies (#[trigger] m1[a]).1.wf() by {
        if a != i {
            assert(m1[a] == m[a]);
        }
    }
    lemma_obj_vals_wf(m1);
}

/// Removing a key keeps an object well-formed.
pub proof fn lemma_obj_del_wf(m: Seq<(Seq<char>, Val)>, k: Seq<char>)
    requires
        unique_keys(m),
        obj_vals_wf(m),
    ensures
        unique_keys(obj_del(m, k)),
        obj_vals_wf(obj_del(m, k)),
{
    lemma_obj_vals_wf(m);
    if obj_has(m, k) {
        let i = obj_idx(m, k);
        assert(0 <= i < m.len() && m[i].0 == k);
        let m1 = obj_del(m, k);
        assert forall|a: int, b: int| 0 <= a < b < m1.len() implies m1[a].0 != m1[b].0 by {
            assert(m1[a] == if a < i {
                m[a]
            } else {
                m[a + 1]
            });
            assert(m1[b] == if b < i {
                m[b]
            } else {
                m[b + 1]
            });
        }
        assert forall|a: int| 0 <= a < m1.len() implies (#[trigger] m1[a]).1.wf() by {
            if a < i {
                assert(m1[a] == m[a]);
            } else {
                assert(m1[a] == m[a + 1]);
            }
        }
        lemma_obj_vals_wf(m1);
    }
}

/// Copy of an entry vector whose model is the same.
#[verifier::loop_isolation(false)]
pub fn copy_entries(entries: &Vec<(String, Value)>) -> (r: Vec<(String, Value)>)
    ensures
        entries_of(r@) == entries_of(entries@),
{
    broadcast use lemma_entries_of;

    let mut out: Vec<(String, Value)> = Vec::new();
    let mut i: usize = 0;
    while i < entries.len()
        invariant
            i <= entries.len(),
            out@.len() == i as int,
            forall|k: int|
                0 <= k < i as int ==> out@[k].0@ == entries@[k].0@ && out@[k].1@
                    == entries@[k].1@,
        decreases entries.len() - i,
    {
        let (k, v) = &entries[i];
        out.push((k.clone(), duplicate(v)));
        i = i + 1;
    }
    proof {
        assert(entries_of(out@) =~= entries_of(entries@));
    }
    out
}

/// With unique keys, the entry at index `i` is exactly the one `obj_idx`
/// picks for its key.
pub proof fn lemma_obj_at(entries: Seq<(Seq<char>, Val)>, i: int)
    requires
        unique_keys(entries),
        0 <= i < entries.len(),
    ensures
        obj_has(entries, entries[i].0),
        obj_idx(entries, entries[i].0) == i,
        obj_get(entries, entries[i].0) == entries[i].1,
{
    let k = entries[i].0;
    assert(obj_has(entries, k));
    let j = obj_idx(entries, k);
    assert(0 <= j < entries.len() && entries[j].0 == k);
    if j != i {
        assert(false);
    }
}

/// A dynamic value flowing through the pipeline: event payloads, metadata,
/// script state and every intermediate result of the expression language.
#[derive(Debug, PartialEq)]
pub enum Value {
    Null,
    Bool(bool),
    U64(u64),
    I64(i64),
    Str(String),
    Bytes(Vec<u8>),
    Array(Vec<Value>),
    Object(Vec<(String, Value)>),
}

/// Models of the elements of an array, in order.
pub open spec fn vals_of(s: Seq<Value>) -> Seq<Val>
    decreases s,
{
    if s.len() == 0 {
        Seq::<Val>::empty()
    } else {
        proof {
            assert(decreases_to!(s => s.subrange(0, s.len() - 1)));
            assert(s.drop_last() == s.subrange(0, s.len() - 1));
            assert(decreases_to!(s => s[s.len() - 1]));
        }
        vals_of(s.drop_last()).push(s.last().view())
    }
}

/// Models of the entries of an object, in order.
pub open spec fn entries_of(s: Seq<(String, Value)>) -> Seq<(Seq<char>, Val)>
    decreases s,
{
    if s.len() == 0 {
        Seq::<(Seq<char>, Val)>::empty()
    } else {
        proof {
            assert(decreases_to!(s => s.subrange(0, s.len() - 1)));
            assert(s.drop_last() == s.subrange(0, s.len() - 1));
            assert(decreases_to!(s => s[s.len() - 1]));
            assert(decreases_to!(s[s.len() - 1] => s[s.len() - 1].1));
        }
        entries_of(s.drop_last()).push((s.last().0@, s.last().1.view()))
    }
}

impl View for Value {
    type V = Val;

    open spec fn view(&self) -> Val
        decreases self,
    {
        match self {
            Value::Null => Val::Null,
            Value::Bool(b) => Val::Bool(*b),
            Value::U64(n) => Val::U64(*n),
            Value::I64(n) => Val::I64(*n),
            Value::Str(s) => Val::Str(s@),
            Value::Bytes(b) => Val::Bytes(b@),
            Value::Array(items) => Val::Array(vals_of(items@)),
            Value::Object(entries) => Val::Object(entries_of(entries@)),
        }
    }
}

/// `vals_of` is the pointwise model of the sequence.
pub broadcast proof fn lemma_vals_of(s: Seq<Value>)
    ensures
        (#[trigger] vals_of(s)).len() == s.len(),
        forall|i: int| 0 <= i < s.len() ==> vals_of(s)[i] == s[i]@,
    decreases s.len(),
{
    if s.len() == 0 {
        assert(vals_of(s) =~= Seq::<Val>::empty());
    } else {
        lemma_vals_of(s.drop_last());
        assert(vals_of(s) == vals_of(s.drop_last()).push(s.last()@));
        assert forall|i: int| 0 <= i < s.len() implies vals_of(s)[i] == s[i]@ by {
            if i < s.len() - 1 {
                assert(vals_of(s)[i] == vals_of(s.drop_last())[i]);
                assert(s.drop_last()[i] == s[i]);
            }
        }
    }
}

/// `entries_of` is the pointwise model of the entry sequence.
pub broadcast proof fn lemma_entries_of(s: Seq<(String, Value)>)
    ensures
        (#[trigger] entries_of(s)).len() == s.len(),
        forall|i: int|
            0 <= i < s.len() ==> entries_of(s)[i] == (s[i].0@, s[i].1@),
    decreases s.len(),
{
    if s.len() == 0 {
        assert(entries_of(s) =~= Seq::<(Seq<char>, Val)>::empty());
    } else {
        lemma_entries_of(s.drop_last());
        assert(entries_of(s) == entries_of(s.drop_last()).push((s.last().0@, s.last().1@)));
        assert forall|i: int|
            0 <= i < s.len() implies entries_of(s)[i] == (s[i].0@, s[i].1@) by {
            if i < s.len() - 1 {
                assert(entries_of(s)[i] == entries_of(s.drop_last())[i]);
                assert(s.drop_last()[i] == s[i]);
            }
        }
    }
}

impl Value {
    /// Well-formedness of the run-time value, in terms of its model.
    pub open spec fn wf(&self) -> bool {
        self@.wf()
    }
}

/// Deep copy. The library never relies on a derived clone for values; this
/// copy is verified to preserve the model.
#[verifier::loop_isolation(false)]
pub fn duplicate(v: &Value) -> (r: Value)
    ensures
        r@ == v@,
    decreases v,
{
    broadcast use lemma_vals_of, lemma_entries_of;

    match v {
        Value::Null => Value::Null,
        Value::Bool(b) => Value::Bool(*b),
        Value::U64(n) => Value::U64(*n),
        Value::I64(n) => Value::I64(*n),
        Value::Str(s) => Value::Str(s.clone()),
        Value::Bytes(b) => Value::Bytes(b.clone()),
        Value::Array(items) => {
            let mut out: Vec<Value> = Vec::new();
            let mut i: usize = 0;
            while i < items.len()
                invariant
                    i <= items.len(),
                    out@.len() == i as int,
                    forall|k: int| 0 <= k < i as int ==> out@[k]@ == items@[k]@,
                decreases items.len() - i,
            {
                proof {
                    assert(decreases_to!(*v => v->Array_0));
                    assert(decreases_to!(v->Array_0 => v->Array_0@[i as int]));
                }
                out.push(duplicate(&items[i]));
                i = i + 1;
            }
            let r = Value::Array(out);
            proof {
                assert(vals_of(out@) =~= vals_of(items@));
            }
            r
        }
        Value::Object(entries) => {
            let mut out: Vec<(String, Value)> = Vec::new();
            let mut i: usize = 0;
            while i < entries.len()
                invariant
                    i <= entries.len(),
                    out@.len() == i as int,
                    forall|k: int|
                        0 <= k < i as int ==> out@[k].0@ == entries@[k].0@ && out@[k].1@
                            == entries@[k].1@,
                decreases entries.len() - i,
            {
                proof {
                    assert(decreases_to!(*v => v->Object_0));
                    assert(decreases_to!(v->Object_0 => v->Object_0@[i as int]));
                }
                let (k, val) = &entries[i];
                out.push((k.clone(), duplicate(val)));
                i = i + 1;
            }
            let r = Value::Object(out);
            proof {
                assert(entries_of(out@) =~= entries_of(entries@));
            }
            r
        }
    }
}

/// Index of the entry holding `key`, if any.
#[verifier::loop_isolation(false)]
pub fn obj_find_idx(entries: &Vec<(String, Value)>, key: &String) -> (r: Option<usize>)
    ensures
        match r {
            Some(i) => i < entries@.len() && entries@[i as int].0@ == key@,
            None => !obj_has(entries_of(entries@), key@),
        },
{
    broadcast use lemma_entries_of;

    let mut i: usize = 0;
    while i < entries.len()
        invariant
            i <= entries.len(),
            forall|j: int| 0 <= j < i as int ==> entries@[j].0@ != key@,
        decreases entries.len() - i,
    {
        if entries[i].0 == *key {
            return Some(i);
        }
        i = i + 1;
    }
    proof {
        assert forall|j: int|
            0 <= j < entries_of(entries@).len() implies entries_of(entries@)[j].0 != key@ by {}
    }
    None
}

/// Borrow the value stored under `key`, if present.
pub fn obj_lookup<'a>(entries: &'a Vec<(String, Value)>, key: &String) -> (r: Option<&'a Value>)
    requires
        unique_keys(entries_of(entries@)),
    ensures
        match r {
            Some(v) => obj_has(entries_of(entries@), key@) && v@ == obj_get(
                entries_of(entries@),
                key@,
            ),
            None => !obj_has(entries_of(entries@), key@),
        },
{
    broadcast use lemma_entries_of;

    match obj_find_idx(entries, key) {
        Some(i) => {
            proof {
                lemma_obj_at(entries_of(entries@), i as int);
            }
            Some(&entries[i].1)
        }
        None => None,
    }
}

/// Insert or overwrite `key`; keeps keys unique and insertion order stable.
pub fn obj_put(entries: &mut Vec<(String, Value)>, key: String, val: Value)
    requires
        unique_keys(entries_of(old(entries)@)),
    ensures
        entries_of(final(entries)@) == obj_set(entries_of(old(entries)@), key@, val@),
        unique_keys(entries_of(final(entries)@)),
{
    broadcast use lemma_entries_of;

    let ghost m0 = entries_of(entries@);
    match obj_find_idx(entries, &key) {
        Some(i) => {
            proof {
                lemma_obj_at(m0, i as int);
            }
            entries.set(i, (key, val));
            proof {
                assert(entries_of(entries@) =~= obj_set(m0, key@, val@));
            }
        }
        None => {
            entries.push((key, val));
            proof {
                assert(entries_of(entries@) =~= obj_set(m0, key@, val@));
            }
        }
    }
}

/// Remove `key` if present; returns the removed value.
pub fn obj_remove(entries: &mut Vec<(String, Value)>, key: &String) -> (r: Option<Value>)
    requires
        unique_keys(entries_of(old(entries)@)),
    ensures
        entries_of(final(entries)@) == obj_del(entries_of(old(entries)@), key@),
        unique_keys(entries_of(final(entries)@)),
        match r {
            Some(v) => obj_has(entries_of(old(entries)@), key@) && v@ == obj_get(
                entries_of(old(entries)@),
                key@,
            ),
            None => !obj_has(entries_of(old(entries)@), key@),
        },
{
    broadcast use lemma_entries_of;

    let ghost m0 = entries_of(entries@);
    match obj_find_idx(entries, key) {
        Some(i) => {
            proof {
                lemma_obj_at(m0, i as int);
            }
            let (_, v) = entries.remove(i);
            proof {
                assert(entries_of(entries@) =~= obj_del(m0, key@));
            }
            Some(v)
        }
        None => None,
    }
}

/// The keys of an object, in order (used to report lookup failures).
#[verifier::loop_isolation(false)]
pub fn obj_keys(entries: &Vec<(String, Value)>) -> (r: Vec<String>)
    ensures
        r@.len() == entries@.len(),
        forall|i: int| 0 <= i < r@.len() ==> r@[i]@ == entries@[i].0@,
{
    let mut out: Vec<String> = Vec::new();
    let mut i: usize = 0;
    while i < entries.len()
        invariant
            i <= entries.len(),
            out@.len() == i as int,
            forall|k: int| 0 <= k < i as int ==> out@[k]@ == entries@[k].0@,
        decreases entries.len() - i,
    {
        out.push(entries[i].0.clone());
        i = i + 1;
    }
    out
}


/// What well-formedness unfolds to, by variant.
pub broadcast proof fn lemma_wf_unfold(v: Val)
    ensures
        #[trigger] v.wf() <==> (match v {
            Val::Array(items) => arr_wf(items),
            Val::Object(entries) => unique_keys(entries) && obj_vals_wf(entries),
            _ => true,
        }),
{
}

/// What the view unfolds to, by variant.
pub broadcast proof fn lemma_view_unfold(v: Value)
    ensures
        #[trigger] v@ == (match v {
            Value::Null => Val::Null,
            Value::Bool(b) => Val::Bool(b),
            Value::U64(n) => Val::U64(n),
            Value::I64(n) => Val::I64(n),
            Value::Str(s) => Val::Str(s@),
            Value::Bytes(b) => Val::Bytes(b@),
            Value::Array(items) => Val::Array(vals_of(items@)),
            Value::Object(entries) => Val::Object(entries_of(entries@)),
        }),
{
}

/// Decides well-formedness at run time, so an embedder that decoded an
/// untrusted value (possibly with duplicate object keys) can establish the
/// validity the interpreter's functions require.
#[verifier::loop_isolation(false)]
pub fn check_wf(v: &Value) -> (r: bool)
    ensures
        r == v@.wf(),
    decreases v,
{
    broadcast use lemma_vals_of, lemma_entries_of, lemma_wf_unfold;

    match v {
        Value::Array(items) => {
            let ghost m = vals_of(items@);
            proof {
                lemma_arr_wf(m);
            }
            let mut i: usize = 0;
            while i < items.len()
                invariant
                    i <= items@.len(),
                    forall|k: int| 0 <= k < i as int ==> (#[trigger] m[k]).wf(),
                decreases items@.len() - i,
            {
                proof {
                    assert(decreases_to!(*items => items@[i as int]));
                }
                if !check_wf(&items[i]) {
                    proof {
                        assert(!m[i as int].wf());
                    }
                    return false;
                }
                i = i + 1;
            }
            true
        }
        Value::Object(entries) => {
            let ghost m = entries_of(entries@);
            proof {
                lemma_obj_vals_wf(m);
            }
            let mut i: usize = 0;
            while i < entries.len()
                invariant
                    i <= entries@.len(),
                    forall|a: int, b: int| 0 <= a < b < i as int ==> m[a].0 != m[b].0,
                    forall|a: int, b: int|
                        0 <= a < i as int && a < b < m.len() ==> m[a].0 != m[b].0,
                    forall|k: int| 0 <= k < i as int ==> (#[trigger] m[k]).1.wf(),
                decreases entries@.len() - i,
            {
                let mut j: usize = i + 1;
                while j < entries.len()
                    invariant
                        i < j <= entries@.len(),
                        i < entries@.len(),
                        forall|b: int| (i as int) < b < (j as int) ==> m[i as int].0 != m[b].0,
                    decreases entries@.len() - j,
                {
                    if entries[i].0 == entries[j].0 {
                        proof {
                            assert(m[i as int].0 == m[j as int].0);
                            assert(!unique_keys(m));
                        }
                        return false;
                    }
                    j = j + 1;
                }
                proof {
                    assert(decreases_to!(*entries => entries@[i as int]));
                    assert(decreases_to!(entries@[i as int] => entries@[i as int].1));
                }
                if !check_wf(&entries[i].1) {
                    proof {
                        assert(!m[i as int].1.wf());
                    }
                    return false;
                }
                i = i + 1;
            }
            proof {
                assert(unique_keys(m));
            }
            true
        }
        _ => true,
    }
}

} // verus!
