//! Structural value equality (`val_eq`).
//!
//! Objects are equal iff they have the same key set (by count and lookup) and
//! recursively equal values; arrays are equal iff they have the same length
//! and pairwise equal elements; strings and byte strings are cross-comparable
//! through the UTF-8 encoding of the string; unsigned and signed integers are
//! cross-comparable by their numeric value.

use vstd::prelude::*;
use vstd::std_specs::iter::IteratorSpec;

use crate::value::{
    entries_of, lemma_arr_wf, lemma_entries_of, lemma_obj_at, lemma_obj_vals_wf, lemma_vals_of,
    obj_get, obj_has, obj_lookup, unique_keys, vals_of, Val, Value,
};

verus! {

broadcast use vstd::seq_lib::group_seq_lib_default;

/// The UTF-8 encoding of one character.
pub open spec fn char_utf8(c: char) -> Seq<u8> {
    let u = c as u32;
    if u < 0x80 {
        seq![u as u8]
    } else if u < 0x800 {
        seq![(0xC0u32 | (u >> 6u32)) as u8, (0x80u32 | (u & 0x3Fu32)) as u8]
    } else if u < 0x10000 {
        seq![
            (0xE0u32 | (u >> 12u32)) as u8,
            (0x80u32 | ((u >> 6u32) & 0x3Fu32)) as u8,
            (0x80u32 | (u & 0x3Fu32)) as u8,
        ]
    } else {
        seq![
            (0xF0u32 | (u >> 18u32)) as u8,
            (0x80u32 | ((u >> 12u32) & 0x3Fu32)) as u8,
            (0x80u32 | ((u >> 6u32) & 0x3Fu32)) as u8,
            (0x80u32 | (u & 0x3Fu32)) as u8,
        ]
    }
}

/// The UTF-8 encoding of a character sequence.
pub open spec fn utf8_of(s: Seq<char>) -> Seq<u8>
    decreases s,
{
    if s.len() == 0 {
        Seq::<u8>::empty()
    } else {
        utf8_of(s.drop_last()) + char_utf8(s.last())
    }
}

/// Appends the UTF-8 encoding of `c` to `out`.
pub fn push_char_utf8(out: &mut Vec<u8>, c: char)
    ensures
        final(out)@ == old(out)@ + char_utf8(c),
{
    let u = c as u32;
    if u < 0x80 {
        out.push(u as u8);
    } else if u < 0x800 {
        out.push(#[verifier::truncate] ((0xC0u32 | (u >> 6u32)) as u8));
        out.push(#[verifier::truncate] ((0x80u32 | (u & 0x3Fu32)) as u8));
    } else if u < 0x10000 {
        out.push(#[verifier::truncate] ((0xE0u32 | (u >> 12u32)) as u8));
        out.push(#[verifier::truncate] ((0x80u32 | ((u >> 6u32) & 0x3Fu32)) as u8));
        out.push(#[verifier::truncate] ((0x80u32 | (u & 0x3Fu32)) as u8));
    } else {
        out.push(#[verifier::truncate] ((0xF0u32 | (u >> 18u32)) as u8));
        out.push(#[verifier::truncate] ((0x80u32 | ((u >> 12u32) & 0x3Fu32)) as u8));
        out.push(#[verifier::truncate] ((0x80u32 | ((u >> 6u32) & 0x3Fu32)) as u8));
        out.push(#[verifier::truncate] ((0x80u32 | (u & 0x3Fu32)) as u8));
    }
    proof {
        assert(final(out)@ =~= old(out)@ + char_utf8(c));
    }
}

/// The UTF-8 bytes of a string.
#[verifier::loop_isolation(false)]
pub fn string_utf8(s: &String) -> (r: Vec<u8>)
    ensures
        r@ == utf8_of(s@),
{
    broadcast use vstd::string::axiom_spec_iter, vstd::string::next_postcondition;

    let ghost all: Seq<char> = s@;
    let mut out: Vec<u8> = Vec::new();
    let mut it = s.as_str().chars();
    let ghost mut done: int = 0;
    loop
        invariant
            0 <= done <= all.len(),
            it.obeys_prophetic_iter_laws(),
            it.remaining() =~= all.skip(done),
            out@ == utf8_of(all.take(done)),
        decreases all.len() - done,
    {
        match it.next() {
            Some(c) => {
                push_char_utf8(&mut out, c);
                proof {
                    assert(c == all[done]);
                    done = done + 1;
                    assert(all.take(done).drop_last() =~= all.take(done - 1));
                    assert(all.take(done).last() == c);
                }
            }
            None => {
                proof {
                    assert(all.skip(done).len() == 0);
                    assert(done == all.len());
                    assert(all.take(done) =~= all);
                    assert(out@ == utf8_of(all.take(done)));
                    assert(out@ == utf8_of(all));
                    assert(all == s@);
                }
                return out;
            }
        }
    }
}

/// Are two byte vectors equal, element for element?
#[verifier::loop_isolation(false)]
pub fn bytes_eq(a: &Vec<u8>, b: &Vec<u8>) -> (r: bool)
    ensures
        r == (a@ =~= b@),
{
    if a.len() != b.len() {
        return false;
    }
    let mut i: usize = 0;
    while i < a.len()
        invariant
            i <= a.len(),
            forall|j: int| 0 <= j < i as int ==> a@[j] == b@[j],
        decreases a.len() - i,
    {
        if a[i] != b[i] {
            return false;
        }
        i = i + 1;
    }
    true
}

/// Outcome of a three-way comparison.
#[derive(Clone, Copy, Debug, PartialEq, Eq, Structural)]
pub enum Cmp {
    Lt,
    Eq,
    Gt,
}

/// Lexicographic order on byte sequences (the order byte strings and the
/// UTF-8 bytes of strings are compared in).
pub open spec fn lex_cmp(a: Seq<u8>, b: Seq<u8>) -> Cmp
    decreases a.len(),
{
    if a.len() == 0 && b.len() == 0 {
        Cmp::Eq
    } else if a.len() == 0 {
        Cmp::Lt
    } else if b.len() == 0 {
        Cmp::Gt
    } else if a[0] < b[0] {
        Cmp::Lt
    } else if a[0] > b[0] {
        Cmp::Gt
    } else {
        lex_cmp(a.drop_first(), b.drop_first())
    }
}

/// Three-way lexicographic comparison of byte vectors.
#[verifier::loop_isolation(false)]
pub fn bytes_cmp(a: &Vec<u8>, b: &Vec<u8>) -> (r: Cmp)
    ensures
        r == lex_cmp(a@, b@),
{
    let mut i: usize = 0;
    proof {
        assert(a@.skip(0) =~= a@);
        assert(b@.skip(0) =~= b@);
    }
    loop
        invariant
            i <= a.len(),
            i <= b.len(),
            lex_cmp(a@, b@) == lex_cmp(a@.skip(i as int), b@.skip(i as int)),
        decreases a.len() - i,
    {
        if i < a.len() && i < b.len() {
            if a[i] < b[i] {
                return Cmp::Lt;
            }
            if a[i] > b[i] {
                return Cmp::Gt;
            }
            proof {
                assert(a@.skip(i as int).drop_first() =~= a@.skip(i as int + 1));
                assert(b@.skip(i as int).drop_first() =~= b@.skip(i as int + 1));
            }
            i = i + 1;
        } else if i < b.len() {
            return Cmp::Lt;
        } else if i < a.len() {
            return Cmp::Gt;
        } else {
            return Cmp::Eq;
        }
    }
}

/// The numeric value of an integer-carrying value.
pub open spec fn num_of(v: Val) -> Option<int> {
    match v {
        Val::U64(n) => Some(n as int),
        Val::I64(n) => Some(n as int),
        _ => None,
    }
}

/// Structural equality, see module doc. `spec_val_eq(a, b)` is what the
/// executable `val_eq` decides.
pub open spec fn spec_val_eq(a: Val, b: Val) -> bool
    decreases a, 2int,
{
    match (a, b) {
        (Val::Object(l), Val::Object(r)) => l.len() == r.len() && objs_match(l, r),
        (Val::Array(l), Val::Array(r)) => arrs_match(l, r),
        (Val::Bool(l), Val::Bool(r)) => l == r,
        (Val::Null, Val::Null) => true,
        (Val::Str(l), Val::Str(r)) => l == r,
        (Val::Bytes(l), Val::Bytes(r)) => l == r,
        (Val::Str(l), Val::Bytes(r)) => utf8_of(l) == r,
        (Val::Bytes(l), Val::Str(r)) => l == utf8_of(r),
        (Val::U64(l), Val::U64(r)) => l == r,
        (Val::I64(l), Val::I64(r)) => l == r,
        (Val::U64(l), Val::I64(r)) => l as int == r as int,
        (Val::I64(l), Val::U64(r)) => l as int == r as int,
        _ => false,
    }
}

/// Every entry of `l` is present in `r` with an equal value.
pub open spec fn objs_match(l: Seq<(Seq<char>, Val)>, r: Seq<(Seq<char>, Val)>) -> bool
    decreases l, 1int,
{
    if l.len() == 0 {
        true
    } else {
        proof {
            assert(decreases_to!(l => l[l.len() - 1]));
            assert(decreases_to!(l[l.len() - 1] => l[l.len() - 1].1));
            assert(decreases_to!(l => l.subrange(0, l.len() - 1)));
            assert(l.drop_last() == l.subrange(0, l.len() - 1));
        }
        objs_match(l.drop_last(), r) && obj_has(r, l.last().0) && spec_val_eq(
            l.last().1,
            obj_get(r, l.last().0),
        )
    }
}

/// Arrays match iff they have the same length and pairwise equal elements.
pub open spec fn arrs_match(l: Seq<Val>, r: Seq<Val>) -> bool
    decreases l, 1int,
{
    if l.len() != r.len() {
        false
    } else if l.len() == 0 {
        true
    } else {
        proof {
            assert(decreases_to!(l => l[l.len() - 1]));
            assert(decreases_to!(l => l.subrange(0, l.len() - 1)));
            assert(l.drop_last() == l.subrange(0, l.len() - 1));
        }
        arrs_match(l.drop_last(), r.drop_last()) && spec_val_eq(l.last(), r.last())
    }
}

/// `objs_match` is the pointwise statement.
pub proof fn lemma_objs_match_iff(l: Seq<(Seq<char>, Val)>, r: Seq<(Seq<char>, Val)>)
    ensures
        objs_match(l, r) <==> (forall|i: int|
            0 <= i < l.len() ==> obj_has(r, (#[trigger] l[i]).0) && spec_val_eq(
                l[i].1,
                obj_get(r, l[i].0),
            )),
    decreases l.len(),
{
    if l.len() > 0 {
        lemma_objs_match_iff(l.drop_last(), r);
        assert(l.last() == l[l.len() - 1]);
        assert forall|i: int| 0 <= i < l.len() - 1 implies l.drop_last()[i] == l[i] by {}
    }
}

/// `arrs_match` is the pointwise statement.
pub proof fn lemma_arrs_match_iff(l: Seq<Val>, r: Seq<Val>)
    ensures
        arrs_match(l, r) <==> (l.len() == r.len() && forall|i: int|
            0 <= i < l.len() ==> spec_val_eq(#[trigger] l[i], r[i])),
    decreases l.len(),
{
    if l.len() == r.len() && l.len() > 0 {
        lemma_arrs_match_iff(l.drop_last(), r.drop_last());
        assert(l.last() == l[l.len() - 1] && r.last() == r[r.len() - 1]);
        assert forall|i: int|
            0 <= i < l.len() - 1 implies l.drop_last()[i] == l[i] && r.drop_last()[i] == r[i] by {}
    }
}

/// Executable structural equality; decides `spec_val_eq` on well-formed
/// values.
#[verifier::loop_isolation(false)]
pub fn val_eq(a: &Value, b: &Value) -> (r: bool)
    requires
        a.wf(),
        b.wf(),
    ensures
        r == spec_val_eq(a@, b@),
    decreases a,
{
    broadcast use lemma_vals_of, lemma_entries_of;

    match (a, b) {
        (Value::Object(l), Value::Object(ro)) => {
            let ghost lm = entries_of(l@);
            let ghost rm = entries_of(ro@);
            proof {
                lemma_objs_match_iff(lm, rm);
                lemma_obj_vals_wf(lm);
                lemma_obj_vals_wf(rm);
            }
            if l.len() != ro.len() {
                return false;
            }
            let mut i: usize = 0;
            while i < l.len()
                invariant
                    i <= l.len(),
                    forall|j: int|
                        0 <= j < i as int ==> obj_has(rm, (#[trigger] lm[j]).0) && spec_val_eq(
                            lm[j].1,
                            obj_get(rm, lm[j].0),
                        ),
                decreases l.len() - i,
            {
                let (k, lv) = &l[i];
                match obj_lookup(ro, k) {
                    Some(rv) => {
                        proof {
                            assert(lm[i as int].1.wf());
                            let jj = crate::value::obj_idx(rm, k@);
                            assert(0 <= jj < rm.len() && rm[jj].0 == k@);
                            assert(rm[jj].1.wf());
                            assert(decreases_to!(*a => a->Object_0));
                            assert(decreases_to!(a->Object_0 => a->Object_0@[i as int]));
                            assert(decreases_to!(a->Object_0@[i as int] => a->Object_0@[
                                i as int].1));
                        }
                        if !val_eq(lv, rv) {
                            return false;
                        }
                    }
                    None => {
                        return false;
                    }
                }
                i = i + 1;
            }
            true
        }
        (Value::Array(l), Value::Array(ra)) => {
            let ghost lm = vals_of(l@);
            let ghost rm = vals_of(ra@);
            proof {
                lemma_arrs_match_iff(lm, rm);
                lemma_arr_wf(lm);
                lemma_arr_wf(rm);
            }
            if l.len() != ra.len() {
                return false;
            }
            let mut i: usize = 0;
            while i < l.len()
                invariant
                    i <= l.len(),
                    forall|j: int| 0 <= j < i as int ==> spec_val_eq(#[trigger] lm[j], rm[j]),
                decreases l.len() - i,
            {
                proof {
                    assert(lm[i as int].wf());
                    assert(rm[i as int].wf());
                    assert(decreases_to!(*a => a->Array_0));
                    assert(decreases_to!(a->Array_0 => a->Array_0@[i as int]));
                }
                if !val_eq(&l[i], &ra[i]) {
                    return false;
                }
                i = i + 1;
            }
            true
        }
        (Value::Bool(l), Value::Bool(r_)) => *l == *r_,
        (Value::Null, Value::Null) => true,
        (Value::Str(l), Value::Str(r_)) => *l == *r_,
        (Value::Bytes(l), Value::Bytes(r_)) => bytes_eq(l, r_),
        (Value::Str(l), Value::Bytes(r_)) => {
            let lb = string_utf8(l);
            bytes_eq(&lb, r_)
        }
        (Value::Bytes(l), Value::Str(r_)) => {
            let rb = string_utf8(r_);
            bytes_eq(l, &rb)
        }
        (Value::U64(l), Value::U64(r_)) => *l == *r_,
        (Value::I64(l), Value::I64(r_)) => *l == *r_,
        (Value::U64(l), Value::I64(r_)) => *r_ >= 0 && *l == (*r_ as u64),
        (Value::I64(l), Value::U64(r_)) => *l >= 0 && (*l as u64) == *r_,
        _ => false,
    }
}

/// Structural equality is reflexive on well-formed values.
pub proof fn lemma_val_eq_refl(v: Val)
    requires
        v.wf(),
    ensures
        spec_val_eq(v, v),
    decreases v,
{
    match v {
        Val::Array(items) => {
            lemma_arr_wf(items);
            lemma_arrs_match_iff(items, items);
            assert forall|i: int| 0 <= i < items.len() implies spec_val_eq(
                #[trigger] items[i],
                items[i],
            ) by {
                assert(items[i].wf());
                assert(decreases_to!(v => items));
                assert(decreases_to!(items => items[i]));
                lemma_val_eq_refl(items[i]);
            }
        }
        Val::Object(entries) => {
            lemma_obj_vals_wf(entries);
            lemma_objs_match_iff(entries, entries);
            assert forall|i: int| 0 <= i < entries.len() implies obj_has(
                entries,
                (#[trigger] entries[i]).0,
            ) && spec_val_eq(entries[i].1, obj_get(entries, entries[i].0)) by {
                lemma_obj_at(entries, i);
                assert(entries[i].1.wf());
                assert(decreases_to!(v => entries));
                assert(decreases_to!(entries => entries[i]));
                assert(decreases_to!(entries[i] => entries[i].1));
                lemma_val_eq_refl(entries[i].1);
            }
        }
        _ => {}
    }
}

} // verus!
