//! The pattern matcher: record, array, tuple, expression and capture
//! patterns, with guards.
//!
//! A failing predicate is a pattern mismatch, never a runtime error. Record
//! patterns require every declared field test to pass; array patterns require
//! each test to be satisfied by at least one element (an exists per test,
//! positions independent); tuple patterns match positionally, exactly or as a
//! prefix when open. A capture (`Assign`) binds the matched value into its
//! local slot before the guard runs, and the binding stays even if the guard
//! then fails.

use vstd::prelude::*;

use crate::equal::{spec_val_eq, val_eq};
use crate::error::{ErrV, Error};
use crate::interp::{
    ctx_of, ctx_wf, eval, expr_wf, hmodels, locals_of, run_imut, CtxV, Env, Halt, HaltV,
    ImutExpr, LocalStack,
};
use crate::ops::{exec_binary, spec_binary, BinOpKind, BinOut, BinV};
use crate::value::{
    duplicate, entries_of, lemma_entries_of, lemma_obj_at, lemma_obj_push_wf, lemma_obj_set_wf,
    lemma_obj_vals_wf, lemma_vals_of, obj_get, obj_has, obj_lookup, obj_put, obj_set,
    obj_vals_wf, unique_keys, vals_of, Val, Value,
};

verus! {

broadcast use vstd::seq_lib::group_seq_lib_default;

/// A pattern.
#[derive(Debug, PartialEq)]
pub enum Pattern {
    /// `_`: always matches, captures nothing.
    DoNotCare,
    /// Value equality against a computed value (`val_eq`).
    Expr(ImutExpr),
    /// A record pattern.
    Record(RecordPattern),
    /// An array pattern (`%[ ... ]`).
    Array(ArrayPattern),
    /// A tuple pattern.
    Tuple(TuplePattern),
    /// Binds the matched or captured value into a local slot, then the guard
    /// may use it.
    Assign { idx: usize, pattern: Box<Pattern> },
    /// The final catch-all: always matches.
    Default,
}

/// A record pattern: all field predicates must pass.
#[derive(Debug, PartialEq)]
pub struct RecordPattern {
    pub fields: Vec<PredicatePattern>,
}

/// One field predicate of a record pattern.
#[derive(Debug, PartialEq)]
pub enum PredicatePattern {
    /// The field must exist.
    FieldPresent { key: String },
    /// The field must not exist.
    FieldAbsent { key: String },
    /// A binary comparison of the field value against a computed value.
    Bin { key: String, kind: BinOpKind, rhs: ImutExpr },
    /// The field value must match a nested record pattern.
    RecordPatternEq { key: String, pattern: RecordPattern },
    /// The field value must match a nested array pattern.
    ArrayPatternEq { key: String, pattern: ArrayPattern },
    /// The field value must match a nested tuple pattern.
    TuplePatternEq { key: String, pattern: TuplePattern },
}

/// An array pattern: each test must be satisfied by at least one element.
#[derive(Debug, PartialEq)]
pub struct ArrayPattern {
    pub exprs: Vec<ArrayPredicatePattern>,
}

/// One test of an array or tuple pattern.
#[derive(Debug, PartialEq)]
pub enum ArrayPredicatePattern {
    /// Matches any element.
    Ignore,
    /// Value equality against a computed value.
    Expr(ImutExpr),
    /// A nested record pattern.
    Record(RecordPattern),
}

/// A tuple pattern: positional; `open` allows longer targets.
#[derive(Debug, PartialEq)]
pub struct TuplePattern {
    pub exprs: Vec<ArrayPredicatePattern>,
    pub open: bool,
}

/// Well-formedness of the values embedded in a pattern.
pub open spec fn pattern_wf(p: Pattern) -> bool
    decreases p, 3int,
{
    match p {
        Pattern::DoNotCare => true,
        Pattern::Expr(e) => expr_wf(e),
        Pattern::Record(rp) => rp_wf(rp),
        Pattern::Array(ap) => ap_wf(ap),
        Pattern::Tuple(tp) => tp_wf(tp),
        Pattern::Assign { idx, pattern } => pattern_wf(*pattern),
        Pattern::Default => true,
    }
}

/// Well-formedness of a record pattern.
pub open spec fn rp_wf(rp: RecordPattern) -> bool
    decreases rp, 2int,
{
    proof {
        assert(decreases_to!(rp => rp.fields));
    }
    preds_wf(rp.fields@)
}

/// Well-formedness of field predicates.
pub open spec fn preds_wf(ps: Seq<PredicatePattern>) -> bool
    decreases ps, 2int,
{
    if ps.len() == 0 {
        true
    } else {
        proof {
            assert(decreases_to!(ps => ps[0]));
            assert(decreases_to!(ps => ps.subrange(1, ps.len() as int)));
            assert(ps.drop_first() == ps.subrange(1, ps.len() as int));
        }
        pred_wf(ps[0]) && preds_wf(ps.drop_first())
    }
}

/// Well-formedness of one field predicate.
pub open spec fn pred_wf(p: PredicatePattern) -> bool
    decreases p, 3int,
{
    match p {
        PredicatePattern::FieldPresent { .. } => true,
        PredicatePattern::FieldAbsent { .. } => true,
        PredicatePattern::Bin { rhs, .. } => expr_wf(rhs),
        PredicatePattern::RecordPatternEq { pattern, .. } => rp_wf(pattern),
        PredicatePattern::ArrayPatternEq { pattern, .. } => ap_wf(pattern),
        PredicatePattern::TuplePatternEq { pattern, .. } => tp_wf(pattern),
    }
}

/// Well-formedness of an array pattern.
pub open spec fn ap_wf(ap: ArrayPattern) -> bool
    decreases ap, 2int,
{
    proof {
        assert(decreases_to!(ap => ap.exprs));
    }
    aps_wf(ap.exprs@)
}

/// Well-formedness of array/tuple tests.
pub open spec fn aps_wf(ps: Seq<ArrayPredicatePattern>) -> bool
    decreases ps, 2int,
{
    if ps.len() == 0 {
        true
    } else {
        proof {
            assert(decreases_to!(ps => ps[0]));
            assert(decreases_to!(ps => ps.subrange(1, ps.len() as int)));
            assert(ps.drop_first() == ps.subrange(1, ps.len() as int));
        }
        app_wf(ps[0]) && aps_wf(ps.drop_first())
    }
}

/// Well-formedness of one array/tuple test.
pub open spec fn app_wf(p: ArrayPredicatePattern) -> bool
    decreases p, 3int,
{
    match p {
        ArrayPredicatePattern::Ignore => true,
        ArrayPredicatePattern::Expr(e) => expr_wf(e),
        ArrayPredicatePattern::Record(rp) => rp_wf(rp),
    }
}

/// Well-formedness of a tuple pattern.
pub open spec fn tp_wf(tp: TuplePattern) -> bool
    decreases tp, 2int,
{
    proof {
        assert(decreases_to!(tp => tp.exprs));
    }
    aps_wf(tp.exprs@)
}

/// `preds_wf` is the pointwise statement.
pub proof fn lemma_preds_wf(s: Seq<PredicatePattern>)
    ensures
        preds_wf(s) <==> (forall|i: int| 0 <= i < s.len() ==> pred_wf(#[trigger] s[i])),
    decreases s.len(),
{
    if s.len() > 0 {
        lemma_preds_wf(s.drop_first());
        assert(preds_wf(s) == (pred_wf(s[0]) && preds_wf(s.drop_first())));
        assert forall|i: int|
            0 <= i < s.drop_first().len() implies #[trigger] s.drop_first()[i] == s[i + 1] by {}
        if preds_wf(s) {
            assert forall|i: int| 0 <= i < s.len() implies pred_wf(#[trigger] s[i]) by {
                if i > 0 {
                    assert(s.drop_first()[i - 1] == s[i]);
                }
            }
        }
        if forall|i: int| 0 <= i < s.len() ==> pred_wf(#[trigger] s[i]) {
            assert(pred_wf(s[0]));
            assert forall|i: int|
                0 <= i < s.drop_first().len() implies pred_wf(#[trigger] s.drop_first()[i]) by {
                assert(s.drop_first()[i] == s[i + 1]);
            }
        }
    }
}

/// `aps_wf` is the pointwise statement.
pub proof fn lemma_aps_wf(s: Seq<ArrayPredicatePattern>)
    ensures
        aps_wf(s) <==> (forall|i: int| 0 <= i < s.len() ==> app_wf(#[trigger] s[i])),
    decreases s.len(),
{
    if s.len() > 0 {
        lemma_aps_wf(s.drop_first());
        assert(aps_wf(s) == (app_wf(s[0]) && aps_wf(s.drop_first())));
        assert forall|i: int|
            0 <= i < s.drop_first().len() implies #[trigger] s.drop_first()[i] == s[i + 1] by {}
        if aps_wf(s) {
            assert forall|i: int| 0 <= i < s.len() implies app_wf(#[trigger] s[i]) by {
                if i > 0 {
                    assert(s.drop_first()[i - 1] == s[i]);
                }
            }
        }
        if forall|i: int| 0 <= i < s.len() ==> app_wf(#[trigger] s[i]) {
            assert(app_wf(s[0]));
            assert forall|i: int|
                0 <= i < s.drop_first().len() implies app_wf(#[trigger] s.drop_first()[i]) by {
                assert(s.drop_first()[i] == s[i + 1]);
            }
        }
    }
}

/// What pattern well-formedness unfolds to, by variant.
pub proof fn lemma_pattern_wf_unfold(p: Pattern)
    ensures
        pattern_wf(p) <==> (match p {
            Pattern::DoNotCare => true,
            Pattern::Expr(e) => expr_wf(e),
            Pattern::Record(rp) => rp_wf(rp),
            Pattern::Array(ap) => ap_wf(ap),
            Pattern::Tuple(tp) => tp_wf(tp),
            Pattern::Assign { idx, pattern } => pattern_wf(*pattern),
            Pattern::Default => true,
        }),
{
}

/// What test well-formedness unfolds to, by variant.
pub proof fn lemma_app_wf_unfold(p: ArrayPredicatePattern)
    ensures
        app_wf(p) <==> (match p {
            ArrayPredicatePattern::Ignore => true,
            ArrayPredicatePattern::Expr(e) => expr_wf(e),
            ArrayPredicatePattern::Record(rp) => rp_wf(rp),
        }),
{
}

/// What a guard decides: absent means true; a non-boolean value is fatal.
pub open spec fn guard_ok(g: Option<ImutExpr>, c: CtxV) -> Result<bool, HaltV> {
    match g {
        None => Ok(true),
        Some(e) => match eval(e, c) {
            Ok(Val::Bool(b)) => Ok(b),
            Ok(_) => Err(HaltV::Fail(ErrV::GuardNotBool)),
            Err(h) => Err(h),
        },
    }
}

/// Evaluates a guard; an absent guard passes.
pub fn test_guard(
    g: &Option<ImutExpr>,
    env: &Env,
    event: &Value,
    state: &Value,
    meta: &Value,
    local: &LocalStack,
) -> (r: Result<bool, Halt>)
    requires
        ctx_wf(ctx_of(*env, *event, *state, *meta, *local)),
        match g {
            Some(e) => expr_wf(*e),
            None => true,
        },
    ensures
        ({
            let s = guard_ok(
                match g {
                    Some(e) => Some(*e),
                    None => None,
                },
                ctx_of(*env, *event, *state, *meta, *local),
            );
            match r {
                Ok(b) => s == Ok::<bool, HaltV>(b),
                Err(h) => s is Err && h@ == s->Err_0,
            }
        }),
{
    match g {
        None => Ok(true),
        Some(e) => match run_imut(e, env, event, state, meta, local) {
            Ok(v) => match v {
                Value::Bool(b) => Ok(b),
                _ => Err(Halt::Fail(Error::GuardNotBool)),
            },
            Err(h) => Err(h),
        },
    }
}

/// What a record pattern yields on a target: `None` is a mismatch, `Some` the
/// captured record (empty unless a result is needed).
pub open spec fn match_rp(rp: RecordPattern, c: CtxV, target: Val, need: bool) -> Result<
    Option<Val>,
    HaltV,
>
    decreases rp, 3int, 0int,
{
    proof {
        assert(decreases_to!(rp => rp.fields));
    }
    if target is Object {
        match match_fields(rp.fields@, c, target->Object_0, Seq::empty(), need) {
            Ok(Some(acc)) => Ok(Some(Val::Object(acc))),
            Ok(None) => Ok(None),
            Err(h) => Err(h),
        }
    } else {
        Ok(None)
    }
}

/// Folds the field predicates over the target record, accumulating captures.
pub open spec fn match_fields(
    ps: Seq<PredicatePattern>,
    c: CtxV,
    record: Seq<(Seq<char>, Val)>,
    acc: Seq<(Seq<char>, Val)>,
    need: bool,
) -> Result<Option<Seq<(Seq<char>, Val)>>, HaltV>
    decreases ps, 2int, 0int,
{
    if ps.len() == 0 {
        Ok(Some(acc))
    } else {
        proof {
            assert(decreases_to!(ps => ps[0]));
            assert(decreases_to!(ps => ps.subrange(1, ps.len() as int)));
            assert(ps.drop_first() == ps.subrange(1, ps.len() as int));
        }
        let rest = ps.drop_first();
        match ps[0] {
            PredicatePattern::FieldPresent { key } => if obj_has(record, key@) {
                let acc1 = if need {
                    obj_set(acc, key@, obj_get(record, key@))
                } else {
                    acc
                };
                match_fields(rest, c, record, acc1, need)
            } else {
                Ok(None)
            },
            PredicatePattern::FieldAbsent { key } => if obj_has(record, key@) {
                Ok(None)
            } else {
                match_fields(rest, c, record, acc, need)
            },
            PredicatePattern::Bin { key, kind, rhs } => if obj_has(record, key@) {
                match eval(rhs, c) {
                    Ok(rv) => match spec_binary(kind, obj_get(record, key@), rv) {
                        Ok(BinV::Value(Val::Bool(true))) => match_fields(
                            rest,
                            c,
                            record,
                            acc,
                            need,
                        ),
                        Ok(_) => Ok(None),
                        Err(er) => Err(HaltV::Fail(er)),
                    },
                    Err(h) => Err(h),
                }
            } else {
                Ok(None)
            },
            PredicatePattern::RecordPatternEq { key, pattern } => if obj_has(record, key@) {
                match match_rp(pattern, c, obj_get(record, key@), need) {
                    Ok(Some(m)) => {
                        let acc1 = if need {
                            obj_set(acc, key@, m)
                        } else {
                            acc
                        };
                        match_fields(rest, c, record, acc1, need)
                    },
                    Ok(None) => Ok(None),
                    Err(h) => Err(h),
                }
            } else {
                Ok(None)
            },
            PredicatePattern::ArrayPatternEq { key, pattern } => if obj_has(record, key@) {
                match match_ap(pattern, c, obj_get(record, key@), need) {
                    Ok(Some(m)) => {
                        let acc1 = if need {
                            obj_set(acc, key@, m)
                        } else {
                            acc
                        };
                        match_fields(rest, c, record, acc1, need)
                    },
                    Ok(None) => Ok(None),
                    Err(h) => Err(h),
                }
            } else {
                Ok(None)
            },
            PredicatePattern::TuplePatternEq { key, pattern } => if obj_has(record, key@) {
                match match_tp(pattern, c, obj_get(record, key@), need) {
                    Ok(Some(m)) => {
                        let acc1 = if need {
                            obj_set(acc, key@, m)
                        } else {
                            acc
                        };
                        match_fields(rest, c, record, acc1, need)
                    },
                    Ok(None) => Ok(None),
                    Err(h) => Err(h),
                }
            } else {
                Ok(None)
            },
        }
    }
}

/// What an array pattern yields: the target must be an array and every test
/// must be satisfied by at least one element; the capture collects the
/// (index, value) hits of each test when a result is needed.
pub open spec fn match_ap(ap: ArrayPattern, c: CtxV, target: Val, need: bool) -> Result<
    Option<Val>,
    HaltV,
>
    decreases ap, 3int, 0int,
{
    proof {
        assert(decreases_to!(ap => ap.exprs));
    }
    if target is Array {
        if ap.exprs@.len() == 0 {
            Ok(Some(Val::Array(Seq::empty())))
        } else {
            match ap_tests(ap.exprs@, c, target->Array_0, Seq::empty(), need) {
                Ok(Some(acc)) => Ok(Some(Val::Array(acc))),
                Ok(None) => Ok(None),
                Err(h) => Err(h),
            }
        }
    } else {
        Ok(None)
    }
}

/// Folds the tests of an array pattern; each must hit at least once.
pub open spec fn ap_tests(
    ps: Seq<ArrayPredicatePattern>,
    c: CtxV,
    items: Seq<Val>,
    acc: Seq<Val>,
    need: bool,
) -> Result<Option<Seq<Val>>, HaltV>
    decreases ps, 2int, 0int,
{
    if ps.len() == 0 {
        Ok(Some(acc))
    } else {
        proof {
            assert(decreases_to!(ps => ps[0]));
            assert(decreases_to!(ps => ps.subrange(1, ps.len() as int)));
            assert(ps.drop_first() == ps.subrange(1, ps.len() as int));
        }
        match ap_scan(ps[0], c, items, 0, need) {
            Ok((true, hits)) => ap_tests(ps.drop_first(), c, items, acc + hits, need),
            Ok((false, _)) => Ok(None),
            Err(h) => Err(h),
        }
    }
}

/// Scans the elements from position `j` for one test; collects every hit
/// when a result is needed, else stops at the first.
pub open spec fn ap_scan(
    p: ArrayPredicatePattern,
    c: CtxV,
    items: Seq<Val>,
    j: int,
    need: bool,
) -> Result<(bool, Seq<Val>), HaltV>
    decreases p, 1int, items.len() - j,
{
    if p is Ignore {
        Ok((items.len() > 0, Seq::empty()))
    } else if j >= items.len() || j < 0 {
        Ok((false, Seq::empty()))
    } else {
        let hit: Result<Option<Val>, HaltV> = match p {
            ArrayPredicatePattern::Expr(e) => match eval(e, c) {
                Ok(v) => if spec_val_eq(items[j], v) {
                    Ok(Some(v))
                } else {
                    Ok(None)
                },
                Err(h) => Err(h),
            },
            ArrayPredicatePattern::Record(rp) => match match_rp(rp, c, items[j], need) {
                Ok(Some(m)) => Ok(Some(m)),
                Ok(None) => Ok(None),
                Err(h) => Err(h),
            },
            ArrayPredicatePattern::Ignore => Ok(None),
        };
        match hit {
            Ok(Some(v)) => if need {
                match ap_scan(p, c, items, j + 1, need) {
                    Ok((_, rest)) => Ok(
                        (true, seq![Val::Array(seq![Val::U64(j as u64), v])] + rest),
                    ),
                    Err(h) => Err(h),
                }
            } else {
                Ok((true, Seq::empty()))
            },
            Ok(None) => ap_scan(p, c, items, j + 1, need),
            Err(h) => Err(h),
        }
    }
}

/// What a tuple pattern yields: positional match, exact length unless open.
pub open spec fn match_tp(tp: TuplePattern, c: CtxV, target: Val, need: bool) -> Result<
    Option<Val>,
    HaltV,
>
    decreases tp, 3int, 0int,
{
    proof {
        assert(decreases_to!(tp => tp.exprs));
    }
    if target is Array {
        let items = target->Array_0;
        if (tp.open && items.len() < tp.exprs@.len()) || (!tp.open && items.len()
            != tp.exprs@.len()) {
            Ok(None)
        } else {
            match tp_tests(tp.exprs@, c, items, 0, Seq::empty(), need) {
                Ok(Some(acc)) => Ok(Some(Val::Array(acc))),
                Ok(None) => Ok(None),
                Err(h) => Err(h),
            }
        }
    } else {
        Ok(None)
    }
}

/// Folds the tuple tests positionally from index `j`.
pub open spec fn tp_tests(
    ps: Seq<ArrayPredicatePattern>,
    c: CtxV,
    items: Seq<Val>,
    j: int,
    acc: Seq<Val>,
    need: bool,
) -> Result<Option<Seq<Val>>, HaltV>
    decreases ps, 1int, ps.len() - j,
{
    if j < 0 || j >= ps.len() || j >= items.len() {
        Ok(Some(acc))
    } else {
        match ps[j] {
            ArrayPredicatePattern::Ignore => tp_tests(
                ps,
                c,
                items,
                j + 1,
                if need {
                    acc.push(items[j])
                } else {
                    acc
                },
                need,
            ),
            ArrayPredicatePattern::Expr(e) => match eval(e, c) {
                Ok(v) => if spec_val_eq(items[j], v) {
                    tp_tests(
                        ps,
                        c,
                        items,
                        j + 1,
                        if need {
                            acc.push(v)
                        } else {
                            acc
                        },
                        need,
                    )
                } else {
                    Ok(None)
                },
                Err(h) => Err(h),
            },
            ArrayPredicatePattern::Record(rp) => match match_rp(rp, c, items[j], need) {
                Ok(Some(m)) => tp_tests(
                    ps,
                    c,
                    items,
                    j + 1,
                    if need {
                        acc.push(m)
                    } else {
                        acc
                    },
                    need,
                ),
                Ok(None) => Ok(None),
                Err(h) => Err(h),
            },
        }
    }
}

/// What a predicate pattern with its guard decides, and the local slots
/// after any capture. A capture that ran stays bound even when the guard
/// then fails.
pub open spec fn test_pred(
    p: Pattern,
    guard: Option<ImutExpr>,
    c: CtxV,
    target: Val,
) -> Result<(bool, Seq<Option<Val>>), HaltV>
    decreases p, 4int, 0int,
{
    match p {
        Pattern::DoNotCare => match guard_ok(guard, c) {
            Ok(b) => Ok((b, c.local)),
            Err(h) => Err(h),
        },
        Pattern::Expr(e) => match eval(e, c) {
            Ok(v) => if spec_val_eq(target, v) {
                match guard_ok(guard, c) {
                    Ok(b) => Ok((b, c.local)),
                    Err(h) => Err(h),
                }
            } else {
                Ok((false, c.local))
            },
            Err(h) => Err(h),
        },
        Pattern::Record(rp) => match match_rp(rp, c, target, false) {
            Ok(Some(_)) => match guard_ok(guard, c) {
                Ok(b) => Ok((b, c.local)),
                Err(h) => Err(h),
            },
            Ok(None) => Ok((false, c.local)),
            Err(h) => Err(h),
        },
        Pattern::Array(ap) => match match_ap(ap, c, target, false) {
            Ok(Some(_)) => match guard_ok(guard, c) {
                Ok(b) => Ok((b, c.local)),
                Err(h) => Err(h),
            },
            Ok(None) => Ok((false, c.local)),
            Err(h) => Err(h),
        },
        Pattern::Tuple(tp) => match match_tp(tp, c, target, false) {
            Ok(Some(_)) => match guard_ok(guard, c) {
                Ok(b) => Ok((b, c.local)),
                Err(h) => Err(h),
            },
            Ok(None) => Ok((false, c.local)),
            Err(h) => Err(h),
        },
        Pattern::Assign { idx, pattern } => match *pattern {
            Pattern::DoNotCare => bind_then_guard(idx as int, target, guard, c),
            Pattern::Record(rp) => match match_rp(rp, c, target, true) {
                Ok(Some(v)) => bind_then_guard(idx as int, v, guard, c),
                Ok(None) => Ok((false, c.local)),
                Err(h) => Err(h),
            },
            Pattern::Array(ap) => match match_ap(ap, c, target, true) {
                Ok(Some(v)) => bind_then_guard(idx as int, v, guard, c),
                Ok(None) => Ok((false, c.local)),
                Err(h) => Err(h),
            },
            Pattern::Tuple(tp) => match match_tp(tp, c, target, true) {
                Ok(Some(v)) => bind_then_guard(idx as int, v, guard, c),
                Ok(None) => Ok((false, c.local)),
                Err(h) => Err(h),
            },
            Pattern::Expr(e) => match eval(e, c) {
                Ok(v) => if spec_val_eq(target, v) {
                    bind_then_guard(idx as int, v, guard, c)
                } else {
                    Ok((false, c.local))
                },
                Err(h) => Err(h),
            },
            Pattern::Assign { .. } => Err(HaltV::Fail(ErrV::Oops { code: 0xdead_0004 })),
            Pattern::Default => Err(HaltV::Fail(ErrV::Oops { code: 0xdead_0005 })),
        },
        Pattern::Default => Ok((true, c.local)),
    }
}

/// Binds a captured value into its slot, then evaluates the guard against
/// the updated frame.
pub open spec fn bind_then_guard(
    idx: int,
    v: Val,
    guard: Option<ImutExpr>,
    c: CtxV,
) -> Result<(bool, Seq<Option<Val>>), HaltV> {
    if 0 <= idx < c.local.len() {
        let local1 = c.local.update(idx, Some(v));
        match guard_ok(guard, CtxV { local: local1, ..c }) {
            Ok(b) => Ok((b, local1)),
            Err(h) => Err(h),
        }
    } else {
        Err(HaltV::Fail(ErrV::Oops { code: 0xdead_0006 }))
    }
}

/// Matches a record pattern against a target, executably.
#[verifier::rlimit(20)]
pub fn match_rp_expr(
    rp: &RecordPattern,
    env: &Env,
    event: &Value,
    state: &Value,
    meta: &Value,
    local: &LocalStack,
    target: &Value,
    result_needed: bool,
) -> (r: Result<Option<Value>, Halt>)
    requires
        ctx_wf(ctx_of(*env, *event, *state, *meta, *local)),
        rp_wf(*rp),
        target@.wf(),
    ensures
        ({
            let s = match_rp(*rp, ctx_of(*env, *event, *state, *meta, *local), target@,
                result_needed);
            match r {
                Ok(Some(v)) => s == Ok::<Option<Val>, HaltV>(Some(v@)) && v@.wf(),
                Ok(None) => s == Ok::<Option<Val>, HaltV>(None),
                Err(h) => s is Err && h@ == s->Err_0,
            }
        }),
    decreases *rp, 3int, 0int,
{
    broadcast use lemma_entries_of, lemma_vals_of;

    let ghost c = ctx_of(*env, *event, *state, *meta, *local);
    match target {
        Value::Object(record) => {
            proof {
                lemma_obj_vals_wf(entries_of(record@));
            }
            let acc: Vec<(String, Value)> = Vec::new();
            proof {
                assert(entries_of(acc@) =~= Seq::<(Seq<char>, Val)>::empty());
                assert(rp.fields@.skip(0) =~= rp.fields@);
            }
            match match_fields_expr(
                rp,
                0,
                env,
                event,
                state,
                meta,
                local,
                record,
                acc,
                result_needed,
            ) {
                Ok(Some(out)) => {
                    proof {
                        lemma_obj_vals_wf(entries_of(out@));
                    }
                    Ok(Some(Value::Object(out)))
                }
                Ok(None) => Ok(None),
                Err(h) => Err(h),
            }
        }
        _ => Ok(None),
    }
}

/// Folds the field predicates from index `j`, executably.
#[verifier::loop_isolation(false)]
#[verifier::rlimit(100)]
fn match_fields_expr(
    rp: &RecordPattern,
    j: usize,
    env: &Env,
    event: &Value,
    state: &Value,
    meta: &Value,
    local: &LocalStack,
    record: &Vec<(String, Value)>,
    acc: Vec<(String, Value)>,
    result_needed: bool,
) -> (r: Result<Option<Vec<(String, Value)>>, Halt>)
    requires
        ctx_wf(ctx_of(*env, *event, *state, *meta, *local)),
        rp_wf(*rp),
        j <= rp.fields@.len(),
        unique_keys(entries_of(record@)),
        obj_vals_wf(entries_of(record@)),
        unique_keys(entries_of(acc@)),
        obj_vals_wf(entries_of(acc@)),
    ensures
        ({
            let s = match_fields(
                rp.fields@.skip(j as int),
                ctx_of(*env, *event, *state, *meta, *local),
                entries_of(record@),
                entries_of(acc@),
                result_needed,
            );
            match r {
                Ok(Some(out)) => s == Ok::<Option<Seq<(Seq<char>, Val)>>, HaltV>(
                    Some(entries_of(out@)),
                ) && unique_keys(entries_of(out@)) && obj_vals_wf(entries_of(out@)),
                Ok(None) => s == Ok::<Option<Seq<(Seq<char>, Val)>>, HaltV>(None),
                Err(h) => s is Err && h@ == s->Err_0,
            }
        }),
    decreases *rp, 2int, rp.fields@.len() - j,
{
    broadcast use lemma_entries_of, lemma_vals_of;

    let ghost c = ctx_of(*env, *event, *state, *meta, *local);
    let ghost ps = rp.fields@.skip(j as int);
    if j >= rp.fields.len() {
        return Ok(Some(acc));
    }
    proof {
        assert(ps[0] == rp.fields@[j as int]);
        assert(ps.drop_first() =~= rp.fields@.skip(j as int + 1));
        lemma_preds_wf(rp.fields@);
        assert(pred_wf(rp.fields@[j as int]));
        assert(decreases_to!(*rp => rp.fields));
        assert(decreases_to!(rp.fields => rp.fields@[j as int]));
    }
    let mut acc = acc;
    let ghost acc0 = entries_of(acc@);
    let ghost rm = entries_of(record@);
    match &rp.fields[j] {
        PredicatePattern::FieldPresent { key } => {
            match obj_lookup(record, key) {
                Some(v) => {
                    if result_needed {
                        proof {
                            let ki = crate::value::obj_idx(rm, key@);
                            lemma_obj_vals_wf(rm);
                            assert(0 <= ki < rm.len() && rm[ki].0 == key@);
                            assert(rm[ki].1.wf());
                            if obj_has(acc0, key@) {
                                lemma_obj_set_wf(acc0, key@, obj_get(rm, key@));
                            } else {
                                lemma_obj_push_wf(acc0, key@, obj_get(rm, key@));
                                assert(obj_set(acc0, key@, obj_get(rm, key@)) == acc0.push(
                                    (key@, obj_get(rm, key@)),
                                ));
                            }
                        }
                        let copied = duplicate(v);
                        obj_put(&mut acc, key.clone(), copied);
                    }
                    match_fields_expr(
                        rp,
                        j + 1,
                        env,
                        event,
                        state,
                        meta,
                        local,
                        record,
                        acc,
                        result_needed,
                    )
                }
                None => Ok(None),
            }
        }
        PredicatePattern::FieldAbsent { key } => {
            match obj_lookup(record, key) {
                Some(_) => Ok(None),
                None => match_fields_expr(
                    rp,
                    j + 1,
                    env,
                    event,
                    state,
                    meta,
                    local,
                    record,
                    acc,
                    result_needed,
                ),
            }
        }
        PredicatePattern::Bin { key, kind, rhs } => {
            match obj_lookup(record, key) {
                Some(testee) => {
                    proof {
                        let ki = crate::value::obj_idx(rm, key@);
                        lemma_obj_vals_wf(rm);
                        assert(0 <= ki < rm.len() && rm[ki].0 == key@);
                        assert(rm[ki].1.wf());
                    }
                    let rv = match run_imut(rhs, env, event, state, meta, local) {
                        Ok(v) => v,
                        Err(h) => {
                            return Err(h);
                        }
                    };
                    match exec_binary(*kind, testee, &rv) {
                        Ok(BinOut::Value(bv)) => {
                            if matches!(bv, Value::Bool(true)) {
                                match_fields_expr(
                                    rp,
                                    j + 1,
                                    env,
                                    event,
                                    state,
                                    meta,
                                    local,
                                    record,
                                    acc,
                                    result_needed,
                                )
                            } else {
                                Ok(None)
                            }
                        }
                        Ok(BinOut::Floating { .. }) => Ok(None),
                        Err(er) => Err(Halt::Fail(er)),
                    }
                }
                None => Ok(None),
            }
        }
        PredicatePattern::RecordPatternEq { key, pattern } => {
            match obj_lookup(record, key) {
                Some(testee) => {
                    proof {
                        assert(decreases_to!(rp.fields@[j as int] => rp.fields@[
                            j as int]->RecordPatternEq_pattern));
                        let ki = crate::value::obj_idx(rm, key@);
                        lemma_obj_vals_wf(rm);
                        assert(0 <= ki < rm.len() && rm[ki].0 == key@);
                        assert(rm[ki].1.wf());
                    }
                    match match_rp_expr(
                        pattern,
                        env,
                        event,
                        state,
                        meta,
                        local,
                        testee,
                        result_needed,
                    ) {
                        Ok(Some(m)) => {
                            if result_needed {
                                proof {
                                    if obj_has(acc0, key@) {
                                        lemma_obj_set_wf(acc0, key@, m@);
                                    } else {
                                        lemma_obj_push_wf(acc0, key@, m@);
                                        assert(obj_set(acc0, key@, m@) == acc0.push((key@, m@)));
                                    }
                                }
                                obj_put(&mut acc, key.clone(), m);
                            }
                            match_fields_expr(
                                rp,
                                j + 1,
                                env,
                                event,
                                state,
                                meta,
                                local,
                                record,
                                acc,
                                result_needed,
                            )
                        }
                        Ok(None) => Ok(None),
                        Err(h) => Err(h),
                    }
                }
                None => Ok(None),
            }
        }
        PredicatePattern::ArrayPatternEq { key, pattern } => {
            match obj_lookup(record, key) {
                Some(testee) => {
                    proof {
                        assert(decreases_to!(rp.fields@[j as int] => rp.fields@[
                            j as int]->ArrayPatternEq_pattern));
                        let ki = crate::value::obj_idx(rm, key@);
                        lemma_obj_vals_wf(rm);
                        assert(0 <= ki < rm.len() && rm[ki].0 == key@);
                        assert(rm[ki].1.wf());
                    }
                    match match_ap_expr(
                        pattern,
                        env,
                        event,
                        state,
                        meta,
                        local,
                        testee,
                        result_needed,
                    ) {
                        Ok(Some(m)) => {
                            if result_needed {
                                proof {
                                    if obj_has(acc0, key@) {
                                        lemma_obj_set_wf(acc0, key@, m@);
                                    } else {
                                        lemma_obj_push_wf(acc0, key@, m@);
                                        assert(obj_set(acc0, key@, m@) == acc0.push((key@, m@)));
                                    }
                                }
                                obj_put(&mut acc, key.clone(), m);
                            }
                            match_fields_expr(
                                rp,
                                j + 1,
                                env,
                                event,
                                state,
                                meta,
                                local,
                                record,
                                acc,
                                result_needed,
                            )
                        }
                        Ok(None) => Ok(None),
                        Err(h) => Err(h),
                    }
                }
                None => Ok(None),
            }
        }
        PredicatePattern::TuplePatternEq { key, pattern } => {
            match obj_lookup(record, key) {
                Some(testee) => {
                    proof {
                        assert(decreases_to!(rp.fields@[j as int] => rp.fields@[
                            j as int]->TuplePatternEq_pattern));
                        let ki = crate::value::obj_idx(rm, key@);
                        lemma_obj_vals_wf(rm);
                        assert(0 <= ki < rm.len() && rm[ki].0 == key@);
                        assert(rm[ki].1.wf());
                    }
                    match match_tp_expr(
                        pattern,
                        env,
                        event,
                        state,
                        meta,
                        local,
                        testee,
                        result_needed,
                    ) {
                        Ok(Some(m)) => {
                            if result_needed {
                                proof {
                                    if obj_has(acc0, key@) {
                                        lemma_obj_set_wf(acc0, key@, m@);
                                    } else {
                                        lemma_obj_push_wf(acc0, key@, m@);
                                        assert(obj_set(acc0, key@, m@) == acc0.push((key@, m@)));
                                    }
                                }
                                obj_put(&mut acc, key.clone(), m);
                            }
                            match_fields_expr(
                                rp,
                                j + 1,
                                env,
                                event,
                                state,
                                meta,
                                local,
                                record,
                                acc,
                                result_needed,
                            )
                        }
                        Ok(None) => Ok(None),
                        Err(h) => Err(h),
                    }
                }
                None => Ok(None),
            }
        }
    }
}

/// Matches an array pattern against a target, executably (each test needs at
/// least one hit anywhere in the array).
#[verifier::rlimit(20)]
pub fn match_ap_expr(
    ap: &ArrayPattern,
    env: &Env,
    event: &Value,
    state: &Value,
    meta: &Value,
    local: &LocalStack,
    target: &Value,
    result_needed: bool,
) -> (r: Result<Option<Value>, Halt>)
    requires
        ctx_wf(ctx_of(*env, *event, *state, *meta, *local)),
        ap_wf(*ap),
        target@.wf(),
    ensures
        ({
            let s = match_ap(*ap, ctx_of(*env, *event, *state, *meta, *local), target@,
                result_needed);
            match r {
                Ok(Some(v)) => s == Ok::<Option<Val>, HaltV>(Some(v@)) && v@.wf(),
                Ok(None) => s == Ok::<Option<Val>, HaltV>(None),
                Err(h) => s is Err && h@ == s->Err_0,
            }
        }),
    decreases *ap, 3int, 0int,
{
    broadcast use lemma_vals_of;

    let ghost c = ctx_of(*env, *event, *state, *meta, *local);
    match target {
        Value::Array(items) => {
            proof {
                lemma_vals_of(items@);
                crate::value::lemma_view_unfold(*target);
                assert(target@ == Val::Array(vals_of(items@)));
                crate::value::lemma_wf_unfold(target@);
                crate::interp::lemma_arr_wf_items(vals_of(items@));
                assert forall|k: int|
                    0 <= k < items@.len() implies (#[trigger] items@[k]@).wf() by {
                    assert(vals_of(items@)[k] == items@[k]@);
                    assert(vals_of(items@)[k].wf());
                }
            }
            if ap.exprs.len() == 0 {
                let empty: Vec<Value> = Vec::new();
                proof {
                    assert(vals_of(empty@) =~= Seq::<Val>::empty());
                    crate::value::lemma_arr_wf(vals_of(empty@));
                }
                return Ok(Some(Value::Array(empty)));
            }
            let acc: Vec<Value> = Vec::new();
            proof {
                assert(vals_of(acc@) =~= Seq::<Val>::empty());
                assert(ap.exprs@.skip(0) =~= ap.exprs@);
            }
            match ap_tests_expr(ap, 0, env, event, state, meta, local, items, acc,
                result_needed) {
                Ok(Some(out)) => {
                    proof {
                        crate::value::lemma_arr_wf(vals_of(out@));
                    }
                    Ok(Some(Value::Array(out)))
                }
                Ok(None) => Ok(None),
                Err(h) => Err(h),
            }
        }
        _ => Ok(None),
    }
}

/// Folds the array-pattern tests from index `j`, executably.
#[verifier::rlimit(20)]
fn ap_tests_expr(
    ap: &ArrayPattern,
    j: usize,
    env: &Env,
    event: &Value,
    state: &Value,
    meta: &Value,
    local: &LocalStack,
    items: &Vec<Value>,
    acc: Vec<Value>,
    result_needed: bool,
) -> (r: Result<Option<Vec<Value>>, Halt>)
    requires
        ctx_wf(ctx_of(*env, *event, *state, *meta, *local)),
        ap_wf(*ap),
        j <= ap.exprs@.len(),
        forall|k: int| 0 <= k < items@.len() ==> (#[trigger] items@[k]@).wf(),
        forall|k: int| 0 <= k < acc@.len() ==> (#[trigger] acc@[k]@).wf(),
    ensures
        ({
            let s = ap_tests(
                ap.exprs@.skip(j as int),
                ctx_of(*env, *event, *state, *meta, *local),
                vals_of(items@),
                vals_of(acc@),
                result_needed,
            );
            match r {
                Ok(Some(out)) => s == Ok::<Option<Seq<Val>>, HaltV>(Some(vals_of(out@)))
                    && forall|k: int| 0 <= k < out@.len() ==> (#[trigger] out@[k]@).wf(),
                Ok(None) => s == Ok::<Option<Seq<Val>>, HaltV>(None),
                Err(h) => s is Err && h@ == s->Err_0,
            }
        }),
    decreases *ap, 2int, ap.exprs@.len() - j,
{
    broadcast use lemma_vals_of;

    let ghost c = ctx_of(*env, *event, *state, *meta, *local);
    let ghost ps = ap.exprs@.skip(j as int);
    if j >= ap.exprs.len() {
        return Ok(Some(acc));
    }
    proof {
        assert(ps[0] == ap.exprs@[j as int]);
        assert(ps.drop_first() =~= ap.exprs@.skip(j as int + 1));
        lemma_aps_wf(ap.exprs@);
        assert(app_wf(ap.exprs@[j as int]));
        assert(decreases_to!(*ap => ap.exprs));
        assert(decreases_to!(ap.exprs => ap.exprs@[j as int]));
    }
    let hits: Vec<Value>;
    let matched: bool;
    match ap_scan_expr(ap, j, 0, env, event, state, meta, local, items, result_needed) {
        Ok((m, h)) => {
            matched = m;
            hits = h;
        }
        Err(h) => {
            return Err(h);
        }
    }
    if !matched {
        return Ok(None);
    }
    let mut acc = acc;
    let ghost acc0 = vals_of(acc@);
    let ghost hits0 = vals_of(hits@);
    let ghost accv0 = acc@;
    let ghost hitsv0 = hits@;
    let mut hits = hits;
    acc.append(&mut hits);
    proof {
        lemma_vals_of(accv0);
        lemma_vals_of(hitsv0);
        lemma_vals_of(acc@);
        assert(acc@ == accv0 + hitsv0);
        assert(vals_of(acc@) =~= acc0 + hits0);
    }
    ap_tests_expr(ap, j + 1, env, event, state, meta, local, items, acc, result_needed)
}

/// Scans the elements from position `k` for the test at index `j`,
/// executably.
#[verifier::rlimit(100)]
fn ap_scan_expr(
    ap: &ArrayPattern,
    j: usize,
    k: usize,
    env: &Env,
    event: &Value,
    state: &Value,
    meta: &Value,
    local: &LocalStack,
    items: &Vec<Value>,
    result_needed: bool,
) -> (r: Result<(bool, Vec<Value>), Halt>)
    requires
        ctx_wf(ctx_of(*env, *event, *state, *meta, *local)),
        ap_wf(*ap),
        j < ap.exprs@.len(),
        forall|t: int| 0 <= t < items@.len() ==> (#[trigger] items@[t]@).wf(),
    ensures
        ({
            let s = ap_scan(
                ap.exprs@[j as int],
                ctx_of(*env, *event, *state, *meta, *local),
                vals_of(items@),
                k as int,
                result_needed,
            );
            match r {
                Ok((b, hits)) => s == Ok::<(bool, Seq<Val>), HaltV>((b, vals_of(hits@)))
                    && forall|t: int| 0 <= t < hits@.len() ==> (#[trigger] hits@[t]@).wf(),
                Err(h) => s is Err && h@ == s->Err_0,
            }
        }),
    decreases *ap, 1int, items@.len() - k,
{
    broadcast use lemma_vals_of, crate::value::lemma_wf_unfold;

    let ghost c = ctx_of(*env, *event, *state, *meta, *local);
    proof {
        lemma_aps_wf(ap.exprs@);
        assert(app_wf(ap.exprs@[j as int]));
        assert(decreases_to!(*ap => ap.exprs));
        assert(decreases_to!(ap.exprs => ap.exprs@[j as int]));
    }
    let none: Vec<Value> = Vec::new();
    proof {
        assert(vals_of(none@) =~= Seq::<Val>::empty());
    }
    match &ap.exprs[j] {
        ArrayPredicatePattern::Ignore => Ok((items.len() > 0, none)),
        _ => {
            if k >= items.len() {
                return Ok((false, none));
            }
            let hit: Option<Value>;
            match &ap.exprs[j] {
                ArrayPredicatePattern::Expr(e) => {
                    proof {
                        lemma_app_wf_unfold(ap.exprs@[j as int]);
                    }
                    match run_imut(e, env, event, state, meta, local) {
                        Ok(v) => {
                            if val_eq(&items[k], &v) {
                                hit = Some(v);
                            } else {
                                hit = None;
                            }
                        }
                        Err(h) => {
                            return Err(h);
                        }
                    }
                }
                ArrayPredicatePattern::Record(rp) => {
                    proof {
                        lemma_app_wf_unfold(ap.exprs@[j as int]);
                        assert(rp_wf(*rp));
                        assert(decreases_to!(ap.exprs@[j as int] => ap.exprs@[
                            j as int]->Record_0));
                    }
                    match match_rp_expr(
                        rp,
                        env,
                        event,
                        state,
                        meta,
                        local,
                        &items[k],
                        result_needed,
                    ) {
                        Ok(Some(m)) => {
                            hit = Some(m);
                        }
                        Ok(None) => {
                            hit = None;
                        }
                        Err(h) => {
                            return Err(h);
                        }
                    }
                }
                ArrayPredicatePattern::Ignore => {
                    hit = None;
                }
            }
            match hit {
                Some(v) => {
                    if result_needed {
                        match ap_scan_expr(
                            ap,
                            j,
                            k + 1,
                            env,
                            event,
                            state,
                            meta,
                            local,
                            items,
                            result_needed,
                        ) {
                            Ok((_, rest)) => {
                                let ghost vv = v@;
                                let mut pair: Vec<Value> = Vec::new();
                                pair.push(Value::U64(k as u64));
                                pair.push(v);
                                let ghost pairv = pair@;
                                let entry = Value::Array(pair);
                                proof {
                                    crate::value::lemma_view_unfold(entry);
                                    lemma_vals_of(pairv);
                                    assert(vals_of(pairv) =~= seq![Val::U64(k as u64), vv]);
                                    crate::value::lemma_wf_unfold(entry@);
                                    crate::value::lemma_arr_wf(vals_of(pairv));
                                    crate::value::lemma_wf_unfold(Val::U64(k as u64));
                                    assert(entry@.wf());
                                }
                                let mut out: Vec<Value> = Vec::new();
                                let ghost entryv = entry@;
                                out.push(entry);
                                let ghost outv0 = out@;
                                let ghost restm = vals_of(rest@);
                                let ghost restv = rest@;
                                let mut rest = rest;
                                out.append(&mut rest);
                                proof {
                                    lemma_vals_of(outv0);
                                    lemma_vals_of(restv);
                                    lemma_vals_of(out@);
                                    assert(out@ == outv0 + restv);
                                    assert(vals_of(out@) =~= seq![entryv] + restm);
                                }
                                Ok((true, out))
                            }
                            Err(h) => Err(h),
                        }
                    } else {
                        Ok((true, none))
                    }
                }
                None => ap_scan_expr(
                    ap,
                    j,
                    k + 1,
                    env,
                    event,
                    state,
                    meta,
                    local,
                    items,
                    result_needed,
                ),
            }
        }
    }
}

/// Matches a tuple pattern against a target, executably.
#[verifier::rlimit(20)]
pub fn match_tp_expr(
    tp: &TuplePattern,
    env: &Env,
    event: &Value,
    state: &Value,
    meta: &Value,
    local: &LocalStack,
    target: &Value,
    result_needed: bool,
) -> (r: Result<Option<Value>, Halt>)
    requires
        ctx_wf(ctx_of(*env, *event, *state, *meta, *local)),
        tp_wf(*tp),
        target@.wf(),
    ensures
        ({
            let s = match_tp(*tp, ctx_of(*env, *event, *state, *meta, *local), target@,
                result_needed);
            match r {
                Ok(Some(v)) => s == Ok::<Option<Val>, HaltV>(Some(v@)) && v@.wf(),
                Ok(None) => s == Ok::<Option<Val>, HaltV>(None),
                Err(h) => s is Err && h@ == s->Err_0,
            }
        }),
    decreases *tp, 3int, 0int,
{
    broadcast use lemma_vals_of;

    let ghost c = ctx_of(*env, *event, *state, *meta, *local);
    match target {
        Value::Array(items) => {
            proof {
                lemma_vals_of(items@);
                crate::value::lemma_view_unfold(*target);
                assert(target@ == Val::Array(vals_of(items@)));
                crate::value::lemma_wf_unfold(target@);
                crate::interp::lemma_arr_wf_items(vals_of(items@));
                assert forall|k: int|
                    0 <= k < items@.len() implies (#[trigger] items@[k]@).wf() by {
                    assert(vals_of(items@)[k] == items@[k]@);
                    assert(vals_of(items@)[k].wf());
                }
            }
            if (tp.open && items.len() < tp.exprs.len()) || (!tp.open && items.len()
                != tp.exprs.len()) {
                return Ok(None);
            }
            let acc: Vec<Value> = Vec::new();
            proof {
                assert(vals_of(acc@) =~= Seq::<Val>::empty());
            }
            match tp_tests_expr(tp, 0, env, event, state, meta, local, items, acc,
                result_needed) {
                Ok(Some(out)) => {
                    proof {
                        crate::value::lemma_arr_wf(vals_of(out@));
                    }
                    Ok(Some(Value::Array(out)))
                }
                Ok(None) => Ok(None),
                Err(h) => Err(h),
            }
        }
        _ => Ok(None),
    }
}

/// Folds the tuple tests positionally from index `j`, executably.
#[verifier::rlimit(100)]
fn tp_tests_expr(
    tp: &TuplePattern,
    j: usize,
    env: &Env,
    event: &Value,
    state: &Value,
    meta: &Value,
    local: &LocalStack,
    items: &Vec<Value>,
    acc: Vec<Value>,
    result_needed: bool,
) -> (r: Result<Option<Vec<Value>>, Halt>)
    requires
        ctx_wf(ctx_of(*env, *event, *state, *meta, *local)),
        tp_wf(*tp),
        j <= tp.exprs@.len(),
        forall|t: int| 0 <= t < items@.len() ==> (#[trigger] items@[t]@).wf(),
        forall|t: int| 0 <= t < acc@.len() ==> (#[trigger] acc@[t]@).wf(),
    ensures
        ({
            let s = tp_tests(
                tp.exprs@,
                ctx_of(*env, *event, *state, *meta, *local),
                vals_of(items@),
                j as int,
                vals_of(acc@),
                result_needed,
            );
            match r {
                Ok(Some(out)) => s == Ok::<Option<Seq<Val>>, HaltV>(Some(vals_of(out@)))
                    && forall|t: int| 0 <= t < out@.len() ==> (#[trigger] out@[t]@).wf(),
                Ok(None) => s == Ok::<Option<Seq<Val>>, HaltV>(None),
                Err(h) => s is Err && h@ == s->Err_0,
            }
        }),
    decreases *tp, 1int, tp.exprs@.len() - j,
{
    broadcast use lemma_vals_of;

    let ghost c = ctx_of(*env, *event, *state, *meta, *local);
    if j >= tp.exprs.len() || j >= items.len() {
        return Ok(Some(acc));
    }
    proof {
        lemma_aps_wf(tp.exprs@);
        assert(app_wf(tp.exprs@[j as int]));
        assert(decreases_to!(*tp => tp.exprs));
        assert(decreases_to!(tp.exprs => tp.exprs@[j as int]));
    }
    let mut acc = acc;
    let ghost acc0 = vals_of(acc@);
    match &tp.exprs[j] {
        ArrayPredicatePattern::Ignore => {
            if result_needed {
                let copied = duplicate(&items[j]);
                acc.push(copied);
                proof {
                    lemma_vals_of(acc@);
                    assert(vals_of(acc@) =~= acc0.push(items@[j as int]@));
                }
            }
            tp_tests_expr(tp, j + 1, env, event, state, meta, local, items, acc, result_needed)
        }
        ArrayPredicatePattern::Expr(e) => {
            proof {
                lemma_app_wf_unfold(tp.exprs@[j as int]);
            }
            let v = match run_imut(e, env, event, state, meta, local) {
                Ok(v) => v,
                Err(h) => {
                    return Err(h);
                }
            };
            if val_eq(&items[j], &v) {
                let ghost vv = v@;
                if result_needed {
                    acc.push(v);
                    proof {
                        lemma_vals_of(acc@);
                        assert(vals_of(acc@) =~= acc0.push(vv));
                    }
                }
                tp_tests_expr(
                    tp,
                    j + 1,
                    env,
                    event,
                    state,
                    meta,
                    local,
                    items,
                    acc,
                    result_needed,
                )
            } else {
                Ok(None)
            }
        }
        ArrayPredicatePattern::Record(rp) => {
            proof {
                lemma_app_wf_unfold(tp.exprs@[j as int]);
                assert(rp_wf(*rp));
                assert(decreases_to!(tp.exprs@[j as int] => tp.exprs@[j as int]->Record_0));
            }
            match match_rp_expr(rp, env, event, state, meta, local, &items[j], result_needed) {
                Ok(Some(m)) => {
                    let ghost mv = m@;
                    if result_needed {
                        acc.push(m);
                        proof {
                            lemma_vals_of(acc@);
                            assert(vals_of(acc@) =~= acc0.push(mv));
                        }
                    }
                    tp_tests_expr(
                        tp,
                        j + 1,
                        env,
                        event,
                        state,
                        meta,
                        local,
                        items,
                        acc,
                        result_needed,
                    )
                }
                Ok(None) => Ok(None),
                Err(h) => Err(h),
            }
        }
    }
}

/// Tests one predicate pattern with its guard against a target; a capture
/// binds its slot before the guard runs and stays bound afterwards. On a halt
/// the frame may hold a partial capture; the run aborts anyway.
#[verifier::rlimit(100)]
pub fn test_predicate_expr(
    pattern: &Pattern,
    guard: &Option<ImutExpr>,
    env: &Env,
    event: &Value,
    state: &Value,
    meta: &Value,
    local: &mut LocalStack,
    target: &Value,
) -> (r: Result<bool, Halt>)
    requires
        ctx_wf(ctx_of(*env, *event, *state, *meta, *old(local))),
        pattern_wf(*pattern),
        match guard {
            Some(e) => expr_wf(*e),
            None => true,
        },
        target@.wf(),
    ensures
        ({
            let s = test_pred(
                *pattern,
                match guard {
                    Some(e) => Some(*e),
                    None => None,
                },
                ctx_of(*env, *event, *state, *meta, *old(local)),
                target@,
            );
            match r {
                Ok(b) => s is Ok && s->Ok_0.0 == b && locals_of(final(local).values@)
                    == s->Ok_0.1 && ctx_wf(
                    ctx_of(*env, *event, *state, *meta, *final(local)),
                ),
                Err(h) => s is Err && h@ == s->Err_0,
            }
        }),
{
    broadcast use lemma_vals_of;

    let ghost c = ctx_of(*env, *event, *state, *meta, *local);
    proof {
        lemma_pattern_wf_unfold(*pattern);
    }
    match pattern {
        Pattern::DoNotCare => test_guard(guard, env, event, state, meta, local),
        Pattern::Expr(e) => {
            let v = match run_imut(e, env, event, state, meta, local) {
                Ok(v) => v,
                Err(h) => {
                    return Err(h);
                }
            };
            if val_eq(target, &v) {
                test_guard(guard, env, event, state, meta, local)
            } else {
                Ok(false)
            }
        }
        Pattern::Record(rp) => {
            match match_rp_expr(rp, env, event, state, meta, local, target, false) {
                Ok(Some(_)) => test_guard(guard, env, event, state, meta, local),
                Ok(None) => Ok(false),
                Err(h) => Err(h),
            }
        }
        Pattern::Array(ap) => {
            match match_ap_expr(ap, env, event, state, meta, local, target, false) {
                Ok(Some(_)) => test_guard(guard, env, event, state, meta, local),
                Ok(None) => Ok(false),
                Err(h) => Err(h),
            }
        }
        Pattern::Tuple(tp) => {
            match match_tp_expr(tp, env, event, state, meta, local, target, false) {
                Ok(Some(_)) => test_guard(guard, env, event, state, meta, local),
                Ok(None) => Ok(false),
                Err(h) => Err(h),
            }
        }
        Pattern::Assign { idx, pattern: inner } => {
            proof {
                lemma_pattern_wf_unfold(**inner);
            }
            match &**inner {
                Pattern::DoNotCare => {
                    let v = duplicate(target);
                    bind_and_guard(*idx, v, guard, env, event, state, meta, local)
                }
                Pattern::Record(rp) => {
                    match match_rp_expr(rp, env, event, state, meta, local, target, true) {
                        Ok(Some(m)) => bind_and_guard(
                            *idx,
                            m,
                            guard,
                            env,
                            event,
                            state,
                            meta,
                            local,
                        ),
                        Ok(None) => Ok(false),
                        Err(h) => Err(h),
                    }
                }
                Pattern::Array(ap) => {
                    match match_ap_expr(ap, env, event, state, meta, local, target, true) {
                        Ok(Some(m)) => bind_and_guard(
                            *idx,
                            m,
                            guard,
                            env,
                            event,
                            state,
                            meta,
                            local,
                        ),
                        Ok(None) => Ok(false),
                        Err(h) => Err(h),
                    }
                }
                Pattern::Tuple(tp) => {
                    match match_tp_expr(tp, env, event, state, meta, local, target, true) {
                        Ok(Some(m)) => bind_and_guard(
                            *idx,
                            m,
                            guard,
                            env,
                            event,
                            state,
                            meta,
                            local,
                        ),
                        Ok(None) => Ok(false),
                        Err(h) => Err(h),
                    }
                }
                Pattern::Expr(e) => {
                    let v = match run_imut(e, env, event, state, meta, local) {
                        Ok(v) => v,
                        Err(h) => {
                            return Err(h);
                        }
                    };
                    if val_eq(target, &v) {
                        bind_and_guard(*idx, v, guard, env, event, state, meta, local)
                    } else {
                        Ok(false)
                    }
                }
                Pattern::Assign { .. } => Err(Halt::Fail(Error::Oops { code: 0xdead_0004 })),
                Pattern::Default => Err(Halt::Fail(Error::Oops { code: 0xdead_0005 })),
            }
        }
        Pattern::Default => Ok(true),
    }
}

/// Binds a captured value, then evaluates the guard against the updated
/// frame.
fn bind_and_guard(
    idx: usize,
    v: Value,
    guard: &Option<ImutExpr>,
    env: &Env,
    event: &Value,
    state: &Value,
    meta: &Value,
    local: &mut LocalStack,
) -> (r: Result<bool, Halt>)
    requires
        ctx_wf(ctx_of(*env, *event, *state, *meta, *old(local))),
        match guard {
            Some(e) => expr_wf(*e),
            None => true,
        },
        v@.wf(),
    ensures
        ({
            let s = bind_then_guard(
                idx as int,
                v@,
                match guard {
                    Some(e) => Some(*e),
                    None => None,
                },
                ctx_of(*env, *event, *state, *meta, *old(local)),
            );
            match r {
                Ok(b) => s is Ok && s->Ok_0.0 == b && locals_of(final(local).values@)
                    == s->Ok_0.1 && ctx_wf(
                    ctx_of(*env, *event, *state, *meta, *final(local)),
                ),
                Err(h) => s is Err && h@ == s->Err_0,
            }
        }),
{
    let ghost vv = v@;
    match local.set(idx, v) {
        Ok(()) => {
            proof {
                assert(locals_of(local.values@) =~= locals_of(old(local).values@).update(
                    idx as int,
                    Some(vv),
                ));
            }
            test_guard(guard, env, event, state, meta, local)
        }
        Err(_) => Err(Halt::Fail(Error::Oops { code: 0xdead_0006 })),
    }
}

} // verus!
