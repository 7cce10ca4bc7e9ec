//! Grouping-key generation: a nested expression tree producing one or more
//! grouping-key vectors per event. A `Set` combinator expands cartesian-style
//! over its members; an `Each` fans out one group per element of its array.
//! Groups are built fresh per event against a bare context (no constants, no
//! locals, null state) and never persisted.

use vstd::prelude::*;

use crate::interp::{
    ctx_of, ctx_wf, eval, expr_wf, locals_of, run_imut, CtxV, Env, Halt, HaltV, ImutExpr,
    LocalStack,
};
use crate::value::{duplicate, lemma_vals_of, vals_of, Val, Value};

verus! {

broadcast use vstd::seq_lib::group_seq_lib_default;

/// A grouping expression tree.
#[derive(Debug, PartialEq)]
pub enum GroupBy {
    /// One key, appended to every group.
    Expr(ImutExpr),
    /// The set combinator: the members in order, each transforming the groups.
    SetOf(Vec<GroupBy>),
    /// One group per element of the array the expression yields.
    Each(ImutExpr),
}

/// Well-formedness of the values embedded in a grouping tree.
pub open spec fn groupby_wf(gb: GroupBy) -> bool
    decreases gb, 1int,
{
    match gb {
        GroupBy::Expr(e) => expr_wf(e),
        GroupBy::SetOf(items) => {
            proof {
                assert(decreases_to!(gb => gb->SetOf_0));
            }
            set_wf(items@, 0)
        },
        GroupBy::Each(e) => expr_wf(e),
    }
}

/// Well-formedness of the members from index `j`.
pub open spec fn set_wf(items: Seq<GroupBy>, j: int) -> bool
    decreases items, 0int, items.len() - j,
{
    if j < 0 || j >= items.len() {
        true
    } else {
        proof {
            assert(decreases_to!(items => items[j]));
        }
        groupby_wf(items[j]) && set_wf(items, j + 1)
    }
}

/// One new group per element: the group extended by each element in order.
pub open spec fn per_group(g: Seq<Val>, items: Seq<Val>) -> Seq<Seq<Val>> {
    Seq::new(items.len(), |i: int| g.push(items[i]))
}

/// The cartesian fan-out of `Each`: every group extended by every element.
pub open spec fn cross_groups(groups: Seq<Seq<Val>>, items: Seq<Val>) -> Seq<Seq<Val>>
    decreases groups.len(),
{
    if groups.len() == 0 {
        Seq::empty()
    } else {
        per_group(groups[0], items) + cross_groups(groups.drop_first(), items)
    }
}

/// What a grouping tree does to the groups built so far.
pub open spec fn gen_groups(gb: GroupBy, c: CtxV, groups: Seq<Seq<Val>>) -> Result<
    Seq<Seq<Val>>,
    HaltV,
>
    decreases gb, 1int, 0int,
{
    match gb {
        GroupBy::Expr(e) => match eval(e, c) {
            Ok(v) => if groups.len() == 0 {
                Ok(seq![seq![v]])
            } else {
                Ok(Seq::new(groups.len(), |i: int| groups[i].push(v)))
            },
            Err(h) => Err(h),
        },
        GroupBy::SetOf(items) => {
            proof {
                assert(decreases_to!(gb => gb->SetOf_0));
            }
            gen_set(items@, 0, c, groups)
        },
        GroupBy::Each(e) => match eval(e, c) {
            Ok(v) => if v is Array {
                let items = v->Array_0;
                if groups.len() == 0 {
                    Ok(Seq::new(items.len(), |i: int| seq![items[i]]))
                } else {
                    Ok(cross_groups(groups, items))
                }
            } else {
                Err(HaltV::Fail(crate::error::ErrV::NeedsArray))
            },
            Err(h) => Err(h),
        },
    }
}

/// Folds the `Set` members over the groups, in order, from index `j`.
pub open spec fn gen_set(
    items: Seq<GroupBy>,
    j: int,
    c: CtxV,
    groups: Seq<Seq<Val>>,
) -> Result<Seq<Seq<Val>>, HaltV>
    decreases items, 0int, items.len() - j,
{
    if j < 0 || j >= items.len() {
        Ok(groups)
    } else {
        proof {
            assert(decreases_to!(items => items[j]));
        }
        match gen_groups(items[j], c, groups) {
            Ok(g1) => gen_set(items, j + 1, c, g1),
            Err(h) => Err(h),
        }
    }
}

/// The bare context grouping runs against: the event and its metadata, no
/// constants, no locals, null state.
pub open spec fn group_ctx(event: Val, meta: Val) -> CtxV {
    CtxV {
        event,
        state: Val::Null,
        meta,
        local: Seq::empty(),
        consts: Seq::empty(),
        args: Val::Null,
        group: Val::Null,
        window: Val::Null,
    }
}

/// Models of a list of groups.
pub open spec fn groups_of(s: Seq<Vec<Value>>) -> Seq<Seq<Val>> {
    Seq::new(s.len(), |i: int| vals_of(s[i]@))
}

/// Creates the grouping-key vectors for one event.
pub fn generate_groups(gb: &GroupBy, event: &Value, meta: &Value) -> (r: Result<
    Vec<Vec<Value>>,
    Halt,
>)
    requires
        groupby_wf(*gb),
        event@.wf(),
        meta@.wf(),
    ensures
        ({
            let s = gen_groups(*gb, group_ctx(event@, meta@), Seq::empty());
            match r {
                Ok(gs) => s is Ok && groups_of(gs@) == s->Ok_0,
                Err(h) => s is Err && h@ == s->Err_0,
            }
        }),
{
    let env = Env {
        consts: Vec::new(),
        args: Value::Null,
        group: Value::Null,
        window: Value::Null,
        recursion_limit: 1024,
    };
    let state = Value::Null;
    let local = LocalStack::with_size(0);
    let groups: Vec<Vec<Value>> = Vec::new();
    proof {
        broadcast use crate::value::lemma_wf_unfold;

        assert(vals_of(Seq::<Value>::empty()) =~= Seq::<Val>::empty());
        assert(locals_of(local.values@) =~= Seq::<Option<Val>>::empty());
        assert(ctx_of(env, *event, state, *meta, local) =~= group_ctx(event@, meta@));
        assert(groups_of(groups@) =~= Seq::<Seq<Val>>::empty());
    }
    gen_groups_expr(gb, groups, &env, event, &state, meta, &local)
}

/// Applies one grouping tree to the groups built so far, executably.
#[verifier::rlimit(100)]
fn gen_groups_expr(
    gb: &GroupBy,
    groups: Vec<Vec<Value>>,
    env: &Env,
    event: &Value,
    state: &Value,
    meta: &Value,
    local: &LocalStack,
) -> (r: Result<Vec<Vec<Value>>, Halt>)
    requires
        ctx_wf(ctx_of(*env, *event, *state, *meta, *local)),
        groupby_wf(*gb),
    ensures
        ({
            let s = gen_groups(
                *gb,
                ctx_of(*env, *event, *state, *meta, *local),
                groups_of(groups@),
            );
            match r {
                Ok(gs) => s is Ok && groups_of(gs@) == s->Ok_0,
                Err(h) => s is Err && h@ == s->Err_0,
            }
        }),
    decreases *gb, 1int, 0int,
{
    broadcast use lemma_vals_of;

    let ghost c = ctx_of(*env, *event, *state, *meta, *local);
    let ghost g0 = groups_of(groups@);
    match gb {
        GroupBy::Expr(e) => {
            let v = match run_imut(e, env, event, state, meta, local) {
                Ok(v) => v,
                Err(h) => {
                    return Err(h);
                }
            };
            let mut groups = groups;
            if groups.len() == 0 {
                let ghost vv = v@;
                let mut g: Vec<Value> = Vec::new();
                g.push(v);
                proof {
                    assert(vals_of(g@) =~= seq![vv]);
                }
                groups.push(g);
                proof {
                    assert(groups_of(groups@) =~= seq![seq![vv]]);
                }
                Ok(groups)
            } else {
                let mut out: Vec<Vec<Value>> = Vec::new();
                let mut i: usize = 0;
                #[verifier::loop_isolation(false)]
                while i < groups.len()
                    invariant
                        i <= groups@.len(),
                        out@.len() == i as int,
                        forall|k: int|
                            0 <= k < i as int ==> vals_of((#[trigger] out@[k])@) == g0[k].push(
                                v@,
                            ),
                    decreases groups@.len() - i,
                {
                    let mut g = copy_group(&groups[i]);
                    let copied = duplicate(&v);
                    let ghost gpre = vals_of(g@);
                    g.push(copied);
                    proof {
                        assert(vals_of(g@) =~= gpre.push(v@));
                        assert(gpre =~= g0[i as int]);
                    }
                    out.push(g);
                    i = i + 1;
                }
                proof {
                    assert(groups_of(out@) =~= Seq::new(g0.len(), |k: int| g0[k].push(v@)));
                }
                Ok(out)
            }
        }
        GroupBy::SetOf(items) => {
            proof {
                assert(decreases_to!(*gb => gb->SetOf_0));
            }
            gen_set_expr(items, 0, groups, env, event, state, meta, local)
        }
        GroupBy::Each(e) => {
            let v = match run_imut(e, env, event, state, meta, local) {
                Ok(v) => v,
                Err(h) => {
                    return Err(h);
                }
            };
            match &v {
                Value::Array(items) => {
                    proof {
                        crate::value::lemma_view_unfold(v);
                    }
                    if groups.len() == 0 {
                        let mut out: Vec<Vec<Value>> = Vec::new();
                        let mut i: usize = 0;
                        #[verifier::loop_isolation(false)]
                        while i < items.len()
                            invariant
                                i <= items@.len(),
                                out@.len() == i as int,
                                forall|k: int|
                                    0 <= k < i as int ==> vals_of((#[trigger] out@[k])@) == seq![
                                        vals_of(items@)[k],
                                    ],
                            decreases items@.len() - i,
                        {
                            let mut g: Vec<Value> = Vec::new();
                            g.push(duplicate(&items[i]));
                            proof {
                                assert(vals_of(g@) =~= seq![vals_of(items@)[i as int]]);
                            }
                            out.push(g);
                            i = i + 1;
                        }
                        proof {
                            assert(groups_of(out@) =~= Seq::new(
                                vals_of(items@).len(),
                                |k: int| seq![vals_of(items@)[k]],
                            ));
                        }
                        Ok(out)
                    } else {
                        let mut out: Vec<Vec<Value>> = Vec::new();
                        let mut i: usize = 0;
                        #[verifier::loop_isolation(false)]
                        while i < groups.len()
                            invariant
                                i <= groups@.len(),
                                groups_of(out@) =~= cross_groups(
                                    g0.take(i as int),
                                    vals_of(items@),
                                ),
                            decreases groups@.len() - i,
                        {
                            let ghost outpre = groups_of(out@);
                            let mut k: usize = 0;
                            #[verifier::loop_isolation(false)]
                            while k < items.len()
                                invariant
                                    k <= items@.len(),
                                    i < groups@.len(),
                                    out@.len() == outpre.len() + k as int,
                                    forall|t: int|
                                        0 <= t < outpre.len() ==> vals_of(
                                            (#[trigger] out@[t])@,
                                        ) == outpre[t],
                                    forall|t: int|
                                        outpre.len() <= t < out@.len() ==> vals_of(
                                            (#[trigger] out@[t])@,
                                        ) == g0[i as int].push(
                                            vals_of(items@)[t - outpre.len()],
                                        ),
                                decreases items@.len() - k,
                            {
                                let mut g = copy_group(&groups[i]);
                                let ghost gpre = vals_of(g@);
                                g.push(duplicate(&items[k]));
                                proof {
                                    assert(gpre =~= g0[i as int]);
                                    assert(vals_of(g@) =~= g0[i as int].push(
                                        vals_of(items@)[k as int],
                                    ));
                                }
                                out.push(g);
                                k = k + 1;
                            }
                            proof {
                                lemma_cross_take_step(g0, vals_of(items@), i as int);
                                assert(groups_of(out@) =~= outpre + per_group(
                                    g0[i as int],
                                    vals_of(items@),
                                ));
                            }
                            i = i + 1;
                        }
                        proof {
                            assert(g0.take(groups@.len() as int) =~= g0);
                        }
                        Ok(out)
                    }
                }
                _ => Err(Halt::Fail(crate::error::Error::NeedsArray)),
            }
        }
    }
}

/// Folds the `Set` members from index `j`, executably.
fn gen_set_expr(
    items: &Vec<GroupBy>,
    j: usize,
    groups: Vec<Vec<Value>>,
    env: &Env,
    event: &Value,
    state: &Value,
    meta: &Value,
    local: &LocalStack,
) -> (r: Result<Vec<Vec<Value>>, Halt>)
    requires
        ctx_wf(ctx_of(*env, *event, *state, *meta, *local)),
        set_wf(items@, j as int),
        j <= items@.len(),
    ensures
        ({
            let s = gen_set(
                items@,
                j as int,
                ctx_of(*env, *event, *state, *meta, *local),
                groups_of(groups@),
            );
            match r {
                Ok(gs) => s is Ok && groups_of(gs@) == s->Ok_0,
                Err(h) => s is Err && h@ == s->Err_0,
            }
        }),
    decreases *items, 0int, items@.len() - j,
{
    if j >= items.len() {
        return Ok(groups);
    }
    proof {
        assert(decreases_to!(*items => items@[j as int]));
    }
    match gen_groups_expr(&items[j], groups, env, event, state, meta, local) {
        Ok(g1) => gen_set_expr(items, j + 1, g1, env, event, state, meta, local),
        Err(h) => Err(h),
    }
}

/// Extending the crossed prefix by one group appends that group's fan-out.
proof fn lemma_cross_take_step(g0: Seq<Seq<Val>>, items: Seq<Val>, i: int)
    requires
        0 <= i < g0.len(),
    ensures
        cross_groups(g0.take(i + 1), items) =~= cross_groups(g0.take(i), items) + per_group(
            g0[i],
            items,
        ),
    decreases i,
{
    if i == 0 {
        assert(g0.take(1).drop_first() =~= Seq::<Seq<Val>>::empty());
        assert(g0.take(0) =~= Seq::<Seq<Val>>::empty());
        assert(g0.take(1)[0] == g0[0]);
    } else {
        lemma_cross_take_step(g0.drop_first(), items, i - 1);
        assert(g0.take(i + 1)[0] == g0[0]);
        assert(g0.take(i + 1).drop_first() =~= g0.drop_first().take(i));
        assert(g0.take(i).drop_first() =~= g0.drop_first().take(i - 1));
        assert(g0.take(i)[0] == g0[0]);
        assert(g0.drop_first()[i - 1] == g0[i]);
        assert(cross_groups(g0.take(i + 1), items) =~= per_group(g0[0], items) + cross_groups(
            g0.drop_first().take(i),
            items,
        ));
        assert(cross_groups(g0.take(i), items) =~= per_group(g0[0], items) + cross_groups(
            g0.drop_first().take(i - 1),
            items,
        ));
    }
}

/// Copy of one group whose model is the same.
#[verifier::loop_isolation(false)]
fn copy_group(g: &Vec<Value>) -> (r: Vec<Value>)
    ensures
        vals_of(r@) == vals_of(g@),
{
    broadcast use lemma_vals_of;

    let mut out: Vec<Value> = Vec::new();
    let mut i: usize = 0;
    while i < g.len()
        invariant
            i <= g@.len(),
            out@.len() == i as int,
            forall|k: int| 0 <= k < i as int ==> (#[trigger] out@[k])@ == g@[k]@,
        decreases g@.len() - i,
    {
        out.push(duplicate(&g[i]));
        i = i + 1;
    }
    proof {
        assert(vals_of(out@) =~= vals_of(g@));
    }
    out
}

} // verus!
