//! The statement executor: the imperative expression forms (match, if/else,
//! comprehension, emit, drop, assign) over the mutable run-time context.
//!
//! Every statement yields a control signal: `Cont` falls through with a
//! value; `Emit` ends the whole run with a derived value for a port;
//! `Drop` ends it discarding the event; `EmitEvent` ends it re-emitting the
//! current event itself — chosen exactly when the emit target is the literal
//! unsegmented event path. A block runs all statements but the last without
//! a needed result, the last with the caller's options; any non-`Cont`
//! signal short-circuits the block. On a halt the context may hold the
//! effects of the statements already run; the caller surfaces the error and
//! discards the event.

use vstd::prelude::*;

use crate::error::{ErrV, Error};
use crate::interp::{
    ctx_of, ctx_wf, eval, eval_key, eval_string, expr_wf, locals_of, path_wf, resolve,
    resolve_path, run_imut, CtxV, Env, ExecOpts, Halt, HaltV, ImutExpr, LocalStack, Path,
    PathRoot, Segment,
};
use crate::pattern::{pattern_wf, test_pred, test_predicate_expr, Pattern};
use crate::value::{
    duplicate, entries_of, lemma_entries_of, lemma_obj_push_wf, lemma_obj_set_wf,
    lemma_obj_vals_wf, lemma_vals_of, obj_find_idx, obj_get, obj_has, obj_lookup, obj_put,
    obj_set, obj_vals_wf, unique_keys, vals_of, Val, Value,
};

verus! {

broadcast use vstd::seq_lib::group_seq_lib_default;

/// Continuation signal controlling program flow.
#[derive(Debug, PartialEq)]
pub enum Cont {
    /// Normal fallthrough with a value.
    Cont(Value),
    /// Terminate the run, emitting the value to the named or default port.
    Emit(Value, Option<String>),
    /// Terminate the run, discarding the event.
    Drop,
    /// Terminate the run, re-emitting the current event itself.
    EmitEvent(Option<String>),
}

/// Spec-level model of a continuation signal.
#[verifier::ext_equal]
pub enum ContV {
    Cont(Val),
    Emit(Val, Option<Seq<char>>),
    Drop,
    EmitEvent(Option<Seq<char>>),
}

impl View for Cont {
    type V = ContV;

    open spec fn view(&self) -> ContV {
        match self {
            Cont::Cont(v) => ContV::Cont(v@),
            Cont::Emit(v, p) => ContV::Emit(
                v@,
                match p {
                    Some(s) => Some(s@),
                    None => None,
                },
            ),
            Cont::Drop => ContV::Drop,
            Cont::EmitEvent(p) => ContV::EmitEvent(
                match p {
                    Some(s) => Some(s@),
                    None => None,
                },
            ),
        }
    }
}

/// A statement of the imperative layer.
#[derive(Debug, PartialEq)]
pub enum Expr {
    /// Terminate the run, emitting a value (or the event itself when the
    /// target is the literal unsegmented event path).
    Emit { expr: ImutExpr, port: Option<ImutExpr> },
    /// Terminate the run, discarding the event.
    Drop,
    /// Assign the statement's value to a path.
    Assign { path: Path, expr: Box<Expr> },
    /// Select the first matching clause and run its body.
    Match(Box<Match>),
    /// A single clause with an else branch.
    IfElse(Box<IfElse>),
    /// Iterate an object or array, collecting one value per taken item.
    Comprehension(Box<Comprehension>),
    /// An immutable expression as a statement.
    Imut(ImutExpr),
}

/// A match statement: clauses in declaration order and a default.
#[derive(Debug, PartialEq)]
pub struct Match {
    pub target: ImutExpr,
    pub clauses: Vec<Clause>,
    pub default: DefaultCase,
}

/// One clause: a pattern with a guard and a body.
#[derive(Debug, PartialEq)]
pub struct Clause {
    pub pattern: Pattern,
    pub guard: Option<ImutExpr>,
    pub exprs: Vec<Expr>,
    pub last_expr: Box<Expr>,
}

/// An if/else statement.
#[derive(Debug, PartialEq)]
pub struct IfElse {
    pub target: ImutExpr,
    pub if_clause: Clause,
    pub else_clause: DefaultCase,
}

/// What runs when no clause matched.
#[derive(Debug, PartialEq)]
pub enum DefaultCase {
    /// No default: no clause hit is a fatal error.
    Absent,
    /// Fall through with null.
    Null,
    /// A single statement.
    One(Box<Expr>),
    /// A block of statements.
    Many { exprs: Vec<Expr>, last_expr: Box<Expr> },
}

/// A comprehension: iterate the target, binding the key and value shadow
/// slots, and run the first case whose guard passes for each item.
#[derive(Debug, PartialEq)]
pub struct Comprehension {
    pub target: ImutExpr,
    pub key_id: usize,
    pub val_id: usize,
    pub cases: Vec<ComprehensionCase>,
}

/// One comprehension case: a guard and a body.
#[derive(Debug, PartialEq)]
pub struct ComprehensionCase {
    pub guard: Option<ImutExpr>,
    pub exprs: Vec<Expr>,
    pub last_expr: Box<Expr>,
}

/// Well-formedness of the values embedded in a statement.
pub open spec fn stmt_wf(e: Expr) -> bool
    decreases e, 3int, 0int,
{
    match e {
        Expr::Emit { expr, port } => expr_wf(expr) && (match port {
            Some(p) => expr_wf(p),
            None => true,
        }),
        Expr::Drop => true,
        Expr::Assign { path, expr } => path_wf(path) && stmt_wf(*expr),
        Expr::Match(m) => {
            proof {
                assert(decreases_to!(e => m));
                assert(decreases_to!(*m => m.clauses));
                assert(decreases_to!(*m => m.default));
            }
            expr_wf(m.target) && clauses_wf(m.clauses@) && default_wf(m.default)
        },
        Expr::IfElse(f) => {
            proof {
                assert(decreases_to!(e => f));
                assert(decreases_to!(*f => f.if_clause));
                assert(decreases_to!(*f => f.else_clause));
            }
            expr_wf(f.target) && clause_wf(f.if_clause) && default_wf(f.else_clause)
        },
        Expr::Comprehension(comp) => {
            proof {
                assert(decreases_to!(e => comp));
                assert(decreases_to!(*comp => comp.cases));
            }
            expr_wf(comp.target) && cases_wf(comp.cases@)
        },
        Expr::Imut(ie) => expr_wf(ie),
    }
}

/// Well-formedness of a block of statements.
pub open spec fn stmts_wf(es: Seq<Expr>) -> bool
    decreases es, 2int, 0int,
{
    if es.len() == 0 {
        true
    } else {
        proof {
            assert(decreases_to!(es => es[0]));
            assert(decreases_to!(es => es.subrange(1, es.len() as int)));
            assert(es.drop_first() == es.subrange(1, es.len() as int));
        }
        stmt_wf(es[0]) && stmts_wf(es.drop_first())
    }
}

/// Well-formedness of one clause.
pub open spec fn clause_wf(cl: Clause) -> bool
    decreases cl, 4int, 0int,
{
    proof {
        assert(decreases_to!(cl => cl.exprs));
        assert(decreases_to!(cl => cl.last_expr));
    }
    &&& pattern_wf(cl.pattern)
    &&& (match cl.guard {
        Some(g) => expr_wf(g),
        None => true,
    })
    &&& stmts_wf(cl.exprs@)
    &&& stmt_wf(*cl.last_expr)
}

/// Well-formedness of a clause list.
pub open spec fn clauses_wf(cs: Seq<Clause>) -> bool
    decreases cs, 5int, 0int,
{
    if cs.len() == 0 {
        true
    } else {
        proof {
            assert(decreases_to!(cs => cs[0]));
            assert(decreases_to!(cs => cs.subrange(1, cs.len() as int)));
            assert(cs.drop_first() == cs.subrange(1, cs.len() as int));
        }
        clause_wf(cs[0]) && clauses_wf(cs.drop_first())
    }
}

/// Well-formedness of a default case.
pub open spec fn default_wf(d: DefaultCase) -> bool
    decreases d, 4int, 0int,
{
    match d {
        DefaultCase::Absent => true,
        DefaultCase::Null => true,
        DefaultCase::One(e) => stmt_wf(*e),
        DefaultCase::Many { exprs, last_expr } => {
            proof {
                assert(decreases_to!(d => d->Many_exprs));
                assert(decreases_to!(d => d->Many_last_expr));
            }
            stmts_wf(exprs@) && stmt_wf(*last_expr)
        },
    }
}

/// Well-formedness of one comprehension case.
pub open spec fn case_wf(cl: ComprehensionCase) -> bool
    decreases cl, 4int, 0int,
{
    proof {
        assert(decreases_to!(cl => cl.exprs));
        assert(decreases_to!(cl => cl.last_expr));
    }
    &&& (match cl.guard {
        Some(g) => expr_wf(g),
        None => true,
    })
    &&& stmts_wf(cl.exprs@)
    &&& stmt_wf(*cl.last_expr)
}

/// Well-formedness of a comprehension case list.
pub open spec fn cases_wf(cs: Seq<ComprehensionCase>) -> bool
    decreases cs, 5int, 0int,
{
    if cs.len() == 0 {
        true
    } else {
        proof {
            assert(decreases_to!(cs => cs[0]));
            assert(decreases_to!(cs => cs.subrange(1, cs.len() as int)));
            assert(cs.drop_first() == cs.subrange(1, cs.len() as int));
        }
        case_wf(cs[0]) && cases_wf(cs.drop_first())
    }
}

/// What statement well-formedness unfolds to, by variant.
pub proof fn lemma_stmt_wf_unfold(e: Expr)
    ensures
        stmt_wf(e) <==> (match e {
            Expr::Emit { expr, port } => expr_wf(expr) && (match port {
                Some(p) => expr_wf(p),
                None => true,
            }),
            Expr::Drop => true,
            Expr::Assign { path, expr } => path_wf(path) && stmt_wf(*expr),
            Expr::Match(m) => expr_wf(m.target) && clauses_wf(m.clauses@) && default_wf(
                m.default,
            ),
            Expr::IfElse(f) => expr_wf(f.target) && clause_wf(f.if_clause) && default_wf(
                f.else_clause,
            ),
            Expr::Comprehension(comp) => expr_wf(comp.target) && cases_wf(comp.cases@),
            Expr::Imut(ie) => expr_wf(ie),
        }),
{
}

/// What clause well-formedness unfolds to.
pub proof fn lemma_clause_wf_unfold(cl: Clause)
    ensures
        clause_wf(cl) <==> (pattern_wf(cl.pattern) && (match cl.guard {
            Some(g) => expr_wf(g),
            None => true,
        }) && stmts_wf(cl.exprs@) && stmt_wf(*cl.last_expr)),
{
}

/// What case well-formedness unfolds to.
pub proof fn lemma_case_wf_unfold(cl: ComprehensionCase)
    ensures
        case_wf(cl) <==> ((match cl.guard {
            Some(g) => expr_wf(g),
            None => true,
        }) && stmts_wf(cl.exprs@) && stmt_wf(*cl.last_expr)),
{
}

/// What default-case well-formedness unfolds to.
pub proof fn lemma_default_wf_unfold(d: DefaultCase)
    ensures
        default_wf(d) <==> (match d {
            DefaultCase::Absent => true,
            DefaultCase::Null => true,
            DefaultCase::One(e) => stmt_wf(*e),
            DefaultCase::Many { exprs, last_expr } => stmts_wf(exprs@) && stmt_wf(*last_expr),
        }),
{
}

/// `stmts_wf` is the pointwise statement.
pub proof fn lemma_stmts_wf(s: Seq<Expr>)
    ensures
        stmts_wf(s) <==> (forall|i: int| 0 <= i < s.len() ==> stmt_wf(#[trigger] s[i])),
    decreases s.len(),
{
    if s.len() > 0 {
        lemma_stmts_wf(s.drop_first());
        assert(stmts_wf(s) == (stmt_wf(s[0]) && stmts_wf(s.drop_first())));
        assert forall|i: int|
            0 <= i < s.drop_first().len() implies #[trigger] s.drop_first()[i] == s[i + 1] by {}
        if stmts_wf(s) {
            assert forall|i: int| 0 <= i < s.len() implies stmt_wf(#[trigger] s[i]) by {
                if i > 0 {
                    assert(s.drop_first()[i - 1] == s[i]);
                }
            }
        }
        if forall|i: int| 0 <= i < s.len() ==> stmt_wf(#[trigger] s[i]) {
            assert(stmt_wf(s[0]));
            assert forall|i: int|
                0 <= i < s.drop_first().len() implies stmt_wf(#[trigger] s.drop_first()[i]) by {
                assert(s.drop_first()[i] == s[i + 1]);
            }
        }
    }
}

/// `clauses_wf` is the pointwise statement.
pub proof fn lemma_clauses_wf(s: Seq<Clause>)
    ensures
        clauses_wf(s) <==> (forall|i: int| 0 <= i < s.len() ==> clause_wf(#[trigger] s[i])),
    decreases s.len(),
{
    if s.len() > 0 {
        lemma_clauses_wf(s.drop_first());
        assert(clauses_wf(s) == (clause_wf(s[0]) && clauses_wf(s.drop_first())));
        assert forall|i: int|
            0 <= i < s.drop_first().len() implies #[trigger] s.drop_first()[i] == s[i + 1] by {}
        if clauses_wf(s) {
            assert forall|i: int| 0 <= i < s.len() implies clause_wf(#[trigger] s[i]) by {
                if i > 0 {
                    assert(s.drop_first()[i - 1] == s[i]);
                }
            }
        }
        if forall|i: int| 0 <= i < s.len() ==> clause_wf(#[trigger] s[i]) {
            assert(clause_wf(s[0]));
            assert forall|i: int|
                0 <= i < s.drop_first().len() implies clause_wf(#[trigger] s.drop_first()[i]) by {
                assert(s.drop_first()[i] == s[i + 1]);
            }
        }
    }
}

/// `cases_wf` is the pointwise statement.
pub proof fn lemma_cases_wf(s: Seq<ComprehensionCase>)
    ensures
        cases_wf(s) <==> (forall|i: int| 0 <= i < s.len() ==> case_wf(#[trigger] s[i])),
    decreases s.len(),
{
    if s.len() > 0 {
        lemma_cases_wf(s.drop_first());
        assert(cases_wf(s) == (case_wf(s[0]) && cases_wf(s.drop_first())));
        assert forall|i: int|
            0 <= i < s.drop_first().len() implies #[trigger] s.drop_first()[i] == s[i + 1] by {}
        if cases_wf(s) {
            assert forall|i: int| 0 <= i < s.len() implies case_wf(#[trigger] s[i]) by {
                if i > 0 {
                    assert(s.drop_first()[i - 1] == s[i]);
                }
            }
        }
        if forall|i: int| 0 <= i < s.len() ==> case_wf(#[trigger] s[i]) {
            assert(case_wf(s[0]));
            assert forall|i: int|
                0 <= i < s.drop_first().len() implies case_wf(#[trigger] s.drop_first()[i]) by {
                assert(s.drop_first()[i] == s[i + 1]);
            }
        }
    }
}

/// Is the expression the literal unsegmented event path? Exactly then an
/// emit re-emits the event itself.
pub open spec fn is_event_path(e: ImutExpr) -> bool {
    &&& e is Path
    &&& e->Path_0.root is Event
    &&& e->Path_0.segments@.len() == 0
}

/// The value a continuation carries is well-formed.
pub open spec fn cont_wf(k: ContV) -> bool {
    match k {
        ContV::Cont(v) => v.wf(),
        ContV::Emit(v, _) => v.wf(),
        _ => true,
    }
}

/// The items a comprehension iterates: an object yields (key, value) pairs,
/// an array (index, element) pairs, anything else nothing.
pub open spec fn compr_items(t: Val) -> Seq<(Val, Val)> {
    match t {
        Val::Object(entries) => Seq::new(
            entries.len(),
            |i: int| (Val::Str(entries[i].0), entries[i].1),
        ),
        Val::Array(items) => Seq::new(items.len(), |i: int| (Val::U64(i as u64), items[i])),
        _ => Seq::empty(),
    }
}

/// What one statement does: the control signal and the context after.
#[verifier::rlimit(100)]
pub open spec fn exec_expr(e: Expr, c: CtxV, opts: ExecOpts) -> Result<(ContV, CtxV), HaltV>
    decreases e, 6int, 0int,
{
    match e {
        Expr::Emit { expr, port } => {
            let pv: Result<Option<Seq<char>>, HaltV> = match port {
                Some(p) => match eval_key(p, c) {
                    Ok(s) => Ok(Some(s)),
                    Err(h) => Err(h),
                },
                None => Ok(None),
            };
            match pv {
                Ok(ps) => if is_event_path(expr) {
                    Ok((ContV::EmitEvent(ps), c))
                } else {
                    match eval(expr, c) {
                        Ok(v) => Ok((ContV::Emit(v, ps), c)),
                        Err(h) => Err(h),
                    }
                },
                Err(h) => Err(h),
            }
        },
        Expr::Drop => Ok((ContV::Drop, c)),
        Expr::Assign { path, expr } => {
            proof {
                assert(decreases_to!(e => e->Assign_expr));
            }
            match exec_expr(*expr, c, ExecOpts { result_needed: true, ..opts }) {
                Ok((ContV::Cont(v), c1)) => assign_path(path, c1, v, opts),
                Ok((k, c1)) => Ok((k, c1)),
                Err(h) => Err(h),
            }
        },
        Expr::Match(m) => {
            proof {
                assert(decreases_to!(e => m));
                assert(decreases_to!(*m => m.clauses));
                assert(decreases_to!(*m => m.default));
            }
            match eval(m.target, c) {
                Ok(t) => match run_clauses(m.clauses@, 0, c, opts, t) {
                    Ok((Some(done), _)) => Ok(done),
                    Ok((None, c1)) => run_default(m.default, c1, opts),
                    Err(h) => Err(h),
                },
                Err(h) => Err(h),
            }
        },
        Expr::IfElse(f) => {
            proof {
                assert(decreases_to!(e => f));
                assert(decreases_to!(*f => f.if_clause));
                assert(decreases_to!(f.if_clause => f.if_clause.exprs));
                assert(decreases_to!(f.if_clause => f.if_clause.last_expr));
                assert(decreases_to!(*f => f.else_clause));
            }
            match eval(f.target, c) {
                Ok(t) => match test_pred(f.if_clause.pattern, f.if_clause.guard, c, t) {
                    Ok((b, locals1)) => {
                        let c1 = CtxV { local: locals1, ..c };
                        if b {
                            match run_block(f.if_clause.exprs@, 0, c1, opts) {
                                Ok((Some(done), _)) => Ok(done),
                                Ok((None, c2)) => exec_expr(*f.if_clause.last_expr, c2, opts),
                                Err(h) => Err(h),
                            }
                        } else {
                            run_default(f.else_clause, c1, opts)
                        }
                    },
                    Err(h) => Err(h),
                },
                Err(h) => Err(h),
            }
        },
        Expr::Comprehension(comp) => {
            proof {
                assert(decreases_to!(e => comp));
            }
            match eval(comp.target, c) {
                Ok(t) => run_compr(*comp, compr_items(t), 0, c, opts, Seq::empty()),
                Err(h) => Err(h),
            }
        },
        Expr::Imut(ie) => if opts.result_needed {
            match eval(ie, c) {
                Ok(v) => Ok((ContV::Cont(v), c)),
                Err(h) => Err(h),
            }
        } else {
            Ok((ContV::Cont(Val::Null), c))
        },
    }
}

/// Runs the statements of a block from index `j`, each without a needed
/// result; a non-`Cont` signal stops the block early.
pub open spec fn run_block(es: Seq<Expr>, j: int, c: CtxV, opts: ExecOpts) -> Result<
    (Option<(ContV, CtxV)>, CtxV),
    HaltV,
>
    decreases es, 5int, es.len() - j,
{
    if j < 0 || j >= es.len() {
        Ok((None, c))
    } else {
        proof {
            assert(decreases_to!(es => es[j]));
        }
        match exec_expr(es[j], c, ExecOpts { result_needed: false, ..opts }) {
            Ok((ContV::Cont(_), c1)) => run_block(es, j + 1, c1, opts),
            Ok((k, c1)) => Ok((Some((k, c1)), c1)),
            Err(h) => Err(h),
        }
    }
}

/// Tries the clauses in declaration order from index `j`: the first whose
/// pattern and guard pass runs its body; capture residue in the local frame
/// stays even for clauses that did not match.
pub open spec fn run_clauses(
    cs: Seq<Clause>,
    j: int,
    c: CtxV,
    opts: ExecOpts,
    target: Val,
) -> Result<(Option<(ContV, CtxV)>, CtxV), HaltV>
    decreases cs, 5int, cs.len() - j,
{
    if j < 0 || j >= cs.len() {
        Ok((None, c))
    } else {
        proof {
            assert(decreases_to!(cs => cs[j]));
            assert(decreases_to!(cs[j] => cs[j].exprs));
            assert(decreases_to!(cs[j] => cs[j].last_expr));
        }
        let cl = cs[j];
        match test_pred(cl.pattern, cl.guard, c, target) {
            Ok((b, locals1)) => {
                let c1 = CtxV { local: locals1, ..c };
                if b {
                    match run_block(cl.exprs@, 0, c1, opts) {
                        Ok((Some(done), _)) => Ok((Some(done), done.1)),
                        Ok((None, c2)) => match exec_expr(*cl.last_expr, c2, opts) {
                            Ok(rc) => Ok((Some(rc), rc.1)),
                            Err(h) => Err(h),
                        },
                        Err(h) => Err(h),
                    }
                } else {
                    run_clauses(cs, j + 1, c1, opts, target)
                }
            },
            Err(h) => Err(h),
        }
    }
}

/// What runs when no clause matched.
pub open spec fn run_default(d: DefaultCase, c: CtxV, opts: ExecOpts) -> Result<
    (ContV, CtxV),
    HaltV,
>
    decreases d, 5int, 0int,
{
    match d {
        DefaultCase::Absent => Err(HaltV::Fail(ErrV::NoClauseHit)),
        DefaultCase::Null => Ok((ContV::Cont(Val::Null), c)),
        DefaultCase::One(le) => {
            proof {
                assert(decreases_to!(d => d->One_0));
            }
            exec_expr(*le, c, opts)
        },
        DefaultCase::Many { exprs, last_expr } => {
            proof {
                assert(decreases_to!(d => d->Many_exprs));
                assert(decreases_to!(d => d->Many_last_expr));
            }
            match run_block(exprs@, 0, c, opts) {
                Ok((Some(done), _)) => Ok(done),
                Ok((None, c1)) => exec_expr(*last_expr, c1, opts),
                Err(h) => Err(h),
            }
        },
    }
}

/// One comprehension: for each item from index `j`, bind the key and value
/// shadow slots, run the first case whose guard passes, and collect its value
/// when a result is needed; items no case takes are skipped.
pub open spec fn run_compr(
    comp: Comprehension,
    items: Seq<(Val, Val)>,
    j: int,
    c: CtxV,
    opts: ExecOpts,
    acc: Seq<Val>,
) -> Result<(ContV, CtxV), HaltV>
    decreases comp, 5int, items.len() - j,
{
    if j < 0 || j >= items.len() {
        Ok((ContV::Cont(Val::Array(acc)), c))
    } else if comp.key_id < c.local.len() && comp.val_id < c.local.len() {
        proof {
            assert(decreases_to!(comp => comp.cases));
        }
        let locals1 = c.local.update(comp.key_id as int, Some(items[j].0)).update(
            comp.val_id as int,
            Some(items[j].1),
        );
        let c1 = CtxV { local: locals1, ..c };
        match compr_cases(comp.cases@, 0, c1, opts) {
            Ok(Some((ContV::Cont(v), c2))) => run_compr(
                comp,
                items,
                j + 1,
                c2,
                opts,
                if opts.result_needed {
                    acc.push(v)
                } else {
                    acc
                },
            ),
            Ok(Some((k, c2))) => Ok((k, c2)),
            Ok(None) => run_compr(comp, items, j + 1, c1, opts, acc),
            Err(h) => Err(h),
        }
    } else {
        Err(HaltV::Fail(ErrV::Oops { code: 0xdead_0006 }))
    }
}

/// Tries the comprehension cases from index `j`: the first whose guard
/// passes runs (guards are pure, so scanning leaves the context unchanged).
pub open spec fn compr_cases(
    cs: Seq<ComprehensionCase>,
    j: int,
    c: CtxV,
    opts: ExecOpts,
) -> Result<Option<(ContV, CtxV)>, HaltV>
    decreases cs, 4int, cs.len() - j,
{
    if j < 0 || j >= cs.len() {
        Ok(None)
    } else {
        proof {
            assert(decreases_to!(cs => cs[j]));
            assert(decreases_to!(cs[j] => cs[j].exprs));
            assert(decreases_to!(cs[j] => cs[j].last_expr));
        }
        let cl = cs[j];
        match crate::pattern::guard_ok(cl.guard, c) {
            Ok(true) => match run_block(cl.exprs@, 0, c, opts) {
                Ok((Some(done), _)) => Ok(Some(done)),
                Ok((None, c1)) => match exec_expr(*cl.last_expr, c1, opts) {
                    Ok(rc) => Ok(Some(rc)),
                    Err(h) => Err(h),
                },
                Err(h) => Err(h),
            },
            Ok(false) => compr_cases(cs, j + 1, c, opts),
            Err(h) => Err(h),
        }
    }
}

/// Nested assignment below a root: missing intermediate containers are
/// auto-vivified as empty objects via field and computed-key segments only;
/// an index or range segment can never be assigned through.
pub open spec fn assign_in(
    segs: Seq<Segment>,
    j: int,
    cur: Val,
    v: Val,
    c: CtxV,
) -> Result<Val, HaltV>
    decreases segs, 5int, segs.len() - j,
{
    if j < 0 || j >= segs.len() {
        Ok(v)
    } else {
        proof {
            assert(decreases_to!(segs => segs[j]));
        }
        match segs[j] {
            Segment::Id(key) => if cur is Object {
                let entries = cur->Object_0;
                let inner = if obj_has(entries, key@) {
                    obj_get(entries, key@)
                } else {
                    Val::Object(Seq::empty())
                };
                match assign_in(segs, j + 1, inner, v, c) {
                    Ok(nv) => Ok(Val::Object(obj_set(entries, key@, nv))),
                    Err(h) => Err(h),
                }
            } else {
                Err(HaltV::Fail(ErrV::NeedsObject))
            },
            Segment::Element(ke) => match eval_key(*ke, c) {
                Ok(k) => if cur is Object {
                    let entries = cur->Object_0;
                    let inner = if obj_has(entries, k) {
                        obj_get(entries, k)
                    } else {
                        Val::Object(Seq::empty())
                    };
                    match assign_in(segs, j + 1, inner, v, c) {
                        Ok(nv) => Ok(Val::Object(obj_set(entries, k, nv))),
                        Err(h) => Err(h),
                    }
                } else {
                    Err(HaltV::Fail(ErrV::NeedsObject))
                },
                Err(h) => Err(h),
            },
            Segment::Idx(_) => Err(HaltV::Fail(ErrV::CannotAssignArray)),
            Segment::Range(_, _) => Err(HaltV::Fail(ErrV::CannotAssignArray)),
        }
    }
}

/// The statement value after a nested assignment: the assigned place,
/// re-resolved, when a result is needed.
pub open spec fn assign_result(p: Path, c1: CtxV, opts: ExecOpts) -> Result<
    (ContV, CtxV),
    HaltV,
> {
    if opts.result_needed {
        match resolve_path(p, c1) {
            Ok(rv) => Ok((ContV::Cont(rv), c1)),
            Err(h) => Err(h),
        }
    } else {
        Ok((ContV::Cont(Val::Null), c1))
    }
}

/// Assignment to a path. An empty path replaces the whole root outright;
/// metadata can only be assigned below its root; constants, reserved
/// pseudo-variables and computed roots can never be assigned.
pub open spec fn assign_path(p: Path, c: CtxV, v: Val, opts: ExecOpts) -> Result<
    (ContV, CtxV),
    HaltV,
> {
    if p.segments@.len() == 0 {
        match p.root {
            PathRoot::Local(idx) => if idx < c.local.len() {
                Ok(
                    (
                        ContV::Cont(v),
                        CtxV { local: c.local.update(idx as int, Some(v)), ..c },
                    ),
                )
            } else {
                Err(HaltV::Fail(ErrV::Oops { code: 0xdead_000f }))
            },
            PathRoot::Event => Ok((ContV::Cont(v), CtxV { event: v, ..c })),
            PathRoot::State => Ok((ContV::Cont(v), CtxV { state: v, ..c })),
            PathRoot::Meta => Err(HaltV::Fail(ErrV::InvalidAssignTarget)),
            _ => Err(HaltV::Fail(ErrV::AssignToConst)),
        }
    } else {
        match p.root {
            PathRoot::Local(idx) => if idx < c.local.len() {
                match c.local[idx as int] {
                    Some(cur) => match assign_in(p.segments@, 0, cur, v, c) {
                        Ok(nv) => assign_result(
                            p,
                            CtxV { local: c.local.update(idx as int, Some(nv)), ..c },
                            opts,
                        ),
                        Err(h) => Err(h),
                    },
                    None => Err(
                        HaltV::Fail(
                            ErrV::BadKey { key: Seq::empty(), options: Seq::empty() },
                        ),
                    ),
                }
            } else {
                Err(HaltV::Fail(ErrV::Oops { code: 0xdead_000f }))
            },
            PathRoot::Meta => match assign_in(p.segments@, 0, c.meta, v, c) {
                Ok(nv) => assign_result(p, CtxV { meta: nv, ..c }, opts),
                Err(h) => Err(h),
            },
            PathRoot::Event => match assign_in(p.segments@, 0, c.event, v, c) {
                Ok(nv) => assign_result(p, CtxV { event: nv, ..c }, opts),
                Err(h) => Err(h),
            },
            PathRoot::State => match assign_in(p.segments@, 0, c.state, v, c) {
                Ok(nv) => assign_result(p, CtxV { state: nv, ..c }, opts),
                Err(h) => Err(h),
            },
            _ => Err(HaltV::Fail(ErrV::AssignToConst)),
        }
    }
}

/// Runs one statement against the mutable context; decides `exec_expr`.
#[verifier::rlimit(100)]
pub fn run_expr(
    e: &Expr,
    opts: ExecOpts,
    env: &Env,
    event: &mut Value,
    state: &mut Value,
    meta: &mut Value,
    local: &mut LocalStack,
) -> (r: Result<Cont, Halt>)
    requires
        ctx_wf(ctx_of(*env, *old(event), *old(state), *old(meta), *old(local))),
        stmt_wf(*e),
    ensures
        ({
            let s = exec_expr(
                *e,
                ctx_of(*env, *old(event), *old(state), *old(meta), *old(local)),
                opts,
            );
            match r {
                Ok(k) => {
                    &&& s is Ok
                    &&& k@ == s->Ok_0.0
                    &&& ctx_of(*env, *final(event), *final(state), *final(meta), *final(local))
                        == s->Ok_0.1
                    &&& ctx_wf(
                        ctx_of(*env, *final(event), *final(state), *final(meta), *final(local)),
                    )
                    &&& cont_wf(k@)
                },
                Err(h) => s is Err && h@ == s->Err_0,
            }
        }),
    decreases *e, 6int, 0int,
{
    let ghost c = ctx_of(*env, *event, *state, *meta, *local);
    proof {
        lemma_stmt_wf_unfold(*e);
    }
    match e {
        Expr::Emit { expr, port } => run_emit_stmt(expr, port, env, event, state, meta, local),
        Expr::Drop => Ok(Cont::Drop),
        Expr::Assign { path, expr } => {
            proof {
                assert(decreases_to!(*e => e->Assign_expr));
            }
            match run_expr(
                expr,
                ExecOpts { result_needed: true, aggr: opts.aggr },
                env,
                event,
                state,
                meta,
                local,
            ) {
                Ok(Cont::Cont(v)) => {
                    proof {
                        assert(ExecOpts { result_needed: true, aggr: opts.aggr } == ExecOpts {
                            result_needed: true,
                            ..opts
                        });
                    }
                    assign_path_expr(path, v, opts, env, event, state, meta, local)
                }
                Ok(k) => Ok(k),
                Err(h) => Err(h),
            }
        }
        Expr::Match(m) => {
            proof {
                assert(decreases_to!(*e => e->Match_0));
            }
            run_match_stmt(m, opts, env, event, state, meta, local)
        }
        Expr::IfElse(f) => {
            proof {
                assert(decreases_to!(*e => e->IfElse_0));
            }
            run_ifelse_stmt(f, opts, env, event, state, meta, local)
        }
        Expr::Comprehension(comp) => {
            proof {
                assert(decreases_to!(*e => e->Comprehension_0));
            }
            run_compr_stmt(comp, opts, env, event, state, meta, local)
        }
        Expr::Imut(ie) => {
            if opts.result_needed {
                match run_imut(ie, env, event, state, meta, local) {
                    Ok(v) => Ok(Cont::Cont(v)),
                    Err(h) => Err(h),
                }
            } else {
                proof {
                    crate::value::lemma_wf_unfold(Val::Null);
                }
                Ok(Cont::Cont(Value::Null))
            }
        }
    }
}

/// Runs an emit statement: the port expression first, then either the event
/// itself (for the literal unsegmented event path) or the derived value.
fn run_emit_stmt(
    expr: &ImutExpr,
    port: &Option<ImutExpr>,
    env: &Env,
    event: &mut Value,
    state: &mut Value,
    meta: &mut Value,
    local: &mut LocalStack,
) -> (r: Result<Cont, Halt>)
    requires
        ctx_wf(ctx_of(*env, *old(event), *old(state), *old(meta), *old(local))),
        expr_wf(*expr),
        match port {
            Some(p) => expr_wf(*p),
            None => true,
        },
    ensures
        ({
            let c = ctx_of(*env, *old(event), *old(state), *old(meta), *old(local));
            let pv: Result<Option<Seq<char>>, HaltV> = match port {
                Some(p) => match eval_key(*p, c) {
                    Ok(s) => Ok(Some(s)),
                    Err(h) => Err(h),
                },
                None => Ok(None),
            };
            let s: Result<(ContV, CtxV), HaltV> = match pv {
                Ok(ps) => if is_event_path(*expr) {
                    Ok((ContV::EmitEvent(ps), c))
                } else {
                    match eval(*expr, c) {
                        Ok(v) => Ok((ContV::Emit(v, ps), c)),
                        Err(h) => Err(h),
                    }
                },
                Err(h) => Err(h),
            };
            let cf = ctx_of(*env, *final(event), *final(state), *final(meta), *final(local));
            match r {
                Ok(k) => s == Ok::<_, HaltV>((k@, cf)) && ctx_wf(cf) && cont_wf(k@),
                Err(h) => s is Err && h@ == s->Err_0,
            }
        }),
{
    let ps: Option<String> = match port {
        Some(p) => match eval_string(p, env, event, state, meta, local) {
            Ok(s) => Some(s),
            Err(h) => {
                return Err(h);
            }
        },
        None => None,
    };
    let is_ev: bool = match expr {
        ImutExpr::Path(p) => matches!(p.root, PathRoot::Event) && p.segments.len() == 0,
        _ => false,
    };
    if is_ev {
        Ok(Cont::EmitEvent(ps))
    } else {
        proof {
            assert(!is_event_path(*expr));
        }
        match run_imut(expr, env, event, state, meta, local) {
            Ok(v) => Ok(Cont::Emit(v, ps)),
            Err(h) => Err(h),
        }
    }
}

/// Runs a comprehension statement: evaluates the target, materializes its
/// items, and folds the cases over them.
#[verifier::rlimit(100)]
fn run_compr_stmt(
    comp: &Comprehension,
    opts: ExecOpts,
    env: &Env,
    event: &mut Value,
    state: &mut Value,
    meta: &mut Value,
    local: &mut LocalStack,
) -> (r: Result<Cont, Halt>)
    requires
        ctx_wf(ctx_of(*env, *old(event), *old(state), *old(meta), *old(local))),
        expr_wf(comp.target),
        cases_wf(comp.cases@),
    ensures
        ({
            let c = ctx_of(*env, *old(event), *old(state), *old(meta), *old(local));
            let s: Result<(ContV, CtxV), HaltV> = match eval(comp.target, c) {
                Ok(t) => run_compr(*comp, compr_items(t), 0, c, opts, Seq::empty()),
                Err(h) => Err(h),
            };
            let cf = ctx_of(*env, *final(event), *final(state), *final(meta), *final(local));
            match r {
                Ok(k) => s == Ok::<_, HaltV>((k@, cf)) && ctx_wf(cf) && cont_wf(k@),
                Err(h) => s is Err && h@ == s->Err_0,
            }
        }),
    decreases *comp, 6int, 0int,
{
    let t = match run_imut(&comp.target, env, event, state, meta, local) {
        Ok(v) => v,
        Err(h) => {
            return Err(h);
        }
    };
    let items = build_items(&t);
    let acc: Vec<Value> = Vec::new();
    proof {
        assert(vals_of(acc@) =~= Seq::<Val>::empty());
        assert(Seq::new(items@.len(), |i: int| (items@[i].0@, items@[i].1@)) =~= compr_items(
            t@,
        ));
    }
    run_compr_expr(comp, &items, 0, acc, opts, env, event, state, meta, local)
}

/// Runs a match statement: clause selection in declaration order, then the
/// default.
#[verifier::rlimit(100)]
fn run_match_stmt(
    m: &Match,
    opts: ExecOpts,
    env: &Env,
    event: &mut Value,
    state: &mut Value,
    meta: &mut Value,
    local: &mut LocalStack,
) -> (r: Result<Cont, Halt>)
    requires
        ctx_wf(ctx_of(*env, *old(event), *old(state), *old(meta), *old(local))),
        expr_wf(m.target),
        clauses_wf(m.clauses@),
        default_wf(m.default),
    ensures
        ({
            let c = ctx_of(*env, *old(event), *old(state), *old(meta), *old(local));
            let s: Result<(ContV, CtxV), HaltV> = match eval(m.target, c) {
                Ok(t) => match run_clauses(m.clauses@, 0, c, opts, t) {
                    Ok((Some(done), _)) => Ok(done),
                    Ok((None, c1)) => run_default(m.default, c1, opts),
                    Err(h) => Err(h),
                },
                Err(h) => Err(h),
            };
            let cf = ctx_of(*env, *final(event), *final(state), *final(meta), *final(local));
            match r {
                Ok(k) => s == Ok::<_, HaltV>((k@, cf)) && ctx_wf(cf) && cont_wf(k@),
                Err(h) => s is Err && h@ == s->Err_0,
            }
        }),
    decreases *m, 6int, 0int,
{
    proof {
        assert(decreases_to!(*m => m.clauses));
        assert(decreases_to!(*m => m.default));
    }
    let t = match run_imut(&m.target, env, event, state, meta, local) {
        Ok(v) => v,
        Err(h) => {
            return Err(h);
        }
    };
    match run_clauses_expr(&m.clauses, 0, opts, env, event, state, meta, local, &t) {
        Ok(Some(k)) => Ok(k),
        Ok(None) => run_default_expr(&m.default, opts, env, event, state, meta, local),
        Err(h) => Err(h),
    }
}

/// Runs an if/else statement: the single clause, else the default.
#[verifier::rlimit(100)]
fn run_ifelse_stmt(
    f: &IfElse,
    opts: ExecOpts,
    env: &Env,
    event: &mut Value,
    state: &mut Value,
    meta: &mut Value,
    local: &mut LocalStack,
) -> (r: Result<Cont, Halt>)
    requires
        ctx_wf(ctx_of(*env, *old(event), *old(state), *old(meta), *old(local))),
        expr_wf(f.target),
        clause_wf(f.if_clause),
        default_wf(f.else_clause),
    ensures
        ({
            let c = ctx_of(*env, *old(event), *old(state), *old(meta), *old(local));
            let s: Result<(ContV, CtxV), HaltV> = match eval(f.target, c) {
                Ok(t) => match test_pred(f.if_clause.pattern, f.if_clause.guard, c, t) {
                    Ok((b, locals1)) => {
                        let c1 = CtxV { local: locals1, ..c };
                        if b {
                            match run_block(f.if_clause.exprs@, 0, c1, opts) {
                                Ok((Some(done), _)) => Ok(done),
                                Ok((None, c2)) => exec_expr(*f.if_clause.last_expr, c2, opts),
                                Err(h) => Err(h),
                            }
                        } else {
                            run_default(f.else_clause, c1, opts)
                        }
                    },
                    Err(h) => Err(h),
                },
                Err(h) => Err(h),
            };
            let cf = ctx_of(*env, *final(event), *final(state), *final(meta), *final(local));
            match r {
                Ok(k) => s == Ok::<_, HaltV>((k@, cf)) && ctx_wf(cf) && cont_wf(k@),
                Err(h) => s is Err && h@ == s->Err_0,
            }
        }),
    decreases *f, 6int, 0int,
{
    proof {
        assert(decreases_to!(*f => f.if_clause));
        assert(decreases_to!(f.if_clause => f.if_clause.exprs));
        assert(decreases_to!(f.if_clause => f.if_clause.last_expr));
        assert(decreases_to!(*f => f.else_clause));
        lemma_clause_wf_unfold(f.if_clause);
    }
    let t = match run_imut(&f.target, env, event, state, meta, local) {
        Ok(v) => v,
        Err(h) => {
            return Err(h);
        }
    };
    let b = match test_predicate_expr(
        &f.if_clause.pattern,
        &f.if_clause.guard,
        env,
        event,
        state,
        meta,
        local,
        &t,
    ) {
        Ok(b) => b,
        Err(h) => {
            return Err(h);
        }
    };
    if b {
        match run_block_expr(&f.if_clause.exprs, 0, opts, env, event, state, meta, local) {
            Ok(Some(k)) => Ok(k),
            Ok(None) => run_expr(&f.if_clause.last_expr, opts, env, event, state, meta, local),
            Err(h) => Err(h),
        }
    } else {
        run_default_expr(&f.else_clause, opts, env, event, state, meta, local)
    }
}

/// Runs a block's statements from index `j`, each without a needed result;
/// the first non-`Cont` signal is handed back.
#[verifier::rlimit(60)]
fn run_block_expr(
    es: &Vec<Expr>,
    j: usize,
    opts: ExecOpts,
    env: &Env,
    event: &mut Value,
    state: &mut Value,
    meta: &mut Value,
    local: &mut LocalStack,
) -> (r: Result<Option<Cont>, Halt>)
    requires
        ctx_wf(ctx_of(*env, *old(event), *old(state), *old(meta), *old(local))),
        stmts_wf(es@),
        j <= es@.len(),
    ensures
        ({
            let s = run_block(
                es@,
                j as int,
                ctx_of(*env, *old(event), *old(state), *old(meta), *old(local)),
                opts,
            );
            let cf = ctx_of(*env, *final(event), *final(state), *final(meta), *final(local));
            match r {
                Ok(Some(k)) => s == Ok::<_, HaltV>((Some((k@, cf)), cf)) && ctx_wf(cf)
                    && cont_wf(k@),
                Ok(None) => s == Ok::<_, HaltV>((None::<(ContV, CtxV)>, cf)) && ctx_wf(cf),
                Err(h) => s is Err && h@ == s->Err_0,
            }
        }),
    decreases *es, 5int, es@.len() - j,
{
    if j >= es.len() {
        return Ok(None);
    }
    proof {
        lemma_stmts_wf(es@);
        assert(stmt_wf(es@[j as int]));
        assert(decreases_to!(*es => es@[j as int]));
    }
    match run_expr(
        &es[j],
        ExecOpts { result_needed: false, aggr: opts.aggr },
        env,
        event,
        state,
        meta,
        local,
    ) {
        Ok(Cont::Cont(_)) => {
            proof {
                assert(ExecOpts { result_needed: false, aggr: opts.aggr } == ExecOpts {
                    result_needed: false,
                    ..opts
                });
            }
            run_block_expr(es, j + 1, opts, env, event, state, meta, local)
        }
        Ok(k) => Ok(Some(k)),
        Err(h) => Err(h),
    }
}

/// Tries the clauses from index `j` in declaration order.
#[verifier::rlimit(60)]
fn run_clauses_expr(
    cs: &Vec<Clause>,
    j: usize,
    opts: ExecOpts,
    env: &Env,
    event: &mut Value,
    state: &mut Value,
    meta: &mut Value,
    local: &mut LocalStack,
    target: &Value,
) -> (r: Result<Option<Cont>, Halt>)
    requires
        ctx_wf(ctx_of(*env, *old(event), *old(state), *old(meta), *old(local))),
        clauses_wf(cs@),
        j <= cs@.len(),
        target@.wf(),
    ensures
        ({
            let s = run_clauses(
                cs@,
                j as int,
                ctx_of(*env, *old(event), *old(state), *old(meta), *old(local)),
                opts,
                target@,
            );
            let cf = ctx_of(*env, *final(event), *final(state), *final(meta), *final(local));
            match r {
                Ok(Some(k)) => s == Ok::<_, HaltV>((Some((k@, cf)), cf)) && ctx_wf(cf)
                    && cont_wf(k@),
                Ok(None) => s == Ok::<_, HaltV>((None::<(ContV, CtxV)>, cf)) && ctx_wf(cf),
                Err(h) => s is Err && h@ == s->Err_0,
            }
        }),
    decreases *cs, 5int, cs@.len() - j,
{
    if j >= cs.len() {
        return Ok(None);
    }
    proof {
        lemma_clauses_wf(cs@);
        assert(clause_wf(cs@[j as int]));
        lemma_clause_wf_unfold(cs@[j as int]);
        assert(decreases_to!(*cs => cs@[j as int]));
        assert(decreases_to!(cs@[j as int] => cs@[j as int].exprs));
        assert(decreases_to!(cs@[j as int] => cs@[j as int].last_expr));
    }
    let cl = &cs[j];
    match test_predicate_expr(&cl.pattern, &cl.guard, env, event, state, meta, local, target) {
        Ok(true) => {
            match run_block_expr(&cl.exprs, 0, opts, env, event, state, meta, local) {
                Ok(Some(k)) => Ok(Some(k)),
                Ok(None) => match run_expr(&cl.last_expr, opts, env, event, state, meta, local) {
                    Ok(k) => Ok(Some(k)),
                    Err(h) => Err(h),
                },
                Err(h) => Err(h),
            }
        }
        Ok(false) => run_clauses_expr(cs, j + 1, opts, env, event, state, meta, local, target),
        Err(h) => Err(h),
    }
}

/// Runs the default case when no clause matched.
#[verifier::rlimit(60)]
fn run_default_expr(
    d: &DefaultCase,
    opts: ExecOpts,
    env: &Env,
    event: &mut Value,
    state: &mut Value,
    meta: &mut Value,
    local: &mut LocalStack,
) -> (r: Result<Cont, Halt>)
    requires
        ctx_wf(ctx_of(*env, *old(event), *old(state), *old(meta), *old(local))),
        default_wf(*d),
    ensures
        ({
            let s = run_default(
                *d,
                ctx_of(*env, *old(event), *old(state), *old(meta), *old(local)),
                opts,
            );
            let cf = ctx_of(*env, *final(event), *final(state), *final(meta), *final(local));
            match r {
                Ok(k) => s == Ok::<_, HaltV>((k@, cf)) && ctx_wf(cf) && cont_wf(k@),
                Err(h) => s is Err && h@ == s->Err_0,
            }
        }),
    decreases *d, 5int, 0int,
{
    proof {
        lemma_default_wf_unfold(*d);
    }
    match d {
        DefaultCase::Absent => Err(Halt::Fail(Error::NoClauseHit)),
        DefaultCase::Null => {
            proof {
                crate::value::lemma_wf_unfold(Val::Null);
            }
            Ok(Cont::Cont(Value::Null))
        }
        DefaultCase::One(le) => {
            proof {
                assert(decreases_to!(*d => d->One_0));
            }
            run_expr(le, opts, env, event, state, meta, local)
        }
        DefaultCase::Many { exprs, last_expr } => {
            proof {
                assert(decreases_to!(*d => d->Many_exprs));
                assert(decreases_to!(*d => d->Many_last_expr));
            }
            match run_block_expr(exprs, 0, opts, env, event, state, meta, local) {
                Ok(Some(k)) => Ok(k),
                Ok(None) => run_expr(last_expr, opts, env, event, state, meta, local),
                Err(h) => Err(h),
            }
        }
    }
}

/// Materializes the items a comprehension iterates.
#[verifier::loop_isolation(false)]
fn build_items(t: &Value) -> (r: Vec<(Value, Value)>)
    requires
        t@.wf(),
    ensures
        r@.len() == compr_items(t@).len(),
        forall|i: int|
            0 <= i < r@.len() ==> ((#[trigger] r@[i]).0@, r@[i].1@) == compr_items(t@)[i]
                && r@[i].0@.wf() && r@[i].1@.wf(),
{
    broadcast use lemma_vals_of, lemma_entries_of, crate::value::lemma_wf_unfold;

    let mut out: Vec<(Value, Value)> = Vec::new();
    match t {
        Value::Object(entries) => {
            proof {
                crate::value::lemma_view_unfold(*t);
                lemma_entries_of(entries@);
                lemma_obj_vals_wf(entries_of(entries@));
            }
            let mut i: usize = 0;
            while i < entries.len()
                invariant
                    i <= entries@.len(),
                    out@.len() == i as int,
                    forall|k: int|
                        0 <= k < i as int ==> ((#[trigger] out@[k]).0@, out@[k].1@) == compr_items(
                            t@,
                        )[k] && out@[k].0@.wf() && out@[k].1@.wf(),
                decreases entries@.len() - i,
            {
                proof {
                    assert(entries_of(entries@)[i as int].1.wf());
                }
                let (k, v) = &entries[i];
                out.push((Value::Str(k.clone()), duplicate(v)));
                i = i + 1;
            }
        }
        Value::Array(items) => {
            proof {
                crate::value::lemma_view_unfold(*t);
                lemma_vals_of(items@);
                crate::value::lemma_wf_unfold(t@);
                crate::interp::lemma_arr_wf_items(vals_of(items@));
            }
            let mut i: usize = 0;
            while i < items.len()
                invariant
                    i <= items@.len(),
                    out@.len() == i as int,
                    forall|k: int|
                        0 <= k < i as int ==> ((#[trigger] out@[k]).0@, out@[k].1@) == compr_items(
                            t@,
                        )[k] && out@[k].0@.wf() && out@[k].1@.wf(),
                decreases items@.len() - i,
            {
                proof {
                    assert(vals_of(items@)[i as int] == items@[i as int]@);
                    assert(vals_of(items@)[i as int].wf());
                }
                out.push((Value::U64(i as u64), duplicate(&items[i])));
                i = i + 1;
            }
        }
        _ => {}
    }
    out
}

/// Runs a comprehension from item index `j`.
#[verifier::rlimit(100)]
fn run_compr_expr(
    comp: &Comprehension,
    items: &Vec<(Value, Value)>,
    j: usize,
    acc: Vec<Value>,
    opts: ExecOpts,
    env: &Env,
    event: &mut Value,
    state: &mut Value,
    meta: &mut Value,
    local: &mut LocalStack,
) -> (r: Result<Cont, Halt>)
    requires
        ctx_wf(ctx_of(*env, *old(event), *old(state), *old(meta), *old(local))),
        cases_wf(comp.cases@),
        j <= items@.len(),
        forall|i: int|
            0 <= i < items@.len() ==> (#[trigger] items@[i]).0@.wf() && items@[i].1@.wf(),
        forall|i: int| 0 <= i < acc@.len() ==> (#[trigger] acc@[i]@).wf(),
    ensures
        ({
            let s = run_compr(
                *comp,
                Seq::new(items@.len(), |i: int| (items@[i].0@, items@[i].1@)),
                j as int,
                ctx_of(*env, *old(event), *old(state), *old(meta), *old(local)),
                opts,
                vals_of(acc@),
            );
            let cf = ctx_of(*env, *final(event), *final(state), *final(meta), *final(local));
            match r {
                Ok(k) => s == Ok::<_, HaltV>((k@, cf)) && ctx_wf(cf) && cont_wf(k@),
                Err(h) => s is Err && h@ == s->Err_0,
            }
        }),
    decreases *comp, 5int, items@.len() - j,
{
    broadcast use lemma_vals_of;

    let ghost itemsm = Seq::new(items@.len(), |i: int| (items@[i].0@, items@[i].1@));
    if j >= items.len() {
        let r = Value::Array(acc);
        proof {
            crate::value::lemma_view_unfold(r);
            crate::value::lemma_wf_unfold(r@);
            crate::value::lemma_arr_wf(vals_of(r->Array_0@));
        }
        return Ok(Cont::Cont(r));
    }
    if comp.key_id < local.values.len() && comp.val_id < local.values.len() {
        proof {
            assert(decreases_to!(*comp => comp.cases));
        }
        let (k, v) = &items[j];
        let kc = duplicate(k);
        let vc = duplicate(v);
        match local.set(comp.key_id, kc) {
            Ok(()) => {}
            Err(_) => {
                proof {
                    assert(false);
                }
                return Err(Halt::Fail(Error::Oops { code: 0xdead_0006 }));
            }
        }
        match local.set(comp.val_id, vc) {
            Ok(()) => {}
            Err(_) => {
                proof {
                    assert(false);
                }
                return Err(Halt::Fail(Error::Oops { code: 0xdead_0006 }));
            }
        }
        proof {
            assert(locals_of(local.values@) =~= locals_of(old(local).values@).update(
                comp.key_id as int,
                Some(itemsm[j as int].0),
            ).update(comp.val_id as int, Some(itemsm[j as int].1)));
        }
        match compr_cases_expr(&comp.cases, 0, opts, env, event, state, meta, local) {
            Ok(Some(Cont::Cont(cv))) => {
                let mut acc = acc;
                let ghost acc0 = vals_of(acc@);
                let ghost cvv = cv@;
                if opts.result_needed {
                    acc.push(cv);
                    proof {
                        lemma_vals_of(acc@);
                        assert(vals_of(acc@) =~= acc0.push(cvv));
                    }
                }
                run_compr_expr(comp, items, j + 1, acc, opts, env, event, state, meta, local)
            }
            Ok(Some(k2)) => Ok(k2),
            Ok(None) => run_compr_expr(
                comp,
                items,
                j + 1,
                acc,
                opts,
                env,
                event,
                state,
                meta,
                local,
            ),
            Err(h) => Err(h),
        }
    } else {
        Err(Halt::Fail(Error::Oops { code: 0xdead_0006 }))
    }
}

/// Tries the comprehension cases from index `j`.
#[verifier::rlimit(60)]
fn compr_cases_expr(
    cs: &Vec<ComprehensionCase>,
    j: usize,
    opts: ExecOpts,
    env: &Env,
    event: &mut Value,
    state: &mut Value,
    meta: &mut Value,
    local: &mut LocalStack,
) -> (r: Result<Option<Cont>, Halt>)
    requires
        ctx_wf(ctx_of(*env, *old(event), *old(state), *old(meta), *old(local))),
        cases_wf(cs@),
        j <= cs@.len(),
    ensures
        ({
            let s = compr_cases(
                cs@,
                j as int,
                ctx_of(*env, *old(event), *old(state), *old(meta), *old(local)),
                opts,
            );
            let cf = ctx_of(*env, *final(event), *final(state), *final(meta), *final(local));
            match r {
                Ok(Some(k)) => s == Ok::<_, HaltV>(Some((k@, cf))) && ctx_wf(cf) && cont_wf(k@),
                Ok(None) => s == Ok::<_, HaltV>(None::<(ContV, CtxV)>) && cf == ctx_of(
                    *env,
                    *old(event),
                    *old(state),
                    *old(meta),
                    *old(local),
                ),
                Err(h) => s is Err && h@ == s->Err_0,
            }
        }),
    decreases *cs, 4int, cs@.len() - j,
{
    if j >= cs.len() {
        return Ok(None);
    }
    proof {
        lemma_cases_wf(cs@);
        assert(case_wf(cs@[j as int]));
        lemma_case_wf_unfold(cs@[j as int]);
        assert(decreases_to!(*cs => cs@[j as int]));
        assert(decreases_to!(cs@[j as int] => cs@[j as int].exprs));
        assert(decreases_to!(cs@[j as int] => cs@[j as int].last_expr));
    }
    let cl = &cs[j];
    match crate::pattern::test_guard(&cl.guard, env, event, state, meta, local) {
        Ok(true) => {
            match run_block_expr(&cl.exprs, 0, opts, env, event, state, meta, local) {
                Ok(Some(k)) => Ok(Some(k)),
                Ok(None) => match run_expr(&cl.last_expr, opts, env, event, state, meta, local) {
                    Ok(k) => Ok(Some(k)),
                    Err(h) => Err(h),
                },
                Err(h) => Err(h),
            }
        }
        Ok(false) => compr_cases_expr(cs, j + 1, opts, env, event, state, meta, local),
        Err(h) => Err(h),
    }
}

/// Nested assignment below the current value, functionally; computed keys
/// are evaluated against the pre-assignment context.
#[verifier::rlimit(60)]
fn assign_in_expr(
    segs: &Vec<Segment>,
    j: usize,
    cur: Value,
    v: Value,
    env: &Env,
    event: &Value,
    state: &Value,
    meta: &Value,
    local: &LocalStack,
) -> (r: Result<Value, Halt>)
    requires
        ctx_wf(ctx_of(*env, *event, *state, *meta, *local)),
        crate::interp::segs_wf(segs@),
        j <= segs@.len(),
        cur@.wf(),
        v@.wf(),
    ensures
        ({
            let s = assign_in(
                segs@,
                j as int,
                cur@,
                v@,
                ctx_of(*env, *event, *state, *meta, *local),
            );
            match r {
                Ok(nv) => s is Ok && nv@ == s->Ok_0 && nv@.wf(),
                Err(h) => s is Err && h@ == s->Err_0,
            }
        }),
    decreases segs@.len() - j,
{
    broadcast use lemma_entries_of;

    let ghost c = ctx_of(*env, *event, *state, *meta, *local);
    if j >= segs.len() {
        return Ok(v);
    }
    proof {
        crate::interp::lemma_segs_wf(segs@);
    }
    match &segs[j] {
        Segment::Id(key) => {
            match cur {
                Value::Object(mut entries) => {
                    let ghost m0 = entries_of(entries@);
                    proof {
                        crate::value::lemma_wf_unfold(Val::Object(m0));
                        lemma_obj_vals_wf(m0);
                    }
                    let inner: Value = match obj_lookup(&entries, key) {
                        Some(found) => {
                            proof {
                                let ki = crate::value::obj_idx(m0, key@);
                                assert(0 <= ki < m0.len() && m0[ki].0 == key@);
                                assert(m0[ki].1.wf());
                            }
                            duplicate(found)
                        }
                        None => {
                            let fresh = Value::Object(Vec::new());
                            proof {
                                crate::value::lemma_view_unfold(fresh);
                                assert(entries_of(Seq::<(String, Value)>::empty())
                                    =~= Seq::<(Seq<char>, Val)>::empty());
                                crate::value::lemma_wf_unfold(fresh@);
                                lemma_obj_vals_wf(Seq::<(Seq<char>, Val)>::empty());
                            }
                            fresh
                        }
                    };
                    match assign_in_expr(segs, j + 1, inner, v, env, event, state, meta, local) {
                        Ok(nv) => {
                            proof {
                                if obj_has(m0, key@) {
                                    lemma_obj_set_wf(m0, key@, nv@);
                                } else {
                                    lemma_obj_push_wf(m0, key@, nv@);
                                    assert(obj_set(m0, key@, nv@) == m0.push((key@, nv@)));
                                }
                            }
                            obj_put(&mut entries, key.clone(), nv);
                            let out = Value::Object(entries);
                            proof {
                                crate::value::lemma_view_unfold(out);
                                crate::value::lemma_wf_unfold(out@);
                                lemma_obj_vals_wf(obj_set(m0, key@, v@));
                            }
                            Ok(out)
                        }
                        Err(h) => Err(h),
                    }
                }
                _ => Err(Halt::Fail(Error::NeedsObject)),
            }
        }
        Segment::Element(ke) => {
            let k = match eval_string(ke, env, event, state, meta, local) {
                Ok(s) => s,
                Err(h) => {
                    return Err(h);
                }
            };
            match cur {
                Value::Object(mut entries) => {
                    let ghost m0 = entries_of(entries@);
                    proof {
                        crate::value::lemma_wf_unfold(Val::Object(m0));
                        lemma_obj_vals_wf(m0);
                    }
                    let inner: Value = match obj_lookup(&entries, &k) {
                        Some(found) => {
                            proof {
                                let ki = crate::value::obj_idx(m0, k@);
                                assert(0 <= ki < m0.len() && m0[ki].0 == k@);
                                assert(m0[ki].1.wf());
                            }
                            duplicate(found)
                        }
                        None => {
                            let fresh = Value::Object(Vec::new());
                            proof {
                                crate::value::lemma_view_unfold(fresh);
                                assert(entries_of(Seq::<(String, Value)>::empty())
                                    =~= Seq::<(Seq<char>, Val)>::empty());
                                crate::value::lemma_wf_unfold(fresh@);
                                lemma_obj_vals_wf(Seq::<(Seq<char>, Val)>::empty());
                            }
                            fresh
                        }
                    };
                    match assign_in_expr(segs, j + 1, inner, v, env, event, state, meta, local) {
                        Ok(nv) => {
                            proof {
                                if obj_has(m0, k@) {
                                    lemma_obj_set_wf(m0, k@, nv@);
                                } else {
                                    lemma_obj_push_wf(m0, k@, nv@);
                                    assert(obj_set(m0, k@, nv@) == m0.push((k@, nv@)));
                                }
                            }
                            obj_put(&mut entries, k, nv);
                            let out = Value::Object(entries);
                            proof {
                                crate::value::lemma_view_unfold(out);
                                crate::value::lemma_wf_unfold(out@);
                            }
                            Ok(out)
                        }
                        Err(h) => Err(h),
                    }
                }
                _ => Err(Halt::Fail(Error::NeedsObject)),
            }
        }
        Segment::Idx(_) => Err(Halt::Fail(Error::CannotAssignArray)),
        Segment::Range(_, _) => Err(Halt::Fail(Error::CannotAssignArray)),
    }
}

/// Assignment to a path; decides `assign_path`.
#[verifier::rlimit(100)]
pub fn assign_path_expr(
    p: &Path,
    v: Value,
    opts: ExecOpts,
    env: &Env,
    event: &mut Value,
    state: &mut Value,
    meta: &mut Value,
    local: &mut LocalStack,
) -> (r: Result<Cont, Halt>)
    requires
        ctx_wf(ctx_of(*env, *old(event), *old(state), *old(meta), *old(local))),
        path_wf(*p),
        v@.wf(),
    ensures
        ({
            let s = assign_path(
                *p,
                ctx_of(*env, *old(event), *old(state), *old(meta), *old(local)),
                v@,
                opts,
            );
            let cf = ctx_of(*env, *final(event), *final(state), *final(meta), *final(local));
            match r {
                Ok(k) => s == Ok::<_, HaltV>((k@, cf)) && ctx_wf(cf) && cont_wf(k@),
                Err(h) => s is Err && h@ == s->Err_0,
            }
        }),
{
    broadcast use lemma_vals_of;

    let ghost c = ctx_of(*env, *old(event), *old(state), *old(meta), *old(local));
    if p.segments.len() == 0 {
        match &p.root {
            PathRoot::Local(idx) => {
                if *idx < local.values.len() {
                    let keep = duplicate(&v);
                    let ghost vv = v@;
                    match local.set(*idx, v) {
                        Ok(()) => {
                            proof {
                                assert(locals_of(local.values@) =~= locals_of(
                                    old(local).values@,
                                ).update(*idx as int, Some(vv)));
                            }
                            Ok(Cont::Cont(keep))
                        }
                        Err(_) => {
                            proof {
                                assert(false);
                            }
                            Err(Halt::Fail(Error::Oops { code: 0xdead_000f }))
                        }
                    }
                } else {
                    Err(Halt::Fail(Error::Oops { code: 0xdead_000f }))
                }
            }
            PathRoot::Event => {
                let keep = duplicate(&v);
                *event = v;
                Ok(Cont::Cont(keep))
            }
            PathRoot::State => {
                let keep = duplicate(&v);
                *state = v;
                Ok(Cont::Cont(keep))
            }
            PathRoot::Meta => Err(Halt::Fail(Error::InvalidAssignTarget)),
            _ => Err(Halt::Fail(Error::AssignToConst)),
        }
    } else {
        proof {
            crate::interp::lemma_path_wf_unfold(*p);
        }
        match &p.root {
            PathRoot::Local(idx) => {
                if *idx < local.values.len() {
                    let cur: Value = match local.get(*idx) {
                        Ok(Some(slot)) => duplicate(slot),
                        Ok(None) => {
                            let r = Err(
                                Halt::Fail(
                                    Error::BadKey { key: String::new(), options: Vec::new() },
                                ),
                            );
                            proof {
                                assert(crate::error::strs_of(Seq::<String>::empty())
                                    =~= Seq::<Seq<char>>::empty());
                            }
                            return r;
                        }
                        Err(_) => {
                            proof {
                                assert(false);
                            }
                            return Err(Halt::Fail(Error::Oops { code: 0xdead_000f }));
                        }
                    };
                    let nv = match assign_in_expr(
                        &p.segments,
                        0,
                        cur,
                        v,
                        env,
                        event,
                        state,
                        meta,
                        local,
                    ) {
                        Ok(nv) => nv,
                        Err(h) => {
                            return Err(h);
                        }
                    };
                    let ghost nvv = nv@;
                    let ghost pre_locals = locals_of(local.values@);
                    match local.set(*idx, nv) {
                        Ok(()) => {
                            proof {
                                assert(locals_of(local.values@) =~= pre_locals.update(
                                    *idx as int,
                                    Some(nvv),
                                ));
                            }
                        }
                        Err(_) => {
                            proof {
                                assert(false);
                            }
                            return Err(Halt::Fail(Error::Oops { code: 0xdead_000f }));
                        }
                    }
                    assign_result_expr(p, opts, env, event, state, meta, local)
                } else {
                    Err(Halt::Fail(Error::Oops { code: 0xdead_000f }))
                }
            }
            PathRoot::Meta => {
                let cur = duplicate(meta);
                let nv = match assign_in_expr(
                    &p.segments,
                    0,
                    cur,
                    v,
                    env,
                    event,
                    state,
                    meta,
                    local,
                ) {
                    Ok(nv) => nv,
                    Err(h) => {
                        return Err(h);
                    }
                };
                *meta = nv;
                assign_result_expr(p, opts, env, event, state, meta, local)
            }
            PathRoot::Event => {
                let cur = duplicate(event);
                let nv = match assign_in_expr(
                    &p.segments,
                    0,
                    cur,
                    v,
                    env,
                    event,
                    state,
                    meta,
                    local,
                ) {
                    Ok(nv) => nv,
                    Err(h) => {
                        return Err(h);
                    }
                };
                *event = nv;
                assign_result_expr(p, opts, env, event, state, meta, local)
            }
            PathRoot::State => {
                let cur = duplicate(state);
                let nv = match assign_in_expr(
                    &p.segments,
                    0,
                    cur,
                    v,
                    env,
                    event,
                    state,
                    meta,
                    local,
                ) {
                    Ok(nv) => nv,
                    Err(h) => {
                        return Err(h);
                    }
                };
                *state = nv;
                assign_result_expr(p, opts, env, event, state, meta, local)
            }
            _ => Err(Halt::Fail(Error::AssignToConst)),
        }
    }
}

/// The statement value after a nested assignment.
fn assign_result_expr(
    p: &Path,
    opts: ExecOpts,
    env: &Env,
    event: &mut Value,
    state: &mut Value,
    meta: &mut Value,
    local: &mut LocalStack,
) -> (r: Result<Cont, Halt>)
    requires
        ctx_wf(ctx_of(*env, *old(event), *old(state), *old(meta), *old(local))),
        path_wf(*p),
    ensures
        ({
            let c1 = ctx_of(*env, *old(event), *old(state), *old(meta), *old(local));
            let s = assign_result(*p, c1, opts);
            let cf = ctx_of(*env, *final(event), *final(state), *final(meta), *final(local));
            match r {
                Ok(k) => s == Ok::<_, HaltV>((k@, cf)) && cf == c1 && ctx_wf(cf) && cont_wf(k@),
                Err(h) => s is Err && h@ == s->Err_0,
            }
        }),
{
    if opts.result_needed {
        match resolve(p, env, event, state, meta, local) {
            Ok(rv) => Ok(Cont::Cont(rv)),
            Err(h) => Err(h),
        }
    } else {
        proof {
            crate::value::lemma_wf_unfold(Val::Null);
        }
        Ok(Cont::Cont(Value::Null))
    }
}

} // verus!
