//! The expression evaluator and path resolver.
//!
//! Expressions are statically parsed and checked elsewhere; evaluation never
//! re-validates. All values are held owned: the borrow-extension tricks of a
//! zero-copy engine (shadow slots for intermediate results) are unnecessary
//! here, so a computed path root is simply evaluated and navigated.
//!
//! Floating-point numbers lie outside this value model. The expression forms
//! that produce one — integer division, and arithmetic on a numeric pair
//! fitting neither the unsigned nor the signed path — stop evaluation with
//! the distinguished [`Halt::Floating`] outcome, and the embedder finishes
//! such an expression with its own float arithmetic.

use vstd::prelude::*;

use crate::equal::{spec_val_eq, val_eq};
use crate::error::{ErrV, Error};
use crate::mutation::{patch_apply, patch_ops_of, patch_run, PatchOp, PatchOpV};
use crate::ops::{
    exec_binary, exec_unary, spec_binary, spec_unary, BinOpKind, BinOut, BinV, UnaryOpKind,
};
use crate::value::{
    duplicate, entries_of, lemma_entries_of, lemma_obj_at, lemma_obj_push_wf, lemma_obj_set_wf,
    lemma_obj_vals_wf, lemma_vals_of, obj_find_idx, obj_get, obj_has, obj_idx, obj_keys,
    obj_lookup, obj_put, obj_set, obj_vals_wf, unique_keys, vals_of, Val, Value,
};

verus! {

broadcast use vstd::seq_lib::group_seq_lib_default;

/// Why evaluation stopped: a typed error, or the float domain was reached.
#[derive(Debug, PartialEq)]
pub enum Halt {
    /// A typed interpreter error, surfaced to the caller.
    Fail(Error),
    /// The result exists only as a float; the embedder finishes this
    /// expression outside the verified value model.
    Floating,
}

/// Spec-level model of a halt.
#[verifier::ext_equal]
pub enum HaltV {
    Fail(ErrV),
    Floating,
}

impl View for Halt {
    type V = HaltV;

    open spec fn view(&self) -> HaltV {
        match self {
            Halt::Fail(e) => HaltV::Fail(e@),
            Halt::Floating => HaltV::Floating,
        }
    }
}

/// `r` is modelled by `s`.
pub open spec fn hmodels(r: Result<Value, Halt>, s: Result<Val, HaltV>) -> bool {
    match r {
        Ok(v) => s is Ok && v@ == s->Ok_0,
        Err(h) => s is Err && h@ == s->Err_0,
    }
}

/// The root a path starts from.
#[derive(Debug, PartialEq)]
pub enum PathRoot {
    /// A local variable slot.
    Local(usize),
    /// A constant slot.
    Const(usize),
    /// The per-event metadata.
    Meta,
    /// The event payload.
    Event,
    /// The persistent script state.
    State,
    /// A computed root.
    Expr(Box<ImutExpr>),
    /// The reserved `args` pseudo-variable.
    Args,
    /// The reserved `group` pseudo-variable.
    Group,
    /// The reserved `window` pseudo-variable.
    Window,
}

/// One step of a path.
#[derive(Debug, PartialEq)]
pub enum Segment {
    /// A field on an object.
    Id(String),
    /// A literal index into an array.
    Idx(usize),
    /// A computed key or index.
    Element(Box<ImutExpr>),
    /// A subrange of an array; both ends are computed.
    Range(Box<ImutExpr>, Box<ImutExpr>),
}

/// A value-addressing expression: a root and the segments that narrow it.
#[derive(Debug, PartialEq)]
pub struct Path {
    pub root: PathRoot,
    pub segments: Vec<Segment>,
}

/// An immutable expression.
#[derive(Debug, PartialEq)]
pub enum ImutExpr {
    Literal(Value),
    Path(Path),
    Binary(BinOpKind, Box<ImutExpr>, Box<ImutExpr>),
    Unary(UnaryOpKind, Box<ImutExpr>),
    List(Vec<ImutExpr>),
    Record(Vec<(String, ImutExpr)>),
    /// In-place patch of a target value, applied in two phases.
    Patch(Box<PatchDef>),
    /// Deep merge of a replacement into a target.
    Merge(Box<ImutExpr>, Box<ImutExpr>),
}

/// A `patch` expression: the target and its operation clauses.
#[derive(Debug, PartialEq)]
pub struct PatchDef {
    pub target: ImutExpr,
    pub ops: Vec<PatchOpDef>,
}

/// One patch operation clause, before its expressions are evaluated.
#[derive(Debug, PartialEq)]
pub enum PatchOpDef {
    Insert { key: ImutExpr, value: ImutExpr },
    Update { key: ImutExpr, value: ImutExpr },
    Upsert { key: ImutExpr, value: ImutExpr },
    Erase { key: ImutExpr },
    Copy { from: ImutExpr, to: ImutExpr },
    Move { from: ImutExpr, to: ImutExpr },
    Merge { key: ImutExpr, value: ImutExpr },
    MergeRecord { value: ImutExpr },
    Default { key: ImutExpr, value: ImutExpr },
    DefaultRecord { value: ImutExpr },
}

/// The type of an aggregation run.
#[derive(Clone, Copy, Debug, PartialEq, Eq, Structural)]
pub enum AggrType {
    /// A normal execution.
    Tick,
    /// An emit execution.
    Emit,
}

/// Execution options for a script. `result_needed = false` permits skipping
/// construction of values whose result is discarded; it never changes side
/// effects.
#[derive(Clone, Copy, Debug, PartialEq, Eq, Structural)]
pub struct ExecOpts {
    pub result_needed: bool,
    pub aggr: AggrType,
}

impl ExecOpts {
    /// The same options without a needed result.
    pub fn without_result(self) -> (r: Self)
        ensures
            r == (ExecOpts { result_needed: false, ..self }),
    {
        ExecOpts { result_needed: false, aggr: self.aggr }
    }

    /// The same options with a needed result.
    pub fn with_result(self) -> (r: Self)
        ensures
            r == (ExecOpts { result_needed: true, ..self }),
    {
        ExecOpts { result_needed: true, aggr: self.aggr }
    }
}

/// The interpreter environment: constants and the reserved pseudo-variables.
#[derive(Debug)]
pub struct Env {
    pub consts: Vec<Value>,
    pub args: Value,
    pub group: Value,
    pub window: Value,
    /// Maximal recursion depth in custom functions (an external capability
    /// enforces it; carried here as configuration).
    pub recursion_limit: u32,
}

impl Env {
    /// Fetches the value for a constant; an unknown slot is an internal
    /// error, not a user error.
    pub fn get_const(&self, idx: usize) -> (r: Result<&Value, Error>)
        ensures
            match r {
                Ok(v) => idx < self.consts@.len() && v == &self.consts[idx as int],
                Err(e) => idx >= self.consts@.len() && e@ == (ErrV::Oops { code: 0xdead_0010 }),
            },
    {
        if idx < self.consts.len() {
            Ok(&self.consts[idx])
        } else {
            Err(Error::Oops { code: 0xdead_0010 })
        }
    }
}

/// The local variable frame: compile-time indexed slots, unset until written.
#[derive(Debug)]
pub struct LocalStack {
    pub values: Vec<Option<Value>>,
}

impl LocalStack {
    /// A frame with the given number of unset slots.
    #[verifier::loop_isolation(false)]
    pub fn with_size(size: usize) -> (r: Self)
        ensures
            r.values@.len() == size,
            forall|i: int| 0 <= i < size ==> (#[trigger] r.values@[i]) is None,
    {
        let mut values: Vec<Option<Value>> = Vec::new();
        let mut i: usize = 0;
        while i < size
            invariant
                i <= size,
                values@.len() == i as int,
                forall|k: int| 0 <= k < i as int ==> (#[trigger] values@[k]) is None,
            decreases size - i,
        {
            values.push(None);
            i = i + 1;
        }
        LocalStack { values }
    }

    /// Borrows a slot; an unknown index is an internal error.
    pub fn get(&self, idx: usize) -> (r: Result<&Option<Value>, Error>)
        ensures
            match r {
                Ok(v) => idx < self.values@.len() && v == &self.values[idx as int],
                Err(e) => idx >= self.values@.len() && e@ == (ErrV::Oops { code: 0xdead_000f }),
            },
    {
        if idx < self.values.len() {
            Ok(&self.values[idx])
        } else {
            Err(Error::Oops { code: 0xdead_000f })
        }
    }

    /// Writes a slot (the arena behind capture bindings and comprehension
    /// keys/values); an unknown index is an internal error.
    pub fn set(&mut self, idx: usize, v: Value) -> (r: Result<(), Error>)
        ensures
            match r {
                Ok(()) => idx < old(self).values@.len() && final(self).values@ == old(
                    self,
                ).values@.update(idx as int, Some(v)),
                Err(e) => idx >= old(self).values@.len() && final(self).values@ == old(
                    self,
                ).values@ && e@ == (ErrV::Oops { code: 0xdead_0006 }),
            },
    {
        if idx < self.values.len() {
            self.values.set(idx, Some(v));
            Ok(())
        } else {
            Err(Error::Oops { code: 0xdead_0006 })
        }
    }
}

/// Models of the local slots.
pub open spec fn locals_of(s: Seq<Option<Value>>) -> Seq<Option<Val>> {
    s.map_values(
        |o: Option<Value>|
            match o {
                Some(v) => Some(v@),
                None => None,
            },
    )
}

/// Spec-level model of the whole evaluation context.
#[verifier::ext_equal]
pub struct CtxV {
    pub event: Val,
    pub state: Val,
    pub meta: Val,
    pub local: Seq<Option<Val>>,
    pub consts: Seq<Val>,
    pub args: Val,
    pub group: Val,
    pub window: Val,
}

/// The model of the current evaluation context.
pub open spec fn ctx_of(
    env: Env,
    event: Value,
    state: Value,
    meta: Value,
    local: LocalStack,
) -> CtxV {
    CtxV {
        event: event@,
        state: state@,
        meta: meta@,
        local: locals_of(local.values@),
        consts: vals_of(env.consts@),
        args: env.args@,
        group: env.group@,
        window: env.window@,
    }
}

/// Every value reachable from the context is well-formed.
pub open spec fn ctx_wf(c: CtxV) -> bool {
    &&& c.event.wf()
    &&& c.state.wf()
    &&& c.meta.wf()
    &&& c.args.wf()
    &&& c.group.wf()
    &&& c.window.wf()
    &&& forall|i: int| 0 <= i < c.consts.len() ==> (#[trigger] c.consts[i]).wf()
    &&& forall|i: int|
        0 <= i < c.local.len() && c.local[i] is Some ==> (#[trigger] c.local[i])->0.wf()
}

/// The keys of an object's entries, for lookup-failure reports.
pub open spec fn keys_of(entries: Seq<(Seq<char>, Val)>) -> Seq<Seq<char>> {
    Seq::new(entries.len(), |i: int| entries[i].0)
}

/// Casts a value to an array index: an unsigned reading succeeds, a negative
/// integer is a bad index, anything else needs an integer. Range checking is
/// the caller's.
pub open spec fn to_index(v: Val, len: int) -> Result<int, ErrV> {
    match v {
        Val::U64(n) => if n <= usize::MAX as u64 {
            Ok(n as int)
        } else {
            Err(ErrV::NeedsInt)
        },
        Val::I64(n) => if 0 <= n <= usize::MAX as i64 {
            Ok(n as int)
        } else if n < 0 {
            Err(ErrV::BadArrayIndex { idx: n, len })
        } else {
            Err(ErrV::NeedsInt)
        },
        _ => Err(ErrV::NeedsInt),
    }
}

/// What an expression evaluates to in a context.
pub open spec fn eval(e: ImutExpr, c: CtxV) -> Result<Val, HaltV>
    decreases e, 3int,
{
    match e {
        ImutExpr::Literal(v) => Ok(v@),
        ImutExpr::Path(p) => resolve_path(p, c),
        ImutExpr::Binary(op, a, b) => match (eval(*a, c), eval(*b, c)) {
            (Ok(l), Ok(r)) => match spec_binary(op, l, r) {
                Ok(BinV::Value(v)) => Ok(v),
                Ok(BinV::Floating { .. }) => Err(HaltV::Floating),
                Err(er) => Err(HaltV::Fail(er)),
            },
            (Err(h), _) => Err(h),
            (_, Err(h)) => Err(h),
        },
        ImutExpr::Unary(op, a) => match eval(*a, c) {
            Ok(v) => match spec_unary(op, v) {
                Some(r) => Ok(r),
                None => Err(HaltV::Fail(ErrV::InvalidBinary)),
            },
            Err(h) => Err(h),
        },
        ImutExpr::List(es) => match eval_list(es@, c) {
            Ok(vs) => Ok(Val::Array(vs)),
            Err(h) => Err(h),
        },
        ImutExpr::Record(fs) => match eval_record(fs@, c, Seq::empty()) {
            Ok(entries) => Ok(Val::Object(entries)),
            Err(h) => Err(h),
        },
        ImutExpr::Patch(p) => match eval(p.target, c) {
            Ok(t) => match eval_patch_ops(p.ops@, c) {
                Ok(ops) => {
                    let (oe, tv) = patch_run(t, ops);
                    match oe {
                        Some(er) => Err(HaltV::Fail(er)),
                        None => Ok(tv),
                    }
                },
                Err(h) => Err(h),
            },
            Err(h) => Err(h),
        },
        ImutExpr::Merge(t, r) => match (eval(*t, c), eval(*r, c)) {
            (Ok(tv), Ok(rv)) => Ok(crate::mutation::merged(tv, rv)),
            (Err(h), _) => Err(h),
            (_, Err(h)) => Err(h),
        },
    }
}

/// Evaluates the elements of a list literal, in order.
pub open spec fn eval_list(es: Seq<ImutExpr>, c: CtxV) -> Result<Seq<Val>, HaltV>
    decreases es, 2int,
{
    if es.len() == 0 {
        Ok(Seq::empty())
    } else {
        proof {
            assert(decreases_to!(es => es[0]));
            assert(decreases_to!(es => es.subrange(1, es.len() as int)));
            assert(es.drop_first() == es.subrange(1, es.len() as int));
        }
        match eval(es[0], c) {
            Ok(v) => match eval_list(es.drop_first(), c) {
                Ok(rest) => Ok(seq![v] + rest),
                Err(h) => Err(h),
            },
            Err(h) => Err(h),
        }
    }
}

/// Evaluates the fields of a record literal, in order; a repeated key
/// overwrites in place.
pub open spec fn eval_record(
    fs: Seq<(String, ImutExpr)>,
    c: CtxV,
    acc: Seq<(Seq<char>, Val)>,
) -> Result<Seq<(Seq<char>, Val)>, HaltV>
    decreases fs, 2int,
{
    if fs.len() == 0 {
        Ok(acc)
    } else {
        proof {
            assert(decreases_to!(fs => fs[0]));
            assert(decreases_to!(fs[0] => fs[0].1));
            assert(decreases_to!(fs => fs.subrange(1, fs.len() as int)));
            assert(fs.drop_first() == fs.subrange(1, fs.len() as int));
        }
        match eval(fs[0].1, c) {
            Ok(v) => eval_record(fs.drop_first(), c, obj_set(acc, fs[0].0@, v)),
            Err(h) => Err(h),
        }
    }
}

/// Evaluates a patch clause's key expression: it must yield a string.
pub open spec fn eval_key(e: ImutExpr, c: CtxV) -> Result<Seq<char>, HaltV>
    decreases e, 4int,
{
    match eval(e, c) {
        Ok(Val::Str(s)) => Ok(s),
        Ok(_) => Err(HaltV::Fail(ErrV::NeedsString)),
        Err(h) => Err(h),
    }
}

/// Phase one of `patch`: every operation's expressions are evaluated against
/// the original (pre-patch) context, in clause order.
pub open spec fn eval_patch_ops(ops: Seq<PatchOpDef>, c: CtxV) -> Result<Seq<PatchOpV>, HaltV>
    decreases ops, 6int,
{
    if ops.len() == 0 {
        Ok(Seq::empty())
    } else {
        proof {
            assert(decreases_to!(ops => ops[0]));
            assert(decreases_to!(ops => ops.subrange(1, ops.len() as int)));
            assert(ops.drop_first() == ops.subrange(1, ops.len() as int));
        }
        match eval_patch_op(ops[0], c) {
            Ok(op) => match eval_patch_ops(ops.drop_first(), c) {
                Ok(rest) => Ok(seq![op] + rest),
                Err(h) => Err(h),
            },
            Err(h) => Err(h),
        }
    }
}

/// Phase one for a single patch clause.
pub open spec fn eval_patch_op(op: PatchOpDef, c: CtxV) -> Result<PatchOpV, HaltV>
    decreases op, 5int,
{
    match op {
        PatchOpDef::Insert { key, value } => match (eval_key(key, c), eval(value, c)) {
            (Ok(k), Ok(v)) => Ok(PatchOpV::Insert { key: k, value: v }),
            (Err(h), _) => Err(h),
            (_, Err(h)) => Err(h),
        },
        PatchOpDef::Update { key, value } => match (eval_key(key, c), eval(value, c)) {
            (Ok(k), Ok(v)) => Ok(PatchOpV::Update { key: k, value: v }),
            (Err(h), _) => Err(h),
            (_, Err(h)) => Err(h),
        },
        PatchOpDef::Upsert { key, value } => match (eval_key(key, c), eval(value, c)) {
            (Ok(k), Ok(v)) => Ok(PatchOpV::Upsert { key: k, value: v }),
            (Err(h), _) => Err(h),
            (_, Err(h)) => Err(h),
        },
        PatchOpDef::Erase { key } => match eval_key(key, c) {
            Ok(k) => Ok(PatchOpV::Erase { key: k }),
            Err(h) => Err(h),
        },
        PatchOpDef::Copy { from, to } => match (eval_key(from, c), eval_key(to, c)) {
            (Ok(f), Ok(t)) => Ok(PatchOpV::Copy { from: f, to: t }),
            (Err(h), _) => Err(h),
            (_, Err(h)) => Err(h),
        },
        PatchOpDef::Move { from, to } => match (eval_key(from, c), eval_key(to, c)) {
            (Ok(f), Ok(t)) => Ok(PatchOpV::Move { from: f, to: t }),
            (Err(h), _) => Err(h),
            (_, Err(h)) => Err(h),
        },
        PatchOpDef::Merge { key, value } => match (eval_key(key, c), eval(value, c)) {
            (Ok(k), Ok(v)) => Ok(PatchOpV::Merge { key: k, value: v }),
            (Err(h), _) => Err(h),
            (_, Err(h)) => Err(h),
        },
        PatchOpDef::MergeRecord { value } => match eval(value, c) {
            Ok(v) => Ok(PatchOpV::MergeRecord { value: v }),
            Err(h) => Err(h),
        },
        PatchOpDef::Default { key, value } => match (eval_key(key, c), eval(value, c)) {
            (Ok(k), Ok(v)) => Ok(PatchOpV::Default { key: k, value: v }),
            (Err(h), _) => Err(h),
            (_, Err(h)) => Err(h),
        },
        PatchOpDef::DefaultRecord { value } => match eval(value, c) {
            Ok(v) => Ok(PatchOpV::DefaultRecord { value: v }),
            Err(h) => Err(h),
        },
    }
}

/// Well-formedness of the values embedded in an expression (record-literal
/// keys unique and so on; the compile stage guarantees it).
pub open spec fn expr_wf(e: ImutExpr) -> bool
    decreases e, 3int,
{
    match e {
        ImutExpr::Literal(v) => v@.wf(),
        ImutExpr::Path(p) => path_wf(p),
        ImutExpr::Binary(op, a, b) => expr_wf(*a) && expr_wf(*b),
        ImutExpr::Unary(op, a) => expr_wf(*a),
        ImutExpr::List(es) => exprs_wf(es@),
        ImutExpr::Record(fs) => fields_wf(fs@),
        ImutExpr::Patch(p) => {
            proof {
                assert(decreases_to!(e => p));
                assert(decreases_to!(*p => p.target));
                assert(decreases_to!(*p => p.ops));
            }
            expr_wf(p.target) && patch_defs_wf(p.ops@)
        },
        ImutExpr::Merge(t, r) => expr_wf(*t) && expr_wf(*r),
    }
}

/// Well-formedness of a list of expressions.
pub open spec fn exprs_wf(es: Seq<ImutExpr>) -> bool
    decreases es, 2int,
{
    if es.len() == 0 {
        true
    } else {
        proof {
            assert(decreases_to!(es => es[0]));
            assert(decreases_to!(es => es.subrange(1, es.len() as int)));
            assert(es.drop_first() == es.subrange(1, es.len() as int));
        }
        expr_wf(es[0]) && exprs_wf(es.drop_first())
    }
}

/// Well-formedness of record-literal fields.
pub open spec fn fields_wf(fs: Seq<(String, ImutExpr)>) -> bool
    decreases fs, 2int,
{
    if fs.len() == 0 {
        true
    } else {
        proof {
            assert(decreases_to!(fs => fs[0]));
            assert(decreases_to!(fs[0] => fs[0].1));
            assert(decreases_to!(fs => fs.subrange(1, fs.len() as int)));
            assert(fs.drop_first() == fs.subrange(1, fs.len() as int));
        }
        expr_wf(fs[0].1) && fields_wf(fs.drop_first())
    }
}

/// Well-formedness of a path.
pub open spec fn path_wf(p: Path) -> bool
    decreases p, 2int,
{
    proof {
        assert(decreases_to!(p => p.root));
        assert(decreases_to!(p => p.segments));
    }
    root_wf(p.root) && segs_wf(p.segments@)
}

/// Well-formedness of a path root.
pub open spec fn root_wf(r: PathRoot) -> bool
    decreases r, 1int,
{
    match r {
        PathRoot::Expr(e) => expr_wf(*e),
        _ => true,
    }
}

/// Well-formedness of path segments.
pub open spec fn segs_wf(segs: Seq<Segment>) -> bool
    decreases segs, 2int,
{
    if segs.len() == 0 {
        true
    } else {
        proof {
            assert(decreases_to!(segs => segs[0]));
            assert(decreases_to!(segs => segs.subrange(1, segs.len() as int)));
            assert(segs.drop_first() == segs.subrange(1, segs.len() as int));
        }
        (match segs[0] {
            Segment::Element(e) => expr_wf(*e),
            Segment::Range(a, b) => expr_wf(*a) && expr_wf(*b),
            _ => true,
        }) && segs_wf(segs.drop_first())
    }
}

/// Well-formedness of patch clauses.
pub open spec fn patch_defs_wf(ops: Seq<PatchOpDef>) -> bool
    decreases ops, 3int,
{
    if ops.len() == 0 {
        true
    } else {
        proof {
            assert(decreases_to!(ops => ops[0]));
            assert(decreases_to!(ops => ops.subrange(1, ops.len() as int)));
            assert(ops.drop_first() == ops.subrange(1, ops.len() as int));
        }
        patch_def_wf(ops[0]) && patch_defs_wf(ops.drop_first())
    }
}

/// Well-formedness of one patch clause.
pub open spec fn patch_def_wf(op: PatchOpDef) -> bool
    decreases op, 2int,
{
    match op {
        PatchOpDef::Insert { key, value } => expr_wf(key) && expr_wf(value),
        PatchOpDef::Update { key, value } => expr_wf(key) && expr_wf(value),
        PatchOpDef::Upsert { key, value } => expr_wf(key) && expr_wf(value),
        PatchOpDef::Erase { key } => expr_wf(key),
        PatchOpDef::Copy { from, to } => expr_wf(from) && expr_wf(to),
        PatchOpDef::Move { from, to } => expr_wf(from) && expr_wf(to),
        PatchOpDef::Merge { key, value } => expr_wf(key) && expr_wf(value),
        PatchOpDef::MergeRecord { value } => expr_wf(value),
        PatchOpDef::Default { key, value } => expr_wf(key) && expr_wf(value),
        PatchOpDef::DefaultRecord { value } => expr_wf(value),
    }
}

/// What path well-formedness unfolds to.
pub proof fn lemma_path_wf_unfold(p: Path)
    ensures
        path_wf(p) <==> (root_wf(p.root) && segs_wf(p.segments@)),
{
}

/// `segs_wf` is the pointwise statement.
pub proof fn lemma_segs_wf(s: Seq<Segment>)
    ensures
        segs_wf(s) <==> (forall|i: int|
            0 <= i < s.len() ==> (match #[trigger] s[i] {
                Segment::Element(e) => expr_wf(*e),
                Segment::Range(a, b) => expr_wf(*a) && expr_wf(*b),
                _ => true,
            })),
    decreases s.len(),
{
    if s.len() > 0 {
        lemma_segs_wf(s.drop_first());
        assert(segs_wf(s) == ((match s[0] {
            Segment::Element(e) => expr_wf(*e),
            Segment::Range(a, b) => expr_wf(*a) && expr_wf(*b),
            _ => true,
        }) && segs_wf(s.drop_first())));
        assert forall|i: int|
            0 <= i < s.drop_first().len() implies #[trigger] s.drop_first()[i] == s[i + 1] by {}
        if segs_wf(s) {
            assert forall|i: int|
                0 <= i < s.len() implies (match #[trigger] s[i] {
                Segment::Element(e) => expr_wf(*e),
                Segment::Range(a, b) => expr_wf(*a) && expr_wf(*b),
                _ => true,
            }) by {
                if i > 0 {
                    assert(s.drop_first()[i - 1] == s[i]);
                }
            }
        }
        if forall|i: int|
            0 <= i < s.len() ==> (match #[trigger] s[i] {
                Segment::Element(e) => expr_wf(*e),
                Segment::Range(a, b) => expr_wf(*a) && expr_wf(*b),
                _ => true,
            }) {
            assert forall|i: int|
                0 <= i < s.drop_first().len() implies (match #[trigger] s.drop_first()[i] {
                Segment::Element(e) => expr_wf(*e),
                Segment::Range(a, b) => expr_wf(*a) && expr_wf(*b),
                _ => true,
            }) by {
                assert(s.drop_first()[i] == s[i + 1]);
            }
        }
    }
}

/// The value a path's root denotes.
pub open spec fn root_value(r: PathRoot, c: CtxV) -> Result<Val, HaltV>
    decreases r, 2int,
{
    match r {
        PathRoot::Local(idx) => if idx < c.local.len() {
            match c.local[idx as int] {
                Some(v) => Ok(v),
                None => Err(
                    HaltV::Fail(ErrV::BadKey { key: Seq::empty(), options: Seq::empty() }),
                ),
            }
        } else {
            Err(HaltV::Fail(ErrV::Oops { code: 0xdead_000f }))
        },
        PathRoot::Const(idx) => if idx < c.consts.len() {
            Ok(c.consts[idx as int])
        } else {
            Err(HaltV::Fail(ErrV::Oops { code: 0xdead_0010 }))
        },
        PathRoot::Meta => Ok(c.meta),
        PathRoot::Event => Ok(c.event),
        PathRoot::State => Ok(c.state),
        PathRoot::Expr(e) => eval(*e, c),
        PathRoot::Args => Ok(c.args),
        PathRoot::Group => Ok(c.group),
        PathRoot::Window => Ok(c.window),
    }
}

/// What a path resolves to: the root, narrowed by every segment. A taken
/// range puts later index segments into "subrange" mode; if any range was
/// taken the result is a fresh array of the final subrange.
pub open spec fn resolve_path(p: Path, c: CtxV) -> Result<Val, HaltV>
    decreases p, 3int,
{
    proof {
        assert(decreases_to!(p => p.root));
        assert(decreases_to!(p => p.segments));
    }
    match root_value(p.root, c) {
        Ok(base) => resolve_segments(p.segments@, c, base, None),
        Err(h) => Err(h),
    }
}

/// Applies the remaining segments to the current value.
pub open spec fn resolve_segments(
    segs: Seq<Segment>,
    c: CtxV,
    cur: Val,
    sub: Option<Seq<Val>>,
) -> Result<Val, HaltV>
    decreases segs, 3int,
{
    if segs.len() == 0 {
        match sub {
            Some(range) => Ok(Val::Array(range)),
            None => Ok(cur),
        }
    } else {
        proof {
            assert(decreases_to!(segs => segs[0]));
            assert(decreases_to!(segs => segs.subrange(1, segs.len() as int)));
            assert(segs.drop_first() == segs.subrange(1, segs.len() as int));
        }
        let rest = segs.drop_first();
        match segs[0] {
            Segment::Id(key) => if cur is Object {
                let entries = cur->Object_0;
                if obj_has(entries, key@) {
                    resolve_segments(rest, c, obj_get(entries, key@), None)
                } else {
                    Err(HaltV::Fail(ErrV::BadKey { key: key@, options: keys_of(entries) }))
                }
            } else {
                Err(HaltV::Fail(ErrV::NeedsObject))
            },
            Segment::Idx(idx) => if cur is Array {
                let range = if sub is Some {
                    sub->0
                } else {
                    cur->Array_0
                };
                if idx < range.len() {
                    resolve_segments(rest, c, range[idx as int], None)
                } else {
                    Err(
                        HaltV::Fail(
                            ErrV::ArrayOutOfBound {
                                start: idx as int,
                                end: idx as int,
                                len: range.len() as int,
                            },
                        ),
                    )
                }
            } else {
                Err(HaltV::Fail(ErrV::NeedsArray))
            },
            Segment::Range(se, ee) => if cur is Array {
                let range = if sub is Some {
                    sub->0
                } else {
                    cur->Array_0
                };
                match (eval(*se, c), eval(*ee, c)) {
                    (Ok(sv), Ok(ev)) => match (
                        to_index(sv, range.len() as int),
                        to_index(ev, range.len() as int),
                    ) {
                        (Ok(start), Ok(end)) => if end < start {
                            Err(HaltV::Fail(ErrV::DecreasingRange { start, end }))
                        } else if end > range.len() {
                            Err(
                                HaltV::Fail(
                                    ErrV::ArrayOutOfBound {
                                        start,
                                        end,
                                        len: range.len() as int,
                                    },
                                ),
                            )
                        } else {
                            resolve_segments(rest, c, cur, Some(range.subrange(start, end)))
                        },
                        (Err(er), _) => Err(HaltV::Fail(er)),
                        (_, Err(er)) => Err(HaltV::Fail(er)),
                    },
                    (Err(h), _) => Err(h),
                    (_, Err(h)) => Err(h),
                }
            } else {
                Err(HaltV::Fail(ErrV::NeedsArray))
            },
            Segment::Element(ke) => match eval(*ke, c) {
                Ok(kv) => match (cur, kv) {
                    (Val::Object(entries), Val::Str(id)) => if obj_has(entries, id) {
                        resolve_segments(rest, c, obj_get(entries, id), None)
                    } else {
                        Err(HaltV::Fail(ErrV::BadKey { key: id, options: keys_of(entries) }))
                    },
                    (Val::Object(_), _) => Err(HaltV::Fail(ErrV::NeedsString)),
                    (Val::Array(items), idxv) => {
                        let range = if sub is Some {
                            sub->0
                        } else {
                            items
                        };
                        match to_index(idxv, range.len() as int) {
                            Ok(idx) => if idx < range.len() {
                                resolve_segments(rest, c, range[idx], None)
                            } else {
                                Err(
                                    HaltV::Fail(
                                        ErrV::ArrayOutOfBound {
                                            start: idx,
                                            end: idx,
                                            len: range.len() as int,
                                        },
                                    ),
                                )
                            },
                            Err(er) => Err(HaltV::Fail(er)),
                        }
                    },
                    (_, Val::Str(_)) => Err(HaltV::Fail(ErrV::NeedsObject)),
                    (_, Val::U64(_)) => Err(HaltV::Fail(ErrV::NeedsArray)),
                    (_, Val::I64(n)) => if n >= 0 {
                        Err(HaltV::Fail(ErrV::NeedsArray))
                    } else {
                        Err(HaltV::Fail(ErrV::Oops { code: 0xdead_0003 }))
                    },
                    _ => Err(HaltV::Fail(ErrV::Oops { code: 0xdead_0003 })),
                },
                Err(h) => Err(h),
            },
        }
    }
}

/// Evaluates an immutable expression to an owned value.
#[verifier::rlimit(60)]
pub fn run_imut(
    e: &ImutExpr,
    env: &Env,
    event: &Value,
    state: &Value,
    meta: &Value,
    local: &LocalStack,
) -> (r: Result<Value, Halt>)
    requires
        ctx_wf(ctx_of(*env, *event, *state, *meta, *local)),
        expr_wf(*e),
    ensures
        hmodels(r, eval(*e, ctx_of(*env, *event, *state, *meta, *local))),
        r is Ok ==> (r->Ok_0)@.wf(),
    decreases *e, 1int,
{
    broadcast use crate::value::lemma_wf_unfold, lemma_vals_of, lemma_entries_of;

    let ghost c = ctx_of(*env, *event, *state, *meta, *local);
    match e {
        ImutExpr::Literal(v) => Ok(duplicate(v)),
        ImutExpr::Path(p) => {
            proof {
                assert(decreases_to!(*e => e->Path_0));
            }
            resolve(p, env, event, state, meta, local)
        }
        ImutExpr::Binary(op, a, b) => {
            proof {
                assert(decreases_to!(*e => e->Binary_1));
                assert(decreases_to!(*e => e->Binary_2));
            }
            let l = run_imut(a, env, event, state, meta, local)?;
            let rr = run_imut(b, env, event, state, meta, local)?;
            match exec_binary(*op, &l, &rr) {
                Ok(BinOut::Value(v)) => {
                    proof {
                        crate::value::lemma_wf_unfold(v@);
                    }
                    Ok(v)
                }
                Ok(BinOut::Floating { .. }) => Err(Halt::Floating),
                Err(er) => Err(Halt::Fail(er)),
            }
        }
        ImutExpr::Unary(op, a) => {
            proof {
                assert(decreases_to!(*e => e->Unary_1));
            }
            let v = run_imut(a, env, event, state, meta, local)?;
            match exec_unary(*op, &v) {
                Some(rv) => {
                    proof {
                        crate::value::lemma_wf_unfold(rv@);
                    }
                    Ok(rv)
                }
                None => Err(Halt::Fail(Error::InvalidBinary)),
            }
        }
        ImutExpr::List(es) => {
            proof {
                assert(decreases_to!(*e => e->List_0));
            }
            match run_list(es, env, event, state, meta, local) {
                Ok(out) => {
                    proof {
                        crate::value::lemma_arr_wf(vals_of(out@));
                    }
                    Ok(Value::Array(out))
                }
                Err(h) => Err(h),
            }
        }
        ImutExpr::Record(fs) => {
            proof {
                assert(decreases_to!(*e => e->Record_0));
            }
            match run_record(fs, env, event, state, meta, local) {
                Ok(acc) => {
                    proof {
                        crate::value::lemma_obj_vals_wf(entries_of(acc@));
                    }
                    Ok(Value::Object(acc))
                }
                Err(h) => Err(h),
            }
        }
        ImutExpr::Patch(p) => {
            proof {
                assert(decreases_to!(*e => e->Patch_0));
                assert(decreases_to!(*e->Patch_0 => e->Patch_0.target));
                assert(decreases_to!(*e->Patch_0 => e->Patch_0.ops));
            }
            let mut t = run_imut(&p.target, env, event, state, meta, local)?;
            let ops = run_patch_defs(&p.ops, env, event, state, meta, local)?;
            match patch_apply(&mut t, &ops) {
                Ok(()) => Ok(t),
                Err(er) => Err(Halt::Fail(er)),
            }
        }
        ImutExpr::Merge(t, rexp) => {
            proof {
                assert(decreases_to!(*e => e->Merge_0));
                assert(decreases_to!(*e => e->Merge_1));
            }
            let tv = run_imut(t, env, event, state, meta, local)?;
            let rv = run_imut(rexp, env, event, state, meta, local)?;
            Ok(crate::mutation::merge_values(&tv, &rv))
        }
    }
}

/// Evaluates the elements of a list literal, in order.
#[verifier::loop_isolation(false)]
fn run_list(
    es: &Vec<ImutExpr>,
    env: &Env,
    event: &Value,
    state: &Value,
    meta: &Value,
    local: &LocalStack,
) -> (r: Result<Vec<Value>, Halt>)
    requires
        ctx_wf(ctx_of(*env, *event, *state, *meta, *local)),
        exprs_wf(es@),
    ensures
        ({
            let s = eval_list(es@, ctx_of(*env, *event, *state, *meta, *local));
            match r {
                Ok(out) => s is Ok && vals_of(out@) == s->Ok_0 && forall|k: int|
                    0 <= k < out@.len() ==> (#[trigger] out@[k]@).wf(),
                Err(h) => s is Err && h@ == s->Err_0,
            }
        }),
    decreases *es, 0int,
{
    broadcast use lemma_vals_of;

    let ghost c = ctx_of(*env, *event, *state, *meta, *local);
    let mut out: Vec<Value> = Vec::new();
    let mut i: usize = 0;
    proof {
        assert(es@.skip(0) =~= es@);
    }
    while i < es.len()
        invariant
            i <= es@.len(),
            exprs_wf(es@.skip(i as int)),
            forall|k: int| 0 <= k < out@.len() ==> (#[trigger] out@[k]@).wf(),
            eval_list(es@, c) == (match eval_list(es@.skip(i as int), c) {
                Ok(rest) => Ok::<Seq<Val>, HaltV>(vals_of(out@) + rest),
                Err(h) => Err(h),
            }),
        decreases es@.len() - i,
    {
        proof {
            assert(es@.skip(i as int)[0] == es@[i as int]);
            assert(es@.skip(i as int).drop_first() =~= es@.skip(i as int + 1));
            assert(decreases_to!(*es => es@[i as int]));
        }
        match run_imut(&es[i], env, event, state, meta, local) {
            Ok(v) => {
                let ghost out0 = vals_of(out@);
                let ghost vv = v@;
                out.push(v);
                proof {
                    assert(vals_of(out@) =~= out0.push(vv));
                    assert forall|rest: Seq<Val>|
                        out0.push(vv) + rest =~= out0 + (seq![vv] + rest) by {}
                }
            }
            Err(h) => {
                return Err(h);
            }
        }
        i = i + 1;
    }
    proof {
        assert(es@.skip(es@.len() as int).len() == 0);
        assert(vals_of(out@) + Seq::<Val>::empty() =~= vals_of(out@));
    }
    Ok(out)
}

/// Evaluates the fields of a record literal, in order; a repeated key
/// overwrites in place.
#[verifier::loop_isolation(false)]
fn run_record(
    fs: &Vec<(String, ImutExpr)>,
    env: &Env,
    event: &Value,
    state: &Value,
    meta: &Value,
    local: &LocalStack,
) -> (r: Result<Vec<(String, Value)>, Halt>)
    requires
        ctx_wf(ctx_of(*env, *event, *state, *meta, *local)),
        fields_wf(fs@),
    ensures
        ({
            let s = eval_record(fs@, ctx_of(*env, *event, *state, *meta, *local), Seq::empty());
            match r {
                Ok(acc) => s is Ok && entries_of(acc@) == s->Ok_0 && unique_keys(
                    entries_of(acc@),
                ) && obj_vals_wf(entries_of(acc@)),
                Err(h) => s is Err && h@ == s->Err_0,
            }
        }),
    decreases *fs, 0int,
{
    broadcast use lemma_entries_of;

    let ghost c = ctx_of(*env, *event, *state, *meta, *local);
    let mut acc: Vec<(String, Value)> = Vec::new();
    let mut i: usize = 0;
    proof {
        assert(fs@.skip(0) =~= fs@);
        assert(entries_of(acc@) =~= Seq::<(Seq<char>, Val)>::empty());
    }
    while i < fs.len()
        invariant
            i <= fs@.len(),
            fields_wf(fs@.skip(i as int)),
            unique_keys(entries_of(acc@)),
            obj_vals_wf(entries_of(acc@)),
            eval_record(fs@, c, Seq::empty()) == eval_record(
                fs@.skip(i as int),
                c,
                entries_of(acc@),
            ),
        decreases fs@.len() - i,
    {
        proof {
            assert(fs@.skip(i as int)[0] == fs@[i as int]);
            assert(fs@.skip(i as int).drop_first() =~= fs@.skip(i as int + 1));
            assert(decreases_to!(*fs => fs@[i as int]));
            assert(decreases_to!(fs@[i as int] => fs@[i as int].1));
        }
        let (k, fe) = &fs[i];
        match run_imut(fe, env, event, state, meta, local) {
            Ok(v) => {
                let ghost acc0 = entries_of(acc@);
                let ghost vv = v@;
                proof {
                    if obj_has(acc0, k@) {
                        lemma_obj_set_wf(acc0, k@, vv);
                    } else {
                        lemma_obj_push_wf(acc0, k@, vv);
                        assert(obj_set(acc0, k@, vv) == acc0.push((k@, vv)));
                    }
                }
                obj_put(&mut acc, k.clone(), v);
            }
            Err(h) => {
                return Err(h);
            }
        }
        i = i + 1;
    }
    proof {
        assert(fs@.skip(fs@.len() as int).len() == 0);
    }
    Ok(acc)
}

/// Phase one of `patch` over all clauses, in order.
#[verifier::loop_isolation(false)]
fn run_patch_defs(
    ops: &Vec<PatchOpDef>,
    env: &Env,
    event: &Value,
    state: &Value,
    meta: &Value,
    local: &LocalStack,
) -> (r: Result<Vec<PatchOp>, Halt>)
    requires
        ctx_wf(ctx_of(*env, *event, *state, *meta, *local)),
        patch_defs_wf(ops@),
    ensures
        ({
            let s = eval_patch_ops(ops@, ctx_of(*env, *event, *state, *meta, *local));
            match r {
                Ok(out) => s is Ok && patch_ops_of(out@) == s->Ok_0 && forall|k: int|
                    0 <= k < out@.len() ==> crate::mutation::patch_op_wf((#[trigger] out@[k])@),
                Err(h) => s is Err && h@ == s->Err_0,
            }
        }),
    decreases *ops, 0int,
{
    let ghost c = ctx_of(*env, *event, *state, *meta, *local);
    let mut out: Vec<PatchOp> = Vec::new();
    let mut i: usize = 0;
    proof {
        assert(ops@.skip(0) =~= ops@);
        assert(patch_ops_of(out@) =~= Seq::<PatchOpV>::empty());
    }
    while i < ops.len()
        invariant
            i <= ops@.len(),
            patch_defs_wf(ops@.skip(i as int)),
            forall|k: int|
                0 <= k < out@.len() ==> crate::mutation::patch_op_wf((#[trigger] out@[k])@),
            eval_patch_ops(ops@, c) == (match eval_patch_ops(ops@.skip(i as int), c) {
                Ok(rest) => Ok::<Seq<PatchOpV>, HaltV>(patch_ops_of(out@) + rest),
                Err(h) => Err(h),
            }),
        decreases ops@.len() - i,
    {
        proof {
            assert(ops@.skip(i as int)[0] == ops@[i as int]);
            assert(ops@.skip(i as int).drop_first() =~= ops@.skip(i as int + 1));
            assert(decreases_to!(*ops => ops@[i as int]));
        }
        match build_patch_op(&ops[i], env, event, state, meta, local) {
            Ok(op) => {
                let ghost out0 = patch_ops_of(out@);
                let ghost opv = op@;
                out.push(op);
                proof {
                    assert(patch_ops_of(out@) =~= out0.push(opv));
                    assert forall|rest: Seq<PatchOpV>|
                        out0.push(opv) + rest =~= out0 + (seq![opv] + rest) by {}
                }
            }
            Err(h) => {
                return Err(h);
            }
        }
        i = i + 1;
    }
    proof {
        assert(ops@.skip(ops@.len() as int).len() == 0);
        assert(patch_ops_of(out@) + Seq::<PatchOpV>::empty() =~= patch_ops_of(out@));
    }
    Ok(out)
}

/// Phase one of `patch` for one clause: evaluates its expressions against
/// the original context.
#[verifier::loop_isolation(false)]
fn build_patch_op(
    op: &PatchOpDef,
    env: &Env,
    event: &Value,
    state: &Value,
    meta: &Value,
    local: &LocalStack,
) -> (r: Result<PatchOp, Halt>)
    requires
        ctx_wf(ctx_of(*env, *event, *state, *meta, *local)),
        patch_def_wf(*op),
    ensures
        ({
            let s = eval_patch_op(*op, ctx_of(*env, *event, *state, *meta, *local));
            match r {
                Ok(o) => s is Ok && o@ == s->Ok_0 && crate::mutation::patch_op_wf(o@),
                Err(h) => s is Err && h@ == s->Err_0,
            }
        }),
    decreases *op, 2int,
{
    match op {
        PatchOpDef::Insert { key, value } => {
            proof {
                assert(decreases_to!(*op => op->Insert_key));
                assert(decreases_to!(*op => op->Insert_value));
            }
            let k = eval_string(key, env, event, state, meta, local)?;
            let v = run_imut(value, env, event, state, meta, local)?;
            Ok(PatchOp::Insert { key: k, value: v })
        }
        PatchOpDef::Update { key, value } => {
            proof {
                assert(decreases_to!(*op => op->Update_key));
                assert(decreases_to!(*op => op->Update_value));
            }
            let k = eval_string(key, env, event, state, meta, local)?;
            let v = run_imut(value, env, event, state, meta, local)?;
            Ok(PatchOp::Update { key: k, value: v })
        }
        PatchOpDef::Upsert { key, value } => {
            proof {
                assert(decreases_to!(*op => op->Upsert_key));
                assert(decreases_to!(*op => op->Upsert_value));
            }
            let k = eval_string(key, env, event, state, meta, local)?;
            let v = run_imut(value, env, event, state, meta, local)?;
            Ok(PatchOp::Upsert { key: k, value: v })
        }
        PatchOpDef::Erase { key } => {
            proof {
                assert(decreases_to!(*op => op->Erase_key));
            }
            let k = eval_string(key, env, event, state, meta, local)?;
            Ok(PatchOp::Erase { key: k })
        }
        PatchOpDef::Copy { from, to } => {
            proof {
                assert(decreases_to!(*op => op->Copy_from));
                assert(decreases_to!(*op => op->Copy_to));
            }
            let f = eval_string(from, env, event, state, meta, local)?;
            let t = eval_string(to, env, event, state, meta, local)?;
            Ok(PatchOp::Copy { from: f, to: t })
        }
        PatchOpDef::Move { from, to } => {
            proof {
                assert(decreases_to!(*op => op->Move_from));
                assert(decreases_to!(*op => op->Move_to));
            }
            let f = eval_string(from, env, event, state, meta, local)?;
            let t = eval_string(to, env, event, state, meta, local)?;
            Ok(PatchOp::Move { from: f, to: t })
        }
        PatchOpDef::Merge { key, value } => {
            proof {
                assert(decreases_to!(*op => op->Merge_key));
                assert(decreases_to!(*op => op->Merge_value));
            }
            let k = eval_string(key, env, event, state, meta, local)?;
            let v = run_imut(value, env, event, state, meta, local)?;
            Ok(PatchOp::Merge { key: k, value: v })
        }
        PatchOpDef::MergeRecord { value } => {
            proof {
                assert(decreases_to!(*op => op->MergeRecord_value));
            }
            let v = run_imut(value, env, event, state, meta, local)?;
            Ok(PatchOp::MergeRecord { value: v })
        }
        PatchOpDef::Default { key, value } => {
            proof {
                assert(decreases_to!(*op => op->Default_key));
                assert(decreases_to!(*op => op->Default_value));
            }
            let k = eval_string(key, env, event, state, meta, local)?;
            let v = run_imut(value, env, event, state, meta, local)?;
            Ok(PatchOp::Default { key: k, value: v })
        }
        PatchOpDef::DefaultRecord { value } => {
            proof {
                assert(decreases_to!(*op => op->DefaultRecord_value));
            }
            let v = run_imut(value, env, event, state, meta, local)?;
            Ok(PatchOp::DefaultRecord { value: v })
        }
    }
}

/// Casts a value to an array index, executably.
pub fn value_to_index(v: &Value, len: usize) -> (r: Result<usize, Error>)
    requires
        len <= u64::MAX,
    ensures
        ({
            let s = to_index(v@, len as int);
            match r {
                Ok(i) => s is Ok && i as int == s->Ok_0,
                Err(e) => s is Err && e@ == s->Err_0,
            }
        }),
{
    match v {
        Value::U64(n) => {
            if *n <= (usize::MAX as u64) {
                Ok(*n as usize)
            } else {
                Err(Error::NeedsInt)
            }
        }
        Value::I64(n) => {
            if *n >= 0 {
                if *n <= (usize::MAX as i64) {
                    Ok(*n as usize)
                } else {
                    Err(Error::NeedsInt)
                }
            } else {
                Err(Error::BadArrayIndex { idx: *n, len })
            }
        }
        _ => Err(Error::NeedsInt),
    }
}

/// Resolves a path against the context, producing an owned copy of the
/// addressed value (for ranges, a fresh array of the final subrange).
#[verifier::loop_isolation(false)]
#[verifier::rlimit(100)]
pub fn resolve(
    p: &Path,
    env: &Env,
    event: &Value,
    state: &Value,
    meta: &Value,
    local: &LocalStack,
) -> (r: Result<Value, Halt>)
    requires
        ctx_wf(ctx_of(*env, *event, *state, *meta, *local)),
        path_wf(*p),
    ensures
        hmodels(r, resolve_path(*p, ctx_of(*env, *event, *state, *meta, *local))),
        r is Ok ==> (r->Ok_0)@.wf(),
    decreases *p, 1int,
{
    broadcast use crate::value::lemma_wf_unfold, lemma_vals_of, lemma_entries_of;

    let ghost c = ctx_of(*env, *event, *state, *meta, *local);
    proof {
        assert(decreases_to!(*p => p.root));
        assert(decreases_to!(*p => p.segments));
    }
    let base: Value = match &p.root {
        PathRoot::Local(idx) => {
            match local.get(*idx) {
                Ok(slot) => match slot {
                    Some(v) => {
                        proof {
                            assert(c.local[*idx as int] == Some(v@));
                        }
                        duplicate(v)
                    }
                    None => {
                        let r = Err(
                            Halt::Fail(Error::BadKey { key: String::new(), options: Vec::new() }),
                        );
                        proof {
                            assert(crate::error::strs_of(Seq::<String>::empty())
                                =~= Seq::<Seq<char>>::empty());
                        }
                        return r;
                    }
                },
                Err(er) => {
                    return Err(Halt::Fail(er));
                }
            }
        }
        PathRoot::Const(idx) => {
            match env.get_const(*idx) {
                Ok(v) => {
                    proof {
                        assert(c.consts[*idx as int] == v@);
                    }
                    duplicate(v)
                }
                Err(er) => {
                    return Err(Halt::Fail(er));
                }
            }
        }
        PathRoot::Meta => duplicate(meta),
        PathRoot::Event => duplicate(event),
        PathRoot::State => duplicate(state),
        PathRoot::Expr(e) => {
            proof {
                assert(decreases_to!(p.root => p.root->Expr_0));
            }
            match run_imut(e, env, event, state, meta, local) {
                Ok(v) => v,
                Err(h) => {
                    return Err(h);
                }
            }
        }
        PathRoot::Args => duplicate(&env.args),
        PathRoot::Group => duplicate(&env.group),
        PathRoot::Window => duplicate(&env.window),
    };
    let segs = &p.segments;
    let mut cur: Value = base;
    let mut sub: Option<Vec<Value>> = None;
    let mut i: usize = 0;
    proof {
        assert(segs@.skip(0) =~= segs@);
    }
    while i < segs.len()
        invariant
            i <= segs@.len(),
            cur@.wf(),
            segs_wf(segs@.skip(i as int)),
            (match sub {
                Some(vs) => forall|k: int| 0 <= k < vs@.len() ==> (#[trigger] vs@[k]@).wf(),
                None => true,
            }),
            resolve_path(*p, c) == resolve_segments(
                segs@.skip(i as int),
                c,
                cur@,
                match sub {
                    Some(vs) => Some(vals_of(vs@)),
                    None => None,
                },
            ),
        decreases segs@.len() - i,
    {
        proof {
            assert(segs@.skip(i as int)[0] == segs@[i as int]);
            assert(segs@.skip(i as int).drop_first() =~= segs@.skip(i as int + 1));
            assert(decreases_to!(p.segments => p.segments@[i as int]));
        }
        let ghost subm: Option<Seq<Val>> = match &sub {
            Some(vs) => Some(vals_of(vs@)),
            None => None,
        };
        let ghost remaining = segs@.skip(i as int);
        match &segs[i] {
            Segment::Id(key) => {
                match &cur {
                    Value::Object(entries) => {
                        proof {
                            lemma_obj_vals_wf(entries_of(entries@));
                        }
                        match obj_lookup(entries, key) {
                            Some(v) => {
                                proof {
                                    let jj = obj_idx(entries_of(entries@), key@);
                                    assert(entries_of(entries@)[jj].1.wf());
                                }
                                let nv = duplicate(v);
                                cur = nv;
                                sub = None;
                            }
                            None => {
                                let options = obj_keys(entries);
                                proof {
                                    assert(crate::error::strs_of(options@) =~= keys_of(
                                        entries_of(entries@),
                                    ));
                                }
                                return Err(
                                    Halt::Fail(Error::BadKey { key: key.clone(), options }),
                                );
                            }
                        }
                    }
                    _ => {
                        return Err(Halt::Fail(Error::NeedsObject));
                    }
                }
            }
            Segment::Idx(idx) => {
                match &cur {
                    Value::Array(items) => {
                        proof {
                            lemma_vals_of(items@);
                            if sub is Some {
                                lemma_vals_of(sub->0@);
                            }
                        }
                        let found: Option<Value>;
                        let rlen: usize;
                        match &sub {
                            Some(vs) => {
                                rlen = vs.len();
                                if *idx < vs.len() {
                                    found = Some(duplicate(&vs[*idx]));
                                } else {
                                    found = None;
                                }
                            }
                            None => {
                                rlen = items.len();
                                if *idx < items.len() {
                                    proof {
                                        lemma_arr_wf_items(vals_of(items@));
                                    }
                                    found = Some(duplicate(&items[*idx]));
                                } else {
                                    found = None;
                                }
                            }
                        }
                        match found {
                            Some(v) => {
                                cur = v;
                                sub = None;
                            }
                            None => {
                                proof {
                                    lemma_vals_of(items@);
                                    if sub is Some {
                                        lemma_vals_of(sub->0@);
                                    }
                                    let range = if subm is Some {
                                        subm->0
                                    } else {
                                        cur@->Array_0
                                    };
                                    assert(rlen as int == range.len());
                                    assert(resolve_segments(remaining, c, cur@, subm)
                                        == Err::<Val, HaltV>(HaltV::Fail(
                                            ErrV::ArrayOutOfBound {
                                                start: *idx as int,
                                                end: *idx as int,
                                                len: rlen as int,
                                            },
                                        )));
                                }
                                return Err(
                                    Halt::Fail(
                                        Error::ArrayOutOfBound {
                                            start: *idx,
                                            end: *idx,
                                            len: rlen,
                                        },
                                    ),
                                );
                            }
                        }
                    }
                    _ => {
                        return Err(Halt::Fail(Error::NeedsArray));
                    }
                }
            }
            Segment::Range(se, ee) => {
                match &cur {
                    Value::Array(items) => {
                        proof {
                            lemma_vals_of(items@);
                            if sub is Some {
                                lemma_vals_of(sub->0@);
                            }
                            assert(decreases_to!(p.segments@[i as int] => p.segments@[
                                i as int]->Range_0));
                            assert(decreases_to!(p.segments@[i as int] => p.segments@[
                                i as int]->Range_1));
                        }
                        let sv = match run_imut(se, env, event, state, meta, local) {
                            Ok(v) => v,
                            Err(h) => {
                                return Err(h);
                            }
                        };
                        let ev = match run_imut(ee, env, event, state, meta, local) {
                            Ok(v) => v,
                            Err(h) => {
                                return Err(h);
                            }
                        };
                        let rlen: usize = match &sub {
                            Some(vs) => vs.len(),
                            None => items.len(),
                        };
                        let start = match value_to_index(&sv, rlen) {
                            Ok(n) => n,
                            Err(er) => {
                                return Err(Halt::Fail(er));
                            }
                        };
                        let end = match value_to_index(&ev, rlen) {
                            Ok(n) => n,
                            Err(er) => {
                                return Err(Halt::Fail(er));
                            }
                        };
                        if end < start {
                            return Err(Halt::Fail(Error::DecreasingRange { start, end }));
                        }
                        if end > rlen {
                            return Err(
                                Halt::Fail(Error::ArrayOutOfBound { start, end, len: rlen }),
                            );
                        }
                        let ghost src: Seq<Val> = match &sub {
                            Some(vs) => vals_of(vs@),
                            None => vals_of(items@),
                        };
                        proof {
                            lemma_arr_wf_items(vals_of(items@));
                            assert(src.len() == rlen);
                        }
                        let mut slice: Vec<Value> = Vec::new();
                        let mut k: usize = start;
                        while k < end
                            invariant
                                start <= k <= end,
                                slice@.len() == k - start,
                                forall|t: int|
                                    0 <= t < slice@.len() ==> (#[trigger] slice@[t]@) == src[
                                        start + t
                                    ] && slice@[t]@.wf(),
                            decreases end - k,
                        {
                            match &sub {
                                Some(vs) => {
                                    slice.push(duplicate(&vs[k]));
                                }
                                None => {
                                    slice.push(duplicate(&items[k]));
                                }
                            }
                            k = k + 1;
                        }
                        proof {
                            assert(vals_of(slice@) =~= src.subrange(start as int, end as int));
                        }
                        sub = Some(slice);
                    }
                    _ => {
                        return Err(Halt::Fail(Error::NeedsArray));
                    }
                }
            }
            Segment::Element(ke) => {
                proof {
                    assert(decreases_to!(p.segments@[i as int] => p.segments@[
                        i as int]->Element_0));
                }
                let kv = match run_imut(ke, env, event, state, meta, local) {
                    Ok(v) => v,
                    Err(h) => {
                        return Err(h);
                    }
                };
                match (&cur, &kv) {
                    (Value::Object(entries), Value::Str(id)) => {
                        proof {
                            lemma_obj_vals_wf(entries_of(entries@));
                        }
                        match obj_lookup(entries, id) {
                            Some(v) => {
                                proof {
                                    let jj = obj_idx(entries_of(entries@), id@);
                                    assert(entries_of(entries@)[jj].1.wf());
                                }
                                let nv = duplicate(v);
                                cur = nv;
                                sub = None;
                            }
                            None => {
                                let options = obj_keys(entries);
                                proof {
                                    assert(crate::error::strs_of(options@) =~= keys_of(
                                        entries_of(entries@),
                                    ));
                                }
                                return Err(
                                    Halt::Fail(Error::BadKey { key: id.clone(), options }),
                                );
                            }
                        }
                    }
                    (Value::Object(_), _) => {
                        return Err(Halt::Fail(Error::NeedsString));
                    }
                    (Value::Array(items), _) => {
                        proof {
                            lemma_vals_of(items@);
                            if sub is Some {
                                lemma_vals_of(sub->0@);
                            }
                        }
                        let rlen: usize = match &sub {
                            Some(vs) => vs.len(),
                            None => items.len(),
                        };
                        let idx = match value_to_index(&kv, rlen) {
                            Ok(n) => n,
                            Err(er) => {
                                return Err(Halt::Fail(er));
                            }
                        };
                        if idx < rlen {
                            let nv = match &sub {
                                Some(vs) => duplicate(&vs[idx]),
                                None => {
                                    proof {
                                        lemma_arr_wf_items(vals_of(items@));
                                    }
                                    duplicate(&items[idx])
                                }
                            };
                            cur = nv;
                            sub = None;
                        } else {
                            return Err(
                                Halt::Fail(
                                    Error::ArrayOutOfBound { start: idx, end: idx, len: rlen },
                                ),
                            );
                        }
                    }
                    (_, Value::Str(_)) => {
                        return Err(Halt::Fail(Error::NeedsObject));
                    }
                    (_, Value::U64(_)) => {
                        return Err(Halt::Fail(Error::NeedsArray));
                    }
                    (_, Value::I64(n)) => {
                        if *n >= 0 {
                            return Err(Halt::Fail(Error::NeedsArray));
                        } else {
                            return Err(Halt::Fail(Error::Oops { code: 0xdead_0003 }));
                        }
                    }
                    _ => {
                        return Err(Halt::Fail(Error::Oops { code: 0xdead_0003 }));
                    }
                }
            }
        }
        i = i + 1;
    }
    proof {
        assert(segs@.skip(segs@.len() as int).len() == 0);
    }
    match sub {
        Some(vs) => {
            proof {
                crate::value::lemma_arr_wf(vals_of(vs@));
            }
            Ok(Value::Array(vs))
        }
        None => Ok(cur),
    }
}

/// Each element of a well-formed array is well-formed (pointwise form).
pub proof fn lemma_arr_wf_items(s: Seq<Val>)
    requires
        crate::value::arr_wf(s),
    ensures
        forall|i: int| 0 <= i < s.len() ==> (#[trigger] s[i]).wf(),
{
    crate::value::lemma_arr_wf(s);
}

/// Evaluates an expression that must yield a string (patch keys, ports,
/// computed assignment keys).
pub fn eval_string(
    e: &ImutExpr,
    env: &Env,
    event: &Value,
    state: &Value,
    meta: &Value,
    local: &LocalStack,
) -> (r: Result<String, Halt>)
    requires
        ctx_wf(ctx_of(*env, *event, *state, *meta, *local)),
        expr_wf(*e),
    ensures
        ({
            let s = eval_key(*e, ctx_of(*env, *event, *state, *meta, *local));
            match r {
                Ok(k) => s is Ok && k@ == s->Ok_0,
                Err(h) => s is Err && h@ == s->Err_0,
            }
        }),
    decreases *e, 4int,
{
    match run_imut(e, env, event, state, meta, local) {
        Ok(v) => match v {
            Value::Str(s) => Ok(s),
            _ => Err(Halt::Fail(Error::NeedsString)),
        },
        Err(h) => Err(h),
    }
}

} // verus!
