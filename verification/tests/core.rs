use tremor_core::equal::{bytes_cmp, string_utf8, val_eq, Cmp};
use tremor_core::error::Error;
use tremor_core::interp::{resolve, run_imut, Env, ExecOpts, AggrType, ImutExpr, LocalStack, Path, PathRoot, Segment};
use tremor_core::pattern::{
    match_ap_expr, test_predicate_expr, ArrayPattern, ArrayPredicatePattern, Pattern,
};
use tremor_core::groupby::{generate_groups, GroupBy};
use tremor_core::stmt::{
    run_expr, Clause, Comprehension, ComprehensionCase, Cont, DefaultCase, Expr, IfElse, Match,
};
use tremor_core::mutation::{merge_values, patch_apply, value_default, PatchOp};
use tremor_core::node_id::NodeId;
use tremor_core::ops::{exec_binary, exec_binary_numeric, exec_unary, BinOpKind, BinOut, UnaryOpKind};
use tremor_core::source::{
    handle_control_plane_msg, handle_empty_reply, CbAction, Control, EventId, Port, SourceAction,
    SourceManager, SourceMsg, SourceState, TrackedId,
};
use tremor_core::stream::{build_events, route_events, DecodeOutcome, Streams, StreamState};
use tremor_core::testcfg::{TagFilter, TestConfig};
use tremor_core::value::{check_wf, duplicate, Value};

fn s(x: &str) -> String {
    x.to_string()
}

fn obj(entries: Vec<(&str, Value)>) -> Value {
    Value::Object(entries.into_iter().map(|(k, v)| (s(k), v)).collect())
}

#[test]
fn fqn() {
    let no_module = NodeId::new("foo".to_string(), vec![]);
    assert_eq!(no_module.fqn(), "foo");
    assert!(no_module.module().is_empty());

    let with_module = NodeId::new(
        "foo".to_string(),
        vec!["bar".to_string(), "baz".to_string()],
    );
    assert_eq!(with_module.fqn(), "bar::baz::foo");
    assert_eq!(with_module.module(), &["bar", "baz"]);

    let target = "quux";
    assert_eq!(no_module.target_fqn(target), target);
    assert_eq!(with_module.target_fqn(target), "bar::baz::quux");
}

#[test]
fn val_eq_reflexive_composite() {
    let v = obj(vec![
        ("a", Value::U64(1)),
        ("b", Value::Array(vec![Value::Null, Value::Bool(true), Value::Str(s("x"))])),
    ]);
    assert!(val_eq(&v, &v));
}

#[test]
fn val_eq_string_vs_bytes() {
    let a = Value::Str(s("x"));
    let b = Value::Bytes(vec![b'x']);
    assert!(val_eq(&a, &b));
    assert!(val_eq(&b, &a));
    let c = Value::Bytes(vec![b'y']);
    assert!(!val_eq(&a, &c));
}

#[test]
fn val_eq_numeric_cross() {
    assert!(val_eq(&Value::U64(5), &Value::I64(5)));
    assert!(!val_eq(&Value::U64(5), &Value::I64(-5)));
    assert!(!val_eq(&Value::U64(5), &Value::Bool(true)));
}

#[test]
fn sub_unsigned_goes_signed() {
    let r = exec_binary_numeric(BinOpKind::Sub, &Value::U64(3), &Value::U64(5)).unwrap();
    assert_eq!(r, BinOut::Value(Value::I64(-2)));
}

#[test]
fn sub_unsigned_negation_overflow() {
    let r = exec_binary_numeric(BinOpKind::Sub, &Value::U64(0), &Value::U64(u64::MAX));
    assert_eq!(r, Err(Error::InvalidBinary));
}

#[test]
fn division_is_left_for_floats() {
    let r = exec_binary_numeric(BinOpKind::Div, &Value::U64(3), &Value::U64(2)).unwrap();
    assert_eq!(
        r,
        BinOut::Floating { op: BinOpKind::Div, lhs: Value::U64(3), rhs: Value::U64(2) }
    );
}

#[test]
fn shift_out_of_range_errors() {
    // an amount at or above the width is a bitshift error, never a wrap:
    // 1 << 2^32 must not become a shift by zero
    let big = Value::U64(1u64 << 32);
    let r = exec_binary_numeric(BinOpKind::LBitShift, &Value::U64(1), &big);
    assert_eq!(r, Err(Error::InvalidBitshift));
    let r = exec_binary_numeric(BinOpKind::RBitShiftSigned, &Value::U64(1), &Value::U64(64));
    assert_eq!(r, Err(Error::InvalidBitshift));
    let r = exec_binary_numeric(BinOpKind::LBitShift, &Value::U64(1), &Value::U64(3)).unwrap();
    assert_eq!(r, BinOut::Value(Value::U64(8)));
    let r = exec_binary_numeric(BinOpKind::RBitShiftSigned, &Value::I64(-8), &Value::I64(-1));
    assert_eq!(r, Err(Error::InvalidBitshift));
}

#[test]
fn mixed_numeric_pair_compares_exactly() {
    // a negative signed value against an unsigned one above the signed
    // range fits neither integer path; orderings are still exact and the
    // arithmetic is left for the float domain
    let l = Value::I64(-1);
    let r = Value::U64(u64::MAX);
    assert_eq!(
        exec_binary_numeric(BinOpKind::Lt, &l, &r),
        Ok(BinOut::Value(Value::Bool(true)))
    );
    assert_eq!(
        exec_binary_numeric(BinOpKind::Gt, &l, &r),
        Ok(BinOut::Value(Value::Bool(false)))
    );
    assert_eq!(
        exec_binary_numeric(BinOpKind::Gte, &r, &l),
        Ok(BinOut::Value(Value::Bool(true)))
    );
    assert_eq!(
        exec_binary_numeric(BinOpKind::Add, &l, &r),
        Ok(BinOut::Floating { op: BinOpKind::Add, lhs: Value::I64(-1), rhs: Value::U64(u64::MAX) })
    );
    assert_eq!(exec_binary_numeric(BinOpKind::Mod, &l, &r), Err(Error::InvalidBinary));
}

#[test]
fn string_concat_and_order() {
    let a = Value::Str(s("ab"));
    let b = Value::Str(s("cd"));
    match exec_binary(BinOpKind::Add, &a, &b).unwrap() {
        BinOut::Value(Value::Str(x)) => assert_eq!(x, "abcd"),
        other => panic!("unexpected: {:?}", other),
    }
    match exec_binary(BinOpKind::Lt, &a, &b).unwrap() {
        BinOut::Value(Value::Bool(x)) => assert!(x),
        other => panic!("unexpected: {:?}", other),
    }
}

#[test]
fn bool_compare_is_invalid() {
    let r = exec_binary(BinOpKind::Lt, &Value::Bool(true), &Value::Bool(false));
    assert_eq!(r, Err(Error::InvalidBinary));
}

#[test]
fn unary_dispatch() {
    assert_eq!(exec_unary(UnaryOpKind::Minus, &Value::U64(5)), Some(Value::I64(-5)));
    assert_eq!(exec_unary(UnaryOpKind::Plus, &Value::I64(5)), Some(Value::U64(5)));
    assert_eq!(exec_unary(UnaryOpKind::Not, &Value::Bool(true)), Some(Value::Bool(false)));
    assert_eq!(exec_unary(UnaryOpKind::Not, &Value::U64(1)), None);
}

#[test]
fn bytes_lexicographic() {
    assert_eq!(bytes_cmp(&vec![1, 2], &vec![1, 2, 3]), Cmp::Lt);
    assert_eq!(bytes_cmp(&vec![2], &vec![1, 9]), Cmp::Gt);
    assert_eq!(bytes_cmp(&vec![], &vec![]), Cmp::Eq);
    assert_eq!(string_utf8(&s("ab")), vec![0x61, 0x62]);
}

#[test]
fn merge_null_is_tombstone() {
    let target = obj(vec![("keep", Value::U64(1)), ("drop_me", Value::U64(2))]);
    let rep = obj(vec![("drop_me", Value::Null), ("new", Value::U64(3))]);
    let merged = merge_values(&target, &rep);
    let expected = obj(vec![("keep", Value::U64(1)), ("new", Value::U64(3))]);
    assert!(val_eq(&merged, &expected));
}

#[test]
fn merge_non_object_replaces() {
    let target = Value::U64(1);
    let rep = obj(vec![("a", Value::U64(2))]);
    let merged = merge_values(&target, &rep);
    assert!(val_eq(&merged, &rep));
}

#[test]
fn patch_merge_absent_key_creates_object() {
    let mut target = obj(vec![]);
    let ops = vec![PatchOp::Merge {
        key: s("a"),
        value: obj(vec![("x", Value::U64(1))]),
    }];
    patch_apply(&mut target, &ops).unwrap();
    let expected = obj(vec![("a", obj(vec![("x", Value::U64(1))]))]);
    assert!(val_eq(&target, &expected));
}

#[test]
fn patch_merge_non_object_conflicts() {
    let mut target = obj(vec![("a", Value::U64(1))]);
    let ops = vec![PatchOp::Merge { key: s("a"), value: obj(vec![]) }];
    let r = patch_apply(&mut target, &ops);
    assert_eq!(r, Err(Error::MergeTypeConflict { key: s("a") }));
}

#[test]
fn patch_insert_existing_fails() {
    let mut target = obj(vec![("a", Value::U64(1))]);
    let ops = vec![PatchOp::Insert { key: s("a"), value: Value::U64(2) }];
    assert_eq!(
        patch_apply(&mut target, &ops),
        Err(Error::PatchKeyExists { key: s("a") })
    );
    // the target is untouched by the failing operation
    assert!(val_eq(&target, &obj(vec![("a", Value::U64(1))])));
}

#[test]
fn patch_update_missing_fails() {
    let mut target = obj(vec![]);
    let ops = vec![PatchOp::Update { key: s("a"), value: Value::U64(2) }];
    assert_eq!(
        patch_apply(&mut target, &ops),
        Err(Error::PatchKeyMissing { key: s("a") })
    );
}

#[test]
fn default_record_preserves_nested() {
    // a deeply pre-existing key survives even under an all-new default tree
    let target = obj(vec![("outer", obj(vec![("inner", Value::U64(1))]))]);
    let dflt = obj(vec![
        ("outer", obj(vec![("inner", Value::U64(9)), ("fresh", Value::U64(2))])),
        ("brand_new", Value::U64(3)),
    ]);
    let out = value_default(&target, &dflt);
    let expected = obj(vec![
        ("outer", obj(vec![("inner", Value::U64(1)), ("fresh", Value::U64(2))])),
        ("brand_new", Value::U64(3)),
    ]);
    assert!(val_eq(&out, &expected));
}

fn empty_env() -> Env {
    Env {
        consts: vec![],
        args: Value::Null,
        group: Value::Null,
        window: Value::Null,
        recursion_limit: 1024,
    }
}

#[test]
fn resolve_event_field() {
    let env = empty_env();
    let event = obj(vec![("a", obj(vec![("b", Value::U64(7))]))]);
    let state = Value::Null;
    let meta = Value::Null;
    let local = LocalStack::with_size(0);
    let p = Path {
        root: PathRoot::Event,
        segments: vec![Segment::Id(s("a")), Segment::Id(s("b"))],
    };
    let r = resolve(&p, &env, &event, &state, &meta, &local).unwrap();
    assert_eq!(r, Value::U64(7));
}

#[test]
fn resolve_range_is_fresh_array() {
    let env = empty_env();
    let event = obj(vec![(
        "a",
        Value::Array(vec![Value::U64(0), Value::U64(1), Value::U64(2), Value::U64(3)]),
    )]);
    let state = Value::Null;
    let meta = Value::Null;
    let local = LocalStack::with_size(0);
    let p = Path {
        root: PathRoot::Event,
        segments: vec![
            Segment::Id(s("a")),
            Segment::Range(
                Box::new(ImutExpr::Literal(Value::U64(1))),
                Box::new(ImutExpr::Literal(Value::U64(3))),
            ),
        ],
    };
    let r = resolve(&p, &env, &event, &state, &meta, &local).unwrap();
    assert_eq!(r, Value::Array(vec![Value::U64(1), Value::U64(2)]));
}

#[test]
fn resolve_bad_key_lists_options() {
    let env = empty_env();
    let event = obj(vec![("a", Value::U64(1))]);
    let state = Value::Null;
    let meta = Value::Null;
    let local = LocalStack::with_size(0);
    let p = Path { root: PathRoot::Event, segments: vec![Segment::Id(s("zzz"))] };
    match resolve(&p, &env, &event, &state, &meta, &local) {
        Err(tremor_core::interp::Halt::Fail(Error::BadKey { key, options })) => {
            assert_eq!(key, "zzz");
            assert_eq!(options, vec![s("a")]);
        }
        other => panic!("unexpected: {:?}", other),
    }
}

#[test]
fn patch_expression_two_phase() {
    // both inserts see the pre-patch event, so the second one copies the
    // original value, not the first insert's result
    let env = empty_env();
    let event = obj(vec![("seed", Value::U64(1))]);
    let state = Value::Null;
    let meta = Value::Null;
    let local = LocalStack::with_size(0);
    let patch = ImutExpr::Patch(Box::new(tremor_core::interp::PatchDef {
        target: ImutExpr::Path(Path { root: PathRoot::Event, segments: vec![] }),
        ops: vec![
            tremor_core::interp::PatchOpDef::Insert {
                key: ImutExpr::Literal(Value::Str(s("a"))),
                value: ImutExpr::Path(Path {
                    root: PathRoot::Event,
                    segments: vec![Segment::Id(s("seed"))],
                }),
            },
            tremor_core::interp::PatchOpDef::Upsert {
                key: ImutExpr::Literal(Value::Str(s("seed"))),
                value: ImutExpr::Literal(Value::U64(9)),
            },
        ],
    }));
    let r = run_imut(&patch, &env, &event, &state, &meta, &local).unwrap();
    let expected = obj(vec![("seed", Value::U64(9)), ("a", Value::U64(1))]);
    assert!(val_eq(&r, &expected));
}

fn mgr(state: SourceState) -> SourceManager {
    SourceManager {
        state,
        pipelines_out: vec![],
        pipelines_err: vec![],
        is_transactional: false,
        has_connector_channel: false,
        drain_signal_sent: false,
        expected_drained: 0,
        pull_counter: 0,
        uid: 42,
    }
}

#[test]
fn pause_while_paused_is_noop() {
    let mut m = mgr(SourceState::Paused);
    let (ctl, acts) = handle_control_plane_msg(&mut m, SourceMsg::Pause);
    assert_eq!(ctl, Control::Continue);
    assert!(acts.is_empty());
    assert_eq!(m.state, SourceState::Paused);
}

#[test]
fn pause_while_running_calls_on_pause_once() {
    let mut m = mgr(SourceState::Running);
    let (_, acts) = handle_control_plane_msg(&mut m, SourceMsg::Pause);
    assert_eq!(acts, vec![SourceAction::CallOnPause]);
    assert_eq!(m.state, SourceState::Paused);
}

fn plain_id(uid: u64) -> EventId {
    EventId { source_id: uid, stream_id: 0, event_id: 0, pull_id: 0, carried: vec![] }
}

#[test]
fn drain_handshake_counts_acknowledgments() {
    let mut m = mgr(SourceState::Running);
    m.pipelines_out = vec![1, 2];
    let (_, _) = handle_control_plane_msg(&mut m, SourceMsg::Drain);
    assert_eq!(m.state, SourceState::Draining);
    // the source runs dry: the drain signal goes downstream, two
    // acknowledgments are expected
    let (acts, wait) = handle_empty_reply(&mut m, 10);
    assert_eq!(acts, vec![SourceAction::SendSignalDrain]);
    assert_eq!(wait, None);
    assert_eq!(m.expected_drained, 2);
    // a second empty reply while parked re-runs nothing: no new signal, the
    // expected count stays
    let (acts, wait) = handle_empty_reply(&mut m, 10);
    assert!(acts.is_empty());
    assert_eq!(wait, Some(10));
    assert_eq!(m.expected_drained, 2);
    // one acknowledgment is not enough
    let (_, acts) =
        handle_control_plane_msg(&mut m, SourceMsg::Cb(CbAction::Drained(42), plain_id(42)));
    assert_eq!(m.state, SourceState::Draining);
    assert!(acts.is_empty());
    // a foreign acknowledgment is ignored
    let (_, acts) =
        handle_control_plane_msg(&mut m, SourceMsg::Cb(CbAction::Drained(7), plain_id(7)));
    assert_eq!(m.state, SourceState::Draining);
    assert!(acts.is_empty());
    // the second own acknowledgment completes the handshake
    let (_, acts) =
        handle_control_plane_msg(&mut m, SourceMsg::Cb(CbAction::Drained(42), plain_id(42)));
    assert_eq!(m.state, SourceState::Drained);
    assert_eq!(acts, vec![SourceAction::NotifyDrained]);
}

#[test]
fn ack_resolves_to_max_fail_to_min() {
    let id = EventId {
        source_id: 42,
        stream_id: 1,
        event_id: 0,
        pull_id: 5,
        carried: vec![
            TrackedId { source_id: 42, stream_id: 2, pull_id: 9 },
            TrackedId { source_id: 7, stream_id: 3, pull_id: 100 },
            TrackedId { source_id: 42, stream_id: 4, pull_id: 3 },
        ],
    };
    assert_eq!(id.get_max_by_source(42), Some((2, 9)));
    assert_eq!(id.get_min_by_source(42), Some((4, 3)));
    assert_eq!(id.get_max_by_source(1), None);
}

#[test]
fn batch_decode_error_isolated() {
    // one failing chunk in a batch produces one error-port event; the
    // siblings still produce their normal out-port events
    let mut st = StreamState { stream_id: 0, next_event_id: 0 };
    let outcomes = vec![
        DecodeOutcome::Decoded(Value::U64(1)),
        DecodeOutcome::Failed(s("bad chunk")),
        DecodeOutcome::Decoded(Value::U64(2)),
        DecodeOutcome::NoData,
    ];
    let events = build_events(
        42,
        &mut st,
        7,
        1000,
        &s("origin"),
        &s("connector"),
        false,
        &Value::Null,
        &None,
        &outcomes,
    );
    assert_eq!(events.len(), 3);
    assert_eq!(events[0].0, Port::Out);
    assert_eq!(events[1].0, Port::Error);
    assert_eq!(events[2].0, Port::Out);
    // ids count up per produced event
    assert_eq!(events[0].1.id.event_id, 0);
    assert_eq!(events[1].1.id.event_id, 1);
    assert_eq!(events[2].1.id.event_id, 2);
    // the error payload names the failure
    match &events[1].1.payload {
        Value::Object(entries) => {
            assert_eq!(entries[0], (s("error"), Value::Str(s("bad chunk"))));
            assert_eq!(entries[2], (s("stream_id"), Value::U64(0)));
            assert_eq!(entries[3], (s("pull_id"), Value::U64(7)));
        }
        other => panic!("unexpected payload: {:?}", other),
    }
}

#[test]
fn route_plan_fans_out_by_port() {
    let mut st = StreamState { stream_id: 0, next_event_id: 0 };
    let outcomes = vec![
        DecodeOutcome::Decoded(Value::U64(1)),
        DecodeOutcome::Failed(s("oops")),
    ];
    let events = build_events(
        42,
        &mut st,
        0,
        0,
        &s("origin"),
        &s("connector"),
        false,
        &Value::Null,
        &None,
        &outcomes,
    );
    let plan = route_events(&vec![10, 11], &vec![20], &events);
    assert_eq!(plan, vec![(10, 0), (11, 0), (20, 1)]);
}

#[test]
fn stream_registry_lifecycle() {
    let mut streams = Streams::new(42);
    assert!(streams.find(0).is_some());
    streams.start_stream(5);
    streams.start_stream(5);
    assert_eq!(streams.states.len(), 2);
    let i = streams.get_or_create_stream(5);
    assert_eq!(streams.states[i].stream_id, 5);
    let ended = streams.end_stream(5);
    assert_eq!(ended, Some(StreamState { stream_id: 5, next_event_id: 0 }));
    assert!(streams.find(5).is_none());
}

#[test]
fn tag_filter_matches() {
    let cfg = TestConfig {
        quiet: false,
        verbose: false,
        sys_filter: vec![s("all")],
        includes: vec![s("bench")],
        excludes: vec![s("broken")],
    };
    let tags = TagFilter { tags: vec![s("bench"), s("all"), s("slow")] };
    let (matched, ok) = cfg.matches(&tags);
    assert_eq!(matched, vec![s("bench"), s("all")]);
    assert!(ok);

    let excluded = TagFilter { tags: vec![s("bench"), s("broken")] };
    let (_, ok) = cfg.matches(&excluded);
    assert!(!ok);

    let unincluded = TagFilter { tags: vec![s("slow")] };
    let (matched, ok) = cfg.matches(&unincluded);
    assert!(matched.is_empty());
    assert!(!ok);
}

#[test]
fn duplicate_is_deep() {
    let v = obj(vec![("a", Value::Array(vec![Value::Str(s("x"))]))]);
    let d = duplicate(&v);
    assert_eq!(v, d);
}

fn opts() -> ExecOpts {
    ExecOpts { result_needed: true, aggr: AggrType::Tick }
}

#[test]
fn array_pattern_underscore() {
    // %[ _ ] matches [1] and [1,2,3] but not []; %[] matches []
    let env = empty_env();
    let (event, state, meta) = (Value::Null, Value::Null, Value::Null);
    let local = LocalStack::with_size(0);
    let underscore = ArrayPattern { exprs: vec![ArrayPredicatePattern::Ignore] };
    let one = Value::Array(vec![Value::U64(1)]);
    let three = Value::Array(vec![Value::U64(1), Value::U64(2), Value::U64(3)]);
    let none_at_all = Value::Array(vec![]);
    let r = match_ap_expr(&underscore, &env, &event, &state, &meta, &local, &one, true).unwrap();
    assert!(r.is_some());
    let r = match_ap_expr(&underscore, &env, &event, &state, &meta, &local, &three, true).unwrap();
    assert!(r.is_some());
    let r =
        match_ap_expr(&underscore, &env, &event, &state, &meta, &local, &none_at_all, true)
            .unwrap();
    assert!(r.is_none());
    let empty_pat = ArrayPattern { exprs: vec![] };
    let r =
        match_ap_expr(&empty_pat, &env, &event, &state, &meta, &local, &none_at_all, true)
            .unwrap();
    assert_eq!(r, Some(Value::Array(vec![])));
}

#[test]
fn array_pattern_collects_hits() {
    let env = empty_env();
    let (event, state, meta) = (Value::Null, Value::Null, Value::Null);
    let local = LocalStack::with_size(0);
    let pat = ArrayPattern {
        exprs: vec![ArrayPredicatePattern::Expr(ImutExpr::Literal(Value::U64(2)))],
    };
    let target = Value::Array(vec![Value::U64(2), Value::U64(9), Value::U64(2)]);
    let r = match_ap_expr(&pat, &env, &event, &state, &meta, &local, &target, true).unwrap();
    let expected = Value::Array(vec![
        Value::Array(vec![Value::U64(0), Value::U64(2)]),
        Value::Array(vec![Value::U64(2), Value::U64(2)]),
    ]);
    assert!(val_eq(&r.unwrap(), &expected));
}

#[test]
fn capture_binds_before_guard() {
    // the capture is visible to the guard, and stays bound after it
    let env = empty_env();
    let (event, state, meta) = (Value::Null, Value::Null, Value::Null);
    let mut local = LocalStack::with_size(1);
    let pattern = Pattern::Assign { idx: 0, pattern: Box::new(Pattern::DoNotCare) };
    let guard = Some(ImutExpr::Binary(
        BinOpKind::Eq,
        Box::new(ImutExpr::Path(Path { root: PathRoot::Local(0), segments: vec![] })),
        Box::new(ImutExpr::Literal(Value::U64(7))),
    ));
    let target = Value::U64(7);
    let r = test_predicate_expr(&pattern, &guard, &env, &event, &state, &meta, &mut local, &target);
    assert_eq!(r, Ok(true));
    assert_eq!(local.values[0], Some(Value::U64(7)));
}

#[test]
fn match_selects_first_clause_or_errors() {
    let env = empty_env();
    let (mut event, mut state, mut meta) = (obj(vec![("kind", Value::U64(1))]), Value::Null, Value::Null);
    let mut local = LocalStack::with_size(0);
    let m = Expr::Match(Box::new(Match {
        target: ImutExpr::Path(Path {
            root: PathRoot::Event,
            segments: vec![Segment::Id(s("kind"))],
        }),
        clauses: vec![
            Clause {
                pattern: Pattern::Expr(ImutExpr::Literal(Value::U64(2))),
                guard: None,
                exprs: vec![],
                last_expr: Box::new(Expr::Imut(ImutExpr::Literal(Value::Str(s("two"))))),
            },
            Clause {
                pattern: Pattern::Expr(ImutExpr::Literal(Value::U64(1))),
                guard: None,
                exprs: vec![],
                last_expr: Box::new(Expr::Imut(ImutExpr::Literal(Value::Str(s("one"))))),
            },
        ],
        default: DefaultCase::Absent,
    }));
    let r = run_expr(&m, opts(), &env, &mut event, &mut state, &mut meta, &mut local);
    assert_eq!(r, Ok(Cont::Cont(Value::Str(s("one")))));

    // no clause and no default is fatal
    let miss = Expr::Match(Box::new(Match {
        target: ImutExpr::Literal(Value::U64(9)),
        clauses: vec![Clause {
            pattern: Pattern::Expr(ImutExpr::Literal(Value::U64(2))),
            guard: None,
            exprs: vec![],
            last_expr: Box::new(Expr::Drop),
        }],
        default: DefaultCase::Absent,
    }));
    let r = run_expr(&miss, opts(), &env, &mut event, &mut state, &mut meta, &mut local);
    assert_eq!(
        r,
        Err(tremor_core::interp::Halt::Fail(Error::NoClauseHit))
    );
}

#[test]
fn assign_auto_vivifies_objects_only() {
    let env = empty_env();
    let (mut event, mut state, mut meta) = (obj(vec![]), Value::Null, Value::Null);
    let mut local = LocalStack::with_size(0);
    // event.a.b = 7 creates the intermediate object
    let a = Expr::Assign {
        path: Path {
            root: PathRoot::Event,
            segments: vec![Segment::Id(s("a")), Segment::Id(s("b"))],
        },
        expr: Box::new(Expr::Imut(ImutExpr::Literal(Value::U64(7)))),
    };
    let r = run_expr(&a, opts(), &env, &mut event, &mut state, &mut meta, &mut local);
    assert_eq!(r, Ok(Cont::Cont(Value::U64(7))));
    assert!(val_eq(&event, &obj(vec![("a", obj(vec![("b", Value::U64(7))]))])));

    // assigning through an index is fatal: arrays are never auto-extended
    let bad = Expr::Assign {
        path: Path { root: PathRoot::Event, segments: vec![Segment::Idx(0)] },
        expr: Box::new(Expr::Imut(ImutExpr::Literal(Value::U64(7)))),
    };
    let r = run_expr(&bad, opts(), &env, &mut event, &mut state, &mut meta, &mut local);
    assert_eq!(
        r,
        Err(tremor_core::interp::Halt::Fail(Error::CannotAssignArray))
    );

    // direct metadata assignment is always invalid; constants likewise
    let to_meta = Expr::Assign {
        path: Path { root: PathRoot::Meta, segments: vec![] },
        expr: Box::new(Expr::Imut(ImutExpr::Literal(Value::U64(7)))),
    };
    let r = run_expr(&to_meta, opts(), &env, &mut event, &mut state, &mut meta, &mut local);
    assert_eq!(
        r,
        Err(tremor_core::interp::Halt::Fail(Error::InvalidAssignTarget))
    );
    let to_const = Expr::Assign {
        path: Path { root: PathRoot::Const(0), segments: vec![] },
        expr: Box::new(Expr::Imut(ImutExpr::Literal(Value::U64(7)))),
    };
    let r = run_expr(&to_const, opts(), &env, &mut event, &mut state, &mut meta, &mut local);
    assert_eq!(
        r,
        Err(tremor_core::interp::Halt::Fail(Error::AssignToConst))
    );
}

#[test]
fn emit_event_vs_emit_value() {
    let env = empty_env();
    let (mut event, mut state, mut meta) = (obj(vec![("x", Value::U64(1))]), Value::Null, Value::Null);
    let mut local = LocalStack::with_size(0);
    // emitting the literal unsegmented event path re-emits the event itself
    let emit_event = Expr::Emit {
        expr: ImutExpr::Path(Path { root: PathRoot::Event, segments: vec![] }),
        port: None,
    };
    let r = run_expr(&emit_event, opts(), &env, &mut event, &mut state, &mut meta, &mut local);
    assert_eq!(r, Ok(Cont::EmitEvent(None)));
    // emitting a field is an ordinary emit
    let emit_field = Expr::Emit {
        expr: ImutExpr::Path(Path {
            root: PathRoot::Event,
            segments: vec![Segment::Id(s("x"))],
        }),
        port: Some(ImutExpr::Literal(Value::Str(s("custom")))),
    };
    let r = run_expr(&emit_field, opts(), &env, &mut event, &mut state, &mut meta, &mut local);
    assert_eq!(r, Ok(Cont::Emit(Value::U64(1), Some(s("custom")))));
}

#[test]
fn comprehension_collects_fresh_array() {
    let env = empty_env();
    let (mut event, mut state, mut meta) =
        (obj(vec![("a", Value::U64(1)), ("b", Value::U64(2))]), Value::Null, Value::Null);
    let mut local = LocalStack::with_size(2);
    // for each (key, value) of the event, collect the value
    let comp = Expr::Comprehension(Box::new(Comprehension {
        target: ImutExpr::Path(Path { root: PathRoot::Event, segments: vec![] }),
        key_id: 0,
        val_id: 1,
        cases: vec![ComprehensionCase {
            guard: None,
            exprs: vec![],
            last_expr: Box::new(Expr::Imut(ImutExpr::Path(Path {
                root: PathRoot::Local(1),
                segments: vec![],
            }))),
        }],
    }));
    let r = run_expr(&comp, opts(), &env, &mut event, &mut state, &mut meta, &mut local);
    assert_eq!(
        r,
        Ok(Cont::Cont(Value::Array(vec![Value::U64(1), Value::U64(2)])))
    );
    // a guard can skip items
    let comp = Expr::Comprehension(Box::new(Comprehension {
        target: ImutExpr::Path(Path { root: PathRoot::Event, segments: vec![] }),
        key_id: 0,
        val_id: 1,
        cases: vec![ComprehensionCase {
            guard: Some(ImutExpr::Binary(
                BinOpKind::Gt,
                Box::new(ImutExpr::Path(Path { root: PathRoot::Local(1), segments: vec![] })),
                Box::new(ImutExpr::Literal(Value::U64(1))),
            )),
            exprs: vec![],
            last_expr: Box::new(Expr::Imut(ImutExpr::Path(Path {
                root: PathRoot::Local(0),
                segments: vec![],
            }))),
        }],
    }));
    let r = run_expr(&comp, opts(), &env, &mut event, &mut state, &mut meta, &mut local);
    assert_eq!(r, Ok(Cont::Cont(Value::Array(vec![Value::Str(s("b"))]))));
}

#[test]
fn if_else_runs_default() {
    let env = empty_env();
    let (mut event, mut state, mut meta) = (Value::Null, Value::Null, Value::Null);
    let mut local = LocalStack::with_size(0);
    let f = Expr::IfElse(Box::new(IfElse {
        target: ImutExpr::Literal(Value::U64(3)),
        if_clause: Clause {
            pattern: Pattern::Expr(ImutExpr::Literal(Value::U64(4))),
            guard: None,
            exprs: vec![],
            last_expr: Box::new(Expr::Imut(ImutExpr::Literal(Value::Bool(true)))),
        },
        else_clause: DefaultCase::Null,
    }));
    let r = run_expr(&f, opts(), &env, &mut event, &mut state, &mut meta, &mut local);
    assert_eq!(r, Ok(Cont::Cont(Value::Null)));
}

#[test]
fn wf_check_finds_duplicate_keys() {
    let good = obj(vec![("a", Value::U64(1)), ("b", obj(vec![("c", Value::Null)]))]);
    assert!(check_wf(&good));
    let dup = Value::Object(vec![
        (s("a"), Value::U64(1)),
        (s("a"), Value::U64(2)),
    ]);
    assert!(!check_wf(&dup));
    let nested_dup = obj(vec![("outer", dup)]);
    assert!(!check_wf(&nested_dup));
}

#[test]
fn group_by_set_and_each_fan_out() {
    // set(event.measurement, each(event.fields)) expands cartesian-style
    let event = obj(vec![
        ("measurement", Value::U64(7)),
        ("fields", Value::Array(vec![Value::Str(s("a")), Value::Str(s("b"))])),
    ]);
    let gb = GroupBy::SetOf(vec![
        GroupBy::Expr(ImutExpr::Path(Path {
            root: PathRoot::Event,
            segments: vec![Segment::Id(s("measurement"))],
        })),
        GroupBy::Each(ImutExpr::Path(Path {
            root: PathRoot::Event,
            segments: vec![Segment::Id(s("fields"))],
        })),
    ]);
    let groups = generate_groups(&gb, &event, &Value::Null).unwrap();
    assert_eq!(
        groups,
        vec![
            vec![Value::U64(7), Value::Str(s("a"))],
            vec![Value::U64(7), Value::Str(s("b"))],
        ]
    );
    // a non-array under each is fatal
    let bad = GroupBy::Each(ImutExpr::Literal(Value::U64(1)));
    assert_eq!(
        generate_groups(&bad, &event, &Value::Null),
        Err(tremor_core::interp::Halt::Fail(Error::NeedsArray))
    );
}
