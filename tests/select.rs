use std::sync::Arc;
use trickle_select::event::Event;
use trickle_select::script::{AggrCall, AggrFn, Expr, QueryError};
use trickle_select::select::{SelectStmt, TrickleSelect};
use trickle_select::value::{LineValue, Value, ValueAndMeta};
use trickle_select::window::{NoWindow, WindowImpl};

fn test_event(s: u64) -> Event {
    Event {
        is_batch: false,
        id: s,
        ingest_ns: s * 1_000_000_000,
        meta: Value::Object(vec![]),
        value: LineValue::new(
            vec![],
            ValueAndMeta::from_value(Value::Object(vec![("h2g2".to_string(), Value::I64(42))])),
        ),
        kind: None,
    }
}

fn test_target() -> Expr {
    Expr::Literal(Value::I64(42))
}

fn test_stmt(target: Expr) -> SelectStmt {
    SelectStmt {
        target,
        maybe_where: Some(Expr::Literal(Value::Bool(true))),
        maybe_having: None,
        maybe_group_by: None,
        aggregates: vec![],
    }
}

fn test_select(stmt: SelectStmt) -> TrickleSelect {
    TrickleSelect::new("select".to_string(), Arc::new(stmt), Some(WindowImpl::default()))
}

fn try_enqueue(op: &mut TrickleSelect, event: Event) -> Result<Option<(String, Event)>, QueryError> {
    let mut action = op.on_event("in", event)?;
    Ok(action.pop())
}

fn payload(event: &Event) -> Value {
    event.value.value().clone()
}

#[test]
fn test_sum() -> Result<(), QueryError> {
    let mut stmt = test_stmt(Expr::Aggregate(0));
    stmt.maybe_where = None;
    stmt.aggregates = vec![AggrCall { func: AggrFn::Sum, args: vec![Expr::Event(vec!["h2g2".to_string()])] }];
    let mut op = test_select(stmt);
    assert!(try_enqueue(&mut op, test_event(0))?.is_none());
    assert!(try_enqueue(&mut op, test_event(1))?.is_none());
    let (out, event) = try_enqueue(&mut op, test_event(15))?.expect("no event");
    assert_eq!("out", out);
    assert_eq!(payload(&event), Value::I64(84));
    Ok(())
}

#[test]
fn test_count() -> Result<(), QueryError> {
    let mut stmt = test_stmt(Expr::Aggregate(0));
    stmt.maybe_where = None;
    stmt.aggregates = vec![AggrCall { func: AggrFn::Count, args: vec![] }];
    let mut op = test_select(stmt);
    assert!(try_enqueue(&mut op, test_event(0))?.is_none());
    assert!(try_enqueue(&mut op, test_event(1))?.is_none());
    let (out, event) = try_enqueue(&mut op, test_event(15))?.expect("no event");
    assert_eq!("out", out);
    assert_eq!(payload(&event), Value::I64(2));
    Ok(())
}

#[test]
fn select_nowin_nogrp_nowhr_nohav() -> Result<(), QueryError> {
    let mut op = test_select(test_stmt(test_target()));
    assert!(try_enqueue(&mut op, test_event(0))?.is_none());
    assert!(try_enqueue(&mut op, test_event(1))?.is_none());
    let (out, event) = try_enqueue(&mut op, test_event(15))?.expect("no event");
    assert_eq!("out", out);
    assert_eq!(Value::I64(42), payload(&event));
    Ok(())
}

#[test]
fn select_nowin_nogrp_whrt_nohav() -> Result<(), QueryError> {
    let mut stmt = test_stmt(test_target());
    stmt.maybe_where = Some(Expr::Literal(Value::Bool(true)));
    let mut op = test_select(stmt);
    assert!(try_enqueue(&mut op, test_event(0))?.is_none());
    let (out, event) = try_enqueue(&mut op, test_event(15))?.expect("no event");
    assert_eq!("out", out);
    assert_eq!(Value::I64(42), payload(&event));
    Ok(())
}

#[test]
fn select_nowin_nogrp_whrf_nohav() -> Result<(), QueryError> {
    let mut stmt = test_stmt(test_target());
    stmt.maybe_where = Some(Expr::Literal(Value::Bool(false)));
    let mut op = test_select(stmt);
    let next = try_enqueue(&mut op, test_event(0))?;
    assert_eq!(None, next);
    Ok(())
}

#[test]
fn select_nowin_nogrp_whrbad_nohav() -> Result<(), QueryError> {
    let mut stmt = test_stmt(test_target());
    stmt.maybe_where = Some(Expr::Literal(Value::String("snot".to_string())));
    let mut op = test_select(stmt);
    assert!(try_enqueue(&mut op, test_event(0)).is_err());
    Ok(())
}

#[test]
fn select_nowin_nogrp_whrt_havt() -> Result<(), QueryError> {
    let mut stmt = test_stmt(test_target());
    stmt.maybe_where = Some(Expr::Literal(Value::Bool(true)));
    stmt.maybe_having = Some(Expr::Literal(Value::Bool(true)));
    let mut op = test_select(stmt);
    assert!(try_enqueue(&mut op, test_event(0))?.is_none());
    let (out, event) = try_enqueue(&mut op, test_event(15))?.expect("no event");
    assert_eq!("out", out);
    assert_eq!(Value::I64(42), payload(&event));
    Ok(())
}

#[test]
fn select_nowin_nogrp_whrt_havf() -> Result<(), QueryError> {
    let mut stmt = test_stmt(test_target());
    stmt.maybe_where = Some(Expr::Literal(Value::Bool(true)));
    stmt.maybe_having = Some(Expr::Literal(Value::Bool(false)));
    let mut op = test_select(stmt);
    let next = try_enqueue(&mut op, test_event(0))?;
    assert_eq!(None, next);
    Ok(())
}

#[test]
fn select_nowin_nogrp_whrt_havbad() -> Result<(), QueryError> {
    let mut stmt = test_stmt(test_target());
    stmt.maybe_where = Some(Expr::Literal(Value::Bool(true)));
    stmt.maybe_having = Some(Expr::Literal(Value::Object(vec![(
        "snot".to_string(),
        Value::String("badger".to_string()),
    )])));
    let mut op = test_select(stmt);
    let next = try_enqueue(&mut op, test_event(0))?;
    assert_eq!(None, next);
    Ok(())
}

fn unwindowed(stmt: SelectStmt) -> TrickleSelect {
    TrickleSelect::new("select".to_string(), Arc::new(stmt), None)
}

#[test]
fn no_window_literal_projection_emits_every_event() {
    let mut op = unwindowed(test_stmt(test_target()));
    for s in 0..3 {
        let (out, event) = try_enqueue(&mut op, test_event(s)).unwrap().expect("no event");
        assert_eq!("out", out);
        assert_eq!(Value::I64(42), payload(&event));
        assert_eq!(event.id, s);
    }
}

#[test]
fn no_window_where_not_bool_is_guard_error() {
    let mut stmt = test_stmt(test_target());
    stmt.maybe_where = Some(Expr::Literal(Value::String("snot".to_string())));
    let mut op = unwindowed(stmt);
    assert_eq!(try_enqueue(&mut op, test_event(0)), Err(QueryError::GuardTypeError));
}

#[test]
fn no_window_having_false_emits_nothing() {
    let mut stmt = test_stmt(test_target());
    stmt.maybe_having = Some(Expr::Literal(Value::Bool(false)));
    let mut op = unwindowed(stmt);
    assert_eq!(try_enqueue(&mut op, test_event(0)), Ok(None));
}

#[test]
fn no_window_having_not_bool_is_guard_error() {
    let mut stmt = test_stmt(test_target());
    stmt.maybe_having = Some(Expr::Literal(Value::I64(1)));
    let mut op = unwindowed(stmt);
    assert_eq!(try_enqueue(&mut op, test_event(0)), Err(QueryError::GuardTypeError));
}

#[test]
fn no_window_projects_event_field() {
    let mut stmt = test_stmt(Expr::Event(vec!["h2g2".to_string()]));
    stmt.maybe_where = None;
    let mut op = unwindowed(stmt);
    let (_, event) = try_enqueue(&mut op, test_event(3)).unwrap().expect("no event");
    assert_eq!(Value::I64(42), payload(&event));
}

#[test]
fn missing_field_is_evaluation_error() {
    let mut stmt = test_stmt(Expr::Event(vec!["nope".to_string()]));
    stmt.maybe_where = None;
    let mut op = unwindowed(stmt);
    assert_eq!(try_enqueue(&mut op, test_event(3)), Err(QueryError::EvaluationError));
}

fn event_with(s: u64, payload: Value) -> Event {
    Event {
        is_batch: false,
        id: s,
        ingest_ns: s * 1_000_000_000,
        meta: Value::Object(vec![]),
        value: LineValue::new(vec![], ValueAndMeta::from_value(payload)),
        kind: None,
    }
}

fn keyed(s: u64, key: &str, n: i64) -> Event {
    event_with(
        s,
        Value::Object(vec![
            ("k".to_string(), Value::String(key.to_string())),
            ("n".to_string(), Value::I64(n)),
        ]),
    )
}

fn grouped_sum() -> TrickleSelect {
    let stmt = SelectStmt {
        target: Expr::Aggregate(0),
        maybe_where: None,
        maybe_having: None,
        maybe_group_by: Some(Expr::Event(vec!["k".to_string()])),
        aggregates: vec![AggrCall { func: AggrFn::Sum, args: vec![Expr::Event(vec!["n".to_string()])] }],
    };
    test_select(stmt)
}

#[test]
fn groups_keep_separate_windows() {
    let mut op = grouped_sum();
    assert_eq!(try_enqueue(&mut op, keyed(0, "a", 1)), Ok(None));
    assert_eq!(try_enqueue(&mut op, keyed(1, "b", 100)), Ok(None));
    assert_eq!(try_enqueue(&mut op, keyed(2, "a", 2)), Ok(None));
    let (_, ea) = try_enqueue(&mut op, keyed(15, "a", 5)).unwrap().expect("no event");
    assert_eq!(payload(&ea), Value::I64(3));
    // "b" opened at 1 s, so its boundary is 16 s.
    assert_eq!(try_enqueue(&mut op, keyed(15, "b", 7)), Ok(None));
    let (_, eb) = try_enqueue(&mut op, keyed(16, "b", 1)).unwrap().expect("no event");
    assert_eq!(payload(&eb), Value::I64(107));
}

#[test]
fn where_false_leaves_later_output_unchanged() {
    let stmt = SelectStmt {
        target: Expr::Aggregate(0),
        maybe_where: Some(Expr::Event(vec!["keep".to_string()])),
        maybe_having: None,
        maybe_group_by: None,
        aggregates: vec![AggrCall { func: AggrFn::Count, args: vec![] }],
    };
    let mut op = test_select(stmt);
    let keep = |s: u64, k: bool| event_with(s, Value::Object(vec![("keep".to_string(), Value::Bool(k))]));
    assert_eq!(try_enqueue(&mut op, keep(0, true)), Ok(None));
    // dropped: it neither opens nor closes a window, nor counts
    assert_eq!(try_enqueue(&mut op, keep(20, false)), Ok(None));
    assert_eq!(try_enqueue(&mut op, keep(1, true)), Ok(None));
    let (_, e) = try_enqueue(&mut op, keep(15, true)).unwrap().expect("no event");
    assert_eq!(payload(&e), Value::I64(2));
}

#[test]
fn failed_fold_leaves_group_state() {
    let mut op = grouped_sum();
    assert_eq!(try_enqueue(&mut op, keyed(0, "a", i64::MAX)), Ok(None));
    assert_eq!(try_enqueue(&mut op, keyed(1, "a", 1)), Err(QueryError::AggregateInvocationError));
    assert_eq!(try_enqueue(&mut op, keyed(2, "a", -5)), Ok(None));
    let (_, e) = try_enqueue(&mut op, keyed(15, "a", 0)).unwrap().expect("no event");
    assert_eq!(payload(&e), Value::I64(i64::MAX - 5));
}

#[test]
fn sum_of_non_integer_fails() {
    let mut op = grouped_sum();
    let bad = event_with(0, Value::Object(vec![
        ("k".to_string(), Value::Null),
        ("n".to_string(), Value::String("x".to_string())),
    ]));
    assert_eq!(try_enqueue(&mut op, bad), Err(QueryError::AggregateInvocationError));
}

#[test]
fn no_window_strategy_emits_each_event_with_fresh_state() {
    let stmt = SelectStmt {
        target: Expr::Aggregate(0),
        maybe_where: None,
        maybe_having: None,
        maybe_group_by: None,
        aggregates: vec![AggrCall { func: AggrFn::Count, args: vec![] }],
    };
    let mut op = TrickleSelect::new("select".to_string(), Arc::new(stmt), Some(WindowImpl::from(NoWindow::default())));
    let (_, e0) = try_enqueue(&mut op, test_event(0)).unwrap().expect("no event");
    assert_eq!(payload(&e0), Value::I64(0));
    let (_, e1) = try_enqueue(&mut op, test_event(1)).unwrap().expect("no event");
    assert_eq!(payload(&e1), Value::I64(1));
}

#[test]
fn windowed_having_not_bool_fails_and_keeps_state() {
    let stmt = SelectStmt {
        target: Expr::Aggregate(0),
        maybe_where: None,
        maybe_having: Some(Expr::Event(vec![])),
        maybe_group_by: None,
        aggregates: vec![AggrCall { func: AggrFn::Count, args: vec![] }],
    };
    let mut op = test_select(stmt);
    assert_eq!(try_enqueue(&mut op, test_event(0)), Ok(None));
    assert_eq!(try_enqueue(&mut op, test_event(15)), Err(QueryError::GuardTypeError));
    // The failed call neither moved the boundary nor counted.
    assert_eq!(try_enqueue(&mut op, test_event(15)), Err(QueryError::GuardTypeError));
}

#[test]
fn having_false_without_window_leaves_later_output_unchanged() {
    // HAVING sees the projected payload, here the whole event.
    let mut stmt = test_stmt(Expr::Event(vec![]));
    stmt.maybe_where = None;
    stmt.maybe_having = Some(Expr::Event(vec!["keep".to_string()]));
    let mut op = unwindowed(stmt);
    let ev = |s: u64, n: i64, keep: bool| {
        event_with(s, Value::Object(vec![
            ("n".to_string(), Value::I64(n)),
            ("keep".to_string(), Value::Bool(keep)),
        ]))
    };
    assert_eq!(try_enqueue(&mut op, ev(0, 1, false)), Ok(None));
    let (_, e) = try_enqueue(&mut op, ev(1, 2, true)).unwrap().expect("no event");
    assert_eq!(payload(&e), Value::Object(vec![
        ("n".to_string(), Value::I64(2)),
        ("keep".to_string(), Value::Bool(true)),
    ]));
}

#[test]
fn tumbling_window_emits_once_then_keeps_folding() {
    let mut stmt = test_stmt(Expr::Aggregate(0));
    stmt.maybe_where = None;
    stmt.aggregates = vec![AggrCall { func: AggrFn::Count, args: vec![] }];
    let mut op = test_select(stmt);
    for s in [0, 3, 7, 14] {
        assert_eq!(try_enqueue(&mut op, test_event(s)), Ok(None));
    }
    let (out, e) = try_enqueue(&mut op, test_event(15)).unwrap().expect("no event");
    assert_eq!(out, "out");
    assert_eq!(payload(&e), Value::I64(4));
    assert_eq!(e.id, 15);
    assert_eq!(e.ingest_ns, 15_000_000_000);
    // the next boundary is 30 s; the accumulators are not reset on rollover
    assert_eq!(try_enqueue(&mut op, test_event(29)), Ok(None));
    let (_, e) = try_enqueue(&mut op, test_event(30)).unwrap().expect("no event");
    assert_eq!(payload(&e), Value::I64(6));
}

#[test]
fn payload_rewrite_keeps_meta_and_buffers() {
    let mut op = unwindowed(test_stmt(test_target()));
    let mut ev = test_event(2);
    ev.meta = Value::String("m".to_string());
    let (_, e) = try_enqueue(&mut op, ev).unwrap().expect("no event");
    assert_eq!(e.meta, Value::String("m".to_string()));
    assert_eq!(e.value, LineValue::new(vec![], ValueAndMeta {
        value: Value::I64(42),
        meta: Value::Object(vec![]),
    }));
}
