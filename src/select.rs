//! The select operator: WHERE, GROUP BY, windowing, aggregation, projection
//! and HAVING, evaluated one event at a time.
use vstd::prelude::*;
use std::sync::Arc;
use crate::event::Event;
use crate::groups::{group_windows, table_insert, table_new, table_remove, GroupMap};
use crate::key::{group_key, key_text};
use crate::script::{
    accumulate_all, accumulate_event, all_bounded, emitted, eval_spec, guard_spec, test_guard,
    AggrCall, AggrState, Expr, QueryError,
};
use crate::value::{LineValueV, Value, ValueV};
use crate::window::{Window, WindowImpl, WindowTrait, WindowV};

verus! {

/// A compiled `select` statement.
#[derive(Debug)]
pub struct SelectStmt {
    /// The projection: what an emitted event carries.
    pub target: Expr,
    pub maybe_where: Option<Expr>,
    pub maybe_having: Option<Expr>,
    pub maybe_group_by: Option<Expr>,
    /// The aggregate call sites; `Expr::Aggregate(i)` refers to the `i`th.
    pub aggregates: Vec<AggrCall>,
}

/// The statement together with the state of each group seen so far.
#[derive(Debug)]
pub struct SelectDims {
    pub query: Arc<SelectStmt>,
    pub groups: GroupMap,
}

impl SelectDims {
    /// No group has been seen yet.
    pub fn from_query(stmt: Arc<SelectStmt>) -> (r: SelectDims)
        ensures
            r.query == stmt,
            group_windows(r.groups).dom() == Set::<Seq<char>>::empty(),
    {
        SelectDims { query: stmt, groups: table_new() }
    }
}

/// The select operator. With no window every admitted event is projected
/// on its own; with a window, events are grouped, folded into the
/// accumulators of their group, and projected when their group's window
/// emits.
#[derive(Debug)]
pub struct TrickleSelect {
    pub id: String,
    pub groups: SelectDims,
    pub window: Option<WindowImpl>,
}

/// The accumulators of a group that has just been created.
pub open spec fn fresh_states(calls: Seq<AggrCall>) -> Seq<AggrState> {
    calls.map_values(|c: AggrCall| AggrState::fresh(c.func))
}

/// The accumulators after `init`.
pub open spec fn reset_all(states: Seq<AggrState>) -> Seq<AggrState> {
    states.map_values(|s: AggrState| s.reset())
}

/// Two strategies are of the same kind and, for tumbling windows, the same width.
pub open spec fn same_strategy(a: WindowImpl, b: WindowImpl) -> bool {
    match (a, b) {
        (WindowImpl::Tumbling(x), WindowImpl::Tumbling(y)) => x.size == y.size,
        (WindowImpl::No(_), WindowImpl::No(_)) => true,
        _ => false,
    }
}

/// The key under which an event's group is filed: the key text of the
/// GROUP BY result, or the empty key where there is no GROUP BY.
pub open spec fn key_of(stmt: SelectStmt, value: ValueV, meta: ValueV) -> Result<Seq<char>, QueryError> {
    match stmt.maybe_group_by {
        None => Ok(Seq::empty()),
        Some(g) => match eval_spec(g, value, meta, Seq::empty()) {
            Ok(v) => Ok(key_text(v)),
            Err(e) => Err(e),
        },
    }
}

/// One event in one group: the window decides, accumulators are reset on
/// open, the projection sees the accumulators before this event, the event
/// is folded in, and an emitted candidate must pass HAVING. The result is
/// the group's new state and what is emitted, or the first failure.
pub open spec fn group_step(stmt: SelectStmt, g: WindowV, ts: u64, value: ValueV, meta: ValueV) -> Result<(WindowV, Option<ValueV>), QueryError> {
    let (wi, we) = g.window_impl.next(ts);
    let states = if we.open { reset_all(g.aggregates) } else { g.aggregates };
    let cand: Result<Option<ValueV>, QueryError> = if we.emit {
        match eval_spec(stmt.target, value, meta, emitted(states)) {
            Ok(v) => Ok(Some(v)),
            Err(e) => Err(e),
        }
    } else {
        Ok(None)
    };
    match cand {
        Err(e) => Err(e),
        Ok(c) => match accumulate_all(stmt.aggregates@, states, value, meta) {
            Err(e) => Err(e),
            Ok(folded) => {
                let g2 = WindowV { window_impl: wi, aggregates: folded };
                match c {
                    None => Ok((g2, None)),
                    Some(out) => match guard_spec(stmt.maybe_having, out, ValueV::Null, emitted(folded)) {
                        Err(e) => Err(e),
                        Ok(false) => Ok((g2, None)),
                        Ok(true) => Ok((g2, Some(out))),
                    },
                }
            },
        },
    }
}

/// The state of a group seen for the first time.
pub open spec fn fresh_window(stmt: SelectStmt, w: WindowImpl) -> WindowV {
    WindowV { window_impl: w, aggregates: fresh_states(stmt.aggregates@) }
}

/// One event through the operator: the group table afterwards and the
/// payload emitted on `out`, if any, or the failure. On failure the table is
/// as it was.
pub open spec fn select_step(
    stmt: SelectStmt,
    window: Option<WindowImpl>,
    groups: Map<Seq<char>, WindowV>,
    ts: u64,
    value: ValueV,
    meta: ValueV,
) -> (Map<Seq<char>, WindowV>, Result<Option<ValueV>, QueryError>) {
    match guard_spec(stmt.maybe_where, value, meta, Seq::empty()) {
        Err(e) => (groups, Err(e)),
        Ok(false) => (groups, Ok(None)),
        Ok(true) => match window {
            None => match eval_spec(stmt.target, value, meta, Seq::empty()) {
                Err(e) => (groups, Err(e)),
                Ok(out) => match guard_spec(stmt.maybe_having, out, ValueV::Null, Seq::empty()) {
                    Err(e) => (groups, Err(e)),
                    Ok(false) => (groups, Ok(None)),
                    Ok(true) => (groups, Ok(Some(out))),
                },
            },
            Some(w) => match key_of(stmt, value, meta) {
                Err(e) => (groups, Err(e)),
                Ok(k) => {
                    let g = if groups.contains_key(k) { groups[k] } else { fresh_window(stmt, w) };
                    match group_step(stmt, g, ts, value, meta) {
                        Err(e) => (groups, Err(e)),
                        Ok((g2, out)) => (groups.insert(k, g2), Ok(out)),
                    }
                },
            },
        },
    }
}

/// `after` is `before` with its payload replaced by `payload`.
pub open spec fn rewritten(before: Event, after: Event, payload: ValueV) -> bool {
    &&& after.id == before.id
    &&& after.ingest_ns == before.ingest_ns
    &&& after.meta == before.meta
    &&& after.is_batch == before.is_batch
    &&& after.kind == before.kind
    &&& after.value@ == (LineValueV { raw: before.value@.raw, value: payload, meta: before.value@.meta })
}

/// The operator's output for `input` is what `res` describes: the error, no
/// event, or the rewritten event on port `out`.
pub open spec fn output_matches(r: Result<Vec<(String, Event)>, QueryError>, res: Result<Option<ValueV>, QueryError>, input: Event) -> bool {
    match res {
        Err(e) => r is Err && r->Err_0 == e,
        Ok(None) => r is Ok && r->Ok_0.len() == 0,
        Ok(Some(out)) => r is Ok && r->Ok_0.len() == 1 && r->Ok_0[0].0@ == "out"@ && rewritten(input, r->Ok_0[0].1, out),
    }
}

/// Folding keeps the number of accumulators and their bound.
pub proof fn lemma_accumulate_keeps_shape(calls: Seq<AggrCall>, states: Seq<AggrState>, value: ValueV, meta: ValueV)
    requires
        all_bounded(states),
        accumulate_all(calls, states, value, meta) is Ok,
    ensures
        accumulate_all(calls, states, value, meta)->Ok_0.len() == states.len(),
        all_bounded(accumulate_all(calls, states, value, meta)->Ok_0),
    decreases states.len(),
{
    if states.len() > 0 {
        let pre = states.drop_last();
        assert(all_bounded(pre)) by {
            assert forall|i: int| 0 <= i < pre.len() implies (#[trigger] pre[i]).bounded() by {
                assert(pre[i] == states[i]);
            }
        }
        lemma_accumulate_keeps_shape(calls, pre, value, meta);
        let folded = accumulate_all(calls, states, value, meta)->Ok_0;
        let prefix = accumulate_all(calls, pre, value, meta)->Ok_0;
        assert forall|i: int| 0 <= i < folded.len() implies (#[trigger] folded[i]).bounded() by {
            if i < prefix.len() {
                assert(folded[i] == prefix[i]);
            }
        }
    }
}

/// A new group fits, and a step keeps a group fitting.
pub proof fn lemma_group_step_fits(stmt: SelectStmt, template: WindowImpl, g: WindowV, ts: u64, value: ValueV, meta: ValueV)
    requires
        group_fits(stmt, template, g),
    ensures
        group_fits(stmt, template, fresh_window(stmt, template)),
        group_step(stmt, g, ts, value, meta) is Ok ==> group_fits(stmt, template, group_step(stmt, g, ts, value, meta)->Ok_0.0),
{
    let fresh = fresh_window(stmt, template);
    assert(all_bounded(fresh.aggregates));
    let (wi, we) = g.window_impl.next(ts);
    let states = if we.open { reset_all(g.aggregates) } else { g.aggregates };
    assert(all_bounded(states));
    if accumulate_all(stmt.aggregates@, states, value, meta) is Ok {
        lemma_accumulate_keeps_shape(stmt.aggregates@, states, value, meta);
    }
}

/// The state of a group fits the statement and the operator's strategy.
pub open spec fn group_fits(stmt: SelectStmt, template: WindowImpl, g: WindowV) -> bool {
    &&& g.aggregates.len() == stmt.aggregates.len()
    &&& all_bounded(g.aggregates)
    &&& same_strategy(g.window_impl, template)
}

/// The accumulators of a new group, one per call site.
fn fresh_aggregates(calls: &Vec<AggrCall>) -> (r: Vec<AggrState>)
    ensures
        r@ == fresh_states(calls@),
{
    let mut out: Vec<AggrState> = Vec::new();
    let mut i: usize = 0;
    while i < calls.len()
        invariant
            i <= calls.len(),
            out@ == fresh_states(calls@.subrange(0, i as int)),
        decreases calls.len() - i,
    {
        out.push(AggrState::new(calls[i].func));
        i += 1;
        proof {
            assert(out@ =~= fresh_states(calls@.subrange(0, i as int)));
        }
    }
    proof {
        assert(calls@.subrange(0, i as int) =~= calls@);
    }
    out
}

/// The accumulators after `init` on each.
fn reset_aggregates(states: &Vec<AggrState>) -> (r: Vec<AggrState>)
    ensures
        r@ == reset_all(states@),
{
    let mut out: Vec<AggrState> = Vec::new();
    let mut i: usize = 0;
    while i < states.len()
        invariant
            i <= states.len(),
            out@ == reset_all(states@.subrange(0, i as int)),
        decreases states.len() - i,
    {
        let mut s = states[i];
        s.init();
        out.push(s);
        i += 1;
        proof {
            assert(out@ =~= reset_all(states@.subrange(0, i as int)));
        }
    }
    proof {
        assert(states@.subrange(0, i as int) =~= states@);
    }
    out
}

/// One event in one group, computed without touching the group: its new
/// state and the payload to emit, if any.
fn run_group(stmt: &SelectStmt, g: &Window, event: &Event, value: &Value) -> (r: Result<(Window, Option<Value>), QueryError>)
    requires
        g.window_impl.admits(event.ingest_ns),
        g.aggregates.len() == stmt.aggregates.len(),
        all_bounded(g.aggregates@),
    ensures
        match group_step(*stmt, g@, event.ingest_ns, value@, event.meta@) {
            Err(e) => r is Err && r->Err_0 == e,
            Ok((g2, out)) => r is Ok && r->Ok_0.0@ == g2 && match out {
                None => r->Ok_0.1 is None,
                Some(v) => r->Ok_0.1 is Some && r->Ok_0.1->Some_0@ == v,
            },
        },
{
    let mut wi = g.window_impl;
    let we = wi.on_event(event);
    let states = if we.open {
        reset_aggregates(&g.aggregates)
    } else {
        g.aggregates.clone()
    };
    proof {
        assert(states@ =~= (if we.open { reset_all(g.aggregates@) } else { g.aggregates@ }));
        assert(all_bounded(states@));
    }
    let cand = if we.emit {
        match stmt.target.run(value, &event.meta, &states) {
            Ok(v) => Some(v),
            Err(e) => {
                return Err(e);
            },
        }
    } else {
        None
    };
    let folded = match accumulate_event(&stmt.aggregates, &states, value, &event.meta) {
        Ok(f) => f,
        Err(e) => {
            return Err(e);
        },
    };
    proof {
        lemma_accumulate_keeps_shape(stmt.aggregates@, states@, value@, event.meta@);
    }
    let g2 = Window::from_aggregates(folded, wi);
    match cand {
        None => Ok((g2, None)),
        Some(out) => match test_guard(&stmt.maybe_having, &out, &Value::Null, &g2.aggregates) {
            Ok(true) => Ok((g2, Some(out))),
            Ok(false) => Ok((g2, None)),
            Err(e) => Err(e),
        },
    }
}

impl TrickleSelect {
    pub fn new(id: String, stmt: Arc<SelectStmt>, window: Option<WindowImpl>) -> (r: TrickleSelect)
        ensures
            r.id == id,
            r.groups.query == stmt,
            r.window == window,
            group_windows(r.groups.groups).dom() == Set::<Seq<char>>::empty(),
            r.wf(),
    {
        TrickleSelect { id, groups: SelectDims::from_query(stmt), window }
    }

    /// Processes one event and returns what it emits: nothing, or the event
    /// with its payload replaced by the projection, on port `out`. A failure
    /// leaves the operator as it was.
    pub fn on_event(&mut self, _port: &str, event: Event) -> (r: Result<Vec<(String, Event)>, QueryError>)
        requires
            old(self).wf(),
            old(self).admits(event.ingest_ns, event.value@.value, event.meta@),
        ensures
            final(self).wf(),
            final(self).id == old(self).id,
            final(self).window == old(self).window,
            final(self).groups.query == old(self).groups.query,
            final(self).table() == select_step(
                old(self).stmt(),
                old(self).window,
                old(self).table(),
                event.ingest_ns,
                event.value@.value,
                event.meta@,
            ).0,
            output_matches(
                r,
                select_step(
                    old(self).stmt(),
                    old(self).window,
                    old(self).table(),
                    event.ingest_ns,
                    event.value@.value,
                    event.meta@,
                ).1,
                event,
            ),
    {
        let ghost input = event;
        let mut event = event;
        let stmt: &SelectStmt = &self.groups.query;
        let none: Vec<AggrState> = Vec::new();
        proof {
            assert(emitted(none@) =~= Seq::<ValueV>::empty());
        }
        match test_guard(&stmt.maybe_where, event.value.value(), &event.meta, &none) {
            Ok(true) => {},
            Ok(false) => {
                return Ok(Vec::new());
            },
            Err(e) => {
                return Err(e);
            },
        }
        let out: Value = match self.window {
            None => {
                let out = match stmt.target.run(event.value.value(), &event.meta, &none) {
                    Ok(v) => v,
                    Err(e) => {
                        return Err(e);
                    },
                };
                match test_guard(&stmt.maybe_having, &out, &Value::Null, &none) {
                    Ok(true) => {},
                    Ok(false) => {
                        return Ok(Vec::new());
                    },
                    Err(e) => {
                        return Err(e);
                    },
                }
                out
            },
            Some(template) => {
                let key = match &stmt.maybe_group_by {
                    Some(group_by) => match group_by.run(event.value.value(), &event.meta, &none) {
                        Ok(v) => group_key(&v),
                        Err(e) => {
                            return Err(e);
                        },
                    },
                    None => String::new(),
                };
                let ghost k = key@;
                let ghost before = self.table();
                let previous = table_remove(&mut self.groups.groups, &key);
                let stepped = match &previous {
                    Some(g) => run_group(stmt, g, &event, event.value.value()),
                    None => {
                        let g = Window::from_aggregates(fresh_aggregates(&stmt.aggregates), template);
                        run_group(stmt, &g, &event, event.value.value())
                    },
                };
                match stepped {
                    Err(e) => {
                        match previous {
                            Some(g) => {
                                table_insert(&mut self.groups.groups, key, g);
                                proof {
                                    assert(self.table() =~= before);
                                }
                            },
                            None => {
                                proof {
                                    assert(self.table() =~= before);
                                }
                            },
                        }
                        return Err(e);
                    },
                    Ok((g2, emitted_value)) => {
                        proof {
                            let g = if before.contains_key(k) { before[k] } else { fresh_window(self.stmt(), template) };
                            if before.contains_key(k) {
                                lemma_group_step_fits(self.stmt(), template, g, event.ingest_ns, event.value@.value, event.meta@);
                            } else {
                                lemma_group_step_fits(self.stmt(), template, fresh_window(self.stmt(), template), event.ingest_ns, event.value@.value, event.meta@);
                            }
                        }
                        table_insert(&mut self.groups.groups, key, g2);
                        match emitted_value {
                            Some(v) => v,
                            None => {
                                return Ok(Vec::new());
                            },
                        }
                    },
                }
            },
        };
        let (payload, _meta) = event.value.parts();
        *payload = out;
        proof {
            reveal_strlit("out");
        }
        Ok(vec![(String::from_str("out"), event)])
    }

    /// The statement this operator evaluates.
    pub open spec fn stmt(&self) -> SelectStmt {
        *self.groups.query
    }

    /// The group table's contents.
    pub open spec fn table(&self) -> Map<Seq<char>, WindowV> {
        group_windows(self.groups.groups)
    }

    /// Every group's state fits the statement and the window strategy.
    pub open spec fn wf(&self) -> bool {
        forall|k: Seq<char>| #[trigger] self.table().contains_key(k) ==> match self.window {
            Some(w) => group_fits(self.stmt(), w, self.table()[k]),
            None => false,
        }
    }

    /// Any window boundary set by an event with this time, payload and
    /// metadata fits in a `u64`. Only an event that passes WHERE
    /// and meets a tumbling window at or past its boundary (or a new one)
    /// sets one.
    pub open spec fn admits(&self, ts: u64, value: ValueV, meta: ValueV) -> bool {
        match (guard_spec(self.stmt().maybe_where, value, meta, Seq::empty()), self.window) {
            (Ok(true), Some(w)) => match key_of(self.stmt(), value, meta) {
                Ok(k) => (if self.table().contains_key(k) { self.table()[k].window_impl } else { w }).admits(ts),
                Err(_) => true,
            },
            _ => true,
        }
    }
}

} // verus!
