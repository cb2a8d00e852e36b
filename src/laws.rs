//! What holds of the operator over single events and over streams of them.
use vstd::prelude::*;
use crate::key::lemma_key_text_injective;
use crate::script::{accumulate_all, emitted, eval_spec, guard_spec, AggrCall, AggrState, QueryError};
use crate::select::{fresh_states, fresh_window, key_of, reset_all, select_step, SelectStmt};
use crate::value::ValueV;
use crate::window::{TumblingWindowOnEventTime, WindowEvent, WindowImpl, WindowTrait, WindowV};

verus! {

/// An event as the operator's logic sees it: ingest time, payload, metadata.
pub type EventV = (u64, ValueV, ValueV);

/// The operator run over `events` from group table `groups`: the table
/// afterwards and the outcome of each event, in order.
pub open spec fn run(
    stmt: SelectStmt,
    window: Option<WindowImpl>,
    groups: Map<Seq<char>, WindowV>,
    events: Seq<EventV>,
) -> (Map<Seq<char>, WindowV>, Seq<Result<Option<ValueV>, QueryError>>)
    decreases events.len(),
{
    if events.len() == 0 {
        (groups, Seq::empty())
    } else {
        let e = events[0];
        let (g1, first) = select_step(stmt, window, groups, e.0, e.1, e.2);
        let (g2, rest) = run(stmt, window, g1, events.drop_first());
        (g2, seq![first] + rest)
    }
}

/// The accumulators after folding `events` one after the other, or the
/// first failure.
pub open spec fn fold_events(calls: Seq<AggrCall>, states: Seq<AggrState>, events: Seq<EventV>) -> Result<Seq<AggrState>, QueryError>
    decreases events.len(),
{
    if events.len() == 0 {
        Ok(states)
    } else {
        match accumulate_all(calls, states, events[0].1, events[0].2) {
            Err(e) => Err(e),
            Ok(next) => fold_events(calls, next, events.drop_first()),
        }
    }
}

/// An event that WHERE rejects is dropped: nothing is emitted and the group
/// table is unchanged.
pub proof fn lemma_where_false_drops(
    stmt: SelectStmt,
    window: Option<WindowImpl>,
    groups: Map<Seq<char>, WindowV>,
    ts: u64,
    value: ValueV,
    meta: ValueV,
)
    requires
        guard_spec(stmt.maybe_where, value, meta, Seq::empty()) == Ok::<bool, QueryError>(false),
    ensures
        select_step(stmt, window, groups, ts, value, meta) == (groups, Ok::<Option<ValueV>, QueryError>(None)),
{
}

/// A WHERE guard whose result is not a boolean makes the call fail with a
/// guard type error, emitting nothing.
pub proof fn lemma_where_not_bool_fails(
    stmt: SelectStmt,
    window: Option<WindowImpl>,
    groups: Map<Seq<char>, WindowV>,
    ts: u64,
    value: ValueV,
    meta: ValueV,
)
    requires
        stmt.maybe_where is Some,
        eval_spec(stmt.maybe_where->Some_0, value, meta, Seq::empty()) is Ok,
        !(eval_spec(stmt.maybe_where->Some_0, value, meta, Seq::empty())->Ok_0 is Bool),
    ensures
        select_step(stmt, window, groups, ts, value, meta) == (groups, Err::<Option<ValueV>, QueryError>(QueryError::GuardTypeError)),
{
}

/// Without a window, a HAVING guard whose result on the projection is not a
/// boolean makes the call fail with a guard type error, emitting nothing.
pub proof fn lemma_having_not_bool_fails(
    stmt: SelectStmt,
    groups: Map<Seq<char>, WindowV>,
    ts: u64,
    value: ValueV,
    meta: ValueV,
)
    requires
        guard_spec(stmt.maybe_where, value, meta, Seq::empty()) == Ok::<bool, QueryError>(true),
        eval_spec(stmt.target, value, meta, Seq::empty()) is Ok,
        stmt.maybe_having is Some,
        eval_spec(stmt.maybe_having->Some_0, eval_spec(stmt.target, value, meta, Seq::empty())->Ok_0, ValueV::Null, Seq::empty()) is Ok,
        !(eval_spec(stmt.maybe_having->Some_0, eval_spec(stmt.target, value, meta, Seq::empty())->Ok_0, ValueV::Null, Seq::empty())->Ok_0 is Bool),
    ensures
        select_step(stmt, None, groups, ts, value, meta) == (groups, Err::<Option<ValueV>, QueryError>(QueryError::GuardTypeError)),
{
}

/// The state a windowed event meets in its group: the stored one, or a new
/// one for a group seen for the first time.
pub open spec fn group_of(stmt: SelectStmt, template: WindowImpl, groups: Map<Seq<char>, WindowV>, k: Seq<char>) -> WindowV {
    if groups.contains_key(k) { groups[k] } else { fresh_window(stmt, template) }
}

/// With a window, a HAVING guard whose result on an emitted projection is
/// not a boolean makes the call fail with a guard type error, emitting
/// nothing and leaving the table as it was.
pub proof fn lemma_windowed_having_not_bool_fails(
    stmt: SelectStmt,
    template: WindowImpl,
    groups: Map<Seq<char>, WindowV>,
    ts: u64,
    value: ValueV,
    meta: ValueV,
)
    requires
        guard_spec(stmt.maybe_where, value, meta, Seq::empty()) == Ok::<bool, QueryError>(true),
        key_of(stmt, value, meta) is Ok,
        ({
            let g = group_of(stmt, template, groups, key_of(stmt, value, meta)->Ok_0);
            let we = g.window_impl.next(ts).1;
            let states = if we.open { reset_all(g.aggregates) } else { g.aggregates };
            let folded = accumulate_all(stmt.aggregates@, states, value, meta);
            let out = eval_spec(stmt.target, value, meta, emitted(states));
            &&& we.emit
            &&& out is Ok
            &&& folded is Ok
            &&& stmt.maybe_having is Some
            &&& eval_spec(stmt.maybe_having->Some_0, out->Ok_0, ValueV::Null, emitted(folded->Ok_0)) is Ok
            &&& !(eval_spec(stmt.maybe_having->Some_0, out->Ok_0, ValueV::Null, emitted(folded->Ok_0))->Ok_0 is Bool)
        }),
    ensures
        select_step(stmt, Some(template), groups, ts, value, meta) == (groups, Err::<Option<ValueV>, QueryError>(QueryError::GuardTypeError)),
{
}

/// A failed call leaves the group table exactly as it was.
pub proof fn lemma_failure_changes_nothing(
    stmt: SelectStmt,
    window: Option<WindowImpl>,
    groups: Map<Seq<char>, WindowV>,
    ts: u64,
    value: ValueV,
    meta: ValueV,
)
    requires
        select_step(stmt, window, groups, ts, value, meta).1 is Err,
    ensures
        select_step(stmt, window, groups, ts, value, meta).0 == groups,
{
}

/// Without a window, an event that passes WHERE and HAVING is emitted with
/// the projection's result as its payload, and the table is untouched.
pub proof fn lemma_no_window_emits_projection(
    stmt: SelectStmt,
    groups: Map<Seq<char>, WindowV>,
    ts: u64,
    value: ValueV,
    meta: ValueV,
)
    requires
        guard_spec(stmt.maybe_where, value, meta, Seq::empty()) == Ok::<bool, QueryError>(true),
        eval_spec(stmt.target, value, meta, Seq::empty()) is Ok,
        guard_spec(stmt.maybe_having, eval_spec(stmt.target, value, meta, Seq::empty())->Ok_0, ValueV::Null, Seq::empty())
            == Ok::<bool, QueryError>(true),
    ensures
        select_step(stmt, None, groups, ts, value, meta) == (
            groups,
            Ok::<Option<ValueV>, QueryError>(Some(eval_spec(stmt.target, value, meta, Seq::empty())->Ok_0)),
        ),
{
}

/// An event touches the state of its own group only: the entry of every
/// other key is as it was.
pub proof fn lemma_other_groups_untouched(
    stmt: SelectStmt,
    window: Option<WindowImpl>,
    groups: Map<Seq<char>, WindowV>,
    ts: u64,
    value: ValueV,
    meta: ValueV,
    other: Seq<char>,
)
    requires
        key_of(stmt, value, meta) != Ok::<Seq<char>, QueryError>(other),
    ensures
        select_step(stmt, window, groups, ts, value, meta).0.contains_key(other) == groups.contains_key(other),
        groups.contains_key(other) ==> select_step(stmt, window, groups, ts, value, meta).0[other] == groups[other],
{
}

/// Two events fall into the same group exactly when their GROUP BY results
/// are equal.
pub proof fn lemma_same_group_iff_same_result(stmt: SelectStmt, v1: ValueV, m1: ValueV, v2: ValueV, m2: ValueV)
    requires
        stmt.maybe_group_by is Some,
        eval_spec(stmt.maybe_group_by->Some_0, v1, m1, Seq::empty()) is Ok,
        eval_spec(stmt.maybe_group_by->Some_0, v2, m2, Seq::empty()) is Ok,
    ensures
        (key_of(stmt, v1, m1) == key_of(stmt, v2, m2)) <==> (eval_spec(stmt.maybe_group_by->Some_0, v1, m1, Seq::empty())->Ok_0
            == eval_spec(stmt.maybe_group_by->Some_0, v2, m2, Seq::empty())->Ok_0),
{
    let g = stmt.maybe_group_by->Some_0;
    let r1 = eval_spec(g, v1, m1, Seq::empty())->Ok_0;
    let r2 = eval_spec(g, v2, m2, Seq::empty())->Ok_0;
    if key_of(stmt, v1, m1) == key_of(stmt, v2, m2) {
        lemma_key_text_injective(r1, r2);
    }
}

/// An event never touches the state of a group whose GROUP BY result differs
/// from its own.
pub proof fn lemma_distinct_results_never_share(
    stmt: SelectStmt,
    window: Option<WindowImpl>,
    groups: Map<Seq<char>, WindowV>,
    ts: u64,
    value: ValueV,
    meta: ValueV,
    other_value: ValueV,
    other_meta: ValueV,
)
    requires
        stmt.maybe_group_by is Some,
        eval_spec(stmt.maybe_group_by->Some_0, value, meta, Seq::empty()) is Ok,
        eval_spec(stmt.maybe_group_by->Some_0, other_value, other_meta, Seq::empty()) is Ok,
        eval_spec(stmt.maybe_group_by->Some_0, value, meta, Seq::empty())->Ok_0
            != eval_spec(stmt.maybe_group_by->Some_0, other_value, other_meta, Seq::empty())->Ok_0,
    ensures
        ({
            let k = key_of(stmt, other_value, other_meta)->Ok_0;
            &&& select_step(stmt, window, groups, ts, value, meta).0.contains_key(k) == groups.contains_key(k)
            &&& groups.contains_key(k) ==> select_step(stmt, window, groups, ts, value, meta).0[k] == groups[k]
        }),
{
    lemma_same_group_iff_same_result(stmt, value, meta, other_value, other_meta);
    lemma_other_groups_untouched(stmt, window, groups, ts, value, meta, key_of(stmt, other_value, other_meta)->Ok_0);
}

/// An event dropped by WHERE, or without a window by HAVING, has no effect
/// on what the operator does afterwards: the rest of the stream meets the
/// same table and gives the same outcomes.
pub proof fn lemma_dropped_event_invisible(
    stmt: SelectStmt,
    window: Option<WindowImpl>,
    groups: Map<Seq<char>, WindowV>,
    e: EventV,
    rest: Seq<EventV>,
)
    requires
        guard_spec(stmt.maybe_where, e.1, e.2, Seq::empty()) == Ok::<bool, QueryError>(false)
        || (window is None
            && guard_spec(stmt.maybe_where, e.1, e.2, Seq::empty()) == Ok::<bool, QueryError>(true)
            && eval_spec(stmt.target, e.1, e.2, Seq::empty()) is Ok
            && guard_spec(stmt.maybe_having, eval_spec(stmt.target, e.1, e.2, Seq::empty())->Ok_0, ValueV::Null, Seq::empty())
                == Ok::<bool, QueryError>(false)),
    ensures
        select_step(stmt, window, groups, e.0, e.1, e.2) == (groups, Ok::<Option<ValueV>, QueryError>(None)),
        run(stmt, window, groups, seq![e] + rest).0 == run(stmt, window, groups, rest).0,
        run(stmt, window, groups, seq![e] + rest).1 == seq![Ok::<Option<ValueV>, QueryError>(None)] + run(stmt, window, groups, rest).1,
{
    assert((seq![e] + rest).drop_first() =~= rest);
}

/// The accumulators of a window that opened on the first of `events` and
/// has folded all of them.
pub open spec fn window_states(stmt: SelectStmt, events: Seq<EventV>) -> Seq<AggrState> {
    fold_events(stmt.aggregates@, fresh_states(stmt.aggregates@), events)->Ok_0
}

/// The table of a query without GROUP BY: one group, under the empty key.
pub open spec fn single_group(w: WindowV) -> Map<Seq<char>, WindowV> {
    Map::empty().insert(Seq::empty(), w)
}

/// A tumbling window of width `d` with boundary `b`.
pub open spec fn tumbling(b: Option<u64>, d: u64) -> WindowImpl {
    WindowImpl::Tumbling(TumblingWindowOnEventTime { next_window: b, size: d })
}

/// `n` outcomes that emit nothing.
pub open spec fn nothing_emitted(n: nat) -> Seq<Result<Option<ValueV>, QueryError>> {
    Seq::new(n, |i: int| Ok::<Option<ValueV>, QueryError>(None))
}

proof fn lemma_reset_fresh(calls: Seq<AggrCall>)
    ensures
        reset_all(fresh_states(calls)) == fresh_states(calls),
{
    assert(reset_all(fresh_states(calls)) =~= fresh_states(calls));
}

proof fn lemma_fold_split(calls: Seq<AggrCall>, states: Seq<AggrState>, events: Seq<EventV>, k: int)
    requires
        0 <= k <= events.len(),
    ensures
        fold_events(calls, states, events) == match fold_events(calls, states, events.subrange(0, k)) {
            Ok(mid) => fold_events(calls, mid, events.subrange(k, events.len() as int)),
            Err(e) => Err(e),
        },
    decreases k,
{
    if k == 0 {
        assert(events.subrange(0, 0) =~= Seq::<EventV>::empty());
        assert(events.subrange(0, events.len() as int) =~= events);
    } else {
        assert(events.subrange(0, k).drop_first() =~= events.drop_first().subrange(0, k - 1));
        assert(events.subrange(k, events.len() as int) =~= events.drop_first().subrange(k - 1, events.drop_first().len() as int));
        match accumulate_all(calls, states, events[0].1, events[0].2) {
            Err(e) => {},
            Ok(next) => {
                lemma_fold_split(calls, next, events.drop_first(), k - 1);
            },
        }
    }
}

/// Inside one window of the single group, events are folded and nothing is
/// emitted.
proof fn lemma_within_window(stmt: SelectStmt, d: u64, b: u64, states: Seq<AggrState>, events: Seq<EventV>)
    requires
        stmt.maybe_group_by is None,
        forall|i: int| 0 <= i < events.len() ==> (#[trigger] events[i]).0 < b,
        forall|i: int| 0 <= i < events.len() ==>
            guard_spec(stmt.maybe_where, (#[trigger] events[i]).1, events[i].2, Seq::empty()) == Ok::<bool, QueryError>(true),
        fold_events(stmt.aggregates@, states, events) is Ok,
    ensures
        run(stmt, Some(tumbling(None, d)), single_group(WindowV { window_impl: tumbling(Some(b), d), aggregates: states }), events)
            == (
                single_group(WindowV { window_impl: tumbling(Some(b), d), aggregates: fold_events(stmt.aggregates@, states, events)->Ok_0 }),
                nothing_emitted(events.len()),
            ),
    decreases events.len(),
{
    if events.len() == 0 {
        assert(nothing_emitted(0) =~= Seq::empty());
    } else {
        let e = events[0];
        let g = single_group(WindowV { window_impl: tumbling(Some(b), d), aggregates: states });
        let next = accumulate_all(stmt.aggregates@, states, e.1, e.2)->Ok_0;
        let g1 = single_group(WindowV { window_impl: tumbling(Some(b), d), aggregates: next });
        assert(g.contains_key(Seq::empty()));
        assert(g.insert(Seq::empty(), WindowV { window_impl: tumbling(Some(b), d), aggregates: next }) =~= g1);
        assert(select_step(stmt, Some(tumbling(None, d)), g, e.0, e.1, e.2) == (g1, Ok::<Option<ValueV>, QueryError>(None)));
        let rest = events.drop_first();
        assert forall|i: int| 0 <= i < rest.len() implies (#[trigger] rest[i]).0 < b by {
            assert(rest[i] == events[i + 1]);
        }
        assert forall|i: int| 0 <= i < rest.len() implies
            guard_spec(stmt.maybe_where, (#[trigger] rest[i]).1, rest[i].2, Seq::empty()) == Ok::<bool, QueryError>(true) by {
            assert(rest[i] == events[i + 1]);
        }
        lemma_within_window(stmt, d, b, next, rest);
        assert(seq![Ok::<Option<ValueV>, QueryError>(None)] + nothing_emitted(rest.len()) =~= nothing_emitted(events.len()));
    }
}

/// A tumbling window of width `d` over a query without GROUP BY: events
/// before the first boundary `t0 + d` emit nothing and are folded into the
/// window's accumulators; the first event at or past the boundary emits the
/// projection over those accumulators, is then folded in itself, and moves
/// the boundary to its own time plus `d`.
pub proof fn lemma_tumbling_window_emits_once(stmt: SelectStmt, d: u64, events: Seq<EventV>)
    requires
        stmt.maybe_group_by is None,
        events.len() >= 2,
        forall|i: int| 0 <= i < events.len() - 1 ==> (#[trigger] events[i]).0 < events[0].0 + d,
        events[0].0 + d <= events[events.len() - 1].0,
        events[events.len() - 1].0 + d <= u64::MAX,
        forall|i: int| 0 <= i < events.len() ==>
            guard_spec(stmt.maybe_where, (#[trigger] events[i]).1, events[i].2, Seq::empty()) == Ok::<bool, QueryError>(true),
        fold_events(stmt.aggregates@, fresh_states(stmt.aggregates@), events) is Ok,
        eval_spec(
            stmt.target,
            events[events.len() - 1].1,
            events[events.len() - 1].2,
            emitted(window_states(stmt, events.drop_last())),
        ) is Ok,
        guard_spec(
            stmt.maybe_having,
            eval_spec(stmt.target, events[events.len() - 1].1, events[events.len() - 1].2, emitted(window_states(stmt, events.drop_last())))->Ok_0,
            ValueV::Null,
            emitted(window_states(stmt, events)),
        ) == Ok::<bool, QueryError>(true),
    ensures
        run(stmt, Some(tumbling(None, d)), Map::empty(), events.drop_last()) == (
            single_group(WindowV {
                window_impl: tumbling(Some((events[0].0 + d) as u64), d),
                aggregates: window_states(stmt, events.drop_last()),
            }),
            nothing_emitted((events.len() - 1) as nat),
        ),
        select_step(
            stmt,
            Some(tumbling(None, d)),
            run(stmt, Some(tumbling(None, d)), Map::empty(), events.drop_last()).0,
            events[events.len() - 1].0,
            events[events.len() - 1].1,
            events[events.len() - 1].2,
        ) == (
            single_group(WindowV {
                window_impl: tumbling(Some((events[events.len() - 1].0 + d) as u64), d),
                aggregates: window_states(stmt, events),
            }),
            Ok::<Option<ValueV>, QueryError>(Some(
                eval_spec(stmt.target, events[events.len() - 1].1, events[events.len() - 1].2, emitted(window_states(stmt, events.drop_last())))->Ok_0,
            )),
        ),
{
    let calls = stmt.aggregates@;
    let n = events.len() - 1;
    let fresh = fresh_states(calls);
    let w = Some(tumbling(None, d));
    let e0 = events[0];
    let b = (e0.0 + d) as u64;
    let prefix = events.drop_last();
    lemma_fold_split(calls, fresh, events, n);
    assert(events.subrange(0, n) =~= prefix);
    lemma_fold_split(calls, fresh, prefix, 1);
    assert(prefix.subrange(0, 1).drop_first() =~= Seq::<EventV>::empty());
    lemma_reset_fresh(calls);
    let s1 = accumulate_all(calls, fresh, e0.1, e0.2)->Ok_0;
    // The first event opens the window.
    let empty = Map::<Seq<char>, WindowV>::empty();
    assert(!empty.contains_key(Seq::empty()));
    assert(fresh_window(stmt, tumbling(None, d)).aggregates == fresh);
    let g1 = single_group(WindowV { window_impl: tumbling(Some(b), d), aggregates: s1 });
    assert(empty.insert(Seq::empty(), WindowV { window_impl: tumbling(Some(b), d), aggregates: s1 }) =~= g1);
    assert(select_step(stmt, w, empty, e0.0, e0.1, e0.2) == (g1, Ok::<Option<ValueV>, QueryError>(None)));
    // The others before the boundary are folded.
    let mid = prefix.drop_first();
    assert(prefix.subrange(1, prefix.len() as int) =~= mid);
    assert forall|i: int| 0 <= i < mid.len() implies (#[trigger] mid[i]).0 < b by {
        assert(mid[i] == events[i + 1]);
    }
    assert forall|i: int| 0 <= i < mid.len() implies
        guard_spec(stmt.maybe_where, (#[trigger] mid[i]).1, mid[i].2, Seq::empty()) == Ok::<bool, QueryError>(true) by {
        assert(mid[i] == events[i + 1]);
    }
    lemma_within_window(stmt, d, b, s1, mid);
    assert(seq![Ok::<Option<ValueV>, QueryError>(None)] + nothing_emitted(mid.len()) =~= nothing_emitted(n as nat));
    // The trigger emits, then is folded in.
    let en = events[n];
    let s = window_states(stmt, prefix);
    assert(events.subrange(n, events.len() as int) =~= seq![en]);
    assert(seq![en].drop_first() =~= Seq::<EventV>::empty());
    assert(fold_events(calls, fresh, prefix) is Ok);
    assert(fold_events(calls, fresh, events) == fold_events(calls, s, seq![en]));
    assert(seq![en][0] == en);
    let s2 = accumulate_all(calls, s, en.1, en.2)->Ok_0;
    assert(fold_events(calls, s, seq![en]) == fold_events(calls, s2, Seq::<EventV>::empty()));
    assert(window_states(stmt, events) == s2);
    let gn = single_group(WindowV { window_impl: tumbling(Some(b), d), aggregates: s });
    assert(gn.insert(Seq::empty(), WindowV { window_impl: tumbling(Some((en.0 + d) as u64), d), aggregates: s2 })
        =~= single_group(WindowV { window_impl: tumbling(Some((en.0 + d) as u64), d), aggregates: s2 }));
}

/// A tumbling window strategy shown the timestamps `ts` one after the
/// other: its state afterwards and its decision for each.
pub open spec fn feed(w: TumblingWindowOnEventTime, ts: Seq<u64>) -> (TumblingWindowOnEventTime, Seq<WindowEvent>)
    decreases ts.len(),
{
    if ts.len() == 0 {
        (w, Seq::empty())
    } else {
        let (w1, first) = w.next(ts[0]);
        let (w2, rest) = feed(w1, ts.drop_first());
        (w2, seq![first] + rest)
    }
}

proof fn lemma_feed_until_boundary(b: u64, d: u64, ts: Seq<u64>)
    requires
        ts.len() >= 1,
        forall|i: int| 0 <= i < ts.len() - 1 ==> #[trigger] ts[i] < b,
        b <= ts[ts.len() - 1],
        ts[ts.len() - 1] + d <= u64::MAX,
    ensures
        feed(TumblingWindowOnEventTime { next_window: Some(b), size: d }, ts) == (
            TumblingWindowOnEventTime { next_window: Some((ts[ts.len() - 1] + d) as u64), size: d },
            Seq::new((ts.len() - 1) as nat, |i: int| WindowEvent { open: false, emit: false })
                .push(WindowEvent { open: false, emit: true }),
        ),
    decreases ts.len(),
{
    let w = TumblingWindowOnEventTime { next_window: Some(b), size: d };
    if ts.len() == 1 {
        assert(ts.drop_first() =~= Seq::<u64>::empty());
        let w1 = TumblingWindowOnEventTime { next_window: Some((ts[0] + d) as u64), size: d };
        assert(w.next(ts[0]) == (w1, WindowEvent { open: false, emit: true }));
        assert(feed(w1, ts.drop_first()) == (w1, Seq::<WindowEvent>::empty()));
        assert(seq![WindowEvent { open: false, emit: true }] =~= Seq::new(0, |i: int| WindowEvent { open: false, emit: false })
            .push(WindowEvent { open: false, emit: true }));
    } else {
        let rest = ts.drop_first();
        assert forall|i: int| 0 <= i < rest.len() - 1 implies #[trigger] rest[i] < b by {
            assert(rest[i] == ts[i + 1]);
        }
        assert(ts[0] < b);
        assert(w.next(ts[0]) == (w, WindowEvent { open: false, emit: false }));
        lemma_feed_until_boundary(b, d, rest);
        assert(seq![WindowEvent { open: false, emit: false }] + Seq::new((rest.len() - 1) as nat, |i: int| WindowEvent { open: false, emit: false })
            .push(WindowEvent { open: false, emit: true })
            =~= Seq::new((ts.len() - 1) as nat, |i: int| WindowEvent { open: false, emit: false })
            .push(WindowEvent { open: false, emit: true }));
    }
}

/// A new tumbling window strategy of width `d`: the first timestamp opens a
/// window, later ones before its boundary `t0 + d` decide nothing, and the
/// first one at or past the boundary emits and sets the next boundary to its
/// own time plus `d`.
pub proof fn lemma_tumbling_strategy_emits_once(d: u64, ts: Seq<u64>)
    requires
        ts.len() >= 2,
        forall|i: int| 0 <= i < ts.len() - 1 ==> #[trigger] ts[i] < ts[0] + d,
        ts[0] + d <= ts[ts.len() - 1],
        ts[ts.len() - 1] + d <= u64::MAX,
    ensures
        feed(TumblingWindowOnEventTime { next_window: None, size: d }, ts) == (
            TumblingWindowOnEventTime { next_window: Some((ts[ts.len() - 1] + d) as u64), size: d },
            seq![WindowEvent { open: true, emit: false }]
                + Seq::new((ts.len() - 2) as nat, |i: int| WindowEvent { open: false, emit: false })
                .push(WindowEvent { open: false, emit: true }),
        ),
{
    let b = (ts[0] + d) as u64;
    let rest = ts.drop_first();
    assert forall|i: int| 0 <= i < rest.len() - 1 implies #[trigger] rest[i] < b by {
        assert(rest[i] == ts[i + 1]);
    }
    lemma_feed_until_boundary(b, d, rest);
}

/// Two tables hold the same entry, or none, under key `k`.
pub open spec fn agree_at(g1: Map<Seq<char>, WindowV>, g2: Map<Seq<char>, WindowV>, k: Seq<char>) -> bool {
    &&& g1.contains_key(k) == g2.contains_key(k)
    &&& g1.contains_key(k) ==> g1[k] == g2[k]
}

/// The events of `events` whose group key is `k`, in order.
pub open spec fn keyed(stmt: SelectStmt, events: Seq<EventV>, k: Seq<char>) -> Seq<EventV>
    decreases events.len(),
{
    if events.len() == 0 {
        Seq::empty()
    } else if key_of(stmt, events[0].1, events[0].2) == Ok::<Seq<char>, QueryError>(k) {
        seq![events[0]] + keyed(stmt, events.drop_first(), k)
    } else {
        keyed(stmt, events.drop_first(), k)
    }
}

/// The outcomes, among `outs`, of the events whose group key is `k`.
pub open spec fn keyed_outcomes(
    stmt: SelectStmt,
    events: Seq<EventV>,
    outs: Seq<Result<Option<ValueV>, QueryError>>,
    k: Seq<char>,
) -> Seq<Result<Option<ValueV>, QueryError>>
    decreases events.len(),
{
    if events.len() == 0 || outs.len() == 0 {
        Seq::empty()
    } else if key_of(stmt, events[0].1, events[0].2) == Ok::<Seq<char>, QueryError>(k) {
        seq![outs[0]] + keyed_outcomes(stmt, events.drop_first(), outs.drop_first(), k)
    } else {
        keyed_outcomes(stmt, events.drop_first(), outs.drop_first(), k)
    }
}

proof fn lemma_run_len(stmt: SelectStmt, window: Option<WindowImpl>, groups: Map<Seq<char>, WindowV>, events: Seq<EventV>)
    ensures
        run(stmt, window, groups, events).1.len() == events.len(),
    decreases events.len(),
{
    if events.len() > 0 {
        let e = events[0];
        lemma_run_len(stmt, window, select_step(stmt, window, groups, e.0, e.1, e.2).0, events.drop_first());
    }
}

/// An event of key `k` meets tables that agree at `k` in the same way.
proof fn lemma_step_same_key(
    stmt: SelectStmt,
    window: Option<WindowImpl>,
    g1: Map<Seq<char>, WindowV>,
    g2: Map<Seq<char>, WindowV>,
    e: EventV,
    k: Seq<char>,
)
    requires
        agree_at(g1, g2, k),
        key_of(stmt, e.1, e.2) == Ok::<Seq<char>, QueryError>(k),
    ensures
        select_step(stmt, window, g1, e.0, e.1, e.2).1 == select_step(stmt, window, g2, e.0, e.1, e.2).1,
        agree_at(select_step(stmt, window, g1, e.0, e.1, e.2).0, select_step(stmt, window, g2, e.0, e.1, e.2).0, k),
{
}

/// The entry of every group key `k`, and the outcome of
/// every event of that key, are what a run over the events of key `k` alone
/// gives: events of distinct keys never share state, events of one key
/// always do.
pub proof fn lemma_groups_run_apart(
    stmt: SelectStmt,
    window: Option<WindowImpl>,
    g1: Map<Seq<char>, WindowV>,
    g2: Map<Seq<char>, WindowV>,
    events: Seq<EventV>,
    k: Seq<char>,
)
    requires
        agree_at(g1, g2, k),
    ensures
        agree_at(run(stmt, window, g1, events).0, run(stmt, window, g2, keyed(stmt, events, k)).0, k),
        keyed_outcomes(stmt, events, run(stmt, window, g1, events).1, k) == run(stmt, window, g2, keyed(stmt, events, k)).1,
    decreases events.len(),
{
    if events.len() > 0 {
        let e = events[0];
        let rest = events.drop_first();
        let s1 = select_step(stmt, window, g1, e.0, e.1, e.2);
        lemma_run_len(stmt, window, s1.0, rest);
        let outs = run(stmt, window, g1, events).1;
        assert(outs == seq![s1.1] + run(stmt, window, s1.0, rest).1);
        assert(outs.drop_first() =~= run(stmt, window, s1.0, rest).1);
        if key_of(stmt, e.1, e.2) == Ok::<Seq<char>, QueryError>(k) {
            lemma_step_same_key(stmt, window, g1, g2, e, k);
            let s2 = select_step(stmt, window, g2, e.0, e.1, e.2);
            lemma_groups_run_apart(stmt, window, s1.0, s2.0, rest, k);
            let ks = keyed(stmt, events, k);
            assert(ks == seq![e] + keyed(stmt, rest, k));
            assert(ks[0] == e);
            assert(ks.drop_first() =~= keyed(stmt, rest, k));
        } else {
            lemma_other_groups_untouched(stmt, window, g1, e.0, e.1, e.2, k);
            lemma_groups_run_apart(stmt, window, s1.0, g2, rest, k);
        }
    }
}

} // verus!
