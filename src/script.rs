//! The part of the expression language that the select operator needs:
//! expressions over an event, guards, and aggregate call sites.
use vstd::prelude::*;
use crate::value::{path_view, value_at, Value, ValueV};

verus! {

/// Why the processing of one event was abandoned.
#[derive(Debug, Clone, Copy, PartialEq, Eq, Structural)]
pub enum QueryError {
    /// A WHERE or HAVING guard evaluated to something other than a boolean.
    GuardTypeError,
    /// An expression could not be evaluated.
    EvaluationError,
    /// An aggregate function refused to fold its arguments.
    AggregateInvocationError,
}

/// A compiled expression.
#[derive(Debug)]
pub enum Expr {
    /// A constant.
    Literal(Value),
    /// What a path of field names reaches in the event's payload; the empty
    /// path is the whole payload.
    Event(Vec<String>),
    /// What a path of field names reaches in the event's metadata.
    Meta(Vec<String>),
    /// The current result of the aggregate call site with this index.
    Aggregate(usize),
}

/// The built-in aggregate functions.
#[derive(Debug, Clone, Copy, PartialEq, Eq, Structural)]
pub enum AggrFn {
    /// The number of events folded.
    Count,
    /// The sum of the integer argument over the events folded.
    Sum,
}

/// One call of an aggregate function in a query, with its argument expressions.
#[derive(Debug)]
pub struct AggrCall {
    pub func: AggrFn,
    pub args: Vec<Expr>,
}

/// The accumulator of one call site in one group.
#[derive(Debug, Clone, Copy, PartialEq, Eq, Structural)]
pub enum AggrState {
    Count(u64),
    Sum(i64),
}

/// The result of evaluating `e` against a payload, its metadata and the
/// results of the aggregate call sites in scope.
pub open spec fn eval_spec(e: Expr, event: ValueV, meta: ValueV, aggrs: Seq<ValueV>) -> Result<ValueV, QueryError> {
    match e {
        Expr::Literal(v) => Ok(v@),
        Expr::Event(path) => match value_at(event, path_view(path@)) {
            Some(v) => Ok(v),
            None => Err(QueryError::EvaluationError),
        },
        Expr::Meta(path) => match value_at(meta, path_view(path@)) {
            Some(v) => Ok(v),
            None => Err(QueryError::EvaluationError),
        },
        Expr::Aggregate(i) => if i < aggrs.len() {
            Ok(aggrs[i as int])
        } else {
            Err(QueryError::EvaluationError)
        },
    }
}

/// The outcome of an optional guard: an absent guard passes, a boolean
/// decides, anything else is a type error.
pub open spec fn guard_spec(g: Option<Expr>, event: ValueV, meta: ValueV, aggrs: Seq<ValueV>) -> Result<bool, QueryError> {
    match g {
        None => Ok(true),
        Some(e) => match eval_spec(e, event, meta, aggrs) {
            Ok(ValueV::Bool(b)) => Ok(b),
            Ok(_) => Err(QueryError::GuardTypeError),
            Err(err) => Err(err),
        },
    }
}

/// What the accumulators hand to the expressions that refer to them.
pub open spec fn emitted(states: Seq<AggrState>) -> Seq<ValueV> {
    states.map_values(|s: AggrState| s.emit_spec())
}

/// The views of a sequence of values.
pub open spec fn views(vs: Seq<Value>) -> Seq<ValueV> {
    vs.map_values(|v: Value| v@)
}

/// An exec result of evaluation agrees with a spec result.
pub open spec fn agrees(r: Result<Value, QueryError>, s: Result<ValueV, QueryError>) -> bool {
    match s {
        Ok(v) => r is Ok && r->Ok_0@ == v,
        Err(e) => r is Err && r->Err_0 == e,
    }
}

/// The results of the argument expressions, left to right, stopping at the
/// first failure. Arguments see no aggregate results.
pub open spec fn args_spec(args: Seq<Expr>, event: ValueV, meta: ValueV) -> Result<Seq<ValueV>, QueryError>
    decreases args.len(),
{
    if args.len() == 0 {
        Ok(Seq::empty())
    } else {
        match args_spec(args.drop_last(), event, meta) {
            Err(e) => Err(e),
            Ok(vs) => match eval_spec(args.last(), event, meta, Seq::empty()) {
                Err(e) => Err(e),
                Ok(v) => Ok(vs.push(v)),
            },
        }
    }
}

/// Each accumulator folded with the arguments of its call site, call site by
/// call site, stopping at the first failure.
pub open spec fn accumulate_all(calls: Seq<AggrCall>, states: Seq<AggrState>, event: ValueV, meta: ValueV) -> Result<Seq<AggrState>, QueryError>
    decreases states.len(),
{
    if states.len() == 0 {
        Ok(Seq::empty())
    } else {
        match accumulate_all(calls, states.drop_last(), event, meta) {
            Err(e) => Err(e),
            Ok(prefix) => match args_spec(calls[states.len() - 1].args@, event, meta) {
                Err(e) => Err(e),
                Ok(av) => match states.last().fold(av) {
                    None => Err(QueryError::AggregateInvocationError),
                    Some(s) => Ok(prefix.push(s)),
                },
            },
        }
    }
}

/// Every accumulator can hand out its result.
pub open spec fn all_bounded(states: Seq<AggrState>) -> bool {
    forall|i: int| 0 <= i < states.len() ==> (#[trigger] states[i]).bounded()
}

impl Expr {
    /// Evaluates the expression against a payload, its metadata and the
    /// accumulators in scope (none outside a windowed projection).
    pub fn run(&self, event: &Value, meta: &Value, aggrs: &Vec<AggrState>) -> (r: Result<Value, QueryError>)
        requires
            all_bounded(aggrs@),
        ensures
            agrees(r, eval_spec(*self, event@, meta@, emitted(aggrs@))),
    {
        match self {
            Expr::Literal(v) => Ok(v.clone()),
            Expr::Event(path) => match event.at_path(path) {
                Some(v) => Ok(v.clone()),
                None => Err(QueryError::EvaluationError),
            },
            Expr::Meta(path) => match meta.at_path(path) {
                Some(v) => Ok(v.clone()),
                None => Err(QueryError::EvaluationError),
            },
            Expr::Aggregate(i) => {
                if *i < aggrs.len() {
                    Ok(aggrs[*i].emit())
                } else {
                    Err(QueryError::EvaluationError)
                }
            },
        }
    }
}

/// Evaluates an optional guard: an absent guard passes, a boolean result
/// decides, any other result is a `GuardTypeError`.
pub fn test_guard(guard: &Option<Expr>, event: &Value, meta: &Value, aggrs: &Vec<AggrState>) -> (r: Result<bool, QueryError>)
    requires
        all_bounded(aggrs@),
    ensures
        r == guard_spec(*guard, event@, meta@, emitted(aggrs@)),
{
    match guard {
        None => Ok(true),
        Some(g) => match g.run(event, meta, aggrs) {
            Ok(Value::Bool(b)) => Ok(b),
            Ok(_) => Err(QueryError::GuardTypeError),
            Err(e) => Err(e),
        },
    }
}

/// Evaluates the argument expressions of a call site, left to right.
pub fn eval_args(args: &Vec<Expr>, event: &Value, meta: &Value) -> (r: Result<Vec<Value>, QueryError>)
    ensures
        match args_spec(args@, event@, meta@) {
            Ok(vs) => r is Ok && views(r->Ok_0@) == vs,
            Err(e) => r == Err::<Vec<Value>, QueryError>(e),
        },
{
    let none: Vec<AggrState> = Vec::new();
    let mut out: Vec<Value> = Vec::new();
    let mut i: usize = 0;
    proof {
        assert(views(out@) =~= Seq::<ValueV>::empty());
    }
    while i < args.len()
        invariant
            i <= args.len(),
            none@ == Seq::<AggrState>::empty(),
            args_spec(args@.subrange(0, i as int), event@, meta@) == Ok::<Seq<ValueV>, QueryError>(views(out@)),
        decreases args.len() - i,
    {
        proof {
            assert(args@.subrange(0, i + 1).drop_last() =~= args@.subrange(0, i as int));
            assert(emitted(none@) =~= Seq::<ValueV>::empty());
        }
        match args[i].run(event, meta, &none) {
            Ok(v) => {
                proof {
                    assert(views(out@.push(v)) =~= views(out@).push(v@));
                }
                out.push(v);
            },
            Err(e) => {
                proof {
                    lemma_args_error_sticks(args@, i as int + 1, event@, meta@);
                }
                return Err(e);
            },
        }
        i += 1;
    }
    proof {
        assert(args@.subrange(0, i as int) =~= args@);
    }
    Ok(out)
}

/// Once the arguments up to `n` fail, all of them fail with that error.
proof fn lemma_args_error_sticks(args: Seq<Expr>, n: int, event: ValueV, meta: ValueV)
    requires
        0 <= n <= args.len(),
        args_spec(args.subrange(0, n), event, meta) is Err,
    ensures
        args_spec(args, event, meta) == args_spec(args.subrange(0, n), event, meta),
    decreases args.len() - n,
{
    if n < args.len() {
        assert(args.subrange(0, n + 1).drop_last() =~= args.subrange(0, n));
        lemma_args_error_sticks(args, n + 1, event, meta);
    } else {
        assert(args.subrange(0, n) =~= args);
    }
}

/// Once the call sites up to `n` fail, all of them fail with that error.
proof fn lemma_accumulate_error_sticks(calls: Seq<AggrCall>, states: Seq<AggrState>, n: int, event: ValueV, meta: ValueV)
    requires
        0 <= n <= states.len(),
        accumulate_all(calls, states.subrange(0, n), event, meta) is Err,
    ensures
        accumulate_all(calls, states, event, meta) == accumulate_all(calls, states.subrange(0, n), event, meta),
    decreases states.len() - n,
{
    if n < states.len() {
        assert(states.subrange(0, n + 1).drop_last() =~= states.subrange(0, n));
        lemma_accumulate_error_sticks(calls, states, n + 1, event, meta);
    } else {
        assert(states.subrange(0, n) =~= states);
    }
}

/// Folds one event into every accumulator, each with the arguments of its
/// call site. The accumulators are left untouched: the folded ones are
/// returned, or the first failure.
pub fn accumulate_event(calls: &Vec<AggrCall>, states: &Vec<AggrState>, event: &Value, meta: &Value) -> (r: Result<Vec<AggrState>, QueryError>)
    requires
        states.len() <= calls.len(),
    ensures
        match accumulate_all(calls@, states@, event@, meta@) {
            Ok(s) => r is Ok && r->Ok_0@ == s,
            Err(e) => r == Err::<Vec<AggrState>, QueryError>(e),
        },
{
    let mut out: Vec<AggrState> = Vec::new();
    let mut i: usize = 0;
    while i < states.len()
        invariant
            i <= states.len(),
            states.len() <= calls.len(),
            accumulate_all(calls@, states@.subrange(0, i as int), event@, meta@) == Ok::<Seq<AggrState>, QueryError>(out@),
        decreases states.len() - i,
    {
        proof {
            assert(states@.subrange(0, i + 1).drop_last() =~= states@.subrange(0, i as int));
        }
        let args = match eval_args(&calls[i].args, event, meta) {
            Ok(a) => a,
            Err(e) => {
                proof {
                    lemma_accumulate_error_sticks(calls@, states@, i as int + 1, event@, meta@);
                }
                return Err(e);
            },
        };
        let mut s = states[i];
        match s.accumulate(&args) {
            Ok(()) => {},
            Err(e) => {
                proof {
                    lemma_accumulate_error_sticks(calls@, states@, i as int + 1, event@, meta@);
                }
                return Err(e);
            },
        }
        out.push(s);
        i += 1;
    }
    proof {
        assert(states@.subrange(0, i as int) =~= states@);
    }
    Ok(out)
}

impl AggrState {
    /// The accumulator a call site of `f` starts from.
    pub open spec fn fresh(f: AggrFn) -> AggrState {
        match f {
            AggrFn::Count => AggrState::Count(0),
            AggrFn::Sum => AggrState::Sum(0),
        }
    }

    /// The accumulator after `init`.
    pub open spec fn reset(self) -> AggrState {
        match self {
            AggrState::Count(_) => AggrState::Count(0),
            AggrState::Sum(_) => AggrState::Sum(0),
        }
    }

    /// The accumulator after folding `args`, or `None` where the function
    /// refuses them: a count that would pass `i64::MAX`, a sum of anything but
    /// one integer, or a sum that would leave the `i64` range.
    pub open spec fn fold(self, args: Seq<ValueV>) -> Option<AggrState> {
        match self {
            AggrState::Count(n) => if n < i64::MAX {
                Some(AggrState::Count((n + 1) as u64))
            } else {
                None
            },
            AggrState::Sum(t) => if args.len() == 1 {
                match args[0] {
                    ValueV::Int(x) => if i64::MIN <= t + x <= i64::MAX {
                        Some(AggrState::Sum((t + x) as i64))
                    } else {
                        None
                    },
                    _ => None,
                }
            } else {
                None
            },
        }
    }

    /// A count never passes the largest integer a value can hold.
    pub open spec fn bounded(self) -> bool {
        match self {
            AggrState::Count(n) => n <= i64::MAX,
            AggrState::Sum(_) => true,
        }
    }

    /// The current result of the accumulator.
    pub open spec fn emit_spec(self) -> ValueV {
        match self {
            AggrState::Count(n) => ValueV::Int(n as int),
            AggrState::Sum(t) => ValueV::Int(t as int),
        }
    }

    pub fn new(f: AggrFn) -> (r: AggrState)
        ensures
            r == AggrState::fresh(f),
    {
        match f {
            AggrFn::Count => AggrState::Count(0),
            AggrFn::Sum => AggrState::Sum(0),
        }
    }

    /// Resets the accumulator for a new window.
    pub fn init(&mut self)
        ensures
            *final(self) == old(self).reset(),
    {
        match self {
            AggrState::Count(_) => {
                *self = AggrState::Count(0);
            },
            AggrState::Sum(_) => {
                *self = AggrState::Sum(0);
            },
        }
    }

    /// Folds the arguments of one event into the accumulator; on failure the
    /// accumulator is left as it was.
    pub fn accumulate(&mut self, args: &Vec<Value>) -> (r: Result<(), QueryError>)
        ensures
            match old(self).fold(views(args@)) {
                Some(s) => r is Ok && *final(self) == s,
                None => r == Err::<(), QueryError>(QueryError::AggregateInvocationError)
                    && *final(self) == *old(self),
            },
    {
        match *self {
            AggrState::Count(n) => {
                if n < i64::MAX as u64 {
                    *self = AggrState::Count(n + 1);
                    Ok(())
                } else {
                    Err(QueryError::AggregateInvocationError)
                }
            },
            AggrState::Sum(t) => {
                if args.len() == 1 {
                    match &args[0] {
                        Value::I64(x) => match t.checked_add(*x) {
                            Some(s) => {
                                *self = AggrState::Sum(s);
                                Ok(())
                            },
                            None => Err(QueryError::AggregateInvocationError),
                        },
                        _ => Err(QueryError::AggregateInvocationError),
                    }
                } else {
                    Err(QueryError::AggregateInvocationError)
                }
            },
        }
    }

    /// The current result, without resetting.
    pub fn emit(&self) -> (r: Value)
        requires
            self.bounded(),
        ensures
            r@ == self.emit_spec(),
    {
        match *self {
            AggrState::Count(n) => Value::I64(n as i64),
            AggrState::Sum(t) => Value::I64(t),
        }
    }
}

} // verus!
