use trickle_select::event::Event;
use trickle_select::script::AggrState;
use trickle_select::value::{LineValue, Value, ValueAndMeta};
use trickle_select::window::{NoWindow, TumblingWindowOnEventTime, Window, WindowEvent, WindowImpl, WindowTrait};

fn at(ns: u64) -> Event {
    Event {
        id: 0,
        ingest_ns: ns,
        meta: Value::Null,
        value: LineValue::new(vec![], ValueAndMeta::from_value(Value::Null)),
        is_batch: false,
        kind: None,
    }
}

#[test]
fn no_window_opens_once_and_always_emits() {
    let mut w = NoWindow::default();
    assert_eq!(w.on_event(&at(5)), WindowEvent { open: true, emit: true });
    assert_eq!(w.on_event(&at(6)), WindowEvent { open: false, emit: true });
    assert_eq!(w.on_event(&at(0)), WindowEvent { open: false, emit: true });
}

#[test]
fn tumbling_window_rolls_over_at_boundary() {
    let mut w = TumblingWindowOnEventTime { next_window: None, size: 10 };
    assert_eq!(w.on_event(&at(3)), WindowEvent { open: true, emit: false });
    assert_eq!(w.next_window, Some(13));
    assert_eq!(w.on_event(&at(12)), WindowEvent { open: false, emit: false });
    assert_eq!(w.next_window, Some(13));
    assert_eq!(w.on_event(&at(13)), WindowEvent { open: false, emit: true });
    assert_eq!(w.next_window, Some(23));
}

#[test]
fn default_window_is_fifteen_second_tumbling() {
    assert_eq!(
        WindowImpl::default(),
        WindowImpl::Tumbling(TumblingWindowOnEventTime { next_window: None, size: 15_000_000_000 })
    );
}

#[test]
fn window_delegates_to_its_strategy() {
    let mut w = Window::from_aggregates(vec![AggrState::Count(0)], WindowImpl::from(NoWindow::default()));
    assert_eq!(w.on_event(&at(1)), WindowEvent { open: true, emit: true });
    assert_eq!(w.window_impl, WindowImpl::No(NoWindow { open: true }));
    assert_eq!(w.aggregates, vec![AggrState::Count(0)]);
}

#[test]
fn aggregate_protocol() {
    let mut s = AggrState::Sum(5);
    s.init();
    assert_eq!(s, AggrState::Sum(0));
    assert_eq!(s.accumulate(&vec![Value::I64(4)]), Ok(()));
    assert_eq!(s.emit(), Value::I64(4));
    assert!(s.accumulate(&vec![Value::Null]).is_err());
    assert_eq!(s, AggrState::Sum(4));
    let mut c = AggrState::Count(i64::MAX as u64);
    assert!(c.accumulate(&vec![]).is_err());
    assert_eq!(c, AggrState::Count(i64::MAX as u64));
}
