use lazy_counter::action::{update, Action, ActionBus, ActionEvent, BusError, KeyInput};
use lazy_counter::app::App;

#[test]
fn drain_returns_submissions_in_fifo_order() {
    let mut bus = ActionBus::new();
    bus.submit(Action::Increment).unwrap();
    bus.submit(Action::Quit).unwrap();
    bus.submit_resolved(Action::Decrement, 9).unwrap();
    bus.submit(Action::LazyIncrement).unwrap();

    let drained = bus.drain_ready();
    assert_eq!(drained.len(), 4);
    assert_eq!(drained[0].0, Action::Increment);
    assert_eq!(drained[0].1, None);
    assert_eq!(drained[1].0, Action::Quit);
    assert_eq!(drained[2].0, Action::Decrement);
    assert_eq!(drained[2].1, Some(9));
    assert_eq!(drained[3].0, Action::LazyIncrement);
    assert_eq!(drained[3].1, None);

    assert!(bus.drain_ready().is_empty());
}

#[test]
fn next_pops_from_the_front() {
    let mut bus = ActionBus::new();
    bus.submit(Action::Increment).unwrap();
    bus.submit(Action::Decrement).unwrap();
    assert_eq!(bus.next().unwrap().0, Action::Increment);
    assert_eq!(bus.next().unwrap().0, Action::Decrement);
    assert_eq!(bus.next().unwrap_err(), BusError::Empty);
}

#[test]
fn submitting_to_a_closed_bus_fails() {
    let mut bus = ActionBus::new();
    bus.submit(Action::Increment).unwrap();
    bus.close();
    assert_eq!(bus.submit(Action::Quit).unwrap_err(), BusError::Closed);
    assert_eq!(
        bus.submit_resolved(Action::Increment, 3).unwrap_err(),
        BusError::Closed
    );
    // What was queued before the teardown is still drained.
    let drained = bus.drain_ready();
    assert_eq!(drained.len(), 1);
    assert_eq!(drained[0].0, Action::Increment);
}

#[test]
fn default_bus_is_open_and_empty() {
    let mut bus = ActionBus::default();
    assert!(bus.drain_ready().is_empty());
    assert!(bus.submit(Action::Increment).is_ok());
}

#[test]
fn keypresses_map_to_intents() {
    let mut bus = ActionBus::new();
    bus.handle_keypress(KeyInput::Char { ch: 'j', ctrl: false }).unwrap();
    bus.handle_keypress(KeyInput::Char { ch: 'J', ctrl: false }).unwrap();
    bus.handle_keypress(KeyInput::Char { ch: 'k', ctrl: false }).unwrap();
    bus.handle_keypress(KeyInput::Char { ch: 'K', ctrl: false }).unwrap();
    bus.handle_keypress(KeyInput::Char { ch: 'q', ctrl: false }).unwrap();
    bus.handle_keypress(KeyInput::Char { ch: 'c', ctrl: true }).unwrap();
    bus.handle_keypress(KeyInput::Char { ch: 'C', ctrl: true }).unwrap();
    // Unmapped keys submit nothing.
    bus.handle_keypress(KeyInput::Char { ch: 'c', ctrl: false }).unwrap();
    bus.handle_keypress(KeyInput::Char { ch: 'x', ctrl: false }).unwrap();
    bus.handle_keypress(KeyInput::Other).unwrap();

    let drained = bus.drain_ready();
    let intents: Vec<Action> = drained.iter().map(|e| e.0).collect();
    assert_eq!(
        intents,
        vec![
            Action::Increment,
            Action::LazyIncrement,
            Action::Decrement,
            Action::LazyDecrement,
            Action::Quit,
            Action::Quit,
            Action::Quit,
        ]
    );
    assert!(drained.iter().all(|e| e.1.is_none()));
}

#[test]
fn quit_submitted_before_increment_is_seen_first() {
    // Scenario: Quit, then Increment. The loop applies events in order and
    // stops draining once it observes the flag; the flag must hold either
    // way.
    let mut bus = ActionBus::new();
    let mut app = App::new();
    bus.handle_keypress(KeyInput::Char { ch: 'q', ctrl: false }).unwrap();
    bus.handle_keypress(KeyInput::Char { ch: 'j', ctrl: false }).unwrap();

    for event in bus.drain_ready() {
        update(&mut app, event);
        if app.should_quit {
            break;
        }
    }
    assert!(app.should_quit);
    assert_eq!(app.counter, 0);
}

#[test]
fn full_tick_drains_and_applies_in_order() {
    // One dispatch tick: keypresses in, a batch drain, applications in FIFO
    // order.
    let mut bus = ActionBus::new();
    let mut app = App::new();
    bus.handle_keypress(KeyInput::Char { ch: 'j', ctrl: false }).unwrap();
    bus.handle_keypress(KeyInput::Char { ch: 'j', ctrl: false }).unwrap();
    bus.handle_keypress(KeyInput::Char { ch: 'k', ctrl: false }).unwrap();
    for event in bus.drain_ready() {
        update(&mut app, event);
    }
    assert_eq!(app.counter, 1);

    // A deferred resolution takes its place in line like any submission.
    let task = update(&mut app, ActionEvent(Action::LazyIncrement, None)).unwrap();
    bus.handle_keypress(KeyInput::Char { ch: 'j', ctrl: false }).unwrap();
    bus.submit_resolved(task.action, task.id).unwrap();
    for event in bus.drain_ready() {
        update(&mut app, event);
    }
    assert_eq!(app.counter, 3);
    assert!(app.action_queue.is_empty());
    assert_eq!(app.app_log, vec![task.id]);
}
