use lazy_counter::action::{apply_events, update, Action, ActionEvent, DeferredTask, LAZY_DELAY_MS};
use lazy_counter::app::App;

#[test]
fn apply_events_applies_a_batch_in_order() {
    let mut app = App::new();
    let events = vec![
        ActionEvent(Action::Increment, None),
        ActionEvent(Action::LazyIncrement, None),
        ActionEvent(Action::Increment, None),
        ActionEvent(Action::LazyDecrement, None),
        ActionEvent(Action::Decrement, None),
    ];
    let tasks = apply_events(&mut app, &events);
    assert_eq!(app.counter, 1);
    assert_eq!(tasks.len(), 2);
    assert_eq!(
        tasks[0],
        DeferredTask {
            id: 1,
            action: Action::Increment,
            delay_ms: LAZY_DELAY_MS
        }
    );
    assert_eq!(
        tasks[1],
        DeferredTask {
            id: 2,
            action: Action::Decrement,
            delay_ms: LAZY_DELAY_MS
        }
    );
    assert_eq!(app.action_queue.len(), 2);

    // Resolve both in one later batch; each is reconciled and logged, in
    // arrival order.
    let resolutions = vec![
        ActionEvent(tasks[1].action, Some(tasks[1].id)),
        ActionEvent(tasks[0].action, Some(tasks[0].id)),
    ];
    let later = apply_events(&mut app, &resolutions);
    assert!(later.is_empty());
    assert_eq!(app.counter, 1);
    assert!(app.action_queue.is_empty());
    assert_eq!(app.app_log, vec![2, 1]);
}

#[test]
fn test_app_increment_counter() {
    let mut app = App::default();
    app.increment_counter();
    assert_eq!(app.counter, 1);
}

#[test]
fn test_app_decrement_counter() {
    let mut app = App::default();
    app.decrement_counter();
    assert_eq!(app.counter, 0);
}

#[test]
fn test_app_counter_value() {
    let mut app = App {
        counter: 10,
        ..Default::default()
    };

    app.decrement_counter();
    assert_eq!(app.counter, 9);
}

#[test]
fn increment_saturates_at_max() {
    let mut app = App {
        counter: usize::MAX,
        ..Default::default()
    };
    app.increment_counter();
    assert_eq!(app.counter, usize::MAX);
}

#[test]
fn decrement_saturates_at_zero() {
    // Scenario: on counter == 0 a decrement leaves the counter at 0.
    let mut app = App::new();
    let deferred = update(&mut app, ActionEvent(Action::Decrement, None));
    assert_eq!(app.counter, 0);
    assert_eq!(deferred, None);
}

#[test]
fn increment_increment_decrement_yields_one() {
    // Scenario: Increment, Increment, Decrement on a fresh state.
    let mut app = App::new();
    update(&mut app, ActionEvent(Action::Increment, None));
    update(&mut app, ActionEvent(Action::Increment, None));
    update(&mut app, ActionEvent(Action::Decrement, None));
    assert_eq!(app.counter, 1);
    assert!(!app.should_quit);
    assert!(app.action_queue.is_empty());
    assert!(app.app_log.is_empty());
}

#[test]
fn lazy_increment_pairs_with_resolution() {
    // Scenario: a lazy increment leaves the counter alone and records one
    // pending entry; its resolution moves the counter, clears the entry and
    // logs the same id.
    let mut app = App::new();
    let deferred = update(&mut app, ActionEvent(Action::LazyIncrement, None));
    let task = deferred.expect("a lazy intent must hand back a deferred task");
    assert_eq!(
        task,
        DeferredTask {
            id: 1,
            action: Action::Increment,
            delay_ms: LAZY_DELAY_MS
        }
    );
    assert_eq!(app.counter, 0);
    assert_eq!(app.action_queue.len(), 1);
    assert_eq!(app.action_queue[0].id, task.id);
    assert_eq!(app.action_queue[0].action, Action::LazyIncrement);
    assert!(app.app_log.is_empty());

    let second = update(&mut app, ActionEvent(task.action, Some(task.id)));
    assert_eq!(second, None);
    assert_eq!(app.counter, 1);
    assert!(app.action_queue.is_empty());
    assert_eq!(app.app_log, vec![task.id]);
}

#[test]
fn two_lazy_intents_resolve_in_either_order() {
    // Scenario: LazyIncrement then LazyDecrement assign two distinct ids;
    // whichever resolution lands first, the queue empties and the log holds
    // exactly two records. The counter ends at 0 when the increment lands
    // first; when the decrement lands first it saturates at 0 and the later
    // increment leaves 1.
    for resolve_increment_first in [true, false] {
        let mut app = App::new();
        let inc_task = update(&mut app, ActionEvent(Action::LazyIncrement, None)).unwrap();
        let dec_task = update(&mut app, ActionEvent(Action::LazyDecrement, None)).unwrap();
        assert_ne!(inc_task.id, dec_task.id);
        assert!(inc_task.id < dec_task.id);
        assert_eq!(app.action_queue.len(), 2);
        assert_eq!(app.counter, 0);

        let (first, second) = if resolve_increment_first {
            (inc_task, dec_task)
        } else {
            (dec_task, inc_task)
        };
        update(&mut app, ActionEvent(first.action, Some(first.id)));
        update(&mut app, ActionEvent(second.action, Some(second.id)));

        if resolve_increment_first {
            assert_eq!(app.counter, 0);
        } else {
            assert_eq!(app.counter, 1);
        }
        assert!(app.action_queue.is_empty());
        assert_eq!(app.app_log.len(), 2);
        assert_eq!(app.app_log, vec![first.id, second.id]);
    }
}

#[test]
fn quit_flag_is_monotonic() {
    // Scenario: Quit sets the flag; a later Increment (applied before the
    // loop notices the flag) never clears it.
    let mut app = App::new();
    update(&mut app, ActionEvent(Action::Quit, None));
    assert!(app.should_quit);
    update(&mut app, ActionEvent(Action::Increment, None));
    assert!(app.should_quit);
    update(&mut app, ActionEvent(Action::Quit, None));
    assert!(app.should_quit);
}

#[test]
fn correlation_ids_strictly_increase() {
    let mut app = App::new();
    let mut last = 0u64;
    for action in [
        Action::LazyIncrement,
        Action::LazyDecrement,
        Action::LazyIncrement,
        Action::LazyDecrement,
    ] {
        let task = update(&mut app, ActionEvent(action, None)).unwrap();
        assert!(task.id > last);
        last = task.id;
    }
    assert_eq!(app.action_queue.len(), 4);
}

#[test]
fn action_id_counts_up_from_one() {
    let mut app = App::new();
    assert_eq!(app.action_id(), 1);
    assert_eq!(app.action_id(), 2);
    assert_eq!(app.action_id(), 3);
}

#[test]
fn saturating_net_effect_of_long_run() {
    // Decrements past zero stick at zero; the tail of increments counts up
    // from there.
    let mut app = App::new();
    for _ in 0..3 {
        update(&mut app, ActionEvent(Action::Decrement, None));
    }
    for _ in 0..5 {
        update(&mut app, ActionEvent(Action::Increment, None));
    }
    update(&mut app, ActionEvent(Action::Decrement, None));
    assert_eq!(app.counter, 4);
}

#[test]
fn resolution_with_unknown_id_removes_nothing() {
    let mut app = App::new();
    let task = update(&mut app, ActionEvent(Action::LazyIncrement, None)).unwrap();
    update(&mut app, ActionEvent(Action::Increment, Some(task.id + 7)));
    assert_eq!(app.counter, 1);
    assert_eq!(app.action_queue.len(), 1);
    assert_eq!(app.app_log, vec![task.id + 7]);
}
