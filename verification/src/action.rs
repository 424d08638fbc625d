//! Intents, the FIFO action bus, the intent codec, and the dispatch step that
//! applies one action event to the application state.

use vstd::prelude::*;

use crate::app::{remove_id, sat_dec, sat_inc, App, AppView, PendingEntry};

verus! {

/// A discrete user intent. Lazy intents defer their effect: they record a
/// pending entry and resolve later into their immediate sibling.
#[derive(Clone, Copy, Debug, PartialEq, Eq, Structural)]
pub enum Action {
    Increment,
    Decrement,
    LazyIncrement,
    LazyDecrement,
    Quit,
}

/// The unit carried on the bus: an intent, and the correlation id of the
/// deferred request it resolves (`None` for a fresh user-issued intent).
#[derive(Clone, Copy, Debug)]
pub struct ActionEvent(pub Action, pub Option<u64>);

/// Why a bus operation yielded nothing.
#[derive(Clone, Copy, Debug, PartialEq, Eq, Structural)]
pub enum BusError {
    /// The consuming side has been torn down; the submission is lost.
    Closed,
    /// No event is queued right now.
    Empty,
}

/// A keyboard event as the codec sees it: a character with a control-modifier
/// flag, or any other key.
#[derive(Clone, Copy, Debug, PartialEq, Eq, Structural)]
pub enum KeyInput {
    Char { ch: char, ctrl: bool },
    Other,
}

/// The keyboard mapping: which intent, if any, a key stands for.
pub open spec fn intent_of(key: KeyInput) -> Option<Action> {
    match key {
        KeyInput::Char { ch, ctrl } => if ch == 'q' {
            Some(Action::Quit)
        } else if ch == 'c' || ch == 'C' {
            if ctrl {
                Some(Action::Quit)
            } else {
                None
            }
        } else if ch == 'j' {
            Some(Action::Increment)
        } else if ch == 'J' {
            Some(Action::LazyIncrement)
        } else if ch == 'k' {
            Some(Action::Decrement)
        } else if ch == 'K' {
            Some(Action::LazyDecrement)
        } else {
            None
        },
        KeyInput::Other => None,
    }
}

/// Decode one raw key into an intent; unmapped keys yield no intent.
pub fn decode(key: KeyInput) -> (intent: Option<Action>)
    ensures
        intent == intent_of(key),
{
    match key {
        KeyInput::Char { ch, ctrl } => {
            if ch == 'q' {
                Some(Action::Quit)
            } else if ch == 'c' || ch == 'C' {
                if ctrl {
                    Some(Action::Quit)
                } else {
                    None
                }
            } else if ch == 'j' {
                Some(Action::Increment)
            } else if ch == 'J' {
                Some(Action::LazyIncrement)
            } else if ch == 'k' {
                Some(Action::Decrement)
            } else if ch == 'K' {
                Some(Action::LazyDecrement)
            } else {
                None
            }
        },
        KeyInput::Other => None,
    }
}

/// The FIFO conduit from producers to the single state-mutating consumer.
/// Events come out of `next` and `drain_ready` in exactly the order they were
/// submitted.
pub struct ActionBus {
    queue: Vec<ActionEvent>,
    closed: bool,
}

impl ActionBus {
    /// The events currently queued, oldest first.
    pub closed spec fn events(&self) -> Seq<ActionEvent> {
        self.queue@
    }

    /// Whether the consuming side has been torn down.
    pub closed spec fn is_closed(&self) -> bool {
        self.closed
    }

    /// A fresh, open, empty bus.
    pub fn new() -> (bus: Self)
        ensures
            bus.events() == Seq::<ActionEvent>::empty(),
            !bus.is_closed(),
    {
        let bus = ActionBus { queue: Vec::new(), closed: false };
        proof {
            assert(bus.events() =~= Seq::<ActionEvent>::empty());
        }
        bus
    }

    /// Enqueue a fresh user intent, with no correlation id. Fails exactly
    /// when the consuming side has been torn down.
    pub fn submit(&mut self, action: Action) -> (r: Result<(), BusError>)
        ensures
            final(self).is_closed() == old(self).is_closed(),
            old(self).is_closed() ==> r == Err::<(), BusError>(BusError::Closed) && final(self).events() == old(self).events(),
            !old(self).is_closed() ==> r == Ok::<(), BusError>(()) && final(self).events() == old(self).events().push(ActionEvent(action, None)),
    {
        self.submit_event(ActionEvent(action, None))
    }

    /// Enqueue the resolution of the deferred request `id`: the resolved
    /// intent takes its place in line like any other submission.
    pub fn submit_resolved(&mut self, action: Action, id: u64) -> (r: Result<(), BusError>)
        ensures
            final(self).is_closed() == old(self).is_closed(),
            old(self).is_closed() ==> r == Err::<(), BusError>(BusError::Closed) && final(self).events() == old(self).events(),
            !old(self).is_closed() ==> r == Ok::<(), BusError>(()) && final(self).events() == old(self).events().push(ActionEvent(action, Some(id))),
    {
        self.submit_event(ActionEvent(action, Some(id)))
    }

    fn submit_event(&mut self, event: ActionEvent) -> (r: Result<(), BusError>)
        ensures
            final(self).is_closed() == old(self).is_closed(),
            old(self).is_closed() ==> r == Err::<(), BusError>(BusError::Closed) && final(self).events() == old(self).events(),
            !old(self).is_closed() ==> r == Ok::<(), BusError>(()) && final(self).events() == old(self).events().push(event),
    {
        if self.closed {
            Err(BusError::Closed)
        } else {
            self.queue.push(event);
            Ok(())
        }
    }

    /// Decode one key and submit the intent it stands for, if any. This is
    /// the only place keyboard semantics are known.
    pub fn handle_keypress(&mut self, key: KeyInput) -> (r: Result<(), BusError>)
        ensures
            final(self).is_closed() == old(self).is_closed(),
            intent_of(key) is None ==> r == Ok::<(), BusError>(()) && final(self).events() == old(self).events(),
            intent_of(key) is Some && old(self).is_closed() ==> r == Err::<(), BusError>(
                BusError::Closed,
            ) && final(self).events() == old(self).events(),
            intent_of(key) is Some && !old(self).is_closed() ==> r == Ok::<(), BusError>(())
                && final(self).events() == old(self).events().push(
                ActionEvent(intent_of(key)->Some_0, None),
            ),
    {
        match decode(key) {
            Some(action) => self.submit(action),
            None => Ok(()),
        }
    }

    /// Pop the oldest queued event without waiting; `Empty` when none is
    /// queued.
    pub fn next(&mut self) -> (r: Result<ActionEvent, BusError>)
        ensures
            final(self).is_closed() == old(self).is_closed(),
            old(self).events().len() == 0 ==> r == Err::<ActionEvent, BusError>(BusError::Empty)
                && final(self).events() == old(self).events(),
            old(self).events().len() > 0 ==> r == Ok::<ActionEvent, BusError>(
                old(self).events()[0],
            ) && final(self).events() == old(self).events().skip(1),
    {
        if self.queue.len() == 0 {
            Err(BusError::Empty)
        } else {
            let event = self.queue.remove(0);
            proof {
                assert(self.queue@ =~= old(self).events().skip(1));
            }
            Ok(event)
        }
    }

    /// Take every queued event at once, in submission order, without waiting;
    /// the bus is left empty.
    #[verifier::loop_isolation(false)]
    pub fn drain_ready(&mut self) -> (drained: Vec<ActionEvent>)
        ensures
            drained@ == old(self).events(),
            final(self).events().len() == 0,
            final(self).is_closed() == old(self).is_closed(),
    {
        let mut drained: Vec<ActionEvent> = Vec::new();
        while self.queue.len() > 0
            invariant
                drained@ + self.queue@ == old(self).events(),
                self.closed == old(self).closed,
            decreases self.queue.len(),
        {
            let ghost prev_drained = drained@;
            let ghost prev_queue = self.queue@;
            let event = self.queue.remove(0);
            drained.push(event);
            proof {
                assert(drained@ + self.queue@ =~= prev_drained + prev_queue);
            }
        }
        proof {
            assert(drained@ =~= drained@ + self.queue@);
        }
        drained
    }

    /// Tear the consuming side down: every later submission fails with
    /// `Closed`.
    pub fn close(&mut self)
        ensures
            final(self).is_closed(),
            final(self).events() == old(self).events(),
    {
        self.closed = true;
    }
}

impl Default for ActionBus {
    fn default() -> (bus: Self)
        ensures
            bus.events() == Seq::<ActionEvent>::empty(),
            !bus.is_closed(),
    {
        Self::new()
    }
}

/// How long a deferred task waits before resolving, in milliseconds; it
/// stands in for a network round trip.
pub const LAZY_DELAY_MS: u64 = 5000;

/// The background unit of work a lazy intent asks for: after `delay_ms`, the
/// resolved intent is to be submitted to the bus under the correlation id.
#[derive(Clone, Copy, Debug, PartialEq, Eq, Structural)]
pub struct DeferredTask {
    pub id: u64,
    pub action: Action,
    pub delay_ms: u64,
}

/// Whether the event carries a lazy intent, which allocates a correlation id.
pub open spec fn is_lazy_event(event: ActionEvent) -> bool {
    event.0 is LazyIncrement || event.0 is LazyDecrement
}

/// The immediate sibling a lazy intent resolves into; immediate intents are
/// their own resolution.
pub open spec fn resolved_of(action: Action) -> Action {
    match action {
        Action::LazyIncrement => Action::Increment,
        Action::LazyDecrement => Action::Decrement,
        _ => action,
    }
}

/// The state after applying one event: immediate intents move the counter
/// saturating, lazy intents allocate the next id and append a pending entry,
/// `Quit` sets the flag; an event carrying a correlation id additionally
/// removes the matching pending entries and appends one completion record.
pub open spec fn updated(pre: AppView, event: ActionEvent) -> AppView {
    let step = match event.0 {
        Action::Increment => AppView { counter: sat_inc(pre.counter), ..pre },
        Action::Decrement => AppView { counter: sat_dec(pre.counter), ..pre },
        Action::LazyIncrement => AppView {
            next_id: (pre.next_id + 1) as u64,
            action_queue: pre.action_queue.push(
                PendingEntry { id: pre.next_id, action: Action::LazyIncrement },
            ),
            ..pre
        },
        Action::LazyDecrement => AppView {
            next_id: (pre.next_id + 1) as u64,
            action_queue: pre.action_queue.push(
                PendingEntry { id: pre.next_id, action: Action::LazyDecrement },
            ),
            ..pre
        },
        Action::Quit => AppView { should_quit: true, ..pre },
    };
    match event.1 {
        None => step,
        Some(id) => AppView {
            action_queue: remove_id(step.action_queue, id),
            app_log: step.app_log.push(id),
            ..step
        },
    }
}

/// The deferred task one event asks for: exactly one per lazy intent, under
/// the id allocated for it, none otherwise.
pub open spec fn deferred_of(pre: AppView, event: ActionEvent) -> Option<DeferredTask> {
    if is_lazy_event(event) {
        Some(
            DeferredTask { id: pre.next_id, action: resolved_of(event.0), delay_ms: LAZY_DELAY_MS },
        )
    } else {
        None
    }
}

/// The state after applying a whole sequence of events, oldest first.
pub open spec fn apply_all(s0: AppView, events: Seq<ActionEvent>) -> AppView
    decreases events.len(),
{
    if events.len() == 0 {
        s0
    } else {
        updated(apply_all(s0, events.drop_last()), events.last())
    }
}

/// The deferred tasks a whole sequence of events asks for, in the order they
/// are asked for.
pub open spec fn deferred_all(s0: AppView, events: Seq<ActionEvent>) -> Seq<DeferredTask>
    decreases events.len(),
{
    if events.len() == 0 {
        Seq::empty()
    } else {
        let tail = deferred_all(s0, events.drop_last());
        match deferred_of(apply_all(s0, events.drop_last()), events.last()) {
            Some(task) => tail.push(task),
            None => tail,
        }
    }
}

/// How many events of a run carry a lazy intent, each of which allocates one
/// correlation id.
pub open spec fn lazy_count(events: Seq<ActionEvent>) -> nat
    decreases events.len(),
{
    if events.len() == 0 {
        0
    } else {
        lazy_count(events.drop_last()) + (if is_lazy_event(events.last()) {
            1nat
        } else {
            0nat
        })
    }
}

/// Splitting a run at the front splits its lazy-intent count.
pub proof fn lemma_lazy_count_first(events: Seq<ActionEvent>)
    requires
        events.len() > 0,
    ensures
        lazy_count(events) == lazy_count(events.skip(1)) + (if is_lazy_event(events[0]) {
            1nat
        } else {
            0nat
        }),
    decreases events.len(),
{
    if events.len() == 1 {
        assert(events.skip(1) =~= Seq::<ActionEvent>::empty());
        assert(events.drop_last() =~= Seq::<ActionEvent>::empty());
        assert(events.last() == events[0]);
    } else {
        lemma_lazy_count_first(events.drop_last());
        assert(events.skip(1).drop_last() =~= events.drop_last().skip(1));
        assert(events.drop_last()[0] == events[0]);
        assert(events.skip(1).last() == events.last());
    }
}

/// Apply one event to the application state. A lazy intent mutates nothing
/// but the pending queue and hands back the deferred task to schedule; an
/// event carrying a correlation id reconciles that deferred request.
pub fn update(app: &mut App, action_event: ActionEvent) -> (deferred: Option<DeferredTask>)
    requires
        is_lazy_event(action_event) ==> old(app).next_id < u64::MAX,
    ensures
        final(app)@ == updated(old(app)@, action_event),
        deferred == deferred_of(old(app)@, action_event),
{
    let ActionEvent(action, idx) = action_event;

    let deferred: Option<DeferredTask> = match action {
        Action::Increment => {
            app.increment_counter();
            None
        },
        Action::Decrement => {
            app.decrement_counter();
            None
        },
        Action::LazyIncrement => {
            let id = app.action_id();
            app.action_queue.push(PendingEntry { id, action: Action::LazyIncrement });
            Some(DeferredTask { id, action: Action::Increment, delay_ms: LAZY_DELAY_MS })
        },
        Action::LazyDecrement => {
            let id = app.action_id();
            app.action_queue.push(PendingEntry { id, action: Action::LazyDecrement });
            Some(DeferredTask { id, action: Action::Decrement, delay_ms: LAZY_DELAY_MS })
        },
        Action::Quit => {
            app.quit();
            None
        },
    };

    if let Some(id) = idx {
        app.remove_pending(id);
        app.app_log.push(id);
    }
    proof {
        assert(app@ =~= updated(old(app)@, action_event));
    }
    deferred
}

/// One dispatch batch: apply every drained event, oldest first, and collect
/// the deferred tasks the lazy intents ask for, in the order they are asked
/// for. The id source must have room for every lazy intent in the batch.
#[verifier::loop_isolation(false)]
pub fn apply_events(app: &mut App, events: &Vec<ActionEvent>) -> (tasks: Vec<DeferredTask>)
    requires
        old(app).next_id + lazy_count(events@) <= u64::MAX,
    ensures
        final(app)@ == apply_all(old(app)@, events@),
        tasks@ == deferred_all(old(app)@, events@),
{
    let mut tasks: Vec<DeferredTask> = Vec::new();
    let mut i: usize = 0;
    proof {
        assert(events@.skip(0) =~= events@);
    }
    while i < events.len()
        invariant
            i <= events.len(),
            app@ == apply_all(old(app)@, events@.take(i as int)),
            tasks@ == deferred_all(old(app)@, events@.take(i as int)),
            app@.next_id + lazy_count(events@.skip(i as int)) <= u64::MAX,
        decreases events.len() - i,
    {
        proof {
            lemma_lazy_count_first(events@.skip(i as int));
            assert(events@.skip(i as int)[0] == events@[i as int]);
            assert(events@.skip(i as int).skip(1) =~= events@.skip(i + 1));
        }
        let event = events[i];
        if let Some(task) = update(app, event) {
            tasks.push(task);
        }
        proof {
            assert(events@.take(i + 1).drop_last() =~= events@.take(i as int));
            assert(events@.take(i + 1).last() == events@[i as int]);
        }
        i = i + 1;
    }
    proof {
        assert(events@.take(events@.len() as int) =~= events@);
    }
    tasks
}

} // verus!
