//! The laws the engine obeys, stated over the abstract transition function
//! and proved once and for all.

use vstd::prelude::*;

use crate::action::{apply_all, is_lazy_event, lazy_count, resolved_of, updated, Action, ActionEvent};
use crate::app::{count_id, initial_view, remove_id, sat_dec, sat_inc, AppView, PendingEntry};

verus! {

/// Quit monotonicity, one step: an event sets the quit flag exactly when it
/// carries `Quit`, and never clears it.
pub proof fn lemma_quit_monotonic(pre: AppView, event: ActionEvent)
    ensures
        updated(pre, event).should_quit == (pre.should_quit || event.0 is Quit),
{
}

/// Quit monotonicity, any run: once the quit flag is set, no sequence of
/// further events clears it.
pub proof fn lemma_quit_stays(s0: AppView, events: Seq<ActionEvent>)
    requires
        s0.should_quit,
    ensures
        apply_all(s0, events).should_quit,
    decreases events.len(),
{
    if events.len() > 0 {
        lemma_quit_stays(s0, events.drop_last());
        lemma_quit_monotonic(apply_all(s0, events.drop_last()), events.last());
    }
}

/// A fresh, immediate counter intent: it moves the counter and nothing else.
pub open spec fn is_immediate_event(event: ActionEvent) -> bool {
    (event.0 is Increment || event.0 is Decrement) && event.1 is None
}

/// The saturating net effect of a sequence of immediate counter intents on a
/// counter starting at `c`.
pub open spec fn counter_fold(c: usize, events: Seq<ActionEvent>) -> usize
    decreases events.len(),
{
    if events.len() == 0 {
        c
    } else {
        let rest = counter_fold(c, events.drop_last());
        if events.last().0 is Increment {
            sat_inc(rest)
        } else {
            sat_dec(rest)
        }
    }
}

/// Saturation: any run of immediate increments and decrements leaves the
/// counter at exactly their saturating net effect — never below zero, never
/// past the representable maximum — and moves nothing else in the state.
pub proof fn lemma_saturation(s0: AppView, events: Seq<ActionEvent>)
    requires
        forall|i: int| 0 <= i < events.len() ==> is_immediate_event(#[trigger] events[i]),
    ensures
        apply_all(s0, events) == (AppView { counter: counter_fold(s0.counter, events), ..s0 }),
    decreases events.len(),
{
    if events.len() == 0 {
        assert(apply_all(s0, events) =~= (AppView {
            counter: counter_fold(s0.counter, events),
            ..s0
        }));
    } else {
        assert(forall|i: int|
            0 <= i < events.drop_last().len() ==> is_immediate_event(
                #[trigger] events.drop_last()[i],
            ));
        lemma_saturation(s0, events.drop_last());
        assert(is_immediate_event(events[events.len() - 1]));
        assert(apply_all(s0, events) =~= (AppView {
            counter: counter_fold(s0.counter, events),
            ..s0
        }));
    }
}

/// The bus contents after submitting the intents of `intents`, in order, to a
/// bus already holding `queued`.
pub open spec fn bus_after(queued: Seq<ActionEvent>, intents: Seq<Action>) -> Seq<ActionEvent>
    decreases intents.len(),
{
    if intents.len() == 0 {
        queued
    } else {
        bus_after(queued, intents.drop_last()).push(ActionEvent(intents.last(), None))
    }
}

/// FIFO: submissions are only ever appended, so after submitting the intents
/// `intents` in order the queue — which `drain_ready` hands out wholesale and
/// `next` pops from the front — holds what was already queued followed by
/// exactly those intents, in submission order.
pub proof fn lemma_fifo(queued: Seq<ActionEvent>, intents: Seq<Action>)
    ensures
        bus_after(queued, intents).len() == queued.len() + intents.len(),
        forall|i: int| 0 <= i < queued.len() ==> bus_after(queued, intents)[i] == queued[i],
        forall|i: int|
            0 <= i < intents.len() ==> bus_after(queued, intents)[queued.len() + i] == ActionEvent(
                #[trigger] intents[i],
                None,
            ),
    decreases intents.len(),
{
    if intents.len() > 0 {
        lemma_fifo(queued, intents.drop_last());
        assert forall|i: int| 0 <= i < intents.len() implies bus_after(queued, intents)[queued.len()
            + i] == ActionEvent(#[trigger] intents[i], None) by {
            if i < intents.len() - 1 {
                assert(intents.drop_last()[i] == intents[i]);
                assert(bus_after(queued, intents.drop_last())[queued.len() + i] == ActionEvent(
                    intents.drop_last()[i],
                    None,
                ));
            } else {
                assert(intents.last() == intents[i]);
            }
        }
    }
}

/// How many entries of `s.push(e)` carry `id`: one more than in `s` exactly
/// when `e` carries it.
pub proof fn lemma_count_id_push(s: Seq<PendingEntry>, e: PendingEntry, id: u64)
    ensures
        count_id(s.push(e), id) == count_id(s, id) + (if e.id == id {
            1nat
        } else {
            0nat
        }),
{
    assert(s.push(e).drop_last() =~= s);
    assert(s.push(e).last() == e);
}

/// Removal distributes over appending one entry.
pub proof fn lemma_remove_id_push(s: Seq<PendingEntry>, e: PendingEntry, id: u64)
    ensures
        remove_id(s.push(e), id) == (if e.id == id {
            remove_id(s, id)
        } else {
            remove_id(s, id).push(e)
        }),
{
    assert(s.push(e).drop_last() =~= s);
    assert(s.push(e).last() == e);
}

/// Removing an id that no entry carries changes nothing.
pub proof fn lemma_remove_id_absent(s: Seq<PendingEntry>, id: u64)
    requires
        count_id(s, id) == 0,
    ensures
        remove_id(s, id) == s,
    decreases s.len(),
{
    if s.len() == 0 {
        assert(remove_id(s, id) =~= s);
    } else {
        lemma_remove_id_absent(s.drop_last(), id);
        assert(remove_id(s, id) =~= s);
    }
}

/// After removal, no entry carries the removed id.
pub proof fn lemma_remove_id_count(s: Seq<PendingEntry>, id: u64)
    ensures
        count_id(remove_id(s, id), id) == 0,
        remove_id(s, id).len() + count_id(s, id) == s.len(),
    decreases s.len(),
{
    if s.len() > 0 {
        lemma_remove_id_count(s.drop_last(), id);
        if s.last().id != id {
            lemma_count_id_push(remove_id(s.drop_last(), id), s.last(), id);
        }
    }
}

/// Every pending id was allocated earlier: all ids in the queue lie below the
/// next id to be handed out. A fresh state has it, and `updated` keeps it.
pub open spec fn ids_below_next(v: AppView) -> bool {
    forall|i: int| 0 <= i < v.action_queue.len() ==> (#[trigger] v.action_queue[i]).id < v.next_id
}

/// A fresh state has the pending-ids invariant.
pub proof fn lemma_initial_ids_below()
    ensures
        ids_below_next(initial_view()),
{
}

/// Removal keeps every remaining id below any bound the whole queue obeyed.
pub proof fn lemma_remove_id_bound(s: Seq<PendingEntry>, id: u64, bound: u64)
    requires
        forall|i: int| 0 <= i < s.len() ==> (#[trigger] s[i]).id < bound,
    ensures
        forall|i: int|
            0 <= i < remove_id(s, id).len() ==> (#[trigger] remove_id(s, id)[i]).id < bound,
    decreases s.len(),
{
    if s.len() > 0 {
        assert(forall|i: int|
            0 <= i < s.drop_last().len() ==> (#[trigger] s.drop_last()[i]).id < bound);
        lemma_remove_id_bound(s.drop_last(), id, bound);
        assert(s.last().id < bound);
    }
}

/// An id at or above the bound every entry lies below occurs zero times.
pub proof fn lemma_ids_below_count_zero(s: Seq<PendingEntry>, bound: u64, id: u64)
    requires
        forall|i: int| 0 <= i < s.len() ==> (#[trigger] s[i]).id < bound,
        id >= bound,
    ensures
        count_id(s, id) == 0,
    decreases s.len(),
{
    if s.len() > 0 {
        assert(forall|i: int|
            0 <= i < s.drop_last().len() ==> (#[trigger] s.drop_last()[i]).id < bound);
        lemma_ids_below_count_zero(s.drop_last(), bound, id);
        assert(s.last().id < bound);
    }
}

/// The pending-ids invariant is preserved by every single step.
pub proof fn lemma_ids_below_next_preserved(pre: AppView, event: ActionEvent)
    requires
        ids_below_next(pre),
        is_lazy_event(event) ==> pre.next_id < u64::MAX,
    ensures
        ids_below_next(updated(pre, event)),
{
    let step = updated(pre, ActionEvent(event.0, None));
    match event.1 {
        None => {
        },
        Some(id) => {
            lemma_remove_id_bound(step.action_queue, id, step.next_id);
        },
    }
}

/// Lazy pairing: applying a lazy intent appends exactly one pending entry,
/// carrying the freshly assigned id, and touches neither counter nor log;
/// applying its paired resolution removes exactly that one entry, appends
/// exactly one completion record naming the id, and moves the counter once.
pub proof fn lemma_lazy_pairing(pre: AppView, lazy: Action)
    requires
        lazy is LazyIncrement || lazy is LazyDecrement,
        ids_below_next(pre),
    ensures
        ({
            let id = pre.next_id;
            let mid = updated(pre, ActionEvent(lazy, None));
            let post = updated(mid, ActionEvent(resolved_of(lazy), Some(id)));
            &&& count_id(pre.action_queue, id) == 0
            &&& mid.action_queue == pre.action_queue.push(PendingEntry { id, action: lazy })
            &&& count_id(mid.action_queue, id) == 1
            &&& mid.counter == pre.counter
            &&& mid.app_log == pre.app_log
            &&& post.action_queue == pre.action_queue
            &&& count_id(post.action_queue, id) == 0
            &&& post.app_log == pre.app_log.push(id)
            &&& updated(post, ActionEvent(resolved_of(lazy), Some(id))).action_queue
                == pre.action_queue
            &&& post.counter == (if lazy is LazyIncrement {
                sat_inc(pre.counter)
            } else {
                sat_dec(pre.counter)
            })
        }),
{
    let id = pre.next_id;
    let mid = updated(pre, ActionEvent(lazy, None));
    let entry = PendingEntry { id, action: lazy };
    lemma_ids_below_count_zero(pre.action_queue, pre.next_id, id);
    lemma_count_id_push(pre.action_queue, entry, id);
    lemma_remove_id_push(pre.action_queue, entry, id);
    lemma_remove_id_absent(pre.action_queue, id);
    lemma_remove_id_count(pre.action_queue, id);
}

/// The pending-ids invariant is preserved by whole runs whose allocations
/// stay within the id width.
pub proof fn lemma_ids_below_next_preserved_all(s0: AppView, events: Seq<ActionEvent>)
    requires
        ids_below_next(s0),
        s0.next_id + lazy_count(events) <= u64::MAX,
    ensures
        ids_below_next(apply_all(s0, events)),
    decreases events.len(),
{
    if events.len() > 0 {
        lemma_ids_below_next_preserved_all(s0, events.drop_last());
        let pre = apply_all(s0, events.drop_last());
        if is_lazy_event(events.last()) {
            lemma_next_id_advances(s0, events.drop_last());
        }
        lemma_ids_below_next_preserved(pre, events.last());
    }
}

/// Over a run whose allocations stay within the id width, `next_id` advances
/// by exactly the number of lazy intents applied.
pub proof fn lemma_next_id_advances(s0: AppView, events: Seq<ActionEvent>)
    requires
        s0.next_id + lazy_count(events) <= u64::MAX,
    ensures
        apply_all(s0, events).next_id == s0.next_id + lazy_count(events),
    decreases events.len(),
{
    if events.len() > 0 {
        lemma_next_id_advances(s0, events.drop_last());
    }
}

/// The id the lazy intent at position `k` of a run is assigned: the `next_id`
/// of the state it is applied to.
pub open spec fn assigned_id(s0: AppView, events: Seq<ActionEvent>, k: int) -> u64 {
    apply_all(s0, events.take(k)).next_id
}

/// A prefix of a run holds at most as many lazy intents as a longer prefix.
pub proof fn lemma_lazy_count_take_mono(events: Seq<ActionEvent>, i: int, j: int)
    requires
        0 <= i <= j <= events.len(),
    ensures
        lazy_count(events.take(i)) <= lazy_count(events.take(j)),
    decreases j - i,
{
    if i < j {
        lemma_lazy_count_take_mono(events, i, j - 1);
        assert(events.take(j).drop_last() =~= events.take(j - 1));
    }
}

/// Extending a prefix by one event adds its own lazy allocation, if any.
pub proof fn lemma_lazy_count_take_step(events: Seq<ActionEvent>, k: int)
    requires
        0 <= k < events.len(),
    ensures
        lazy_count(events.take(k + 1)) == lazy_count(events.take(k)) + (if is_lazy_event(
            events[k],
        ) {
            1nat
        } else {
            0nat
        }),
{
    assert(events.take(k + 1).drop_last() =~= events.take(k));
    assert(events.take(k + 1).last() == events[k]);
}

/// Id uniqueness: of two lazy intents anywhere in one run, the later one is
/// assigned the numerically greater correlation id — no id is ever reused.
pub proof fn lemma_id_uniqueness(s0: AppView, events: Seq<ActionEvent>, i: int, j: int)
    requires
        0 <= i < j < events.len(),
        is_lazy_event(events[i]),
        is_lazy_event(events[j]),
        s0.next_id + lazy_count(events) <= u64::MAX,
    ensures
        assigned_id(s0, events, i) < assigned_id(s0, events, j),
{
    assert(events.take(events.len() as int) =~= events);
    lemma_lazy_count_take_mono(events, j, events.len() as int);
    lemma_lazy_count_take_mono(events, i + 1, j);
    lemma_lazy_count_take_step(events, i);
    lemma_next_id_advances(s0, events.take(i));
    lemma_next_id_advances(s0, events.take(j));
}

} // verus!
