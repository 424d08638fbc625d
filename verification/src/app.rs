//! Application state: a saturating counter, a quit flag, the queue of
//! in-flight deferred actions, the completion log, and the correlation-id
//! source.

use vstd::prelude::*;

use crate::action::Action;

verus! {

/// One in-flight deferred action: the correlation id assigned at submission
/// and the lazy intent that produced it.
#[derive(Clone, Copy, Debug, PartialEq, Eq, Structural)]
pub struct PendingEntry {
    pub id: u64,
    pub action: Action,
}

/// The abstract value of an [`App`]: counter, quit flag, pending queue,
/// completion log, and the next correlation id to be handed out.
#[verifier::ext_equal]
pub ghost struct AppView {
    pub counter: usize,
    pub should_quit: bool,
    pub action_queue: Seq<PendingEntry>,
    pub app_log: Seq<u64>,
    pub next_id: u64,
}

/// Counter increment saturating at the largest representable value.
pub open spec fn sat_inc(c: usize) -> usize {
    if c == usize::MAX {
        c
    } else {
        (c + 1) as usize
    }
}

/// Counter decrement saturating at zero.
pub open spec fn sat_dec(c: usize) -> usize {
    if c == 0 {
        0
    } else {
        (c - 1) as usize
    }
}

/// `s` with every entry carrying `id` removed; the order of the rest is kept.
pub open spec fn remove_id(s: Seq<PendingEntry>, id: u64) -> Seq<PendingEntry>
    decreases s.len(),
{
    if s.len() == 0 {
        Seq::empty()
    } else if s.last().id == id {
        remove_id(s.drop_last(), id)
    } else {
        remove_id(s.drop_last(), id).push(s.last())
    }
}

/// How many entries of `s` carry `id`.
pub open spec fn count_id(s: Seq<PendingEntry>, id: u64) -> nat
    decreases s.len(),
{
    if s.len() == 0 {
        0
    } else {
        count_id(s.drop_last(), id) + (if s.last().id == id {
            1nat
        } else {
            0nat
        })
    }
}

/// The state a fresh application starts in: counter zero, not quitting,
/// nothing pending, nothing logged, ids starting at one.
pub open spec fn initial_view() -> AppView {
    AppView {
        counter: 0,
        should_quit: false,
        action_queue: Seq::empty(),
        app_log: Seq::empty(),
        next_id: 1,
    }
}

pub struct App {
    pub counter: usize,
    pub should_quit: bool,
    pub action_queue: Vec<PendingEntry>,
    pub app_log: Vec<u64>,
    pub next_id: u64,
}

impl View for App {
    type V = AppView;

    open spec fn view(&self) -> AppView {
        AppView {
            counter: self.counter,
            should_quit: self.should_quit,
            action_queue: self.action_queue@,
            app_log: self.app_log@,
            next_id: self.next_id,
        }
    }
}

impl Default for App {
    fn default() -> (app: Self)
        ensures
            app@ == initial_view(),
    {
        let app = App {
            counter: 0,
            should_quit: false,
            action_queue: Vec::new(),
            app_log: Vec::new(),
            next_id: 1,
        };
        proof {
            assert(app@ =~= initial_view());
        }
        app
    }
}

impl App {
    /// New instance of [`App`].
    pub fn new() -> (app: Self)
        ensures
            app@ == initial_view(),
    {
        Self::default()
    }

    /// Handles tick event; the state is untouched.
    pub fn tick(&self) {
    }

    /// Quit app: the flag only ever moves to `true`.
    pub fn quit(&mut self)
        ensures
            final(self)@ == (AppView { should_quit: true, ..old(self)@ }),
    {
        self.should_quit = true;
        proof {
            assert(self@ =~= (AppView { should_quit: true, ..old(self)@ }));
        }
    }

    /// Increment counter, saturating at the top of the range.
    pub fn increment_counter(&mut self)
        ensures
            final(self)@ == (AppView { counter: sat_inc(old(self).counter), ..old(self)@ }),
    {
        if let Some(res) = self.counter.checked_add(1) {
            self.counter = res;
        }
        proof {
            assert(self@ =~= (AppView { counter: sat_inc(old(self).counter), ..old(self)@ }));
        }
    }

    /// Decrement counter, saturating at zero.
    pub fn decrement_counter(&mut self)
        ensures
            final(self)@ == (AppView { counter: sat_dec(old(self).counter), ..old(self)@ }),
    {
        if let Some(res) = self.counter.checked_sub(1) {
            self.counter = res;
        }
        proof {
            assert(self@ =~= (AppView { counter: sat_dec(old(self).counter), ..old(self)@ }));
        }
    }

    /// Allocate a fresh correlation id; ids are handed out strictly
    /// increasing, starting at one, and are never reused.
    pub fn action_id(&mut self) -> (id: u64)
        requires
            old(self).next_id < u64::MAX,
        ensures
            id == old(self).next_id,
            final(self)@ == (AppView { next_id: (old(self).next_id + 1) as u64, ..old(self)@ }),
    {
        let id = self.next_id;
        self.next_id = self.next_id + 1;
        proof {
            assert(self@ =~= (AppView { next_id: (old(self).next_id + 1) as u64, ..old(self)@ }));
        }
        id
    }

    /// Remove every pending entry carrying `id`, keeping the rest in order.
    #[verifier::loop_isolation(false)]
    pub fn remove_pending(&mut self, id: u64)
        ensures
            final(self)@ == (AppView {
                action_queue: remove_id(old(self)@.action_queue, id),
                ..old(self)@
            }),
    {
        let mut kept: Vec<PendingEntry> = Vec::new();
        let mut i: usize = 0;
        while i < self.action_queue.len()
            invariant
                i <= self.action_queue.len(),
                kept@ == remove_id(self.action_queue@.take(i as int), id),
            decreases self.action_queue.len() - i,
        {
            proof {
                assert(self.action_queue@.take(i + 1).drop_last() =~= self.action_queue@.take(
                    i as int,
                ));
                assert(self.action_queue@.take(i + 1).last() == self.action_queue@[i as int]);
            }
            let entry = self.action_queue[i];
            if entry.id != id {
                kept.push(entry);
            }
            i = i + 1;
        }
        proof {
            assert(self.action_queue@.take(i as int) =~= self.action_queue@);
        }
        self.action_queue = kept;
        proof {
            assert(self@ =~= (AppView {
                action_queue: remove_id(old(self)@.action_queue, id),
                ..old(self)@
            }));
        }
    }
}

} // verus!
