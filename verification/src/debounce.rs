use vstd::prelude::*;

verus! {

/// Debounces a burst of raw change events into a single downstream signal.
///
/// Every event arms (or re-arms) a deadline one window past the event's
/// time; a poll fires exactly when a deadline is armed and has passed, and
/// disarms it.  Many events inside one window therefore collapse into a
/// single fire: the coalescing contract of the change watcher.
pub struct Debouncer {
    window: u64,
    deadline: Option<u64>,
}

impl Debouncer {
    /// The debounce window, in the caller's time unit.
    pub closed spec fn spec_window(self) -> u64 {
        self.window
    }

    /// The armed deadline, if any: the earliest time a poll may fire.
    pub closed spec fn spec_deadline(self) -> Option<u64> {
        self.deadline
    }

    /// A fresh debouncer with nothing armed.
    pub fn new(window: u64) -> (d: Debouncer)
        ensures
            d.spec_window() == window,
            d.spec_deadline() is None,
    {
        Debouncer { window, deadline: None }
    }

    /// Record one raw event at time `now`: the deadline is re-armed to one
    /// window past the latest event, so a burst keeps pushing a single
    /// deadline forward instead of queueing one signal per event.
    pub fn note_event(&mut self, now: u64)
        requires
            now + old(self).spec_window() <= u64::MAX,
        ensures
            final(self).spec_window() == old(self).spec_window(),
            final(self).spec_deadline() == Some((now + old(self).spec_window()) as u64),
    {
        self.deadline = Some(now + self.window);
    }

    /// Ask at time `now` whether the coalesced signal should fire.  Fires
    /// exactly when a deadline is armed and `now` has reached it, and then
    /// disarms, so one armed deadline yields at most one fire.
    pub fn poll(&mut self, now: u64) -> (fire: bool)
        ensures
            final(self).spec_window() == old(self).spec_window(),
            fire == (old(self).spec_deadline() matches Some(d) && now >= d),
            final(self).spec_deadline() == if fire {
                None::<u64>
            } else {
                old(self).spec_deadline()
            },
    {
        match self.deadline {
            Some(d) => {
                if now >= d {
                    self.deadline = None;
                    true
                } else {
                    false
                }
            },
            None => false,
        }
    }
}

/// One step of a debouncer's history: a raw event or a poll, each at a time.
pub enum DebounceStep {
    Event { at: u64 },
    Poll { at: u64 },
}

/// The deadline after running `steps` from deadline state `deadline`
/// with window `window`, mirroring `note_event` and `poll`.
pub open spec fn run_deadline(deadline: Option<u64>, window: u64, steps: Seq<DebounceStep>) -> Option<
    u64,
>
    decreases steps.len(),
{
    if steps.len() == 0 {
        deadline
    } else {
        let rest = run_deadline(deadline, window, steps.drop_last());
        match steps.last() {
            DebounceStep::Event { at } => Some((at + window) as u64),
            DebounceStep::Poll { at } => if rest matches Some(d) && at >= d {
                None
            } else {
                rest
            },
        }
    }
}

/// How many times the debouncer fires over `steps`, starting from
/// deadline state `deadline` with window `window`.
pub open spec fn count_fires(deadline: Option<u64>, window: u64, steps: Seq<DebounceStep>) -> nat
    decreases steps.len(),
{
    if steps.len() == 0 {
        0
    } else {
        let rest = run_deadline(deadline, window, steps.drop_last());
        count_fires(deadline, window, steps.drop_last()) + match steps.last() {
            DebounceStep::Poll { at } => if rest matches Some(d) && at >= d {
                1nat
            } else {
                0nat
            },
            DebounceStep::Event { .. } => 0nat,
        }
    }
}

/// Every step in `steps` is a poll.
pub open spec fn all_polls(steps: Seq<DebounceStep>) -> bool {
    forall|i: int| 0 <= i < steps.len() ==> steps[i] is Poll
}

/// Debounce coalescing: any burst of raw events, however large, followed
/// by any run of polls, fires at most once — and fires exactly once when
/// some poll comes at or after the deadline armed by the last event.
/// With one fire driving one rescan, a burst yields exactly one rescan.
pub proof fn lemma_debounce_coalescing(
    window: u64,
    events: Seq<DebounceStep>,
    polls: Seq<DebounceStep>,
)
    requires
        events.len() > 0,
        forall|i: int| 0 <= i < events.len() ==> events[i] is Event,
        all_polls(polls),
    ensures
        count_fires(None, window, events + polls) <= 1,
        (exists|i: int|
            0 <= i < polls.len() && polls[i]->Poll_at
                >= run_deadline(None, window, events)->Some_0) ==> count_fires(
            None,
            window,
            events + polls,
        ) == 1,
{
    lemma_events_arm_last(window, events);
    let armed = run_deadline(None, window, events);
    lemma_armed_polls_fire_once(window, events, polls, armed->Some_0);
}

/// Running only events never fires and leaves the deadline armed from the
/// last event.
proof fn lemma_events_arm_last(window: u64, events: Seq<DebounceStep>)
    requires
        events.len() > 0,
        forall|i: int| 0 <= i < events.len() ==> events[i] is Event,
    ensures
        run_deadline(None, window, events) == Some(
            ((events.last()->Event_at + window) as u64),
        ),
        count_fires(None, window, events) == 0,
    decreases events.len(),
{
    if events.len() > 1 {
        assert(forall|i: int|
            0 <= i < events.drop_last().len() ==> events.drop_last()[i] is Event);
        lemma_events_arm_last(window, events.drop_last());
    } else {
        assert(events.drop_last().len() == 0);
        assert(run_deadline(None, window, events.drop_last()) is None);
        assert(count_fires(None, window, events.drop_last()) == 0);
    }
}

/// From an armed deadline, a run of polls fires at most once, and exactly
/// once when some poll reaches the deadline.
proof fn lemma_armed_polls_fire_once(
    window: u64,
    prefix: Seq<DebounceStep>,
    polls: Seq<DebounceStep>,
    d: u64,
)
    requires
        all_polls(polls),
        run_deadline(None, window, prefix) == Some(d),
        count_fires(None, window, prefix) == 0,
    ensures
        count_fires(None, window, prefix + polls) <= 1,
        (exists|i: int| 0 <= i < polls.len() && polls[i]->Poll_at >= d) ==> count_fires(
            None,
            window,
            prefix + polls,
        ) == 1,
    decreases polls.len(),
{
    if polls.len() == 0 {
        assert(prefix + polls =~= prefix);
    } else {
        let whole = prefix + polls;
        let shorter = polls.drop_last();
        assert(whole.drop_last() =~= prefix + shorter);
        assert(forall|i: int| 0 <= i < shorter.len() ==> shorter[i] == polls[i]);
        lemma_armed_polls_fire_once(window, prefix, shorter, d);
        let rest = run_deadline(None, window, prefix + shorter);
        if count_fires(None, window, prefix + shorter) == 0 {
            lemma_quiet_polls_keep_deadline(window, prefix, shorter, d);
            assert(rest == Some(d));
        } else {
            lemma_fired_polls_disarm(window, prefix, shorter, d);
            assert(rest is None);
        }
        if (exists|i: int| 0 <= i < polls.len() && polls[i]->Poll_at >= d) {
            let i = choose|i: int| 0 <= i < polls.len() && polls[i]->Poll_at >= d;
            if i < shorter.len() {
                assert(shorter[i] == polls[i]);
            } else {
                assert(polls.last() == polls[i]);
            }
        }
    }
}

/// While no fire has happened, polls leave the armed deadline in place.
proof fn lemma_quiet_polls_keep_deadline(
    window: u64,
    prefix: Seq<DebounceStep>,
    polls: Seq<DebounceStep>,
    d: u64,
)
    requires
        all_polls(polls),
        run_deadline(None, window, prefix) == Some(d),
        count_fires(None, window, prefix) == 0,
        count_fires(None, window, prefix + polls) == 0,
    ensures
        run_deadline(None, window, prefix + polls) == Some(d),
    decreases polls.len(),
{
    if polls.len() == 0 {
        assert(prefix + polls =~= prefix);
    } else {
        let shorter = polls.drop_last();
        assert((prefix + polls).drop_last() =~= prefix + shorter);
        assert(forall|i: int| 0 <= i < shorter.len() ==> shorter[i] == polls[i]);
        assert(count_fires(None, window, prefix + shorter) <= count_fires(
            None,
            window,
            prefix + polls,
        ));
        lemma_quiet_polls_keep_deadline(window, prefix, shorter, d);
    }
}

/// After the one fire, nothing stays armed: later polls cannot fire again.
proof fn lemma_fired_polls_disarm(
    window: u64,
    prefix: Seq<DebounceStep>,
    polls: Seq<DebounceStep>,
    d: u64,
)
    requires
        all_polls(polls),
        run_deadline(None, window, prefix) == Some(d),
        count_fires(None, window, prefix) == 0,
        count_fires(None, window, prefix + polls) >= 1,
    ensures
        run_deadline(None, window, prefix + polls) is None,
        count_fires(None, window, prefix + polls) == 1,
    decreases polls.len(),
{
    if polls.len() == 0 {
        assert(prefix + polls =~= prefix);
    } else {
        let shorter = polls.drop_last();
        assert((prefix + polls).drop_last() =~= prefix + shorter);
        assert(forall|i: int| 0 <= i < shorter.len() ==> shorter[i] == polls[i]);
        let rest = run_deadline(None, window, prefix + shorter);
        if count_fires(None, window, prefix + shorter) == 0 {
            lemma_quiet_polls_keep_deadline(window, prefix, shorter, d);
        } else {
            lemma_fired_polls_disarm(window, prefix, shorter, d);
        }
    }
}

} // verus!
