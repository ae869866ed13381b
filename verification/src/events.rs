//! Events of runs, who is told of them, and watchers that miss none.

use vstd::prelude::*;

use crate::text::same_text;

verus! {

/// How a run ended.
#[derive(Clone, Copy, PartialEq, Eq, Structural, Debug)]
pub enum RunOutcome {
    Completed,
    Aborted,
    Failed,
}

/// The name of an outcome.
pub open spec fn outcome_name(outcome: RunOutcome) -> Seq<char> {
    match outcome {
        RunOutcome::Completed => "completed"@,
        RunOutcome::Aborted => "aborted"@,
        RunOutcome::Failed => "failed"@,
    }
}

impl RunOutcome {
    /// The name of this outcome.
    pub fn as_str(self) -> (r: &'static str)
        ensures
            r@ == outcome_name(self),
    {
        match self {
            RunOutcome::Completed => "completed",
            RunOutcome::Aborted => "aborted",
            RunOutcome::Failed => "failed",
        }
    }
}

/// A run starts or ends.
pub enum HarnessEvent {
    RunStart { lane: String, run_id: String },
    RunEnd { lane: String, run_id: String, outcome: RunOutcome, leaf_id: String },
}

impl Clone for HarnessEvent {
    fn clone(&self) -> (r: Self)
        ensures
            r == *self,
    {
        match self {
            HarnessEvent::RunStart { lane, run_id } => HarnessEvent::RunStart {
                lane: lane.clone(),
                run_id: run_id.clone(),
            },
            HarnessEvent::RunEnd { lane, run_id, outcome, leaf_id } => HarnessEvent::RunEnd {
                lane: lane.clone(),
                run_id: run_id.clone(),
                outcome: *outcome,
                leaf_id: leaf_id.clone(),
            },
        }
    }
}

/// The name of the type of an event.
pub open spec fn event_name(event: HarnessEvent) -> Seq<char> {
    match event {
        HarnessEvent::RunStart { .. } => "run_start"@,
        HarnessEvent::RunEnd { .. } => "run_end"@,
    }
}

impl HarnessEvent {
    /// The name of the type of this event.
    pub fn event_type(&self) -> (r: &'static str)
        ensures
            r@ == event_name(*self),
    {
        match self {
            HarnessEvent::RunStart { .. } => "run_start",
            HarnessEvent::RunEnd { .. } => "run_end",
        }
    }
}

/// A listener, by its number, for events of one type.
pub struct Subscription {
    pub event_type: String,
    pub listener: usize,
}

/// What a watcher does with events.
pub enum WatchState {
    /// Events are kept until the watcher starts.
    Buffering(Vec<HarnessEvent>),
    /// Events go to a listener.
    Live(usize),
    /// Events are dropped.
    Stopped,
}

/// Who is told of events.
pub struct HarnessEventBus {
    pub listeners: Vec<Subscription>,
    pub watchers: Vec<WatchState>,
}

/// The mathematical value of a [`WatchState`].
pub enum WatchView {
    Buffering(Seq<HarnessEvent>),
    Live(usize),
    Stopped,
}

impl View for WatchState {
    type V = WatchView;

    open spec fn view(&self) -> WatchView {
        match *self {
            WatchState::Buffering(events) => WatchView::Buffering(events@),
            WatchState::Live(listener) => WatchView::Live(listener),
            WatchState::Stopped => WatchView::Stopped,
        }
    }
}

/// The mathematical value of a [`HarnessEventBus`].
pub struct BusView {
    pub listeners: Seq<(Seq<char>, usize)>,
    pub watchers: Seq<WatchView>,
}

impl View for HarnessEventBus {
    type V = BusView;

    open spec fn view(&self) -> BusView {
        BusView {
            listeners: subscription_views(self.listeners@),
            watchers: watch_views(self.watchers@),
        }
    }
}

/// The mathematical values of subscriptions.
pub open spec fn subscription_views(s: Seq<Subscription>) -> Seq<(Seq<char>, usize)> {
    Seq::new(s.len(), |i: int| (s[i].event_type@, s[i].listener))
}

/// The mathematical values of watchers.
pub open spec fn watch_views(s: Seq<WatchState>) -> Seq<WatchView> {
    Seq::new(s.len(), |i: int| s[i]@)
}

/// The listeners for events of one type, in the order in which they came.
pub open spec fn listening(all: Seq<(Seq<char>, usize)>, event_type: Seq<char>) -> Seq<usize>
    decreases all.len(),
{
    if all.len() == 0 {
        Seq::empty()
    } else {
        let before = listening(all.drop_last(), event_type);
        if all.last().0 == event_type {
            before.push(all.last().1)
        } else {
            before
        }
    }
}

/// The subscriptions but those of one listener to one type.
pub open spec fn without(
    all: Seq<(Seq<char>, usize)>,
    event_type: Seq<char>,
    listener: usize,
) -> Seq<(Seq<char>, usize)>
    decreases all.len(),
{
    if all.len() == 0 {
        Seq::empty()
    } else {
        let before = without(all.drop_last(), event_type, listener);
        if all.last() == (event_type, listener) {
            before
        } else {
            before.push(all.last())
        }
    }
}

/// The listeners of the watchers that have started.
pub open spec fn live_listeners(watchers: Seq<WatchView>) -> Seq<usize>
    decreases watchers.len(),
{
    if watchers.len() == 0 {
        Seq::empty()
    } else {
        let before = live_listeners(watchers.drop_last());
        match watchers.last() {
            WatchView::Live(listener) => before.push(listener),
            _ => before,
        }
    }
}

/// A watcher after an event: it keeps the event if it has not started.
pub open spec fn noticed(watcher: WatchView, event: HarnessEvent) -> WatchView {
    match watcher {
        WatchView::Buffering(events) => WatchView::Buffering(events.push(event)),
        _ => watcher,
    }
}

impl BusView {
    /// The bus after an event.
    pub open spec fn emitted(self, event: HarnessEvent) -> BusView {
        BusView {
            watchers: Seq::new(self.watchers.len(), |i: int| noticed(self.watchers[i], event)),
            ..self
        }
    }

    /// The bus after events.
    pub open spec fn emitted_all(self, events: Seq<HarnessEvent>) -> BusView
        decreases events.len(),
    {
        if events.len() == 0 {
            self
        } else {
            self.emitted_all(events.drop_last()).emitted(events.last())
        }
    }

    /// Who is told of an event: listeners for its type first, then watchers.
    pub open spec fn told(self, event: HarnessEvent) -> Seq<usize> {
        listening(self.listeners, event_name(event)) + live_listeners(self.watchers)
    }
}

impl HarnessEventBus {
    /// Nobody is told of anything.
    pub fn new() -> (r: Self)
        ensures
            r@ == (BusView { listeners: Seq::empty(), watchers: Seq::empty() }),
    {
        let r = HarnessEventBus { listeners: Vec::new(), watchers: Vec::new() };
        proof {
            assert(r@.listeners =~= Seq::<(Seq<char>, usize)>::empty());
            assert(r@.watchers =~= Seq::<WatchView>::empty());
        }
        r
    }

    /// A listener is told of events of one type from now on. Its number takes
    /// it off again.
    pub fn on(&mut self, event_type: &'static str, listener: usize) -> (r: usize)
        ensures
            r == listener,
            final(self)@ == (BusView {
                listeners: old(self)@.listeners.push((event_type@, listener)),
                ..old(self)@
            }),
    {
        let ghost before = self.listeners@;
        self.listeners.push(Subscription { event_type: event_type.to_string(), listener });
        proof {
            assert(subscription_views(self.listeners@) =~= subscription_views(before).push(
                (event_type@, listener),
            ));
        }
        listener
    }

    /// A listener is no longer told of events of one type.
    pub fn off(&mut self, event_type: &'static str, listener_id: usize)
        ensures
            final(self)@ == (BusView {
                listeners: without(old(self)@.listeners, event_type@, listener_id),
                ..old(self)@
            }),
    {
        let ghost all = subscription_views(self.listeners@);
        let mut kept: Vec<Subscription> = Vec::new();
        let mut i: usize = 0;
        proof {
            assert(all.take(0) =~= Seq::<(Seq<char>, usize)>::empty());
            assert(subscription_views(kept@) =~= Seq::<(Seq<char>, usize)>::empty());
        }
        while i < self.listeners.len()
            invariant
                i <= self.listeners@.len(),
                self == old(self),
                all == subscription_views(self.listeners@),
                subscription_views(kept@) == without(
                    all.take(i as int),
                    event_type@,
                    listener_id,
                ),
            decreases self.listeners@.len() - i,
        {
            let ghost before = kept@;
            proof {
                assert(all.take(i + 1).drop_last() =~= all.take(i as int));
                assert(all.take(i + 1).last() == all[i as int]);
            }
            let matches: bool = same_text(self.listeners[i].event_type.as_str(), event_type)
                && self.listeners[i].listener == listener_id;
            if !matches {
                kept.push(
                    Subscription {
                        event_type: self.listeners[i].event_type.clone(),
                        listener: self.listeners[i].listener,
                    },
                );
                proof {
                    assert(subscription_views(kept@) =~= subscription_views(before).push(
                        all[i as int],
                    ));
                }
            }
            i = i + 1;
        }
        proof {
            assert(all.take(all.len() as int) =~= all);
        }
        self.listeners = kept;
    }

    fn told(&self, event: &HarnessEvent) -> (r: Vec<usize>)
        ensures
            r@ == self@.told(*event),
    {
        let event_type: &'static str = event.event_type();
        let ghost all = self@.listeners;
        let ghost watchers = self@.watchers;
        let mut told: Vec<usize> = Vec::new();
        let mut i: usize = 0;
        proof {
            assert(all.take(0) =~= Seq::<(Seq<char>, usize)>::empty());
        }
        while i < self.listeners.len()
            invariant
                i <= self.listeners@.len(),
                all == self@.listeners,
                told@ == listening(all.take(i as int), event_type@),
            decreases self.listeners@.len() - i,
        {
            proof {
                assert(all.take(i + 1).drop_last() =~= all.take(i as int));
                assert(all.take(i + 1).last() == all[i as int]);
            }
            if same_text(self.listeners[i].event_type.as_str(), event_type) {
                told.push(self.listeners[i].listener);
            }
            i = i + 1;
        }
        let ghost direct = told@;
        proof {
            assert(all.take(all.len() as int) =~= all);
            assert(watchers.take(0) =~= Seq::<WatchView>::empty());
            assert(direct + live_listeners(watchers.take(0)) =~= direct);
        }
        i = 0;
        while i < self.watchers.len()
            invariant
                i <= self.watchers@.len(),
                watchers == self@.watchers,
                told@ == direct + live_listeners(watchers.take(i as int)),
            decreases self.watchers@.len() - i,
        {
            proof {
                assert(watchers.take(i + 1).drop_last() =~= watchers.take(i as int));
                assert(watchers.take(i + 1).last() == self.watchers@[i as int]@);
            }
            match &self.watchers[i] {
                WatchState::Live(listener) => {
                    told.push(*listener);
                },
                _ => {},
            }
            proof {
                assert(told@ =~= direct + live_listeners(watchers.take(i + 1)));
            }
            i = i + 1;
        }
        proof {
            assert(watchers.take(watchers.len() as int) =~= watchers);
        }
        told
    }

    /// Publishes an event: gives who is told of it, in order, and lets the
    /// watchers that have not started keep it.
    pub fn emit(&mut self, event: HarnessEvent) -> (r: Vec<usize>)
        ensures
            r@ == old(self)@.told(event),
            final(self)@ == old(self)@.emitted(event),
    {
        let told: Vec<usize> = self.told(&event);
        let ghost start = self@;
        let n: usize = self.watchers.len();
        let mut i: usize = 0;
        while i < n
            invariant
                i <= n,
                n == self.watchers@.len(),
                n == start.watchers.len(),
                self@.listeners == start.listeners,
                forall|k: int|
                    0 <= k < n ==> #[trigger] self@.watchers[k] == (if k < i {
                        noticed(start.watchers[k], event)
                    } else {
                        start.watchers[k]
                    }),
            decreases n - i,
        {
            let ghost before = self@;
            proof {
                assert(before.watchers[i as int] == start.watchers[i as int]);
            }
            let mut watcher = WatchState::Stopped;
            std::mem::swap(&mut watcher, &mut self.watchers[i]);
            let after: WatchState = match watcher {
                WatchState::Buffering(mut events) => {
                    events.push(event.clone());
                    WatchState::Buffering(events)
                },
                other => other,
            };
            self.watchers.set(i, after);
            proof {
                assert forall|k: int| 0 <= k < n implies #[trigger] self@.watchers[k] == (if k < i
                    + 1 {
                    noticed(start.watchers[k], event)
                } else {
                    start.watchers[k]
                }) by {
                    if k != i {
                        assert(self@.watchers[k] == before.watchers[k]);
                    }
                }
            }
            i = i + 1;
        }
        proof {
            assert(self@.watchers =~= start.emitted(event).watchers);
        }
        told
    }

    /// A watcher that keeps events until it starts. What is to be watched is
    /// captured after this, so that no event falls between.
    pub fn watch(&mut self) -> (r: WatchHandle)
        ensures
            r.watcher == old(self)@.watchers.len(),
            final(self)@ == (BusView {
                watchers: old(self)@.watchers.push(WatchView::Buffering(Seq::empty())),
                ..old(self)@
            }),
    {
        let ghost before = self.watchers@;
        let watcher: usize = self.watchers.len();
        self.watchers.push(WatchState::Buffering(Vec::new()));
        proof {
            assert(self.watchers@.last()@ == WatchView::Buffering(Seq::empty()));
            assert(watch_views(self.watchers@) =~= watch_views(before).push(
                WatchView::Buffering(Seq::empty()),
            ));
        }
        WatchHandle { watcher }
    }
}

/// A watcher, by its place on a bus.
pub struct WatchHandle {
    pub watcher: usize,
}

impl WatchHandle {
    /// Starts the watcher. Events that it kept are handed out, to be delivered
    /// before it is started again; once there are none, the listener is told of
    /// events as they come.
    pub fn start(&self, bus: &mut HarnessEventBus, listener: usize) -> (r: Vec<HarnessEvent>)
        requires
            self.watcher < old(bus)@.watchers.len(),
        ensures
            r@ == (match old(bus)@.watchers[self.watcher as int] {
                WatchView::Buffering(events) => events,
                _ => Seq::empty(),
            }),
            final(bus)@ == (BusView {
                watchers: old(bus)@.watchers.update(
                    self.watcher as int,
                    if r@.len() == 0 {
                        WatchView::Live(listener)
                    } else {
                        WatchView::Buffering(Seq::empty())
                    },
                ),
                ..old(bus)@
            }),
    {
        let ghost before = bus.watchers@;
        let mut watcher = WatchState::Stopped;
        std::mem::swap(&mut watcher, &mut bus.watchers[self.watcher]);
        let pending: Vec<HarnessEvent> = match watcher {
            WatchState::Buffering(events) => events,
            _ => Vec::new(),
        };
        let after: WatchState = if pending.len() == 0 {
            WatchState::Live(listener)
        } else {
            WatchState::Buffering(Vec::new())
        };
        bus.watchers.set(self.watcher, after);
        proof {
            assert(before[self.watcher as int]@ == old(bus)@.watchers[self.watcher as int]);
            assert(watch_views(bus.watchers@) =~= watch_views(before).update(
                self.watcher as int,
                after@,
            ));
        }
        pending
    }

    /// Stops watching and drops the events that were kept.
    pub fn unsubscribe(&self, bus: &mut HarnessEventBus)
        requires
            self.watcher < old(bus)@.watchers.len(),
        ensures
            final(bus)@ == (BusView {
                watchers: old(bus)@.watchers.update(self.watcher as int, WatchView::Stopped),
                ..old(bus)@
            }),
    {
        let ghost before = bus.watchers@;
        bus.watchers.set(self.watcher, WatchState::Stopped);
        proof {
            assert(watch_views(bus.watchers@) =~= watch_views(before).update(
                self.watcher as int,
                WatchView::Stopped,
            ));
        }
    }
}

/// A watcher that has not started keeps every event, in order.
pub proof fn law_watchers_miss_nothing(
    bus: BusView,
    watcher: int,
    kept: Seq<HarnessEvent>,
    events: Seq<HarnessEvent>,
)
    requires
        0 <= watcher < bus.watchers.len(),
        bus.watchers[watcher] == WatchView::Buffering(kept),
    ensures
        bus.emitted_all(events).watchers.len() == bus.watchers.len(),
        bus.emitted_all(events).watchers[watcher] == WatchView::Buffering(kept + events),
    decreases events.len(),
{
    if events.len() > 0 {
        law_watchers_miss_nothing(bus, watcher, kept, events.drop_last());
        assert((kept + events.drop_last()).push(events.last()) =~= kept + events);
    } else {
        assert(kept + events =~= kept);
    }
}

/// A listener that was taken off is not told of events of that type as a
/// listener.
pub proof fn law_listeners_taken_off_are_not_told(
    all: Seq<(Seq<char>, usize)>,
    event_type: Seq<char>,
    listener: usize,
)
    ensures
        !listening(without(all, event_type, listener), event_type).contains(listener),
    decreases all.len(),
{
    if all.len() > 0 {
        law_listeners_taken_off_are_not_told(all.drop_last(), event_type, listener);
        let before = without(all.drop_last(), event_type, listener);
        if all.last() != (event_type, listener) {
            assert(before.push(all.last()).drop_last() =~= before);
            let told = listening(before, event_type);
            if all.last().0 == event_type {
                assert forall|i: int| 0 <= i < told.push(all.last().1).len() implies told.push(
                    all.last().1,
                )[i] != listener by {
                    if i < told.len() {
                        assert(told.contains(told[i]));
                    }
                }
            }
        }
    }
}

/// Taking a listener off undoes that it was put on: who was told before is told
/// again. Only a listener that was told of such events already is off for good.
pub proof fn law_taking_off_undoes_putting_on(
    all: Seq<(Seq<char>, usize)>,
    event_type: Seq<char>,
    listener: usize,
)
    ensures
        without(all.push((event_type, listener)), event_type, listener) == without(
            all,
            event_type,
            listener,
        ),
        !all.contains((event_type, listener)) ==> without(all, event_type, listener) == all,
    decreases all.len(),
{
    assert(all.push((event_type, listener)).drop_last() =~= all);
    if all.len() > 0 {
        let front = all.drop_last();
        law_taking_off_undoes_putting_on(front, event_type, listener);
        if !all.contains((event_type, listener)) {
            assert(!front.contains((event_type, listener))) by {
                if front.contains((event_type, listener)) {
                    let k = front.index_of((event_type, listener));
                    assert(all[k] == (event_type, listener));
                }
            }
            assert(all.last() == all[all.len() - 1]);
            assert(front.push(all.last()) =~= all);
        }
    } else {
        assert(without(all, event_type, listener) =~= all);
    }
}

/// Taking a listener off changes nothing for events of another type.
pub proof fn law_other_types_stay(
    all: Seq<(Seq<char>, usize)>,
    event_type: Seq<char>,
    listener: usize,
    other: Seq<char>,
)
    requires
        other != event_type,
    ensures
        listening(without(all, event_type, listener), other) == listening(all, other),
    decreases all.len(),
{
    if all.len() > 0 {
        law_other_types_stay(all.drop_last(), event_type, listener, other);
        let before = without(all.drop_last(), event_type, listener);
        if all.last() != (event_type, listener) {
            assert(before.push(all.last()).drop_last() =~= before);
        }
    }
}

} // verus!
