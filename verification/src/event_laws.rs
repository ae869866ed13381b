//! What holds of a bus of events: who is told of what.

use vstd::prelude::*;

use crate::events::{
    event_name, listening, live_listeners, BusView, HarnessEvent, WatchView,
};

verus! {

/// Those are told of an event of a type that asked for that type, in the order in
/// which they came.
pub proof fn law_listeners_are_told_in_order(
    all: Seq<(Seq<char>, usize)>,
    event_type: Seq<char>,
)
    ensures
        listening(all, event_type) == all.filter_map(
            |s: (Seq<char>, usize)|
                if s.0 == event_type {
                    Some(s.1)
                } else {
                    None
                },
        ),
    decreases all.len(),
{
    let f = |s: (Seq<char>, usize)|
        if s.0 == event_type {
            Some(s.1)
        } else {
            None
        };
    if all.len() > 0 {
        law_listeners_are_told_in_order(all.drop_last(), event_type);
    }
    assert(listening(all, event_type) =~= all.filter_map(f));
}

/// Of the watchers those are told that have started and not stopped, in order.
pub proof fn law_live_watchers_are_told_in_order(watchers: Seq<WatchView>)
    ensures
        live_listeners(watchers) == watchers.filter_map(
            |w: WatchView|
                match w {
                    WatchView::Live(listener) => Some(listener),
                    _ => None,
                },
        ),
    decreases watchers.len(),
{
    let f = |w: WatchView|
        match w {
            WatchView::Live(listener) => Some(listener),
            _ => None,
        };
    if watchers.len() > 0 {
        law_live_watchers_are_told_in_order(watchers.drop_last());
    }
    assert(live_listeners(watchers) =~= watchers.filter_map(f));
}

/// Of an event first those are told that asked for its type, and then the
/// watchers. Watchers that have not started keep it, and nothing else changes.
pub proof fn law_events_are_told_and_kept(bus: BusView, event: HarnessEvent, i: int)
    requires
        0 <= i < bus.watchers.len(),
    ensures
        ({
            let told = bus.told(event);
            let first = listening(
                bus.listeners,
                match event {
                    HarnessEvent::RunStart { .. } => "run_start"@,
                    HarnessEvent::RunEnd { .. } => "run_end"@,
                },
            );
            &&& told.take(first.len() as int) == first
            &&& told.skip(first.len() as int) == live_listeners(bus.watchers)
        }),
        bus.emitted(event).listeners == bus.listeners,
        bus.emitted(event).watchers.len() == bus.watchers.len(),
        match bus.watchers[i] {
            WatchView::Buffering(kept) => bus.emitted(event).watchers[i] == WatchView::Buffering(
                kept.push(event),
            ),
            _ => bus.emitted(event).watchers[i] == bus.watchers[i],
        },
{
    let first = listening(bus.listeners, event_name(event));
    let told = bus.told(event);
    assert(told.take(first.len() as int) =~= first);
    assert(told.skip(first.len() as int) =~= live_listeners(bus.watchers));
}

} // verus!
