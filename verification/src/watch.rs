//! The two callbacks: when the caller is told that the instances have stopped,
//! and when it is told to look at the state of the running instances again.
//!
//! A watch says what its thread does next. The thread asks, does it, and asks
//! again, with the state at that moment. The watch for the end remembers how many
//! stops there had been when it was registered, so that a stop is not missed where
//! a new start follows it at once.
use vstd::prelude::*;

use crate::instances;
use crate::session::{self, Bridge};

verus! {

/// What the thread of a watch does next.
#[derive(Clone, Copy, Debug, PartialEq, Eq, Structural)]
pub enum WatchAction {
    /// Sleep that many milliseconds.
    Sleep(u64),
    /// Call the callback.
    Fire,
    /// End.
    End,
}

/// The watch for the end of the session. `seen` is the count of stops when it was
/// registered.
#[derive(Clone, Copy, Debug, PartialEq, Eq, Structural)]
pub enum StopWatch {
    Armed { seen: u64 },
    Polling { seen: u64 },
    Ended,
}

/// The watch for changes of the running instances.
#[derive(Clone, Copy, Debug, PartialEq, Eq, Structural)]
pub enum InfoWatch {
    Armed,
    Settled,
    Idle,
    Polling,
    Ended,
}

/// The session is over: the instances were asked to stop, or none runs.
pub open spec fn session_over(b: session::BridgeView) -> bool {
    b.stop_requested || b.instances == instances::no_instances()
}

/// The session is over, or there was a stop since `seen` were counted, whatever
/// has been started since.
pub open spec fn over_since(b: session::BridgeView, seen: u64) -> bool {
    session_over(b) || b.stops != seen
}

/// What follows in a watch for the end. It looks every half second, and fires
/// once, when it finds the session over or a stop that was not there before.
pub open spec fn stop_next(watch: StopWatch, b: session::BridgeView) -> (StopWatch, WatchAction) {
    match watch {
        StopWatch::Armed { seen } => (StopWatch::Polling { seen }, WatchAction::Sleep(500)),
        StopWatch::Polling { seen } => if over_since(b, seen) {
            (StopWatch::Ended, WatchAction::Fire)
        } else {
            (StopWatch::Polling { seen }, WatchAction::Sleep(500))
        },
        StopWatch::Ended => (StopWatch::Ended, WatchAction::End),
    }
}

/// What follows in a watch for changes. It fires two seconds after the start, and
/// every thirty seconds from then on until it finds the session over.
pub open spec fn info_next(watch: InfoWatch, over: bool) -> (InfoWatch, WatchAction) {
    match watch {
        InfoWatch::Armed => (InfoWatch::Settled, WatchAction::Sleep(2000)),
        InfoWatch::Settled => (InfoWatch::Idle, WatchAction::Fire),
        InfoWatch::Idle => (InfoWatch::Polling, WatchAction::Sleep(30000)),
        InfoWatch::Polling => if over {
            (InfoWatch::Ended, WatchAction::End)
        } else {
            (InfoWatch::Idle, WatchAction::Fire)
        },
        InfoWatch::Ended => (InfoWatch::Ended, WatchAction::End),
    }
}

/// Tells whether the session is over.
pub fn is_session_over(bridge: &Bridge) -> (r: bool)
    ensures
        r == session_over(bridge@),
{
    bridge.stop_requested || bridge.instances.is_empty()
}

/// Tells whether the session is over, or there was a stop since `seen` were
/// counted.
pub fn is_over_since(bridge: &Bridge, seen: u64) -> (r: bool)
    ensures
        r == over_since(bridge@, seen),
{
    is_session_over(bridge) || bridge.stops != seen
}

/// Registers the callback for the end of the session: the status, and the watch
/// to run, unless no callback is given.
pub fn register_stop_callback(bridge: &Bridge, given: bool) -> (r: (i32, Option<StopWatch>))
    ensures
        r.0 == 0,
        r.1 == (if given {
            Some(StopWatch::Armed { seen: bridge@.stops })
        } else {
            None
        }),
{
    if !given {
        return (0, None);
    }
    (0, Some(StopWatch::Armed { seen: bridge.stops }))
}

/// Registers the callback for changes of the running instances: the status, and
/// the watch to run, unless no callback is given.
pub fn register_running_info_callback(given: bool) -> (r: (i32, Option<InfoWatch>))
    ensures
        r.0 == 0,
        r.1 == (if given {
            Some(InfoWatch::Armed)
        } else {
            None
        }),
{
    if !given {
        return (0, None);
    }
    (0, Some(InfoWatch::Armed))
}

impl StopWatch {
    /// What the thread does next, by the state at that moment.
    pub fn step(&mut self, bridge: &Bridge) -> (r: WatchAction)
        ensures
            (*final(self), r) == stop_next(*old(self), bridge@),
    {
        match *self {
            StopWatch::Armed { seen } => {
                *self = StopWatch::Polling { seen };
                WatchAction::Sleep(500)
            },
            StopWatch::Polling { seen } => if is_over_since(bridge, seen) {
                *self = StopWatch::Ended;
                WatchAction::Fire
            } else {
                WatchAction::Sleep(500)
            },
            StopWatch::Ended => WatchAction::End,
        }
    }
}

impl InfoWatch {
    /// What the thread does next.
    pub fn step(&mut self, over: bool) -> (r: WatchAction)
        ensures
            (*final(self), r) == info_next(*old(self), over),
    {
        match *self {
            InfoWatch::Armed => {
                *self = InfoWatch::Settled;
                WatchAction::Sleep(2000)
            },
            InfoWatch::Settled => {
                *self = InfoWatch::Idle;
                WatchAction::Fire
            },
            InfoWatch::Idle => {
                *self = InfoWatch::Polling;
                WatchAction::Sleep(30000)
            },
            InfoWatch::Polling => if over {
                *self = InfoWatch::Ended;
                WatchAction::End
            } else {
                *self = InfoWatch::Idle;
                WatchAction::Fire
            },
            InfoWatch::Ended => WatchAction::End,
        }
    }
}

/// The watch for the end that was registered after `seen` stops, after steps that
/// found those states.
pub open spec fn stop_after(seen: u64, states: Seq<session::BridgeView>) -> StopWatch
    decreases states.len(),
{
    if states.len() == 0 {
        StopWatch::Armed { seen }
    } else {
        stop_next(stop_after(seen, states.drop_last()), states.last()).0
    }
}

/// What the watch for the end does in the last of such steps.
pub open spec fn stop_action(seen: u64, states: Seq<session::BridgeView>) -> WatchAction {
    stop_next(stop_after(seen, states.drop_last()), states.last()).1
}

/// The watch for changes after steps that found the session over as `overs` says.
pub open spec fn info_after(overs: Seq<bool>) -> InfoWatch
    decreases overs.len(),
{
    if overs.len() == 0 {
        InfoWatch::Armed
    } else {
        info_next(info_after(overs.drop_last()), overs.last()).0
    }
}

/// What the watch for changes does in the last of such steps.
pub open spec fn info_action(overs: Seq<bool>) -> WatchAction {
    info_next(info_after(overs.drop_last()), overs.last()).1
}

/// No look of the watch for the end, before step `n`, found the session over or a
/// stop. It looks in every step but the first.
pub open spec fn never_over(seen: u64, states: Seq<session::BridgeView>, n: int) -> bool {
    forall|i: int| 1 <= i < n ==> !over_since(#[trigger] states[i], seen)
}

/// No look of the watch for changes, before step `n`, found the session over. It
/// looks in every other step, from the fourth on.
pub open spec fn never_over_at_looks(overs: Seq<bool>, n: int) -> bool {
    forall|i: int| 3 <= i < n && i % 2 == 1 ==> !#[trigger] overs[i]
}

/// The callback for the end is called exactly once: at the first look that finds
/// the session over or a stop. Before it there is nothing but sleep, after it
/// nothing.
pub proof fn law_stop_callback_fires_once(seen: u64, states: Seq<session::BridgeView>)
    requires
        states.len() > 0,
    ensures
        ({
            let last = states.len() - 1;
            stop_action(seen, states) == if !never_over(seen, states, last) {
                WatchAction::End
            } else if last >= 1 && over_since(states[last], seen) {
                WatchAction::Fire
            } else {
                WatchAction::Sleep(500)
            }
        }),
{
    let front = states.drop_last();
    lemma_stop_after(seen, front);
    assert(forall|i: int| 0 <= i < front.len() ==> #[trigger] front[i] == states[i]);
    if never_over(seen, states, states.len() - 1) {
        assert(never_over(seen, front, front.len() as int));
    } else {
        let i = choose|i: int| 1 <= i < states.len() - 1 && over_since(#[trigger] states[i], seen);
        assert(over_since(front[i], seen));
    }
}

proof fn lemma_stop_after(seen: u64, states: Seq<session::BridgeView>)
    ensures
        stop_after(seen, states) == if states.len() == 0 {
            StopWatch::Armed { seen }
        } else if never_over(seen, states, states.len() as int) {
            StopWatch::Polling { seen }
        } else {
            StopWatch::Ended
        },
    decreases states.len(),
{
    if states.len() > 0 {
        let front = states.drop_last();
        lemma_stop_after(seen, front);
        assert(forall|i: int| 0 <= i < front.len() ==> #[trigger] front[i] == states[i]);
        if never_over(seen, states, states.len() as int) {
            assert(never_over(seen, front, front.len() as int));
        } else {
            let i = choose|i: int| 1 <= i < states.len() && over_since(#[trigger] states[i], seen);
            if i < front.len() {
                assert(over_since(front[i], seen));
            }
        }
    }
}

/// The callback for changes is called after two seconds whatever happens, and
/// then after every thirty seconds, until a look finds the session over; from
/// there on it is not called again.
pub proof fn law_running_info_schedule(overs: Seq<bool>)
    requires
        overs.len() > 0,
    ensures
        ({
            let last = overs.len() - 1;
            info_action(overs) == if last == 0 {
                WatchAction::Sleep(2000)
            } else if last == 1 {
                WatchAction::Fire
            } else if !never_over_at_looks(overs, last) {
                WatchAction::End
            } else if last % 2 == 0 {
                WatchAction::Sleep(30000)
            } else if overs[last] {
                WatchAction::End
            } else {
                WatchAction::Fire
            }
        }),
{
    let front = overs.drop_last();
    lemma_info_after(front);
    assert(forall|i: int| 0 <= i < front.len() ==> #[trigger] front[i] == overs[i]);
    if never_over_at_looks(overs, overs.len() - 1) {
        assert(never_over_at_looks(front, front.len() as int));
    } else {
        let i = choose|i: int| 3 <= i < overs.len() - 1 && i % 2 == 1 && #[trigger] overs[i];
        assert(front[i]);
    }
}

proof fn lemma_info_after(overs: Seq<bool>)
    ensures
        info_after(overs) == if overs.len() == 0 {
            InfoWatch::Armed
        } else if overs.len() == 1 {
            InfoWatch::Settled
        } else if !never_over_at_looks(overs, overs.len() as int) {
            InfoWatch::Ended
        } else if overs.len() % 2 == 0 {
            InfoWatch::Idle
        } else {
            InfoWatch::Polling
        },
    decreases overs.len(),
{
    if overs.len() > 0 {
        let front = overs.drop_last();
        lemma_info_after(front);
        assert(forall|i: int| 0 <= i < front.len() ==> #[trigger] front[i] == overs[i]);
        if never_over_at_looks(overs, overs.len() as int) {
            assert(never_over_at_looks(front, front.len() as int));
            if overs.len() >= 4 && overs.len() % 2 == 0 {
                assert(!overs[overs.len() - 1]);
            }
        } else {
            let i = choose|i: int| 3 <= i < overs.len() && i % 2 == 1 && #[trigger] overs[i];
            if i < front.len() {
                assert(front[i]);
            }
        }
    }
}

/// The watch for the end sleeps half a second before its first look. A look that finds
/// the session over or a stop fires and ends the watch, any other is followed by half a
/// second of sleep; an ended watch does nothing. What the watch has seen stays.
pub proof fn law_stop_watch_step_by_step(seen: u64, b: session::BridgeView)
    ensures
        stop_next(StopWatch::Armed { seen }, b) == (
            StopWatch::Polling { seen },
            WatchAction::Sleep(500),
        ),
        ({
            let (next, action) = stop_next(StopWatch::Polling { seen }, b);
            let over = b.stop_requested || b.stops != seen || forall|n: Seq<char>|
                !#[trigger] b.instances.contains_key(n);
            &&& over ==> next == StopWatch::Ended && action == WatchAction::Fire
            &&& !over ==> next == (StopWatch::Polling { seen }) && action == WatchAction::Sleep(500)
        }),
        stop_next(StopWatch::Ended, b) == (StopWatch::Ended, WatchAction::End),
{
    instances::law_nothing_runs(b.instances);
}

/// As long as no look finds the session over, the watch for changes sleeps two seconds,
/// calls the callback, and from then on sleeps thirty seconds and calls it, again and
/// again; a look that finds the session over ends it without a call.
pub proof fn law_info_watch_step_by_step(at: InfoWatch, over: bool)
    ensures
        ({
            let (next, action) = info_next(at, over);
            match action {
                WatchAction::Sleep(millis) => {
                    ||| at == InfoWatch::Armed && millis == 2000 && next == InfoWatch::Settled
                    ||| at == InfoWatch::Idle && millis == 30000 && next == InfoWatch::Polling
                },
                WatchAction::Fire => {
                    &&& at == InfoWatch::Settled || at == InfoWatch::Polling && !over
                    &&& next == InfoWatch::Idle
                },
                WatchAction::End => {
                    &&& at == InfoWatch::Ended || at == InfoWatch::Polling && over
                    &&& next == InfoWatch::Ended
                },
            }
        }),
{
}

} // verus!
