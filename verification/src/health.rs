//! Worker thread health monitoring.
//!
//! A watchdog looks at the worker thread every so often.  If the worker has
//! ended although nobody asked it to, the watchdog shuts the whole program
//! down: a file watcher that silently stops watching is worse than a crash.
//! Times are in nanoseconds.

use vstd::prelude::*;
use vstd::string::*;

verus! {

/// Default interval between two looks at the worker thread: five seconds.
pub const DEFAULT_POLL_INTERVAL: u128 = 5_000_000_000;

/// Shortest interval, to prevent busy-looping: half a second.
pub const MIN_POLL_INTERVAL: u128 = 500_000_000;

/// How long to wait for the worker on shutdown: five seconds.
pub const JOIN_DEADLINE: u128 = 5_000_000_000;

/// Interval between two looks at the worker on shutdown: 50 milliseconds.
pub const JOIN_POLL_INTERVAL: u128 = 50_000_000;

/// Monitors a worker thread and triggers shutdown if it ends unexpectedly.
#[derive(Debug, Clone, Copy, PartialEq, Eq, Structural)]
pub struct WorkerWatchdog {
    /// How often to look at the worker thread.
    pub poll_interval: u128,
    /// How far the watchdog has come.
    pub phase: WatchPhase,
}

/// How far a watchdog has come.
#[derive(Debug, Clone, Copy, PartialEq, Eq, Structural)]
pub enum WatchPhase {
    /// It is looking at the worker every so often.
    Watching,
    /// The program is shutting down and the worker is waited for.
    Joining,
    /// It is done.
    Done,
}

/// What a watchdog waited for.
#[derive(Debug, Clone, Copy, PartialEq, Eq, Structural)]
pub enum WatchEvent {
    /// The program is shutting down.
    ShutdownRequested,
    /// The interval is over; the worker has ended or not.
    Tick { finished: bool },
    /// The worker was waited for long enough.
    DeadlinePassed,
}

/// What a watchdog does next.
#[derive(Debug, Clone, Copy, PartialEq, Eq, Structural)]
pub enum WatchStep {
    /// Wait for the next event.
    KeepWatching,
    /// Start to wait for the worker.
    StartJoining,
    /// Shut the program down and report how the worker ended.
    TriggerShutdown,
    /// Report that the worker ended cleanly.
    ReportJoined,
    /// Report that the worker did not end in time.
    Abandon,
    /// Nothing is left to do.
    Ignore,
}

/// The interval with the shortest one as a lower bound.
pub open spec fn clamped_interval(interval: u128) -> u128 {
    if interval < MIN_POLL_INTERVAL {
        MIN_POLL_INTERVAL
    } else {
        interval
    }
}

/// What a watchdog does about an event.
pub open spec fn watch_transition(phase: WatchPhase, event: WatchEvent) -> (WatchPhase, WatchStep) {
    match phase {
        WatchPhase::Watching => match event {
            WatchEvent::ShutdownRequested => (WatchPhase::Joining, WatchStep::StartJoining),
            WatchEvent::Tick { finished } => if finished {
                (WatchPhase::Done, WatchStep::TriggerShutdown)
            } else {
                (WatchPhase::Watching, WatchStep::KeepWatching)
            },
            WatchEvent::DeadlinePassed => (WatchPhase::Watching, WatchStep::KeepWatching),
        },
        WatchPhase::Joining => match event {
            WatchEvent::ShutdownRequested => (WatchPhase::Joining, WatchStep::KeepWatching),
            WatchEvent::Tick { finished } => if finished {
                (WatchPhase::Done, WatchStep::ReportJoined)
            } else {
                (WatchPhase::Joining, WatchStep::KeepWatching)
            },
            WatchEvent::DeadlinePassed => (WatchPhase::Done, WatchStep::Abandon),
        },
        WatchPhase::Done => (WatchPhase::Done, WatchStep::Ignore),
    }
}

/// How long to wait for the next look at the worker.
pub open spec fn next_look(w: WorkerWatchdog) -> u128 {
    if w.phase is Joining {
        JOIN_POLL_INTERVAL
    } else {
        w.poll_interval
    }
}

/// A worker that is waited for is looked at twenty times a second, and otherwise as often as
/// was asked for.
pub proof fn law_time_between_looks(w: WorkerWatchdog)
    ensures
        w.phase is Joining ==> next_look(w) * 20 == 1_000_000_000,
        !(w.phase is Joining) ==> next_look(w) == w.poll_interval,
{
}

impl WorkerWatchdog {
    /// A watchdog with the default interval.
    pub fn new() -> (w: Self)
        ensures
            w == (WorkerWatchdog {
                poll_interval: DEFAULT_POLL_INTERVAL,
                phase: WatchPhase::Watching,
            }),
    {
        WorkerWatchdog { poll_interval: DEFAULT_POLL_INTERVAL, phase: WatchPhase::Watching }
    }

    /// Overrides the default interval.  A value below [`MIN_POLL_INTERVAL`] is
    /// raised to it.
    pub fn with_poll_interval(self, interval: u128) -> (w: Self)
        ensures
            w == (WorkerWatchdog { poll_interval: clamped_interval(interval), ..self }),
    {
        WorkerWatchdog {
            poll_interval: if interval < MIN_POLL_INTERVAL {
                MIN_POLL_INTERVAL
            } else {
                interval
            },
            phase: self.phase,
        }
    }

    /// How long to wait for the next look at the worker.
    pub fn interval(&self) -> (t: u128)
        ensures
            t == next_look(*self),
            t == if self.phase is Joining {
                JOIN_POLL_INTERVAL
            } else {
                self.poll_interval
            },
    {
        match self.phase {
            WatchPhase::Joining => JOIN_POLL_INTERVAL,
            _ => self.poll_interval,
        }
    }

    /// Decides what to do about an event.
    pub fn on_event(&mut self, event: WatchEvent) -> (step: WatchStep)
        ensures
            final(self).poll_interval == old(self).poll_interval,
            (final(self).phase, step) == watch_transition(old(self).phase, event),
    {
        let (phase, step): (WatchPhase, WatchStep) = match self.phase {
            WatchPhase::Watching => match event {
                WatchEvent::ShutdownRequested => (WatchPhase::Joining, WatchStep::StartJoining),
                WatchEvent::Tick { finished } => if finished {
                    (WatchPhase::Done, WatchStep::TriggerShutdown)
                } else {
                    (WatchPhase::Watching, WatchStep::KeepWatching)
                },
                WatchEvent::DeadlinePassed => (WatchPhase::Watching, WatchStep::KeepWatching),
            },
            WatchPhase::Joining => match event {
                WatchEvent::ShutdownRequested => (WatchPhase::Joining, WatchStep::KeepWatching),
                WatchEvent::Tick { finished } => if finished {
                    (WatchPhase::Done, WatchStep::ReportJoined)
                } else {
                    (WatchPhase::Joining, WatchStep::KeepWatching)
                },
                WatchEvent::DeadlinePassed => (WatchPhase::Done, WatchStep::Abandon),
            },
            WatchPhase::Done => (WatchPhase::Done, WatchStep::Ignore),
        };
        self.phase = phase;
        step
    }
}

/// What a look at a worker that is waited for brings: it has ended, or it was
/// waited for long enough, or neither.
pub open spec fn look(finished: bool, waited: u128) -> WatchEvent {
    if !finished && waited >= JOIN_DEADLINE {
        WatchEvent::DeadlinePassed
    } else {
        WatchEvent::Tick { finished }
    }
}

/// Decides what a look at a worker brings that has been waited for, for `waited`
/// nanoseconds so far.  A worker that has ended is never given up.
pub fn join_event(finished: bool, waited: u128) -> (event: WatchEvent)
    ensures
        event == look(finished, waited),
{
    if !finished && waited >= JOIN_DEADLINE {
        WatchEvent::DeadlinePassed
    } else {
        WatchEvent::Tick { finished }
    }
}

/// Waiting for a worker ends exactly when it has ended or the deadline has passed,
/// and it is reported as joined exactly if it has ended.
pub proof fn law_waiting_for_worker_is_bounded(finished: bool, waited: u128)
    ensures
        watch_transition(WatchPhase::Joining, look(finished, waited)).0 is Done <==> finished
            || waited >= JOIN_DEADLINE,
        watch_transition(WatchPhase::Joining, look(finished, waited)).1 is ReportJoined
            <==> finished,
{
}

/// The phase of a watchdog after some events, and how often it has triggered a
/// shutdown.
pub open spec fn after_watching(events: Seq<WatchEvent>) -> (WatchPhase, nat)
    decreases events.len(),
{
    if events.len() == 0 {
        (WatchPhase::Watching, 0)
    } else {
        let (phase, triggered) = after_watching(events.drop_last());
        let (next, step) = watch_transition(phase, events.last());
        (
            next,
            if step is TriggerShutdown {
                triggered + 1
            } else {
                triggered
            },
        )
    }
}

/// A shutdown is triggered exactly when the worker is seen to have ended while
/// nobody asked for a shutdown: never for a worker that is running, and never
/// on a shutdown that was asked for.
pub proof fn law_shutdown_only_for_dead_worker(phase: WatchPhase, event: WatchEvent)
    ensures
        watch_transition(phase, event).1 is TriggerShutdown <==> phase is Watching && event == (
        WatchEvent::Tick { finished: true }),
{
}

/// A watchdog triggers at most one shutdown, and is done once it has.
pub proof fn law_shutdown_is_triggered_once(events: Seq<WatchEvent>)
    ensures
        after_watching(events).1 <= 1,
        after_watching(events).1 == 1 ==> after_watching(events).0 is Done,
    decreases events.len(),
{
    if events.len() > 0 {
        law_shutdown_is_triggered_once(events.drop_last());
    }
}

/// The text reported for a panic: its message, if it has one.
pub fn panic_text(message: Option<String>) -> (r: String)
    ensures
        r@ == match message {
            Some(m) => m@,
            None => "unknown panic payload"@,
        },
{
    match message {
        Some(m) => m,
        None => "unknown panic payload".to_owned(),
    }
}

/// What a watchdog does about each event: while it watches, a worker that has ended has it
/// shut the program down and a shutdown has it wait for the worker; while it waits, a worker
/// that has ended is reported and one that takes too long is given up; after that it does
/// nothing.
pub proof fn law_watchdog_steps(finished: bool, event: WatchEvent)
    ensures
        watch_transition(WatchPhase::Watching, WatchEvent::ShutdownRequested) == (
            WatchPhase::Joining,
            WatchStep::StartJoining,
        ),
        watch_transition(WatchPhase::Watching, WatchEvent::Tick { finished }) == if finished {
            (WatchPhase::Done, WatchStep::TriggerShutdown)
        } else {
            (WatchPhase::Watching, WatchStep::KeepWatching)
        },
        watch_transition(WatchPhase::Watching, WatchEvent::DeadlinePassed) == (
            WatchPhase::Watching,
            WatchStep::KeepWatching,
        ),
        watch_transition(WatchPhase::Joining, WatchEvent::ShutdownRequested) == (
            WatchPhase::Joining,
            WatchStep::KeepWatching,
        ),
        watch_transition(WatchPhase::Joining, WatchEvent::Tick { finished }) == if finished {
            (WatchPhase::Done, WatchStep::ReportJoined)
        } else {
            (WatchPhase::Joining, WatchStep::KeepWatching)
        },
        watch_transition(WatchPhase::Joining, WatchEvent::DeadlinePassed) == (
            WatchPhase::Done,
            WatchStep::Abandon,
        ),
        watch_transition(WatchPhase::Done, event) == (WatchPhase::Done, WatchStep::Ignore),
{
}

/// A worker that is waited for is given up after five seconds, and not before.
pub proof fn law_worker_is_waited_for(finished: bool, waited: u128)
    ensures
        look(true, waited) == (WatchEvent::Tick { finished: true }),
        waited < 5_000_000_000 ==> look(finished, waited) == (WatchEvent::Tick { finished }),
        waited >= 5_000_000_000 ==> look(false, waited) == WatchEvent::DeadlinePassed,
{
}

/// The interval is never under half a second, and is the one asked for otherwise.
pub proof fn law_interval_has_a_lower_bound(interval: u128)
    ensures
        interval >= 500_000_000 ==> clamped_interval(interval) == interval,
        interval < 500_000_000 ==> clamped_interval(interval) == 500_000_000,
{
}

} // verus!
