use vstd::prelude::*;
use crate::config::Config;
use crate::countdown::{countdown_text, countdown_time, days_remaining};
use crate::milestone::{evaluate, eval_fires, milestone_text, MilestoneCache};

verus! {

/// Milliseconds between ticks; the interval is fixed.
pub const TICK_INTERVAL_MS: u32 = 1000;

/// The tick scheduler: either Running (periodic timer active) or Stopped.
pub struct TickScheduler {
    pub running: bool,
}

impl TickScheduler {
    /// A scheduler in the Stopped state.
    pub fn new() -> (s: Self)
        ensures
            !s.running,
    {
        TickScheduler { running: false }
    }

    /// Moves to Running; idempotent when already running.
    pub fn start(&mut self)
        ensures
            final(self).running,
    {
        self.running = true;
    }

    /// Moves to Stopped; idempotent when already stopped.
    pub fn stop(&mut self)
        ensures
            !final(self).running,
    {
        self.running = false;
    }
}

/// Toggles the widget's visibility, keeping the timer running exactly while
/// the widget is visible; returns the new visibility.
pub fn show_window(visible: bool, scheduler: &mut TickScheduler) -> (v: bool)
    ensures
        v == !visible,
        final(scheduler).running == v,
{
    let v = !visible;
    if v {
        scheduler.start();
    } else {
        scheduler.stop();
    }
    v
}

/// One tick of the pipeline: computes the countdown text for the remaining
/// duration and evaluates the milestone for the whole days remaining, firing
/// its notification when it has not fired before. The caller persists the
/// configuration when a notification is returned.
pub fn tick(config: &mut Config, cache: &mut MilestoneCache, duration_seconds: i64) -> (r: (
    String,
    Option<String>,
))
    ensures
        r.0@ == countdown_text(duration_seconds as int),
        (duration_seconds >= 0 && eval_fires(
            old(cache).fired_set(),
            duration_seconds as int / 86400,
        )) ==> ({
            &&& r.1 matches Some(t) && t@ == milestone_text(duration_seconds as int / 86400)
            &&& final(cache).fired_set() == old(cache).fired_set().insert(
                duration_seconds as int / 86400,
            )
            &&& final(config)@.notified == old(config)@.notified.push(
                duration_seconds as int / 86400,
            )
            &&& final(config)@.x == old(config)@.x
            &&& final(config)@.y == old(config)@.y
        }),
        !(duration_seconds >= 0 && eval_fires(
            old(cache).fired_set(),
            duration_seconds as int / 86400,
        )) ==> ({
            &&& r.1 is None
            &&& *final(config) == *old(config)
            &&& *final(cache) == *old(cache)
        }),
{
    let text = countdown_time(duration_seconds);
    if duration_seconds < 0 {
        return (text, None);
    }
    let days: i64 = days_remaining(duration_seconds);
    let notification = evaluate(config, cache, days);
    (text, notification)
}

} // verus!
