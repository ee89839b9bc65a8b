//! The running flag of the clipboard monitor.

use vstd::prelude::*;

verus! {

/// Whether the clipboard monitor loop is to keep running.
#[derive(Clone, Copy, Debug, PartialEq, Eq, Structural)]
pub struct MonitorFlag {
    pub running: bool,
}

impl MonitorFlag {
    /// A monitor that is not running.
    pub fn new() -> (r: Self)
        ensures
            !r.running,
    {
        MonitorFlag { running: false }
    }

    /// Marks the monitor as running; returns `false` when it already was,
    /// in which case no second monitor is to be started.
    pub fn try_start(&mut self) -> (r: bool)
        ensures
            r == !old(self).running,
            final(self).running,
    {
        let was = self.running;
        self.running = true;
        !was
    }
}

/// Tells the monitor loop to stop.
pub fn stop_clipboard_monitor(flag: &mut MonitorFlag)
    ensures
        !final(flag).running,
{
    flag.running = false;
}

/// Whether the monitor loop is running.
pub fn is_monitor_running(flag: &MonitorFlag) -> (r: bool)
    ensures
        r == flag.running,
{
    flag.running
}

} // verus!
