//! Coverage monitor: a sliding window of coverage samples and an escalation
//! policy for stalled exploration.
use vstd::prelude::*;

verus! {

/// What the orchestrator should do next.
#[derive(Debug, Clone, Copy, PartialEq, Eq, Structural)]
pub enum MonitorAction {
    Normal,
    SwitchStrategy,
    AgentCycle,
    Stop,
}

/// Escalation for a stall count: none, then switch, then agent cycle, then stop,
/// with the bounds at 2 and 4 window lengths.
pub open spec fn action_for(stall: nat, window_size: nat) -> MonitorAction {
    if stall == 0 {
        MonitorAction::Normal
    } else if stall < 2 * window_size {
        MonitorAction::SwitchStrategy
    } else if stall < 4 * window_size {
        MonitorAction::AgentCycle
    } else {
        MonitorAction::Stop
    }
}

/// The window after recording `sample`: appended, and the oldest sample
/// dropped when the window grows past `size`.
pub open spec fn slide(w: Seq<(u64, usize)>, sample: (u64, usize), size: nat) -> Seq<(u64, usize)> {
    if w.len() + 1 > size {
        w.push(sample).drop_first()
    } else {
        w.push(sample)
    }
}

/// The stall count after recording `covered`: reset on growth over the most
/// recent sample, one more when there was a sample and no growth.
pub open spec fn next_stall(w: Seq<(u64, usize)>, stall: nat, covered: usize) -> nat {
    if w.len() > 0 && covered > w.last().1 {
        0
    } else if w.len() > 0 {
        stall + 1
    } else {
        stall
    }
}

/// Sliding window of `(iteration, covered)` samples with a stall counter.
pub struct CoverageMonitor {
    window: Vec<(u64, usize)>,
    window_size: usize,
    stall_count: usize,
}

impl CoverageMonitor {
    /// The samples in the window, oldest first.
    pub closed spec fn samples(&self) -> Seq<(u64, usize)> {
        self.window@
    }

    /// Maximum number of samples kept.
    pub closed spec fn size(&self) -> nat {
        self.window_size as nat
    }

    /// Samples in a row without growth.
    pub closed spec fn stalls(&self) -> nat {
        self.stall_count as nat
    }

    /// An empty monitor keeping `window_size` samples.
    pub fn new(window_size: usize) -> (m: Self)
        ensures
            m.samples() == Seq::<(u64, usize)>::empty(),
            m.size() == window_size,
            m.stalls() == 0,
    {
        CoverageMonitor { window: Vec::new(), window_size, stall_count: 0 }
    }

    /// Records a coverage sample and updates the stall count.
    pub fn record(&mut self, iteration: u64, covered: usize)
        requires
            old(self).stalls() < usize::MAX,
        ensures
            final(self).samples() == slide(old(self).samples(), (iteration, covered), old(self).size()),
            final(self).stalls() == next_stall(old(self).samples(), old(self).stalls(), covered),
            final(self).size() == old(self).size(),
    {
        let n = self.window.len();
        let grew = n > 0 && covered > self.window[n - 1].1;
        if grew {
            self.stall_count = 0;
        } else if n > 0 {
            self.stall_count = self.stall_count + 1;
        }
        self.window.push((iteration, covered));
        if self.window.len() > self.window_size {
            self.window.remove(0);
        }
    }

    /// The escalation level for the current stall count.
    pub fn action(&self) -> (a: MonitorAction)
        ensures
            a == action_for(self.stalls(), self.size()),
    {
        let s = self.stall_count as u128;
        let w = self.window_size as u128;
        if s == 0 {
            MonitorAction::Normal
        } else if s < 2 * w {
            MonitorAction::SwitchStrategy
        } else if s < 4 * w {
            MonitorAction::AgentCycle
        } else {
            MonitorAction::Stop
        }
    }

    /// Number of samples in the window.
    pub fn window_len(&self) -> (n: usize)
        ensures
            n == self.samples().len(),
    {
        self.window.len()
    }

    /// The window's samples, oldest first.
    pub fn window(&self) -> (w: &[(u64, usize)])
        ensures
            w@ == self.samples(),
    {
        self.window.as_slice()
    }

    /// Samples in a row without growth.
    pub fn stall_count(&self) -> (n: usize)
        ensures
            n == self.stalls(),
    {
        self.stall_count
    }
}

/// The window never holds more than its size once it is full: recording into
/// a window of at most `size` samples (with `size > 0`) keeps it at most `size`.
pub proof fn law_window_bounded(w: Seq<(u64, usize)>, sample: (u64, usize), size: nat)
    requires
        w.len() <= size,
        size > 0,
    ensures
        slide(w, sample, size).len() <= size,
{
}

/// Growth resets the escalation: a sample above the most recent one brings the
/// monitor back to `Normal`.
pub proof fn law_growth_resets(w: Seq<(u64, usize)>, stall: nat, covered: usize, size: nat)
    requires
        w.len() > 0,
        covered > w.last().1,
    ensures
        action_for(next_stall(w, stall, covered), size) == MonitorAction::Normal,
{
}

} // verus!
