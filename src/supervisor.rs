use vstd::prelude::*;

verus! {

/// Most restart attempts allowed inside one restart window.
pub const MAX_RESTART_ATTEMPTS: u32 = 5;

/// Length of the restart window, in seconds.
pub const RESTART_WINDOW_SECS: u64 = 60;

/// Interval between two health probes, in seconds.
pub const POLL_INTERVAL_SECS: u64 = 3;

/// Time a health probe may take before it counts as failed, in seconds.
pub const HEALTH_TIMEOUT_SECS: u64 = 2;

/// Pause before a restart, letting the operating system clean up, in seconds.
pub const RESTART_GRACE_SECS: u64 = 2;

/// The supervisor's whole state. Times are seconds on a monotonic clock.
#[derive(Clone, Copy, Debug, PartialEq, Eq, Structural)]
pub struct SupervisorState {
    pub tracked_pid: Option<u32>,
    pub auto_restart: bool,
    pub monitoring: bool,
    /// The health seen by the last probe; `None` before the first probe.
    pub last_healthy: Option<bool>,
    pub restart_count: u32,
    pub window_start: u64,
    /// The engine went down and has not been brought back yet.
    pub restart_pending: bool,
    /// The owning layer stopped the engine on purpose.
    pub manual_stop: bool,
}

/// What the poll loop must do after one health probe.
#[derive(Clone, Copy, Debug, PartialEq, Eq, Structural)]
pub struct TickAction {
    /// A status-change notification to emit, with the new health.
    pub notify: Option<bool>,
    /// Whether to start the engine now (after the grace period).
    pub restart: bool,
}

impl SupervisorState {
    pub open spec fn wf(self) -> bool {
        self.restart_count <= MAX_RESTART_ATTEMPTS
    }
}

pub open spec fn initial_state() -> SupervisorState {
    SupervisorState {
        tracked_pid: None,
        auto_restart: true,
        monitoring: false,
        last_healthy: None,
        restart_count: 0,
        window_start: 0,
        restart_pending: false,
        manual_stop: false,
    }
}

/// Seconds from `start` to `now`; zero when `now` is not later.
pub open spec fn elapsed(start: u64, now: u64) -> int {
    if now > start {
        now - start
    } else {
        0
    }
}

/// The restart policy, applied to a state that has a restart pending.
pub open spec fn apply_restart_policy(s: SupervisorState, now: u64) -> (SupervisorState, bool) {
    let count = if elapsed(s.window_start, now) > RESTART_WINDOW_SECS {
        0
    } else {
        s.restart_count
    };
    if count >= MAX_RESTART_ATTEMPTS {
        (SupervisorState { restart_count: count, ..s }, false)
    } else {
        (SupervisorState { restart_count: (count + 1) as u32, window_start: now, ..s }, true)
    }
}

/// One poll tick that observed `healthy` at time `now`. A notification goes
/// out only when the observation differs from an earlier one; the first
/// observation notifies nothing. Entering the unhealthy state, from healthy
/// or from no observation, opens a restart episode unless auto-restart is off
/// or the owning layer stopped the engine on purpose.
pub open spec fn tick(s: SupervisorState, healthy: bool, now: u64) -> (SupervisorState, TickAction) {
    let notify = match s.last_healthy {
        Some(h) => if h != healthy {
            Some(healthy)
        } else {
            None
        },
        None => None,
    };
    let entering = s.last_healthy != Some(healthy);
    if healthy {
        let next = if entering {
            SupervisorState {
                last_healthy: Some(true),
                restart_count: 0,
                restart_pending: false,
                manual_stop: false,
                ..s
            }
        } else {
            s
        };
        (next, TickAction { notify, restart: false })
    } else {
        let down = if entering {
            SupervisorState {
                last_healthy: Some(false),
                tracked_pid: None,
                restart_pending: s.auto_restart && !s.manual_stop,
                ..s
            }
        } else {
            s
        };
        if down.restart_pending && down.auto_restart {
            let (next, restart) = apply_restart_policy(down, now);
            (next, TickAction { notify, restart })
        } else {
            (down, TickAction { notify, restart: false })
        }
    }
}

/// The state after a restart attempt: `Some(pid)` when the engine started.
pub open spec fn restart_outcome(s: SupervisorState, started: Option<u32>) -> SupervisorState {
    match started {
        Some(pid) => SupervisorState {
            tracked_pid: Some(pid),
            restart_count: 0,
            restart_pending: false,
            manual_stop: false,
            ..s
        },
        None => s,
    }
}

pub open spec fn cleared(s: SupervisorState) -> SupervisorState {
    SupervisorState { tracked_pid: None, manual_stop: true, restart_pending: false, ..s }
}

/// A scripted run in which every probe finds the engine down and every
/// restart fails at once: the state reached after ticks at `times`, and the
/// times at which restarts were attempted.
pub open spec fn crash_run(s: SupervisorState, times: Seq<u64>) -> (SupervisorState, Seq<u64>)
    decreases times.len(),
{
    if times.len() == 0 {
        (s, Seq::empty())
    } else {
        let (prev, attempts) = crash_run(s, times.drop_last());
        let now = times.last();
        let (next, action) = tick(prev, false, now);
        if action.restart {
            (restart_outcome(next, None), attempts.push(now))
        } else {
            (next, attempts)
        }
    }
}

pub open spec fn nondecreasing(t: Seq<u64>) -> bool {
    forall|i: int, j: int| 0 <= i <= j < t.len() ==> t[i] <= t[j]
}

/// Any six attempts in a row span more than one restart window.
pub open spec fn spread_out(attempts: Seq<u64>) -> bool {
    forall|k: int|
        0 <= k && k + MAX_RESTART_ATTEMPTS < attempts.len() ==> attempts[k + MAX_RESTART_ATTEMPTS]
            - #[trigger] attempts[k] > RESTART_WINDOW_SECS
}

proof fn lemma_crash_run_inv(s: SupervisorState, times: Seq<u64>)
    requires
        s.wf(),
        s.restart_count == 0,
        nondecreasing(times),
    ensures
        ({
            let (st, a) = crash_run(s, times);
            let b = a.len() - st.restart_count;
            &&& st.wf()
            &&& a.len() > 0 ==> st.restart_count >= 1 && st.window_start == a.last()
            &&& a.len() >= st.restart_count
            &&& nondecreasing(a)
            &&& a.len() > 0 ==> a.last() <= times.last()
            &&& 0 < b < a.len() ==> a[b] - a[b - 1] > RESTART_WINDOW_SECS
            &&& spread_out(a)
        }),
    decreases times.len(),
{
    if times.len() > 0 {
        let init = times.drop_last();
        assert(nondecreasing(init));
        lemma_crash_run_inv(s, init);
        let (prev, a) = crash_run(s, init);
        let now = times.last();
        if a.len() > 0 {
            assert(a.last() <= now) by {
                if init.len() > 0 {
                    assert(init.last() == times[init.len() - 1]);
                }
            }
        }
        let (next, action) = tick(prev, false, now);
        if action.restart {
            let a2 = a.push(now);
            let n = a.len() as int;
            assert(a2[n] == now);
            assert forall|i: int, j: int| 0 <= i <= j < a2.len() implies a2[i] <= a2[j] by {
                if j == n && i < n {
                    assert(a[i] <= a[n - 1]);
                }
            }
            assert(spread_out(a2)) by {
                assert forall|k: int|
                    0 <= k && k + MAX_RESTART_ATTEMPTS < a2.len() implies a2[k
                    + MAX_RESTART_ATTEMPTS] - #[trigger] a2[k] > RESTART_WINDOW_SECS by {
                    if k + MAX_RESTART_ATTEMPTS < n {
                        assert(a2[k] == a[k] && a2[k + MAX_RESTART_ATTEMPTS] == a[k
                            + MAX_RESTART_ATTEMPTS]);
                    } else {
                        let b = n - prev.restart_count;
                        if next.restart_count == 1 && n > 0 {
                            assert(a[n - 1] <= now);
                            assert(a[k] <= a[n - 1]);
                        } else {
                            assert(a[b] <= now);
                            assert(a[k] <= a[b - 1]);
                        }
                    }
                }
            }
        }
    }
}

/// Restart ceiling: while every probe finds the engine down and every
/// restart fails, no more than `MAX_RESTART_ATTEMPTS` attempts fall within
/// any span of `RESTART_WINDOW_SECS` seconds.
pub proof fn lemma_restart_ceiling(s: SupervisorState, times: Seq<u64>)
    requires
        s.wf(),
        s.restart_count == 0,
        nondecreasing(times),
    ensures
        spread_out(crash_run(s, times).1),
{
    lemma_crash_run_inv(s, times);
}

/// Restart ceiling, once the window has passed: while a restart episode is
/// open and the engine stays down, a probe more than one window after the
/// last attempt resets the counter and asks for one restart.
pub proof fn lemma_ceiling_rolls_over(s: SupervisorState, now: u64)
    requires
        s.wf(),
        s.restart_pending,
        s.auto_restart,
        s.last_healthy == Some(false),
        elapsed(s.window_start, now) > RESTART_WINDOW_SECS,
    ensures
        tick(s, false, now).1.restart,
        tick(s, false, now).1.notify is None,
        tick(s, false, now).0.restart_count == 1,
        tick(s, false, now).0.window_start == now,
{
}

/// The state reached from `s` by a run of ticks, each a health observation
/// and its time, and the notifications emitted on the way (restart attempts
/// change no observed health, so their outcome does not matter here).
pub open spec fn notifications(s: SupervisorState, ticks: Seq<(bool, u64)>) -> (SupervisorState, Seq<bool>)
    decreases ticks.len(),
{
    if ticks.len() == 0 {
        (s, Seq::empty())
    } else {
        let (prev, sent) = notifications(s, ticks.drop_last());
        let (next, action) = tick(prev, ticks.last().0, ticks.last().1);
        match action.notify {
            Some(h) => (next, sent.push(h)),
            None => (next, sent),
        }
    }
}

/// The values of `hs` that differ from the value before them, `prev` being
/// the one before the first; a value with nothing before it is no change.
pub open spec fn edges(prev: Option<bool>, hs: Seq<bool>) -> Seq<bool>
    decreases hs.len(),
{
    if hs.len() == 0 {
        Seq::empty()
    } else {
        let before = if hs.len() == 1 {
            prev
        } else {
            Some(hs[hs.len() - 2])
        };
        let e = edges(prev, hs.drop_last());
        if before is Some && before != Some(hs.last()) {
            e.push(hs.last())
        } else {
            e
        }
    }
}

/// Flap suppression: a run of probes emits one notification per change of
/// the observed health, carrying the new value, and none otherwise.
pub proof fn lemma_edge_triggered(s: SupervisorState, ticks: Seq<(bool, u64)>)
    ensures
        notifications(s, ticks).1 == edges(s.last_healthy, ticks.map_values(|t: (bool, u64)| t.0)),
        ticks.len() > 0 ==> notifications(s, ticks).0.last_healthy == Some(ticks.last().0),
    decreases ticks.len(),
{
    if ticks.len() > 0 {
        let init = ticks.drop_last();
        lemma_edge_triggered(s, init);
        let hs = ticks.map_values(|t: (bool, u64)| t.0);
        assert(hs.drop_last() == init.map_values(|t: (bool, u64)| t.0));
        if ticks.len() > 1 {
            assert(hs[hs.len() - 2] == init.last().0);
        }
    }
}

/// Manual-stop suppression: right after the owning layer clears the tracked
/// process, a probe that finds the engine down starts no restart.
pub proof fn lemma_manual_stop_suppresses_restart(s: SupervisorState, now: u64)
    requires
        s.wf(),
    ensures
        !tick(cleared(s), false, now).1.restart,
        !tick(cleared(s), false, now).0.restart_pending,
{
}

/// Health-driven supervisor of the engine process. It decides; the caller
/// probes, notifies and starts the engine, and reports back.
pub struct ProcessWatchdog {
    pub state: SupervisorState,
}

impl ProcessWatchdog {
    pub fn new() -> (r: ProcessWatchdog)
        ensures
            r.state == initial_state(),
            r.state.last_healthy is None,
            r.state.wf(),
    {
        ProcessWatchdog {
            state: SupervisorState {
                tracked_pid: None,
                auto_restart: true,
                monitoring: false,
                last_healthy: None,
                restart_count: 0,
                window_start: 0,
                restart_pending: false,
                manual_stop: false,
            },
        }
    }

    /// Records a process that the owning layer started. A restart episode
    /// still open ends: the supervisor does not race the owning layer.
    pub fn set_process(&mut self, pid: u32)
        ensures
            final(self).state == (SupervisorState {
                tracked_pid: Some(pid),
                manual_stop: false,
                restart_pending: false,
                ..old(self).state
            }),
    {
        self.state.tracked_pid = Some(pid);
        self.state.manual_stop = false;
        self.state.restart_pending = false;
    }

    /// Records that the owning layer stopped the engine on purpose: no
    /// restart is attempted until it is started again or seen healthy.
    pub fn clear_process(&mut self)
        ensures
            final(self).state == cleared(old(self).state),
    {
        self.state.tracked_pid = None;
        self.state.manual_stop = true;
        self.state.restart_pending = false;
    }

    pub fn set_auto_restart(&mut self, enabled: bool)
        ensures
            final(self).state == (SupervisorState { auto_restart: enabled, ..old(self).state }),
    {
        self.state.auto_restart = enabled;
    }

    pub fn get_auto_restart(&self) -> (r: bool)
        ensures
            r == self.state.auto_restart,
    {
        self.state.auto_restart
    }

    /// Marks monitoring as active. Returns `false`, and changes nothing,
    /// when it already was: the caller then starts no second loop.
    pub fn start_monitoring(&mut self) -> (started: bool)
        ensures
            started == !old(self).state.monitoring,
            final(self).state == (SupervisorState { monitoring: true, ..old(self).state }),
    {
        if self.state.monitoring {
            false
        } else {
            self.state.monitoring = true;
            true
        }
    }

    /// Takes one health observation and says what to do about it.
    pub fn on_tick(&mut self, healthy: bool, now: u64) -> (action: TickAction)
        requires
            old(self).state.wf(),
        ensures
            (final(self).state, action) == tick(old(self).state, healthy, now),
            final(self).state.wf(),
    {
        let notify = match self.state.last_healthy {
            Some(h) => if h != healthy {
                Some(healthy)
            } else {
                None
            },
            None => None,
        };
        let entering = match self.state.last_healthy {
            Some(h) => h != healthy,
            None => true,
        };
        if healthy {
            if entering {
                self.state.last_healthy = Some(true);
                self.state.restart_count = 0;
                self.state.restart_pending = false;
                self.state.manual_stop = false;
            }
            return TickAction { notify, restart: false };
        }
        if entering {
            self.state.last_healthy = Some(false);
            self.state.tracked_pid = None;
            self.state.restart_pending = self.state.auto_restart && !self.state.manual_stop;
        }
        if !(self.state.restart_pending && self.state.auto_restart) {
            return TickAction { notify, restart: false };
        }
        if now > self.state.window_start && now - self.state.window_start > RESTART_WINDOW_SECS {
            self.state.restart_count = 0;
        }
        if self.state.restart_count >= MAX_RESTART_ATTEMPTS {
            return TickAction { notify, restart: false };
        }
        self.state.restart_count = self.state.restart_count + 1;
        self.state.window_start = now;
        TickAction { notify, restart: true }
    }

    /// Reports the result of a restart that `on_tick` asked for.
    pub fn on_restart_result(&mut self, started: Option<u32>)
        requires
            old(self).state.wf(),
        ensures
            final(self).state == restart_outcome(old(self).state, started),
            final(self).state.wf(),
    {
        if let Some(pid) = started {
            self.state.tracked_pid = Some(pid);
            self.state.restart_count = 0;
            self.state.restart_pending = false;
            self.state.manual_stop = false;
        }
    }
}

} // verus!
