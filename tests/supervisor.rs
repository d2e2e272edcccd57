use mihomo_core::supervisor::{MAX_RESTART_ATTEMPTS, RESTART_WINDOW_SECS};
use mihomo_core::{ProcessWatchdog, TickAction};

fn healthy_watchdog() -> ProcessWatchdog {
    let mut w = ProcessWatchdog::new();
    let first = w.on_tick(true, 0);
    assert_eq!(first, TickAction { notify: None, restart: false });
    w
}

#[test]
fn new_watchdog_defaults() {
    let w = ProcessWatchdog::new();
    assert!(w.get_auto_restart());
    assert_eq!(w.state.tracked_pid, None);
    assert!(!w.state.monitoring);
    assert_eq!(w.state.last_healthy, None);
    assert_eq!(w.state.restart_count, 0);
}

#[test]
fn flap_sequence_emits_two_notifications() {
    let mut w = healthy_watchdog();
    w.set_auto_restart(false);
    let mut sent = Vec::new();
    let seq = [true, true, false, false, true];
    for (i, h) in seq.iter().enumerate() {
        let a = w.on_tick(*h, 3 * (i as u64 + 1));
        if let Some(v) = a.notify {
            sent.push(v);
        }
    }
    assert_eq!(sent, vec![false, true]);
}

#[test]
fn flap_sequence_from_fresh_start() {
    let mut w = ProcessWatchdog::new();
    assert!(w.start_monitoring());
    let mut sent = Vec::new();
    for (i, h) in [true, true, false, false, true].iter().enumerate() {
        let a = w.on_tick(*h, 3 * i as u64);
        if a.restart {
            w.on_restart_result(None);
        }
        if let Some(v) = a.notify {
            sent.push(v);
        }
    }
    assert_eq!(sent, vec![false, true]);
}

#[test]
fn engine_down_from_start_is_restarted() {
    let mut w = ProcessWatchdog::new();
    let a = w.on_tick(false, 3);
    assert_eq!(a, TickAction { notify: None, restart: true });
    assert_eq!(w.state.last_healthy, Some(false));
}

#[test]
fn attempts_resume_after_window() {
    let mut w = ProcessWatchdog::new();
    let mut t = 0u64;
    let mut count = 0;
    while count < 5 {
        t += 3;
        if w.on_tick(false, t).restart {
            count += 1;
            w.on_restart_result(None);
        }
    }
    let last = t;
    assert!(!w.on_tick(false, last + RESTART_WINDOW_SECS).restart);
    assert!(w.on_tick(false, last + RESTART_WINDOW_SECS + 1).restart);
    assert_eq!(w.state.restart_count, 1);
}

#[test]
fn manual_start_ends_pending_restart() {
    let mut w = healthy_watchdog();
    assert!(w.on_tick(false, 3).restart);
    w.on_restart_result(None);
    w.set_process(7);
    assert!(!w.state.restart_pending);
    assert_eq!(w.on_tick(false, 6), TickAction { notify: None, restart: false });
    assert_eq!(w.state.tracked_pid, Some(7));
}

#[test]
fn steady_health_emits_nothing() {
    let mut w = healthy_watchdog();
    for t in 1..10u64 {
        assert_eq!(w.on_tick(true, 3 * t), TickAction { notify: None, restart: false });
    }
}

#[test]
fn restart_ceiling_holds_within_window() {
    let mut w = healthy_watchdog();
    w.set_process(42);
    let mut attempts: Vec<u64> = Vec::new();
    let mut t = 3u64;
    while t <= 150 {
        let a = w.on_tick(false, t);
        if a.restart {
            attempts.push(t);
            w.on_restart_result(None);
        }
        t += 3;
    }
    assert_eq!(&attempts[..5], &[3, 6, 9, 12, 15]);
    // the next attempt comes once more than a window has passed since the last
    assert_eq!(attempts[5], 78);
    for k in 0..attempts.len() {
        let inside = attempts
            .iter()
            .filter(|&&x| x >= attempts[k] && x <= attempts[k] + RESTART_WINDOW_SECS)
            .count();
        assert!(inside <= MAX_RESTART_ATTEMPTS as usize);
    }
    assert_eq!(w.state.tracked_pid, None);
}

#[test]
fn successful_restart_resets_counter() {
    let mut w = healthy_watchdog();
    let a = w.on_tick(false, 3);
    assert_eq!(a, TickAction { notify: Some(false), restart: true });
    assert_eq!(w.state.restart_count, 1);
    w.on_restart_result(Some(777));
    assert_eq!(w.state.restart_count, 0);
    assert_eq!(w.state.tracked_pid, Some(777));
    assert!(!w.state.restart_pending);
    // still down on the next probe: no notification, no attempt
    assert_eq!(w.on_tick(false, 6), TickAction { notify: None, restart: false });
}

#[test]
fn failed_restart_is_retried_on_next_tick() {
    let mut w = healthy_watchdog();
    assert!(w.on_tick(false, 3).restart);
    w.on_restart_result(None);
    assert_eq!(w.on_tick(false, 6), TickAction { notify: None, restart: true });
    assert_eq!(w.state.restart_count, 2);
}

#[test]
fn recovery_resets_counter() {
    let mut w = healthy_watchdog();
    assert!(w.on_tick(false, 3).restart);
    w.on_restart_result(None);
    let a = w.on_tick(true, 6);
    assert_eq!(a, TickAction { notify: Some(true), restart: false });
    assert_eq!(w.state.restart_count, 0);
    assert!(!w.state.restart_pending);
}

#[test]
fn manual_stop_suppresses_restart() {
    let mut w = healthy_watchdog();
    w.set_process(100);
    w.clear_process();
    assert_eq!(w.state.tracked_pid, None);
    let a = w.on_tick(false, 3);
    assert_eq!(a, TickAction { notify: Some(false), restart: false });
    assert!(!w.on_tick(false, 6).restart);
    // a manual start lifts the suppression once the engine is seen again
    w.set_process(101);
    assert!(!w.on_tick(true, 9).restart);
    assert!(w.on_tick(false, 12).restart);
}

#[test]
fn disabled_auto_restart_never_restarts() {
    let mut w = healthy_watchdog();
    w.set_auto_restart(false);
    assert!(!w.get_auto_restart());
    let a = w.on_tick(false, 3);
    assert_eq!(a, TickAction { notify: Some(false), restart: false });
    assert!(!w.on_tick(false, 6).restart);
}

#[test]
fn start_monitoring_is_idempotent() {
    let mut w = ProcessWatchdog::new();
    assert!(w.start_monitoring());
    assert!(w.state.monitoring);
    assert!(!w.start_monitoring());
    assert!(w.state.monitoring);
}

#[test]
fn status_event_carries_health() {
    let e = mihomo_core::events::status_event(true, 1_700_000_000);
    assert!(e.running);
    assert_eq!(e.process_id, None);
    assert_eq!(e.timestamp, 1_700_000_000);
    let s: mihomo_core::AppState = Default::default();
    assert!(!s.mihomo_running);
    assert_eq!(s.mihomo_process, None);
}
