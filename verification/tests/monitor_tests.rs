use strix::monitor::{
    bucket_width, disk_totals, effective_cpu_count, elevation_started, history_window,
    process_not_found, token_elevated, top_count, tray_click_reveals, tray_menu_action,
    SamplerState, TrayAction, RETENTION_SECS, SAMPLE_SECS,
};
use strix::timekeeping::now_ts;

#[test]
fn prune_every_sixty_samples() {
    let mut s = SamplerState::new();
    let ts = 1_700_000_000i64;
    for k in 1..=180u32 {
        let r = s.after_persist(ts);
        if k % 60 == 0 {
            assert_eq!(r, Some(ts - 259_200));
        } else {
            assert_eq!(r, None);
        }
    }
    assert_eq!(s.tick, 180);
}

#[test]
fn tick_wraps() {
    let mut s = SamplerState { tick: u32::MAX, lhm_tick: 7 };
    let r = s.after_persist(0);
    assert_eq!(s.tick, 0);
    assert_eq!(r, Some(-259_200));
    assert_eq!(s.lhm_tick, 7);
}

#[test]
fn helper_polled_every_third_cycle() {
    let mut s = SamplerState::new();
    let due: Vec<bool> = (0..7).map(|_| s.lhm_poll_due(true)).collect();
    assert_eq!(due, vec![true, false, false, true, false, false, true]);
    let before = s.lhm_tick;
    assert!(!s.lhm_poll_due(false));
    assert_eq!(s.lhm_tick, before);
}

#[test]
fn per_sample_figures() {
    assert_eq!(effective_cpu_count(0), 1);
    assert_eq!(effective_cpu_count(16), 16);
    assert_eq!(top_count(3), 3);
    assert_eq!(top_count(200), 8);
    assert_eq!(disk_totals(&vec![(1, 2), (10, 20), (100, 200)]), Some((111, 222)));
    assert_eq!(disk_totals(&Vec::new()), Some((0, 0)));
    assert_eq!(disk_totals(&vec![(u64::MAX, 0), (1, 0)]), None);
    assert_eq!(disk_totals(&vec![(0, u64::MAX), (0, 1)]), None);
    assert_eq!(disk_totals(&vec![(u64::MAX, u64::MAX)]), Some((u64::MAX, u64::MAX)));
}

#[test]
fn history_parameters() {
    let w = history_window(Some(10), None);
    assert_eq!(w.min_ts, Some(10));
    assert_eq!(w.max_ts, None);
    assert_eq!(w.retention_secs, 3 * 24 * 60 * 60);
    assert_eq!(RETENTION_SECS, 259_200);
    assert_eq!(w.sample_secs, SAMPLE_SECS);
    assert_eq!(bucket_width(0), 1);
    assert_eq!(bucket_width(-5), 1);
    assert_eq!(bucket_width(60), 60);
}

#[test]
fn command_messages_and_decisions() {
    assert_eq!(process_not_found(1234), "Process 1234 not found");
    assert_eq!(process_not_found(0), "Process 0 not found");
    assert_eq!(tray_menu_action("show"), TrayAction::Show);
    assert_eq!(tray_menu_action("quit"), TrayAction::Quit);
    assert_eq!(tray_menu_action("Show"), TrayAction::Ignore);
    assert!(tray_click_reveals(true, true));
    assert!(!tray_click_reveals(true, false));
    assert!(elevation_started(33));
    assert!(!elevation_started(32));
    assert!(token_elevated(1, 1));
    assert!(!token_elevated(0, 1));
    assert!(!token_elevated(1, 0));
}

#[test]
fn clock_reads_after_2020() {
    assert!(now_ts() > 1_600_000_000);
}
