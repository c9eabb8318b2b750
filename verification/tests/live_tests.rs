use gpu_fanctl::live::{
    direct_open_due, live_source, push_history, zero_rpm_warning, Live, Reading, DIRECT_RETRY_MS, HISTORY_LEN,
};
use gpu_fanctl::panel::Source;

#[test]
fn history_keeps_ten_minutes_and_drops_the_oldest() {
    let mut h: Vec<u32> = Vec::new();
    for i in 0..HISTORY_LEN as u32 {
        push_history(&mut h, i);
    }
    assert_eq!(h.len(), 600);
    push_history(&mut h, 600);
    assert_eq!(h.len(), 600);
    assert_eq!(h[0], 1);
    assert_eq!(h[599], 600);
}

#[test]
fn fresh_daemon_status_is_preferred() {
    assert_eq!(live_source(true), Source::Daemon);
    assert_eq!(live_source(false), Source::Direct);
}

#[test]
fn direct_access_is_retried_every_five_seconds() {
    assert!(direct_open_due(false, None, 0));
    assert!(!direct_open_due(true, None, 0));
    assert!(!direct_open_due(false, Some(10_000), 14_999));
    assert!(direct_open_due(false, Some(10_000), 10_000 + DIRECT_RETRY_MS));
    assert!(!direct_open_due(false, Some(10_000), 9_000));
}

#[test]
fn zero_rpm_is_flagged_only_with_duty_at_the_floor_or_more() {
    assert_eq!(zero_rpm_warning(0, Some(0xFF)), "⚠ Reports 0 RPM");
    assert_eq!(zero_rpm_warning(0, Some(77)), "⚠ Reports 0 RPM");
    assert_eq!(zero_rpm_warning(0, Some(76)), "");
    assert_eq!(zero_rpm_warning(900, Some(0xFF)), "");
    assert_eq!(zero_rpm_warning(0, None), "");
}

#[test]
fn a_failed_reading_clears_the_latest_sample_but_keeps_the_history() {
    let mut live: Live<u32> = Live::new();
    assert!(live.latest().is_none());
    live.record(Reading::FromDaemon { sample: 7, controller: "NVAPI I2C port 1, GPU bus 0a".to_string() });
    assert_eq!(live.latest(), Some(&7));
    assert_eq!(live.source(), Some(Source::Daemon));
    assert_eq!(live.controller(), Some("NVAPI I2C port 1, GPU bus 0a"));
    live.record(Reading::Failed { error: "FanConnect II controller not available".to_string() });
    assert!(live.latest().is_none());
    assert_eq!(live.source(), None);
    assert_eq!(live.error(), Some("FanConnect II controller not available"));
    assert_eq!(live.controller(), None);
    assert_eq!(live.history(), &vec![7]);
    live.record(Reading::FromCard { sample: 8, controller: "i2c-4, GPU 0000:0a:00.0".to_string() });
    assert_eq!(live.latest(), Some(&8));
    assert_eq!(live.source(), Some(Source::Direct));
    assert_eq!(live.error(), None);
    assert_eq!(live.history(), &vec![7, 8]);
}

#[test]
fn a_daemon_that_does_not_say_where_the_controller_is_leaves_it_unknown() {
    let mut live: Live<u32> = Live::new();
    live.record(Reading::FromDaemon { sample: 1, controller: String::new() });
    assert_eq!(live.controller(), None);
}
