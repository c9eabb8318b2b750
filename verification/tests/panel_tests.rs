use gpu_fanctl::panel::{
    can_add_point, can_remove_point, controller_line, install_hint, job_outcome, mode_label, none_supported_note, service_actions, service_state_of,
    service_state_text, service_summary, status_banner, ServiceState, Source, Tone,
};

#[test]
fn a_running_service_wins_the_banner() {
    for state in [ServiceState::Running, ServiceState::Stopped, ServiceState::NotInstalled, ServiceState::Unknown] {
        assert_eq!(status_banner(Some(Source::Daemon), state), (Tone::Good, "Service running", "The fans follow the fan curve."));
    }
    assert_eq!(status_banner(Some(Source::Direct), ServiceState::Stopped).1, "Service stopped");
    assert_eq!(status_banner(None, ServiceState::NotInstalled).1, "Service not installed");
    assert_eq!(
        status_banner(Some(Source::Direct), ServiceState::Running),
        (Tone::Warn, "No service running", "Nothing is controlling the fans. Showing readings taken directly from the card.")
    );
    assert_eq!(service_summary(None, ServiceState::Unknown), (Tone::Warn, "No service running"));
}

#[test]
fn service_page_states_and_actions() {
    assert_eq!(service_state_of(None), ServiceState::NotInstalled);
    assert_eq!(service_state_of(Some(true)), ServiceState::Running);
    assert_eq!(service_state_of(Some(false)), ServiceState::Stopped);
    assert_eq!(service_state_text(ServiceState::Stopped), (Tone::Warn, "Installed, but stopped"));
    assert_eq!(service_state_text(ServiceState::Unknown), (Tone::Weak, "Checking…"));
    assert_eq!(service_actions(ServiceState::NotInstalled), vec!["install"]);
    assert_eq!(service_actions(ServiceState::Running), vec!["reinstall", "uninstall"]);
    assert!(service_actions(ServiceState::Unknown).is_empty());
}

#[test]
fn install_hints() {
    assert_eq!(
        install_hint(false, false, "/usr/local/bin", false),
        "Install copies this app to /usr/local/bin, runs the service from there and adds an app menu entry and a desktop shortcut."
    );
    assert_eq!(
        install_hint(false, true, "C:\\Program Files\\gpu-fanctl", true),
        "Install copies this app to C:\\Program Files\\gpu-fanctl, runs the service from there and adds Start menu and desktop shortcuts."
    );
    assert_eq!(install_hint(true, false, "/usr/local/bin", false), "Reinstall updates /usr/local/bin with this version of the app.");
    assert_eq!(install_hint(true, true, "/usr/local/bin", false), "");
}

#[test]
fn other_texts() {
    assert_eq!(job_outcome("install", Ok(())), ("Service install finished.".to_string(), false));
    assert_eq!(job_outcome("install", Err("denied".to_string())), ("denied".to_string(), true));
    assert_eq!(mode_label(0x02), "PC control");
    assert_eq!(mode_label(0x00), "Card auto mode");
    assert_eq!(mode_label(0x07), "Unknown mode");
    assert_eq!(controller_line(Some("i2c-4, GPU 0000:0a:00.0"), None, None), (Tone::Good, "Found (i2c-4, GPU 0000:0a:00.0)".to_string()));
    assert_eq!(controller_line(None, Some(Source::Daemon), Some("x")), (Tone::Good, "Found by the running service".to_string()));
    assert_eq!(controller_line(None, Some(Source::Direct), Some("no access")), (Tone::Danger, "no access".to_string()));
    assert_eq!(controller_line(None, None, None), (Tone::Danger, "Not found".to_string()));
    assert_eq!(
        none_supported_note(&["A".to_string(), "B".to_string()]),
        "None of these cards is supported. Supported: A, B."
    );
}

#[test]
fn curve_editor_keeps_between_two_and_sixteen_points() {
    assert!(!can_remove_point(2));
    assert!(can_remove_point(3));
    assert!(can_add_point(15));
    assert!(!can_add_point(16));
}
