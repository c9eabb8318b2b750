use gpu_fanctl::cli::{curve_name, editable_config, mode_name};
use gpu_fanctl::config::{Config, Curve, FileRead};

#[test]
fn modes_and_curves_in_words() {
    assert_eq!(mode_name(0x02), "host");
    assert_eq!(mode_name(0x00), "card auto");
    assert_eq!(mode_name(0x13), "unknown");
    assert_eq!(curve_name(&Curve::Auto), "Auto (built-in)");
    assert_eq!(curve_name(&Curve::Custom(vec![(40, 30), (80, 100)])), "custom");
}

#[test]
fn an_invalid_settings_file_is_never_changed() {
    assert_eq!(editable_config("/etc/s.conf", FileRead::NotFound), Ok(Config::default()));
    assert_eq!(editable_config("/etc/s.conf", FileRead::Text("max_temp = 70\n".to_string())).unwrap().max_temp, 70);
    assert_eq!(
        editable_config("/etc/s.conf", FileRead::Text("fan = 3\n".to_string())),
        Err("/etc/s.conf is invalid; fix or delete it first: line 1: unknown key `fan`".to_string())
    );
    assert_eq!(
        editable_config("/etc/s.conf", FileRead::Failed("permission denied".to_string())),
        Err("reading /etc/s.conf: permission denied".to_string())
    );
}
