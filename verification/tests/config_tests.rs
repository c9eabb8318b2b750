use gpu_fanctl::config::{
    format_curve, format_points, load_from, parse, parse_curve, render, validate_max_temp, Config,
    Curve, FileRead,
};

fn points() -> Vec<(u32, u32)> {
    vec![(40, 30), (60, 50), (80, 100)]
}

#[test]
fn empty_config_gives_defaults() {
    assert_eq!(parse(""), Ok(Config::default()));
    assert_eq!(parse("# only a comment\n\n"), Ok(Config::default()));
}

#[test]
fn parses_max_temp_with_comments_and_spacing() {
    assert_eq!(parse("max_temp=75").unwrap().max_temp, 75);
    assert_eq!(parse("  max_temp =  82  # quieter\n").unwrap().max_temp, 82);
}

#[test]
fn rejects_bad_max_temp_and_garbage() {
    assert!(parse("max_temp = 59").is_err());
    assert!(parse("max_temp = 91").is_err());
    assert!(parse("max_temp = hot").is_err());
    assert!(parse("max_temp = 80.5").is_err());
    assert!(parse("fan = 3").is_err());
    assert!(parse("max_temp 80").is_err());
}

#[test]
fn parses_custom_curve_in_several_spellings() {
    let expected = Curve::Custom(points());
    for text in ["40:30, 60:50, 80:100", "40:30 60:50 80:100", "40C:30%,60°C:50%, 80:100"] {
        assert_eq!(parse_curve(text), Ok(expected.clone()), "{text}");
    }
    assert_eq!(parse_curve("Auto"), Ok(Curve::Auto));
    let config = parse("max_temp = 85\ncurve = 40:30, 60:50, 80:100\n").unwrap();
    assert_eq!(config, Config { max_temp: 85, curve: expected, remembered_custom: None });
}

#[test]
fn rejects_bad_curves() {
    assert!(parse_curve("40:30").is_err(), "one point");
    assert!(parse_curve("40-30, 60:50").is_err(), "bad separator");
    assert!(parse_curve("40:30, 60:abc").is_err(), "not a number");
    assert!(parse_curve("60:30, 40:50").is_err(), "temps falling");
    assert!(parse_curve("40:10, 60:50").is_err(), "below floor");
    assert!(parse("curve = 40:30, 30:50").is_err());
    assert!(parse("custom_curve = auto").is_err());
}

#[test]
fn render_round_trips() {
    for config in [
        Config { max_temp: 60, curve: Curve::Auto, remembered_custom: None },
        Config { max_temp: 90, curve: Curve::Custom(points()), remembered_custom: None },
        Config { max_temp: 75, curve: Curve::Auto, remembered_custom: Some(points()) },
        Config::default(),
    ] {
        assert_eq!(parse(&render(&config)), Ok(config));
    }
}

#[test]
fn custom_curve_survives_switching_to_auto_and_back() {
    let mut config = parse("curve = 40:30, 60:50, 80:100").unwrap();
    config.use_auto();
    assert_eq!(config.curve, Curve::Auto);
    // Remembered in the file as well, so it survives a restart.
    let mut reloaded = parse(&render(&config)).unwrap();
    assert_eq!(reloaded.custom_points(), Some(points().as_slice()));
    reloaded.use_remembered_custom().unwrap();
    assert_eq!(reloaded.curve, Curve::Custom(points()));
    assert_eq!(reloaded.remembered_custom, None);
}

#[test]
fn older_files_still_load() {
    // Files written before custom_curve existed.
    assert_eq!(parse("max_temp = 80\n# curve = 45:30, 60:45, 70:70, 80:100\n"), Ok(Config::default()));
    assert!(Config::default().use_remembered_custom().is_err());
}

#[test]
fn custom_curve_validation() {
    assert!(Curve::custom(vec![(50, 40)]).is_err(), "one point");
    assert!(Curve::custom((0..17).map(|i| (20 + i, 50)).collect()).is_err(), "17 points");
    assert!(Curve::custom(vec![(50, 40), (50, 60)]).is_err(), "temps not rising");
    assert!(Curve::custom(vec![(50, 60), (60, 40)]).is_err(), "duty falling");
    assert!(Curve::custom(vec![(50, 20), (60, 40)]).is_err(), "below floor");
    assert!(Curve::custom(vec![(50, 40), (60, 110)]).is_err(), "above 100 %");
    assert!(Curve::custom(vec![(10, 40), (60, 50)]).is_err(), "temp too low");
    assert!(Curve::custom(vec![(50, 40), (60, 40)]).is_ok(), "flat is fine");
}

#[test]
fn max_temp_is_range_checked_with_messages() {
    assert_eq!(validate_max_temp("75"), Ok(75));
    assert_eq!(validate_max_temp("60"), Ok(60));
    assert_eq!(validate_max_temp("+90"), Ok(90));
    assert_eq!(validate_max_temp(" 60 "), Err("max_temp ` 60 ` is not a whole number".to_string()));
    assert_eq!(validate_max_temp("59"), Err("max_temp 59 is outside 60..=90 °C".to_string()));
    assert_eq!(validate_max_temp("91"), Err("max_temp 91 is outside 60..=90 °C".to_string()));
    assert!(validate_max_temp("").is_err());
    assert!(validate_max_temp("-1").is_err());
    assert_eq!(
        validate_max_temp("4294967296"),
        Err("max_temp `4294967296` is not a whole number".to_string())
    );
}

#[test]
fn curves_format_as_in_the_file() {
    assert_eq!(format_points(&points()), "40:30, 60:50, 80:100");
    assert_eq!(format_curve(&Curve::Auto), "auto");
    assert_eq!(format_curve(&Curve::Custom(points())), "40:30, 60:50, 80:100");
}

#[test]
fn custom_curve_rules_at_the_edges() {
    assert!(Curve::custom(vec![(20, 30), (100, 100)]).is_ok());
    assert!(Curve::custom((0..16).map(|i| (20 + i, 50)).collect()).is_ok(), "16 points");
    assert!(Curve::custom(vec![(19, 30), (100, 100)]).is_err());
    assert!(Curve::custom(vec![(20, 30), (101, 100)]).is_err());
    assert!(Curve::custom(vec![(20, 29), (100, 100)]).is_err());
}

#[test]
fn parse_errors_name_the_line() {
    let e = parse("max_temp = 80\nfan = 3\n").unwrap_err();
    assert!(e.starts_with("line 2: "), "{e}");
    let e = parse("max_temp 80").unwrap_err();
    assert!(e.starts_with("line 1: "), "{e}");
}

#[test]
fn custom_curve_in_use_is_not_also_remembered() {
    let c = parse("curve = 40:30, 60:50, 80:100\ncustom_curve = 30:30, 90:100\n").unwrap();
    assert_eq!(c.curve, Curve::Custom(points()));
    assert_eq!(c.remembered_custom, None);
}

#[test]
fn set_custom_replaces_the_curve() {
    let mut c = Config { max_temp: 80, curve: Curve::Auto, remembered_custom: Some(points()) };
    c.set_custom(Curve::Custom(vec![(30, 30), (90, 100)]));
    assert_eq!(c.curve, Curve::Custom(vec![(30, 30), (90, 100)]));
    assert_eq!(c.remembered_custom, None);
}

#[test]
fn loading_falls_back_to_defaults() {
    let (c, w) = load_from("/etc/x.conf", FileRead::NotFound);
    assert_eq!(c, Config::default());
    assert_eq!(w, None);
    let (c, w) = load_from("/etc/x.conf", FileRead::Text("max_temp = 70".to_string()));
    assert_eq!(c.max_temp, 70);
    assert_eq!(w, None);
    let (c, w) = load_from("/etc/x.conf", FileRead::Text("max_temp = 20".to_string()));
    assert_eq!(c, Config::default());
    let w = w.unwrap();
    assert!(w.starts_with("/etc/x.conf: "), "{w}");
    assert!(w.ends_with("; using the Auto curve and max temp 80 °C"), "{w}");
    let (c, w) = load_from("/etc/x.conf", FileRead::Failed("permission denied".to_string()));
    assert_eq!(c, Config::default());
    assert_eq!(w.unwrap(), "/etc/x.conf: permission denied; using the Auto curve and max temp 80 °C");
}

#[test]
fn written_curves_read_back() {
    for curve in [Curve::Auto, Curve::Custom(points()), Curve::Custom(vec![(20, 30), (100, 100)])] {
        assert_eq!(parse_curve(&format_curve(&curve)), Ok(curve.clone()));
    }
}

#[test]
fn parsed_files_stay_in_range() {
    let c = parse("max_temp = 60\ncurve = auto\ncustom_curve = 20:30 100:100\n").unwrap();
    assert!((60..=90).contains(&c.max_temp));
    assert_eq!(c.remembered_custom, Some(vec![(20, 30), (100, 100)]));
    let c = parse("curve = 20:30, 100:100\n").unwrap();
    assert_eq!(c.curve, Curve::Custom(vec![(20, 30), (100, 100)]));
    assert!(parse("curve = 20:29, 100:100\n").is_err());
    assert!(parse("custom_curve = 20:30, 101:100\n").is_err());
}

#[test]
fn curve_errors_say_what_is_wrong() {
    assert_eq!(Curve::custom(vec![(50, 40)]), Err("a curve needs 2 to 16 points, got 1".to_string()));
    assert_eq!(Curve::custom(vec![(10, 40), (60, 50)]), Err("temperature 10 °C is outside 20..=100 °C".to_string()));
    assert_eq!(Curve::custom(vec![(50, 20), (60, 40)]), Err("duty 20 % is outside 30..=100 %".to_string()));
    assert_eq!(Curve::custom(vec![(50, 40), (50, 60)]), Err("temperatures must rise: 50 °C follows 50 °C".to_string()));
    assert_eq!(
        Curve::custom(vec![(50, 60), (60, 40)]),
        Err("duty must not fall: 40 % at 60 °C follows 60 % at 50 °C".to_string())
    );
    assert_eq!(parse_curve("40:30"), Err("curve: a curve needs 2 to 16 points, got 1".to_string()));
    assert_eq!(parse_curve("40-30, 60:50"), Err("curve point `40-30` is not `temperature:duty`".to_string()));
    assert_eq!(parse_curve("40:30, 60:abc"), Err("curve point `60:abc`: `abc` is not a whole number".to_string()));
}
