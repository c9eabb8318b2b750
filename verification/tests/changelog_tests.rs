use gpu_fanctl::changelog::{dep_version, release_heading, releases, Block};

const CHANGELOG: &str = "# Changelog\n\nIntro text.\n\n## [Unreleased]\n\n### Added\n\n- A `curve custom` command\n  that switches back.\n- Second\n\n## [0.2.0] - 2026-09-30\n\nPlain paragraph.\n";

#[test]
fn changelog_splits_into_releases() {
    let rs = releases(CHANGELOG);
    assert_eq!(rs.len(), 2);
    assert_eq!(rs[0].title, "Unreleased");
    assert_eq!(rs[1].title, "0.2.0 - 2026-09-30");
    assert_eq!(rs[0].blocks.len(), 3);
    assert!(matches!(&rs[0].blocks[0], Block::Heading(h) if h == "Added"));
    assert!(matches!(&rs[0].blocks[1], Block::Bullet(b) if b == "A curve custom command that switches back."));
    assert!(matches!(&rs[0].blocks[2], Block::Bullet(b) if b == "Second"));
    assert_eq!(rs[1].blocks.len(), 1);
    assert!(matches!(&rs[1].blocks[0], Block::Text(t) if t == "Plain paragraph."));
}

#[test]
fn dependency_versions_are_looked_up_by_name() {
    let deps = "anyhow=1.0.98;eframe=0.32.0;serde=1.0.219";
    assert_eq!(dep_version(deps, "eframe"), "0.32.0");
    assert_eq!(dep_version(deps, "serde"), "1.0.219");
    assert_eq!(dep_version(deps, "egui"), "?");
    assert_eq!(dep_version("", "x"), "?");
}

#[test]
fn release_headings_show_version_date_and_badge() {
    assert_eq!(
        release_heading("0.3.0 - 2026-09-30", true),
        ("Version 0.3.0".to_string(), "2026-09-30".to_string(), Some("Latest"))
    );
    assert_eq!(release_heading("0.2.0 - 2026-09-01", false), ("Version 0.2.0".to_string(), "2026-09-01".to_string(), None));
    assert_eq!(release_heading("Unreleased", false), ("Unreleased changes".to_string(), String::new(), Some("Upcoming")));
    assert_eq!(release_heading("Unreleased", true).2, Some("Upcoming"));
}
