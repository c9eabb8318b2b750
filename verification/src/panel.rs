//! What the desktop app shows about the service and the card: which state it reports, in which
//! tone, with which words, and which actions it offers.

use vstd::prelude::*;
use crate::config::{CUSTOM_POINTS_HIGH, CUSTOM_POINTS_LOW};
use crate::fanconnect::{MODE_AUTO, MODE_HOST};
use crate::text::{join, joined_with, push_str, string_views};

verus! {

/// Where the live values come from.
#[derive(Clone, Copy, Debug, PartialEq, Eq)]
pub enum Source {
    /// From the running daemon/service.
    Daemon,
    /// Read from the card by the app; nothing is controlling the fans.
    Direct,
}

#[derive(Clone, Copy, Debug, PartialEq, Eq)]
pub enum ServiceState {
    Running,
    Stopped,
    NotInstalled,
    /// Not known yet.
    Unknown,
}

/// How a line is coloured.
#[derive(Clone, Copy, Debug, PartialEq, Eq)]
pub enum Tone {
    Good,
    Warn,
    Weak,
    Danger,
}

/// The service state from what the service manager said: not installed, or running or not.
pub fn service_state_of(running: Option<bool>) -> (s: ServiceState)
    ensures
        s == (match running {
            None => ServiceState::NotInstalled,
            Some(true) => ServiceState::Running,
            Some(false) => ServiceState::Stopped,
        }),
{
    match running {
        None => ServiceState::NotInstalled,
        Some(true) => ServiceState::Running,
        Some(false) => ServiceState::Stopped,
    }
}

/// The banner at the top of the overview: a running service wins; otherwise why nothing
/// controls the fans.
pub open spec fn banner_of(source: Option<Source>, service: ServiceState) -> (Tone, Seq<char>, Seq<char>) {
    if source == Some(Source::Daemon) {
        (Tone::Good, "Service running"@, "The fans follow the fan curve."@)
    } else if service == ServiceState::Stopped {
        (
            Tone::Warn,
            "Service stopped"@,
            "Nothing is controlling the fans. Reinstall it on the Service page to start it."@,
        )
    } else if service == ServiceState::NotInstalled {
        (
            Tone::Warn,
            "Service not installed"@,
            "Nothing is controlling the fans. Install it on the Service page."@,
        )
    } else {
        (
            Tone::Warn,
            "No service running"@,
            "Nothing is controlling the fans. Showing readings taken directly from the card."@,
        )
    }
}

pub fn status_banner(source: Option<Source>, service: ServiceState) -> (r: (Tone, &'static str, &'static str))
    ensures
        (r.0, r.1@, r.2@) == banner_of(source, service),
{
    match (source, service) {
        (Some(Source::Daemon), _) => (Tone::Good, "Service running", "The fans follow the fan curve."),
        (_, ServiceState::Stopped) => (
            Tone::Warn,
            "Service stopped",
            "Nothing is controlling the fans. Reinstall it on the Service page to start it.",
        ),
        (_, ServiceState::NotInstalled) => (
            Tone::Warn,
            "Service not installed",
            "Nothing is controlling the fans. Install it on the Service page.",
        ),
        _ => (
            Tone::Warn,
            "No service running",
            "Nothing is controlling the fans. Showing readings taken directly from the card.",
        ),
    }
}

/// The status line under the navigation, on every page: the banner's title.
pub fn service_summary(source: Option<Source>, service: ServiceState) -> (r: (Tone, &'static str))
    ensures
        r.0 == banner_of(source, service).0,
        r.1@ == banner_of(source, service).1,
{
    let (tone, title, _) = status_banner(source, service);
    (tone, title)
}

/// The service page's state line.
pub fn service_state_text(service: ServiceState) -> (r: (Tone, &'static str))
    ensures
        r.0 == (match service {
            ServiceState::Running => Tone::Good,
            ServiceState::Stopped => Tone::Warn,
            _ => Tone::Weak,
        }),
        r.1@ == (match service {
            ServiceState::Running => "Installed and running"@,
            ServiceState::Stopped => "Installed, but stopped"@,
            ServiceState::NotInstalled => "Not installed"@,
            ServiceState::Unknown => "Checking…"@,
        }),
{
    match service {
        ServiceState::Running => (Tone::Good, "Installed and running"),
        ServiceState::Stopped => (Tone::Warn, "Installed, but stopped"),
        ServiceState::NotInstalled => (Tone::Weak, "Not installed"),
        ServiceState::Unknown => (Tone::Weak, "Checking…"),
    }
}

/// The actions the service page offers: install when there is no service, reinstall and
/// uninstall when there is one, none while the state is unknown.
pub open spec fn actions_for(service: ServiceState) -> Seq<Seq<char>> {
    match service {
        ServiceState::NotInstalled => seq!["install"@],
        ServiceState::Running | ServiceState::Stopped => seq!["reinstall"@, "uninstall"@],
        ServiceState::Unknown => seq![],
    }
}

pub fn service_actions(service: ServiceState) -> (r: Vec<&'static str>)
    ensures
        r@.map_values(|a: &'static str| a@) == actions_for(service),
{
    let mut r: Vec<&'static str> = Vec::new();
    match service {
        ServiceState::NotInstalled => {
            r.push("install");
        },
        ServiceState::Running | ServiceState::Stopped => {
            r.push("reinstall");
            r.push("uninstall");
        },
        ServiceState::Unknown => {},
    }
    assert(r@.map_values(|a: &'static str| a@) =~= actions_for(service));
    r
}

/// What installing would do, shown next to the buttons: where it copies the app when there is
/// no service, that reinstalling updates the installed copy when this app runs from elsewhere,
/// nothing when it runs the installed copy.
pub open spec fn install_hint_text(installed: bool, running_installed_copy: bool, install_dir: Seq<char>, windows: bool) -> Seq<char> {
    if !installed {
        "Install copies this app to "@ + install_dir + ", runs the service from there and adds "@
            + (if windows {
            "Start menu and desktop shortcuts"@
        } else {
            "an app menu entry and a desktop shortcut"@
        }) + "."@
    } else if !running_installed_copy {
        "Reinstall updates "@ + install_dir + " with this version of the app."@
    } else {
        seq![]
    }
}

pub fn install_hint(installed: bool, running_installed_copy: bool, install_dir: &str, windows: bool) -> (r: String)
    ensures
        r@ == install_hint_text(installed, running_installed_copy, install_dir@, windows),
{
    let mut s = String::new();
    if !installed {
        push_str(&mut s, "Install copies this app to ");
        push_str(&mut s, install_dir);
        push_str(&mut s, ", runs the service from there and adds ");
        if windows {
            push_str(&mut s, "Start menu and desktop shortcuts");
        } else {
            push_str(&mut s, "an app menu entry and a desktop shortcut");
        }
        push_str(&mut s, ".");
    } else if !running_installed_copy {
        push_str(&mut s, "Reinstall updates ");
        push_str(&mut s, install_dir);
        push_str(&mut s, " with this version of the app.");
    }
    s
}

/// The message after an elevated action ended, and whether it is an error.
pub fn job_outcome(action: &str, result: Result<(), String>) -> (r: (String, bool))
    ensures
        match result {
            Ok(()) => r.0@ == "Service "@ + action@ + " finished."@ && !r.1,
            Err(e) => r.0@ == e@ && r.1,
        },
{
    match result {
        Ok(()) => {
            let mut s = String::new();
            push_str(&mut s, "Service ");
            push_str(&mut s, action);
            push_str(&mut s, " finished.");
            (s, false)
        },
        Err(e) => (e, true),
    }
}

/// The mode register in words, under the temperature.
pub fn mode_label(mode: u8) -> (r: &'static str)
    ensures
        r@ == (if mode == MODE_HOST {
            "PC control"@
        } else if mode == MODE_AUTO {
            "Card auto mode"@
        } else {
            "Unknown mode"@
        }),
{
    if mode == MODE_HOST {
        "PC control"
    } else if mode == MODE_AUTO {
        "Card auto mode"
    } else {
        "Unknown mode"
    }
}

/// Where the fan controller was found, on the GPU page: its location if known, found by the
/// service (older services do not publish the location), or why it was not found.
pub open spec fn controller_text(location: Option<Seq<char>>, source: Option<Source>, error: Option<Seq<char>>) -> (Tone, Seq<char>) {
    match location {
        Some(l) => (Tone::Good, "Found ("@ + l + ")"@),
        None => if source == Some(Source::Daemon) {
            (Tone::Good, "Found by the running service"@)
        } else {
            (
                Tone::Danger,
                match error {
                    Some(e) => e,
                    None => "Not found"@,
                },
            )
        },
    }
}

pub fn controller_line(location: Option<&str>, source: Option<Source>, error: Option<&str>) -> (r: (Tone, String))
    ensures
        (r.0, r.1@) == controller_text(
            match location {
                Some(l) => Some(l@),
                None => None,
            },
            source,
            match error {
                Some(e) => Some(e@),
                None => None,
            },
        ),
{
    let mut s = String::new();
    match location {
        Some(l) => {
            push_str(&mut s, "Found (");
            push_str(&mut s, l);
            push_str(&mut s, ")");
            (Tone::Good, s)
        },
        None => match source {
            Some(Source::Daemon) => {
                push_str(&mut s, "Found by the running service");
                (Tone::Good, s)
            },
            _ => {
                match error {
                    Some(e) => push_str(&mut s, e),
                    None => push_str(&mut s, "Not found"),
                }
                (Tone::Danger, s)
            },
        },
    }
}

/// The note under a list of cards none of which is supported, naming the supported ones.
pub fn none_supported_note(supported_names: &[String]) -> (r: String)
    ensures
        r@ == "None of these cards is supported. Supported: "@ + joined_with(
            string_views(supported_names@),
            ", "@,
        ) + "."@,
{
    let mut s = String::new();
    push_str(&mut s, "None of these cards is supported. Supported: ");
    let names = join(supported_names, ", ");
    push_str(&mut s, names.as_str());
    push_str(&mut s, ".");
    s
}

/// Whether the curve editor offers removing a point: only while the curve keeps its minimum.
pub fn can_remove_point(points: usize) -> (r: bool)
    ensures
        r == (points > CUSTOM_POINTS_LOW),
{
    points > CUSTOM_POINTS_LOW
}

/// Whether the curve editor offers adding a point: only below the maximum.
pub fn can_add_point(points: usize) -> (r: bool)
    ensures
        r == (points < CUSTOM_POINTS_HIGH),
{
    points < CUSTOM_POINTS_HIGH
}

} // verus!
