//! The text files of the Linux install, written and read back: the systemd unit, the app-menu
//! entry, what `systemctl show` says of the service, and where the user's desktop folder is.

use vstd::prelude::*;
use crate::text::{
    before, char_views, chars_of, copy_range, find_char, first_whitespace, first_word,
    first_word_chars, is_whitespace, lemma_find_from_is, lines, strip_cr, trim_start,
    push_chars, push_str, replace_all, replace_chars, split_lines, strip_prefix,
    strip_prefix_chars, strip_suffix, strip_suffix_chars, trim, trim_chars, trim_matches,
    trim_matches_chars,
};

verus! {

/// Where `install` copies the programs.
pub open spec fn install_dir_text() -> Seq<char> {
    "/usr/local/bin"@
}

pub fn install_dir() -> (r: String)
    ensures
        r@ == install_dir_text(),
{
    let mut s = String::new();
    push_str(&mut s, "/usr/local/bin");
    s
}

/// The systemd unit that runs `<program> run`, restarting it if it stops.
pub open spec fn unit_text(program: Seq<char>) -> Seq<char> {
    "[Unit]\nDescription=FanConnect II Controller (ASUS ROG Strix RTX 2080 Ti external fans)\nAfter=systemd-modules-load.service\n\n[Service]\nExecStartPre=-/usr/bin/modprobe i2c-dev\nExecStart="@
        + program + " run\nRestart=always\nRestartSec=3\n\n[Install]\nWantedBy=multi-user.target\n"@
}

pub fn unit_file(program: &str) -> (r: String)
    ensures
        r@ == unit_text(program@),
{
    let mut s = String::new();
    push_str(
        &mut s,
        "[Unit]\nDescription=FanConnect II Controller (ASUS ROG Strix RTX 2080 Ti external fans)\nAfter=systemd-modules-load.service\n\n[Service]\nExecStartPre=-/usr/bin/modprobe i2c-dev\nExecStart=",
    );
    push_str(&mut s, program);
    push_str(&mut s, " run\nRestart=always\nRestartSec=3\n\n[Install]\nWantedBy=multi-user.target\n");
    s
}

/// The app-menu entry (also the desktop shortcut) that starts the GUI.
pub open spec fn desktop_entry_text(gui: Seq<char>) -> Seq<char> {
    "[Desktop Entry]\nType=Application\nName=FanConnect II Controller\nComment=FanConnect II fan control for the ASUS ROG Strix RTX 2080 Ti\nExec="@
        + gui
        + "\nIcon=gpu-fanctl\nTerminal=false\nCategories=System;Settings;HardwareSettings;\nStartupWMClass=gpu-fanctl-gui\n"@
}

pub fn desktop_entry(gui: &str) -> (r: String)
    ensures
        r@ == desktop_entry_text(gui@),
{
    let mut s = String::new();
    push_str(
        &mut s,
        "[Desktop Entry]\nType=Application\nName=FanConnect II Controller\nComment=FanConnect II fan control for the ASUS ROG Strix RTX 2080 Ti\nExec=",
    );
    push_str(&mut s, gui);
    push_str(
        &mut s,
        "\nIcon=gpu-fanctl\nTerminal=false\nCategories=System;Settings;HardwareSettings;\nStartupWMClass=gpu-fanctl-gui\n",
    );
    s
}

/// The rest of the first line that starts with `key`, if any line does.
pub open spec fn first_stripped(ls: Seq<Seq<char>>, key: Seq<char>) -> Option<Seq<char>>
    decreases ls.len(),
{
    if ls.len() == 0 {
        None
    } else {
        match strip_prefix(ls[0], key) {
            Some(rest) => Some(rest),
            None => first_stripped(ls.drop_first(), key),
        }
    }
}

fn first_stripped_of(ls: &[Vec<char>], key: &str) -> (r: Option<Vec<char>>)
    ensures
        match first_stripped(char_views(ls@), key@) {
            Some(v) => r matches Some(x) && x@ == v,
            None => r is None,
        },
{
    let ghost views = char_views(ls@);
    let mut i: usize = 0;
    assert(views.skip(0) =~= views);
    while i < ls.len()
        invariant
            i <= ls@.len(),
            views == char_views(ls@),
            first_stripped(views, key@) == first_stripped(views.skip(i as int), key@),
        decreases ls@.len() - i,
    {
        assert(views.skip(i as int)[0] == ls@[i as int]@);
        assert(views.skip(i as int).drop_first() =~= views.skip(i + 1));
        match strip_prefix_chars(ls[i].as_slice(), key) {
            Some(rest) => {
                return Some(rest);
            },
            None => {},
        }
        i = i + 1;
    }
    None
}

/// A property's value in `systemctl show` output (`Key=value` lines), trimmed; empty if absent.
pub open spec fn show_value(text: Seq<char>, key: Seq<char>) -> Seq<char> {
    trim(
        match first_stripped(lines(text), key) {
            Some(v) => v,
            None => seq![],
        },
    )
}

/// Whether the service runs, from `systemctl show --property=LoadState,ActiveState`: `None` if
/// it is not installed (not loaded).
pub open spec fn service_state_of(text: Seq<char>) -> Option<bool> {
    if show_value(text, "LoadState="@) != "loaded"@ {
        None
    } else {
        Some(show_value(text, "ActiveState="@) == "active"@)
    }
}

fn show_value_of(ls: &[Vec<char>], key: &str) -> (r: Vec<char>)
    ensures
        r@ == trim(
            match first_stripped(char_views(ls@), key@) {
                Some(v) => v,
                None => seq![],
            },
        ),
{
    match first_stripped_of(ls, key) {
        Some(v) => trim_chars(v.as_slice()),
        None => {
            let empty: Vec<char> = Vec::new();
            assert(trim(empty@) =~= empty@);
            empty
        },
    }
}

fn chars_are(v: &[char], t: &str) -> (b: bool)
    ensures
        b == (v@ == t@),
{
    crate::text::chars_equal(v, t)
}

pub fn service_state(show_output: &str) -> (r: Option<bool>)
    ensures
        r == service_state_of(show_output@),
{
    let text = chars_of(show_output);
    let ls = split_lines(text.as_slice());
    let load = show_value_of(ls.as_slice(), "LoadState=");
    if !chars_are(load.as_slice(), "loaded") {
        return None;
    }
    let active = show_value_of(ls.as_slice(), "ActiveState=");
    Some(chars_are(active.as_slice(), "active"))
}

/// The program an installed unit runs: the first word after `ExecStart=`.
pub open spec fn unit_program(unit: Seq<char>) -> Option<Seq<char>> {
    match first_stripped(lines(unit), "ExecStart="@) {
        Some(command) => first_word(command),
        None => None,
    }
}

pub fn installed_program(unit: &str) -> (r: Option<String>)
    ensures
        match unit_program(unit@) {
            Some(p) => r matches Some(s) && s@ == p,
            None => r is None,
        },
{
    let text = chars_of(unit);
    let ls = split_lines(text.as_slice());
    match first_stripped_of(ls.as_slice(), "ExecStart=") {
        Some(command) => match first_word_chars(command.as_slice()) {
            Some(w) => {
                let mut s = String::new();
                push_chars(&mut s, w.as_slice());
                Some(s)
            },
            None => None,
        },
        None => None,
    }
}

/// The desktop folder set in ~/.config/user-dirs.dirs (it may be localised, e.g.
/// "Schreibtisch"): the value of `XDG_DESKTOP_DIR=` without quotes, `$HOME` replaced by the
/// home folder. `None` if the file sets none.
pub open spec fn configured_desktop(user_dirs: Seq<char>, home: Seq<char>) -> Option<Seq<char>> {
    match first_stripped(lines(user_dirs), "XDG_DESKTOP_DIR="@) {
        Some(value) => Some(replace_all(trim_matches(value, '"'), "$HOME"@, home)),
        None => None,
    }
}

pub fn desktop_dir_setting(user_dirs: &str, home: &str) -> (r: Option<String>)
    ensures
        match configured_desktop(user_dirs@, home@) {
            Some(d) => r matches Some(s) && s@ == d,
            None => r is None,
        },
{
    let text = chars_of(user_dirs);
    let ls = split_lines(text.as_slice());
    match first_stripped_of(ls.as_slice(), "XDG_DESKTOP_DIR=") {
        Some(value) => {
            let unquoted = trim_matches_chars(value.as_slice(), '"');
            proof {
                reveal_strlit("$HOME");
            }
            let replaced = replace_chars(unquoted.as_slice(), "$HOME", home);
            let mut s = String::new();
            push_chars(&mut s, replaced.as_slice());
            Some(s)
        },
        None => None,
    }
}

/// The program in the command line the Windows service manager keeps for the service, e.g.
/// `"C:\Program Files\gpu-fanctl\gpu-fanctl.exe" service`: the quoted part, or else the line
/// without its trailing ` service`.
pub open spec fn command_program(command: Seq<char>) -> Seq<char> {
    match strip_prefix(command, "\""@) {
        Some(rest) => before(rest, '"'),
        None => match strip_suffix(command, " service"@) {
            Some(program) => program,
            None => command,
        },
    }
}

pub fn service_command_program(command: &str) -> (r: String)
    ensures
        r@ == command_program(command@),
{
    let v = chars_of(command);
    let program = match strip_prefix_chars(v.as_slice(), "\"") {
        Some(rest) => {
            let end = find_char(rest.as_slice(), '"');
            copy_range(rest.as_slice(), 0, end)
        },
        None => match strip_suffix_chars(v.as_slice(), " service") {
            Some(p) => p,
            None => v,
        },
    };
    let mut s = String::new();
    push_chars(&mut s, program.as_slice());
    s
}

// ----- what install writes is what is read back -----

/// A line without a line break, followed by one, comes out of `lines` as itself.
proof fn lemma_lines_cons(a: Seq<char>, rest: Seq<char>)
    requires
        forall|k: int| 0 <= k < a.len() ==> a[k] != '\n',
        a.len() == 0 || a.last() != '\r',
    ensures
        lines(a + seq!['\n'] + rest) == seq![a] + lines(rest),
{
    let t = a + seq!['\n'] + rest;
    lemma_find_from_is(t, '\n', 0, a.len() as int);
    assert(t.subrange(0, a.len() as int) =~= a);
    assert(t.subrange(a.len() + 1int, t.len() as int) =~= rest);
    assert(strip_cr(a) == a);
}

proof fn lemma_first_whitespace_is(s: Seq<char>, i: int, j: int)
    requires
        0 <= i <= j < s.len(),
        forall|k: int| i <= k < j ==> !is_whitespace(s[k]),
        is_whitespace(s[j]),
    ensures
        first_whitespace(s, i) == j,
    decreases j - i,
{
    if i < j {
        lemma_first_whitespace_is(s, i + 1, j);
    }
}

/// A path written into the unit is read back from it as the program the service runs, as long
/// as it has no whitespace in it (a path with a space comes back cut at the space).
pub proof fn unit_names_its_program(program: Seq<char>)
    requires
        program.len() > 0,
        forall|i: int| 0 <= i < program.len() ==> !is_whitespace(#[trigger] program[i]),
    ensures
        unit_program(unit_text(program)) == Some(program),
{
    let u1 = "[Unit]"@;
    let u2 = "Description=FanConnect II Controller (ASUS ROG Strix RTX 2080 Ti external fans)"@;
    let u3 = "After=systemd-modules-load.service"@;
    let u4 = ""@;
    let u5 = "[Service]"@;
    let u6 = "ExecStartPre=-/usr/bin/modprobe i2c-dev"@;
    let u7 = "ExecStart="@ + program + " run"@;
    let rest = "Restart=always\nRestartSec=3\n\n[Install]\nWantedBy=multi-user.target\n"@;
    let key = "ExecStart="@;
    reveal_strlit("[Unit]");
    reveal_strlit("Description=FanConnect II Controller (ASUS ROG Strix RTX 2080 Ti external fans)");
    reveal_strlit("After=systemd-modules-load.service");
    reveal_strlit("");
    reveal_strlit("[Service]");
    reveal_strlit("ExecStartPre=-/usr/bin/modprobe i2c-dev");
    reveal_strlit("ExecStart=");
    reveal_strlit(" run");
    reveal_strlit("Restart=always\nRestartSec=3\n\n[Install]\nWantedBy=multi-user.target\n");
    reveal_strlit("[Unit]\nDescription=FanConnect II Controller (ASUS ROG Strix RTX 2080 Ti external fans)\nAfter=systemd-modules-load.service\n\n[Service]\nExecStartPre=-/usr/bin/modprobe i2c-dev\nExecStart=");
    reveal_strlit(" run\nRestart=always\nRestartSec=3\n\n[Install]\nWantedBy=multi-user.target\n");
    let nl = seq!['\n'];
    let t7 = u7 + nl + rest;
    let t6 = u6 + nl + t7;
    let t5 = u5 + nl + t6;
    let t4 = u4 + nl + t5;
    let t3 = u3 + nl + t4;
    let t2 = u2 + nl + t3;
    let t1 = u1 + nl + t2;
    assert(unit_text(program) =~= t1);
    assert forall|k: int| 0 <= k < u7.len() implies u7[k] != '\n' by {
        if 10 <= k < 10 + program.len() {
            assert(u7[k] == program[k - 10]);
            assert(!is_whitespace(program[k - 10]));
        }
    }
    lemma_lines_cons(u7, rest);
    lemma_lines_cons(u6, t7);
    lemma_lines_cons(u5, t6);
    lemma_lines_cons(u4, t5);
    lemma_lines_cons(u3, t4);
    lemma_lines_cons(u2, t3);
    lemma_lines_cons(u1, t2);
    let ls = lines(t1);
    assert(ls =~= seq![u1, u2, u3, u4, u5, u6, u7] + lines(rest));
    assert(strip_prefix(u1, key) is None);
    assert(strip_prefix(u2, key) is None);
    assert(strip_prefix(u3, key) is None);
    assert(strip_prefix(u4, key) is None);
    assert(strip_prefix(u5, key) is None);
    assert(u6[9] != key[9]);
    assert(strip_prefix(u6, key) is None);
    assert(u7.take(10) =~= key);
    assert(u7.skip(10) =~= program + " run"@);
    assert(ls.drop_first().drop_first().drop_first().drop_first().drop_first().drop_first()[0] == u7);
    assert(first_stripped(ls, key) == Some(program + " run"@)) by {
        let l1 = ls.drop_first();
        let l2 = l1.drop_first();
        let l3 = l2.drop_first();
        let l4 = l3.drop_first();
        let l5 = l4.drop_first();
        let l6 = l5.drop_first();
        assert(first_stripped(l6, key) == Some(program + " run"@));
        assert(first_stripped(l5, key) == first_stripped(l6, key));
        assert(first_stripped(l4, key) == first_stripped(l5, key));
        assert(first_stripped(l3, key) == first_stripped(l4, key));
        assert(first_stripped(l2, key) == first_stripped(l3, key));
        assert(first_stripped(l1, key) == first_stripped(l2, key));
        assert(first_stripped(ls, key) == first_stripped(l1, key));
    }
    let command = program + " run"@;
    assert(trim_start(command) == command);
    lemma_first_whitespace_is(command, 0, program.len() as int);
    assert(command.take(program.len() as int) =~= program);
}

/// The unit is a valid systemd service for any program path without a line break: it opens
/// with the `[Unit]` section, the `[Service]` section starts on the fifth line, and the service
/// section's `ExecStart=` line, two lines further, runs `<program> run`.
pub proof fn unit_has_service_section(program: Seq<char>)
    requires
        forall|i: int| 0 <= i < program.len() ==> #[trigger] program[i] != '\n',
    ensures
        lines(unit_text(program)).len() > 6,
        lines(unit_text(program))[0] == "[Unit]"@,
        lines(unit_text(program))[4] == "[Service]"@,
        lines(unit_text(program))[6] == "ExecStart="@ + program + " run"@,
        forall|k: int| 0 <= k < 4 ==> lines(unit_text(program))[k] != "[Service]"@,
{
    let u1 = "[Unit]"@;
    let u2 = "Description=FanConnect II Controller (ASUS ROG Strix RTX 2080 Ti external fans)"@;
    let u3 = "After=systemd-modules-load.service"@;
    let u4 = ""@;
    let u5 = "[Service]"@;
    let u6 = "ExecStartPre=-/usr/bin/modprobe i2c-dev"@;
    let u7 = "ExecStart="@ + program + " run"@;
    let rest = "Restart=always\nRestartSec=3\n\n[Install]\nWantedBy=multi-user.target\n"@;
    reveal_strlit("[Unit]");
    reveal_strlit("Description=FanConnect II Controller (ASUS ROG Strix RTX 2080 Ti external fans)");
    reveal_strlit("After=systemd-modules-load.service");
    reveal_strlit("");
    reveal_strlit("[Service]");
    reveal_strlit("ExecStartPre=-/usr/bin/modprobe i2c-dev");
    reveal_strlit("ExecStart=");
    reveal_strlit(" run");
    reveal_strlit("Restart=always\nRestartSec=3\n\n[Install]\nWantedBy=multi-user.target\n");
    reveal_strlit("[Unit]\nDescription=FanConnect II Controller (ASUS ROG Strix RTX 2080 Ti external fans)\nAfter=systemd-modules-load.service\n\n[Service]\nExecStartPre=-/usr/bin/modprobe i2c-dev\nExecStart=");
    reveal_strlit(" run\nRestart=always\nRestartSec=3\n\n[Install]\nWantedBy=multi-user.target\n");
    let nl = seq!['\n'];
    let t7 = u7 + nl + rest;
    let t6 = u6 + nl + t7;
    let t5 = u5 + nl + t6;
    let t4 = u4 + nl + t5;
    let t3 = u3 + nl + t4;
    let t2 = u2 + nl + t3;
    let t1 = u1 + nl + t2;
    assert(unit_text(program) =~= t1);
    assert forall|k: int| 0 <= k < u7.len() implies u7[k] != '\n' by {
        if 10 <= k < 10 + program.len() {
            assert(u7[k] == program[k - 10]);
        }
    }
    lemma_lines_cons(u7, rest);
    lemma_lines_cons(u6, t7);
    lemma_lines_cons(u5, t6);
    lemma_lines_cons(u4, t5);
    lemma_lines_cons(u3, t4);
    lemma_lines_cons(u2, t3);
    lemma_lines_cons(u1, t2);
    let ls = lines(t1);
    assert(ls =~= seq![u1, u2, u3, u4, u5, u6, u7] + lines(rest));
    assert(u1 != u5 && u2 != u5 && u3 != u5 && u4 != u5) by {
        assert(u1.len() != u5.len() || u1[1] != u5[1]);
    }
}

/// One step of changing the installed service.
#[derive(Clone, Copy, Debug, PartialEq, Eq)]
pub enum ServiceStep {
    Uninstall,
    Install,
}

/// What reinstalling does: uninstall first if the service is installed, then install.
pub fn reinstall_steps(installed: bool) -> (v: Vec<ServiceStep>)
    ensures
        v@ == (if installed {
            seq![ServiceStep::Uninstall, ServiceStep::Install]
        } else {
            seq![ServiceStep::Install]
        }),
{
    let mut v = Vec::new();
    if installed {
        v.push(ServiceStep::Uninstall);
    }
    v.push(ServiceStep::Install);
    proof {
        if installed {
            assert(v@ =~= seq![ServiceStep::Uninstall, ServiceStep::Install]);
        } else {
            assert(v@ =~= seq![ServiceStep::Install]);
        }
    }
    v
}

} // verus!
