use gpu_fanctl::service_files::{
    reinstall_steps, ServiceStep,
    desktop_dir_setting, desktop_entry, install_dir, installed_program, service_command_program, service_state, unit_file,
};

#[test]
fn unit_runs_the_installed_program() {
    let unit = unit_file("/usr/local/bin/gpu-fanctl");
    assert!(unit.starts_with("[Unit]\nDescription=FanConnect II Controller"));
    assert!(unit.contains("\nExecStart=/usr/local/bin/gpu-fanctl run\nRestart=always\nRestartSec=3\n"));
    assert!(unit.ends_with("[Install]\nWantedBy=multi-user.target\n"));
    assert_eq!(installed_program(&unit), Some("/usr/local/bin/gpu-fanctl".to_string()));
    assert_eq!(install_dir(), "/usr/local/bin");
}

#[test]
fn installed_program_is_the_first_word_of_exec_start() {
    assert_eq!(installed_program("[Service]\r\nExecStart=  /opt/x run --now\r\n"), Some("/opt/x".to_string()));
    assert_eq!(installed_program("[Service]\nExecStart=\n"), None);
    assert_eq!(installed_program("[Service]\n"), None);
}

#[test]
fn desktop_entry_starts_the_gui() {
    let entry = desktop_entry("/usr/local/bin/gpu-fanctl-gui");
    assert!(entry.starts_with("[Desktop Entry]\nType=Application\n"));
    assert!(entry.contains("\nExec=/usr/local/bin/gpu-fanctl-gui\nIcon=gpu-fanctl\n"));
}

#[test]
fn service_state_from_systemctl_show() {
    assert_eq!(service_state("LoadState=loaded\nActiveState=active\n"), Some(true));
    assert_eq!(service_state("LoadState=loaded\nActiveState=inactive\n"), Some(false));
    assert_eq!(service_state("LoadState=not-found\nActiveState=inactive\n"), None);
    assert_eq!(service_state(""), None);
}

#[test]
fn desktop_folder_from_user_dirs() {
    let dirs = "# comment\nXDG_DOWNLOAD_DIR=\"$HOME/Downloads\"\nXDG_DESKTOP_DIR=\"$HOME/Schreibtisch\"\n";
    assert_eq!(desktop_dir_setting(dirs, "/home/anna"), Some("/home/anna/Schreibtisch".to_string()));
    assert_eq!(desktop_dir_setting("XDG_DESKTOP_DIR=/data/desk", "/home/anna"), Some("/data/desk".to_string()));
    assert_eq!(desktop_dir_setting("XDG_MUSIC_DIR=x", "/home/anna"), None);
}

#[test]
fn windows_service_program_from_its_command_line() {
    assert_eq!(
        service_command_program("\"C:\\Program Files\\gpu-fanctl\\gpu-fanctl.exe\" service"),
        "C:\\Program Files\\gpu-fanctl\\gpu-fanctl.exe"
    );
    assert_eq!(service_command_program("C:\\tools\\gpu-fanctl.exe service"), "C:\\tools\\gpu-fanctl.exe");
    assert_eq!(service_command_program("C:\\tools\\gpu-fanctl.exe"), "C:\\tools\\gpu-fanctl.exe");
    assert_eq!(service_command_program("\"unterminated"), "unterminated");
}

#[test]
fn reinstall_uninstalls_only_what_is_installed() {
    assert_eq!(reinstall_steps(true), vec![ServiceStep::Uninstall, ServiceStep::Install]);
    assert_eq!(reinstall_steps(false), vec![ServiceStep::Install]);
}
