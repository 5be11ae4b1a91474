use cph_tools::config::{refresh_source, ConfigFile, ConfigSettedBy, FileEvent};
use cph_tools::service::{
    check_normalized, clipboard_file, echo_message, recreated_ref_in_running, ClipboardRefusal,
    RunningMode,
};

#[test]
fn clipboard_needs_the_proxy_enabled() {
    assert_eq!(clipboard_file(None, "/p/a.cc", "/p"), Err(ClipboardRefusal::Disabled));
    assert_eq!(clipboard_file(Some(false), "/p/a.cc", "/p"), Err(ClipboardRefusal::Disabled));
}

#[test]
fn clipboard_needs_a_path() {
    assert_eq!(clipboard_file(Some(true), "", "/p"), Err(ClipboardRefusal::EmptyPath));
}

#[test]
fn clipboard_file_must_be_inside_the_project() {
    assert_eq!(
        clipboard_file(Some(true), "/p/x/../a.cc", "/p"),
        Ok("/p/a.cc".to_owned())
    );
    assert_eq!(
        clipboard_file(Some(true), "/p/./b//c.cc", "/p/"),
        Ok("/p/b/c.cc".to_owned())
    );
    assert_eq!(
        clipboard_file(Some(true), "/p/../etc/passwd", "/p"),
        Err(ClipboardRefusal::OutsideProject)
    );
    assert_eq!(
        clipboard_file(Some(true), "p/a.cc", "p"),
        Err(ClipboardRefusal::OutsideProject)
    );
    // Whole components only: `/pq` is not inside `/p`.
    assert_eq!(
        clipboard_file(Some(true), "/pq/a.cc", "/p"),
        Err(ClipboardRefusal::OutsideProject)
    );
}

#[test]
fn normalized_paths_are_checked() {
    assert_eq!(check_normalized("/a", true), Ok("/a".to_owned()));
    assert_eq!(check_normalized("/a", false), Err(ClipboardRefusal::OutsideProject));
    assert_eq!(check_normalized("a", true), Err(ClipboardRefusal::OutsideProject));
    assert_eq!(check_normalized("", true), Err(ClipboardRefusal::OutsideProject));
}

#[test]
fn echo_greets() {
    assert_eq!(echo_message("bob"), "helloworld, bob!");
    assert_eq!(echo_message(""), "helloworld, !");
}

#[test]
fn test_symlink() {
    // With the default configuration the running mode is off: nothing to link.
    let mut recent = String::new();
    let src = format!("{}{}", "/project", "/archive/codeforces/2008/A/main.h");
    assert!(recreated_ref_in_running(None, &mut recent, "1234", &src, "a.cc").is_none());
    assert_eq!(recent, "");
}

#[test]
fn running_mode_links_into_the_running_directory() {
    let mode = RunningMode {
        enable: true,
        running_path: "/run".to_owned(),
        remove_old_linkers: true,
    };
    let mut recent = String::new();
    let plan = recreated_ref_in_running(Some(&mode), &mut recent, "1234", "/s/main.h", "a.cc")
        .expect("running mode is on");
    assert_eq!(plan.link_from, "/s/main.h");
    assert_eq!(plan.link_to, "/run/a.cc");
    assert_eq!(plan.remove_old_in, None);
    assert_eq!(recent, "");
    let mut recent = "1234".to_owned();
    let plan = recreated_ref_in_running(Some(&mode), &mut recent, "1234", "/s/main.h", "b.cc")
        .expect("running mode is on");
    assert_eq!(plan.remove_old_in, Some("/run".to_owned()));
    assert_eq!(recent, "1234");
    let off = RunningMode {
        enable: false,
        running_path: "/run".to_owned(),
        remove_old_linkers: true,
    };
    assert!(recreated_ref_in_running(Some(&off), &mut recent, "1234", "/s", "c.cc").is_none());
}

#[test]
fn workspace_config_wins() {
    assert_eq!(ConfigSettedBy::default(), ConfigSettedBy::Default);
    assert_eq!(
        refresh_source(ConfigFile::System, FileEvent::Modify, ConfigSettedBy::Default),
        Some(ConfigSettedBy::SysCfgPath)
    );
    assert_eq!(refresh_source(ConfigFile::System, FileEvent::Create, ConfigSettedBy::Default), None);
    assert_eq!(refresh_source(ConfigFile::System, FileEvent::Modify, ConfigSettedBy::WorkspaceCfgPath), None);
    assert_eq!(
        refresh_source(ConfigFile::Workspace, FileEvent::Create, ConfigSettedBy::SysCfgPath),
        Some(ConfigSettedBy::WorkspaceCfgPath)
    );
    assert_eq!(
        refresh_source(ConfigFile::Workspace, FileEvent::Modify, ConfigSettedBy::WorkspaceCfgPath),
        Some(ConfigSettedBy::WorkspaceCfgPath)
    );
    assert_eq!(refresh_source(ConfigFile::Workspace, FileEvent::Other, ConfigSettedBy::Default), None);
}
