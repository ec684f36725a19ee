use game_chronicle::monitor::{
    filter_process_map, game_stopped_payload, minutes_of_seconds, Process, ProcessMonitor,
};
use game_chronicle::registry::{default_dump_versions, dump_dataset_names, recorded_version};
use game_chronicle::settings::get_user_settings;
use game_chronicle::Error;

#[test]
fn settings_full_document() {
    let doc = "username = \"sam\"\nexecutable_paths = \"/games\"\nautostart = true\nnew = false\n\n[process_monitoring]\nenabled = true\ndirectory_depth = 4\n";
    let s = get_user_settings(doc, "fallback".to_string()).unwrap();
    assert_eq!(s.username, "sam");
    assert_eq!(s.executable_paths.as_deref(), Some("/games"));
    assert!(s.autostart);
    assert!(!s.new);
    assert!(s.process_monitoring.enabled);
    assert_eq!(s.process_monitoring.directory_depth, 4);
}

#[test]
fn settings_empty_document_defaults() {
    let s = get_user_settings("", "fallback".to_string()).unwrap();
    assert_eq!(s.username, "fallback");
    assert_eq!(s.executable_paths, None);
    assert!(!s.autostart);
    assert!(s.new);
    assert!(!s.process_monitoring.enabled);
    assert_eq!(s.process_monitoring.directory_depth, 2);
}

#[test]
fn settings_wrong_types_fall_back() {
    // values of the wrong type count as absent
    let doc = "username = 3\nautostart = \"yes\"\n";
    let s = get_user_settings(doc, "fallback".to_string()).unwrap();
    assert_eq!(s.username, "fallback");
    assert!(!s.autostart);
}

#[test]
fn settings_negative_depth_falls_back() {
    let doc = "[process_monitoring]\ndirectory_depth = -3\n";
    let s = get_user_settings(doc, "u".to_string()).unwrap();
    assert_eq!(s.process_monitoring.directory_depth, 2);
}

#[test]
fn settings_invalid_document_is_an_error() {
    match get_user_settings("username = ", "u".to_string()) {
        Err(Error::TomlParse) => {}
        _ => panic!("expected a parse error"),
    }
}

#[test]
fn registry_defaults_list_all_datasets() {
    let names = dump_dataset_names();
    assert_eq!(names, vec!["covers", "websites", "platforms", "games", "popularity_primitives"]);
    let versions = default_dump_versions();
    assert_eq!(versions.len(), 5);
    for (name, version) in &versions {
        assert!(names.contains(name));
        assert_eq!(version, "");
    }
}

#[test]
fn registry_lookup() {
    let mut versions = default_dump_versions();
    versions[3].1 = "v7".to_string();
    assert_eq!(recorded_version(&versions, &"games".to_string()).unwrap(), "v7");
    assert_eq!(recorded_version(&versions, &"covers".to_string()).unwrap(), "");
    assert!(recorded_version(&versions, &"nonsense".to_string()).is_none());
}

fn proc(path: &str, run_time: u64) -> Process {
    Process { name: path.rsplit('/').next().unwrap().to_string(), pid: 1, path: path.to_string(), run_time }
}

#[test]
fn monitor_reports_stopped_after_a_minute() {
    let mut m = ProcessMonitor::new();
    assert!(m.previous_running_processes.is_empty());
    let stopped = m.monitor_processes(vec![proc("/g/a", 400), proc("/g/b", 30)]);
    assert!(stopped.is_empty());
    // "a" and "b" both stop; only "a" ran a whole minute
    let stopped = m.monitor_processes(vec![proc("/g/c", 5)]);
    assert_eq!(stopped.len(), 1);
    assert_eq!(stopped[0].path, "/g/a");
    assert_eq!(m.previous_running_processes.len(), 1);
}

#[test]
fn monitor_keeps_running_processes_quiet() {
    let mut m = ProcessMonitor::new();
    m.monitor_processes(vec![proc("/g/a", 400)]);
    let stopped = m.monitor_processes(vec![proc("/g/a", 460)]);
    assert!(stopped.is_empty());
}

#[test]
fn filter_keeps_monitored_paths_only() {
    let ps = vec![proc("/g/a", 1), proc("/tmp/x", 2), proc("/g/b", 3)];
    let kept = filter_process_map(ps, vec!["/g/a".to_string(), "/g/b".to_string()]);
    let paths: Vec<&str> = kept.iter().map(|p| p.path.as_str()).collect();
    assert_eq!(paths, vec!["/g/a", "/g/b"]);
}

#[test]
fn stopped_payload_shapes() {
    let known = game_stopped_payload(Some(12), &"a.exe".to_string(), 42);
    assert_eq!(known.game_id, Some(12));
    assert_eq!(known.executable_name, None);
    assert_eq!(known.minutes_played, 42);
    let unknown = game_stopped_payload(None, &"a.exe".to_string(), 3);
    assert_eq!(unknown.game_id, None);
    assert_eq!(unknown.executable_name.as_deref(), Some("a.exe"));
}

#[test]
fn minutes_rounding() {
    assert_eq!(minutes_of_seconds(0), 0);
    assert_eq!(minutes_of_seconds(59), 0);
    assert_eq!(minutes_of_seconds(60), 1);
    assert_eq!(minutes_of_seconds(3727), 62);
}
