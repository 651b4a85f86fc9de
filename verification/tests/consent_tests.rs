use strix::consent::{
    consent_store_path, is_nonpackaged_key, nonpackaged_name, packaged_app_name, push_access,
    sort_sensor_access, SensorAccess,
};
use strix::timekeeping::{filetime_to_unix, unix_seconds};

#[test]
fn filetime_conversion() {
    assert_eq!(filetime_to_unix(0), 0);
    assert_eq!(filetime_to_unix(116_444_736_000_000_000), 0);
    assert_eq!(filetime_to_unix(132_000_000_000_000_000), 1_555_526_400);
    assert_eq!(filetime_to_unix(1), -11_644_473_600);
    assert_eq!(filetime_to_unix(u64::MAX), 1_844_674_407_370 - 11_644_473_600);
}

#[test]
fn unix_seconds_cases() {
    assert_eq!(unix_seconds(None), 0);
    assert_eq!(unix_seconds(Some(1_700_000_000)), 1_700_000_000);
    assert_eq!(unix_seconds(Some(u64::MAX)), -1);
}

#[test]
fn nonpackaged_names() {
    let (app, path) = nonpackaged_name("C:#Program Files#App#app.exe");
    assert_eq!(app, "app.exe");
    assert_eq!(path, "C:\\Program Files\\App\\app.exe");
    let (app, path) = nonpackaged_name("plain.exe");
    assert_eq!(app, "plain.exe");
    assert_eq!(path, "plain.exe");
}

#[test]
fn packaged_names() {
    assert_eq!(packaged_app_name("Microsoft.WindowsCamera_8wekyb3d8bbwe"), "Microsoft.WindowsCamera");
    assert_eq!(packaged_app_name("NoUnderscore"), "NoUnderscore");
}

#[test]
fn nonpackaged_key_ignores_ascii_case() {
    assert!(is_nonpackaged_key("NonPackaged"));
    assert!(is_nonpackaged_key("NONPACKAGED"));
    assert!(!is_nonpackaged_key("NonPackaged2"));
}

#[test]
fn store_path() {
    assert_eq!(
        consent_store_path("webcam"),
        "SOFTWARE\\Microsoft\\Windows\\CurrentVersion\\CapabilityAccessManager\\ConsentStore\\webcam"
    );
}

#[test]
fn push_access_records() {
    let mut out = Vec::new();
    push_access("webcam", "App_x", false, 0, 0, &mut out);
    assert!(out.is_empty());
    push_access("webcam", "Microsoft.WindowsCamera_8wekyb3d8bbwe", false, 132_000_000_000_000_000, 0, &mut out);
    assert_eq!(out.len(), 1);
    assert_eq!(out[0].app, "Microsoft.WindowsCamera");
    assert_eq!(out[0].path, "Microsoft.WindowsCamera_8wekyb3d8bbwe");
    assert_eq!(out[0].capability, "webcam");
    assert_eq!(out[0].last_used, 1_555_526_400);
    assert!(out[0].in_use);
    push_access("microphone", "C:#a#b.exe", true, 132_000_000_000_000_000, 132_000_000_100_000_000, &mut out);
    assert_eq!(out.len(), 2);
    assert_eq!(out[1].app, "b.exe");
    assert_eq!(out[1].path, "C:\\a\\b.exe");
    assert!(!out[1].in_use);
    // stop recorded without a start
    push_access("location", "x", false, 0, 5, &mut out);
    assert_eq!(out.len(), 3);
    assert_eq!(out[2].last_used, 0);
    assert!(!out[2].in_use);
}

fn access(app: &str, last_used: i64, in_use: bool) -> SensorAccess {
    SensorAccess {
        capability: "webcam".to_string(),
        app: app.to_string(),
        path: app.to_string(),
        last_used,
        in_use,
    }
}

#[test]
fn active_first_then_most_recent_stably() {
    let v = vec![
        access("a", 10, false),
        access("b", 30, false),
        access("c", 5, true),
        access("d", 30, false),
        access("e", 50, true),
        access("f", 10, false),
    ];
    let r = sort_sensor_access(v);
    let apps: Vec<&str> = r.iter().map(|e| e.app.as_str()).collect();
    assert_eq!(apps, vec!["e", "c", "b", "d", "a", "f"]);
}

#[test]
fn sort_agrees_with_std_stable_sort() {
    let mut v = Vec::new();
    for i in 0..40i64 {
        v.push(access(&format!("p{i}"), (i * 7) % 5, i % 3 == 0));
    }
    let mut expected: Vec<String> = Vec::new();
    let mut copy: Vec<(bool, i64, String)> = v.iter().map(|e| (e.in_use, e.last_used, e.app.clone())).collect();
    copy.sort_by(|a, b| b.0.cmp(&a.0).then(b.1.cmp(&a.1)));
    for c in copy {
        expected.push(c.2);
    }
    let got: Vec<String> = sort_sensor_access(v).into_iter().map(|e| e.app).collect();
    assert_eq!(got, expected);
    assert!(sort_sensor_access(Vec::new()).is_empty());
}

#[test]
fn sorting_sorted_records_changes_nothing() {
    let v = vec![
        access("x", 9, true),
        access("y", 9, false),
        access("z", 9, false),
        access("w", 1, false),
    ];
    let once = sort_sensor_access(v);
    let first: Vec<String> = once.iter().map(|e| e.app.clone()).collect();
    assert_eq!(first, vec!["x", "y", "z", "w"]);
    let twice: Vec<String> = sort_sensor_access(once).into_iter().map(|e| e.app).collect();
    assert_eq!(twice, first);
}
