use std::path::Path;
use framework_service::cpu_paths::{cpu_index, is_cpu_dir, sort_cpu_paths};

#[test]
fn cpu_directories() {
    assert!(is_cpu_dir("/sys/devices/system/cpu/cpu12"));
    assert!(!is_cpu_dir("/sys/devices/system/cpu/cpufreq"));
    assert!(!is_cpu_dir("/sys/devices/system/cpu/possible"));
    assert!(is_cpu_dir("/sys/devices/system/cpu/cpu"));
    assert_eq!(cpu_index("/sys/devices/system/cpu/cpu7"), Some(7));
    assert_eq!(cpu_index("/sys/devices/system/cpu/cpu"), None);
    assert_eq!(cpu_index("/sys/devices/system/cpu/node0"), None);
}

#[test]
fn cpu_directories_follow_path_file_name() {
    for p in [
        "/sys/devices/system/cpu/cpu3/",
        "/sys/devices/system/cpu/cpu3//",
        "/sys/devices/system/cpu/cpu3/.",
        "/sys/devices/system/cpu/cpu3/./",
        "cpu3",
        "/",
        "",
        "/sys/devices/system/cpu/cpu3/..",
        "/sys/devices/system/cpu/cpu3/x",
    ] {
        let expected = Path::new(p)
            .file_name()
            .and_then(|n| n.to_str())
            .map(|n| n.starts_with("cpu") && n[3..].chars().all(|c| c.is_ascii_digit()))
            .unwrap_or(false);
        assert_eq!(is_cpu_dir(p), expected, "{}", p);
    }
    assert!(is_cpu_dir("/sys/devices/system/cpu/cpu3/"));
    assert_eq!(cpu_index("/sys/devices/system/cpu/cpu3/"), Some(3));
    assert_eq!(cpu_index("/sys/devices/system/cpu/cpu3/."), Some(3));
}

#[test]
fn cpu_paths_sorted_by_number_stably() {
    let mut v: Vec<String> = vec![
        "/c/cpu10".to_string(),
        "/c/cpu2".to_string(),
        "/a/cpux".to_string(),
        "/c/cpu1".to_string(),
        "/b/cpu2".to_string(),
        "/b/other".to_string(),
    ];
    sort_cpu_paths(&mut v);
    assert_eq!(
        v,
        vec![
            "/c/cpu1".to_string(),
            "/c/cpu2".to_string(),
            "/b/cpu2".to_string(),
            "/c/cpu10".to_string(),
            "/a/cpux".to_string(),
            "/b/other".to_string(),
        ]
    );
    let mut again = v.clone();
    sort_cpu_paths(&mut again);
    assert_eq!(again, v);
}
