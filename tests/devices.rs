use maestro_audio::devices::{contains_bytes, find_monitor_device, is_monitor_lowercase, is_monitor_source};

#[test]
fn byte_search() {
    assert!(contains_bytes(b"abcmonitor", b"monitor"));
    assert!(contains_bytes(b"monitor", b"monitor"));
    assert!(contains_bytes(b"x", b""));
    assert!(!contains_bytes(b"monito", b"monitor"));
    assert!(!contains_bytes(b"", b"m"));
    assert!(contains_bytes(b"mmonitorr", b"monitor"));
}

#[test]
fn monitor_names_are_matched_case_insensitively() {
    assert!(is_monitor_source("Monitor of Built-in Audio Analog Stereo"));
    assert!(is_monitor_source("alsa_output.pci.MONITOR"));
    assert!(!is_monitor_source("Built-in Microphone"));
    assert!(!is_monitor_lowercase("Monitor"));
    assert!(is_monitor_lowercase("monitor"));
}

#[test]
fn first_monitor_device_is_chosen() {
    let names: Vec<String> = vec![
        "Built-in Microphone".to_string(),
        "Monitor of Speakers".to_string(),
        "HDMI monitor".to_string(),
    ];
    assert_eq!(find_monitor_device(&names), Some(1));
    let none: Vec<String> = vec!["Headset".to_string()];
    assert_eq!(find_monitor_device(&none), None);
    assert_eq!(find_monitor_device(&Vec::new()), None);
}
