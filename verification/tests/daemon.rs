use constraint_mux::daemon::{choose_alias, default_alias, demo_step, DemoStep};

#[test]
fn alias_given_wins() {
    assert_eq!(
        default_alias(Some("synth-1".to_string()), Some("/dev/ttyUSB0".to_string())),
        "synth-1"
    );
    assert_eq!(default_alias(None, None), "serial");
}

#[test]
fn alias_from_device_file_name() {
    assert_eq!(default_alias(None, Some("/dev/ttyUSB0".to_string())), "ttyUSB0");
    assert_eq!(default_alias(None, Some("/dev/..".to_string())), "serial");
}

#[test]
fn choose_alias_cases() {
    assert_eq!(choose_alias(Some("a".to_string()), Some(Some("b".to_string()))), "a");
    assert_eq!(choose_alias(None, Some(Some("b".to_string()))), "b");
    assert_eq!(choose_alias(None, Some(None)), "serial");
    assert_eq!(choose_alias(None, None), "serial");
}

#[test]
fn demo_schedule() {
    assert_eq!(demo_step(0), DemoStep { note: 0, chord: false, next: 1 });
    assert_eq!(demo_step(6), DemoStep { note: 6, chord: true, next: 7 });
    assert_eq!(demo_step(9), DemoStep { note: 1, chord: false, next: 10 });
    assert_eq!(demo_step(13).chord, true);
}

#[test]
fn alias_from_plain_device_paths() {
    assert_eq!(default_alias(None, Some("ttyACM0".to_string())), "ttyACM0");
    assert_eq!(default_alias(None, Some("./dev/x".to_string())), "x");
    assert_eq!(default_alias(None, Some("a/b/synth".to_string())), "synth");
    assert_eq!(default_alias(None, Some("/dev/serial/by-id/usb-1".to_string())), "usb-1");
}

#[test]
fn alias_from_other_device_paths_is_a_file_name_or_fallback() {
    for p in ["/", "", "..", "/dev/", "/dev/.", "C:\\dev\\COM3", "//srv/share"] {
        let a = default_alias(None, Some(p.to_string()));
        assert!(a == "serial" || !a.is_empty(), "{:?} -> {:?}", p, a);
        if !p.contains('\\') {
            assert!(a == "serial" || !a.contains('/'), "{:?} -> {:?}", p, a);
        }
    }
}
