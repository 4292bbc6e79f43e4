use launch::capture::{parse_adb_devices, split_window_line, window_lines};
use launch::naming::{capture_kind, is_simulator_app, is_supported_image_extension, safe_file_stem, CaptureKind};
use launch::text::{chars_of, split_lines, split_words, trim_chars};

#[test]
fn adb_device_list_keeps_ready_devices() {
    let out = "List of devices attached\nemulator-5554\tdevice\nR58M123\tunauthorized\n0123456789ABCDEF\tdevice product:x model:y\n\n";
    assert_eq!(parse_adb_devices(out), vec!["emulator-5554".to_string(), "0123456789ABCDEF".to_string()]);
    assert!(parse_adb_devices("List of devices attached\n\n").is_empty());
    assert!(parse_adb_devices("").is_empty());
    assert!(parse_adb_devices("emulator-5554\tdevice\n").is_empty());
    assert_eq!(parse_adb_devices("List\r\nabc device\r\nxyz devices\r\n"), vec!["abc".to_string()]);
}

#[test]
fn lines_follow_str_lines() {
    for s in ["", "a", "a\n", "a\nb", "a\r\nb\r\n", "\n\n", "x\r", "\r\n", "a\n\nb\n", "q\rw\ne"] {
        let expected: Vec<Vec<char>> = s.lines().map(|l| l.chars().collect()).collect();
        assert_eq!(split_lines(&chars_of(s)), expected, "{:?}", s);
    }
}

#[test]
fn words_follow_split_whitespace() {
    for s in ["", "  ", "a b", " a\tb  c ", "x\u{3000}y\u{a0}z", "one"] {
        let expected: Vec<Vec<char>> = s.split_whitespace().map(|w| w.chars().collect()).collect();
        assert_eq!(split_words(&chars_of(s)), expected, "{:?}", s);
    }
}

#[test]
fn trim_follows_str_trim() {
    for s in ["", "   ", " a b ", "\u{3000}x\n", "ab"] {
        let expected: Vec<char> = s.trim().chars().collect();
        assert_eq!(trim_chars(&chars_of(s)), expected);
    }
}

#[test]
fn window_listing_is_split_into_fields() {
    let out = "\n  123|Simulator|iPhone 15|390x844\n\n456|Safari|a|b|c|800x600\n";
    let lines = window_lines(out);
    assert_eq!(lines, vec!["123|Simulator|iPhone 15|390x844".to_string(), "456|Safari|a|b|c|800x600".to_string()]);
    assert_eq!(split_window_line(&lines[0]), vec!["123", "Simulator", "iPhone 15", "390x844"]);
    assert_eq!(split_window_line(&lines[1]), vec!["456", "Safari", "a", "b|c|800x600"]);
    assert_eq!(split_window_line("77"), vec!["77"]);
    assert_eq!(split_window_line(""), vec![""]);
    assert!(window_lines(" \n ").is_empty());
}

#[test]
fn app_names_and_extensions() {
    assert!(is_simulator_app("Simulator"));
    assert!(is_simulator_app("iOS SIMULATOR app"));
    assert!(!is_simulator_app("Safari"));
    assert_eq!(safe_file_stem("微信 App!"), "微信_App_");
    assert_eq!(safe_file_stem("Safari"), "Safari");
    for ext in ["png", "PNG", "jpg", "JpEg", "webp"] {
        assert!(is_supported_image_extension(ext));
    }
    for ext in ["", "gif", "pngx", "tiff"] {
        assert!(!is_supported_image_extension(ext));
    }
    assert_eq!(capture_kind(true, true), CaptureKind::Screenshot);
    assert_eq!(capture_kind(false, true), CaptureKind::Raw);
    assert_eq!(capture_kind(false, false), CaptureKind::Mockup);
}

#[test]
fn white_space_matches_char_is_whitespace_everywhere() {
    for n in 0u32..0x11_0000 {
        if let Some(c) = char::from_u32(n) {
            assert_eq!(launch::text::is_whitespace(c), c.is_whitespace(), "U+{:04X}", n);
        }
    }
}
