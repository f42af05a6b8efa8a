use coredump::focus::{file_name_from_title, parse_window_pid, process_name_from_cmdline};
use coredump::is_zed_active;

#[test]
fn pid_is_read_between_white_space() {
    assert_eq!(parse_window_pid("12345\n"), Some(12345));
    assert_eq!(parse_window_pid("  42\t\r\n"), Some(42));
    assert_eq!(parse_window_pid("0"), Some(0));
    assert_eq!(parse_window_pid("007"), Some(7));
    assert_eq!(parse_window_pid("+7"), Some(7));
}

#[test]
fn pid_must_be_a_number() {
    assert_eq!(parse_window_pid(""), None);
    assert_eq!(parse_window_pid("\n"), None);
    assert_eq!(parse_window_pid("+"), None);
    assert_eq!(parse_window_pid("-1"), None);
    assert_eq!(parse_window_pid("12 34"), None);
    assert_eq!(parse_window_pid("12a"), None);
    assert_eq!(parse_window_pid("++1"), None);
    assert_eq!(parse_window_pid("1.0"), None);
    assert_eq!(parse_window_pid("\u{663}"), None);
}

#[test]
fn pid_must_fit_32_bits() {
    assert_eq!(parse_window_pid("4294967295"), Some(u32::MAX));
    assert_eq!(parse_window_pid("4294967296"), None);
    assert_eq!(parse_window_pid("00000000004294967295"), Some(u32::MAX));
    assert_eq!(parse_window_pid("99999999999999999999999"), None);
}

#[test]
fn process_name_is_the_program_without_its_directories() {
    assert_eq!(process_name_from_cmdline("/usr/bin/zed\0--new\0/tmp/x/y\0"), "zed");
    assert_eq!(process_name_from_cmdline("zed-editor\0"), "zed-editor");
    assert_eq!(process_name_from_cmdline("/opt/Zed/Zed"), "Zed");
    assert_eq!(process_name_from_cmdline("/usr/bin/\0zed"), "");
    assert_eq!(process_name_from_cmdline(""), "");
    assert_eq!(process_name_from_cmdline("\0/bin/zed"), "");
}

#[test]
fn editor_is_known_by_its_process_name() {
    assert!(is_zed_active(Some("zed")));
    assert!(is_zed_active(Some("zed-editor")));
    assert!(is_zed_active(Some("dev.zed.Zed")));
    assert!(is_zed_active(Some("Zed")));
    assert!(is_zed_active(Some("blazed")));
}

#[test]
fn other_processes_are_not_the_editor() {
    assert!(!is_zed_active(None));
    assert!(!is_zed_active(Some("")));
    assert!(!is_zed_active(Some("code")));
    assert!(!is_zed_active(Some("ZED")));
    assert!(!is_zed_active(Some("Zed ")));
    assert!(!is_zed_active(Some("ze d")));
    assert!(!is_zed_active(Some("Zeditor")));
}

#[test]
fn file_name_follows_the_last_long_dash() {
    assert_eq!(
        file_name_from_title("project \u{2014} main.rs\n"),
        Some("main.rs".to_string())
    );
    assert_eq!(
        file_name_from_title("a \u{2014} b \u{2014} c.py"),
        Some("c.py".to_string())
    );
    assert_eq!(
        file_name_from_title("x - y \u{2014}   notes.md  "),
        Some("notes.md".to_string())
    );
}

#[test]
fn file_name_stands_before_the_first_hyphen() {
    assert_eq!(file_name_from_title("main.rs - project - Zed"), Some("main.rs".to_string()));
    assert_eq!(file_name_from_title("  lib.go  - Zed\n"), Some("lib.go".to_string()));
    assert_eq!(file_name_from_title("plain title"), Some("plain title".to_string()));
    assert_eq!(file_name_from_title("a-b.rs"), Some("a-b.rs".to_string()));
    assert_eq!(file_name_from_title("a\u{2014}b - c"), Some("a\u{2014}b".to_string()));
}

#[test]
fn title_without_a_file_gives_none() {
    assert_eq!(file_name_from_title(""), None);
    assert_eq!(file_name_from_title(" \n"), None);
    assert_eq!(file_name_from_title("Zed"), None);
    assert_eq!(file_name_from_title("Zed - project"), None);
    assert_eq!(file_name_from_title("project \u{2014} Zed"), None);
    assert_eq!(file_name_from_title("a \u{2014} \u{a0} \u{2014} \t \u{2014} b"), Some("b".to_string()));
    assert_eq!(file_name_from_title("a \u{2014} \u{a0} \u{2014} Zed"), None);
    assert_eq!(file_name_from_title(" - x"), Some("- x".to_string()));
}

#[test]
fn white_space_at_the_ends_is_cut_before_the_title_is_split() {
    assert_eq!(file_name_from_title("project \u{2014}  "), Some("project \u{2014}".to_string()));
    assert_eq!(file_name_from_title("x \u{2014} "), Some("x \u{2014}".to_string()));
    assert_eq!(file_name_from_title(" - x"), Some("- x".to_string()));
    assert_eq!(file_name_from_title("\u{a0}Zed\u{3000}"), None);
}

#[test]
fn hyphens_after_a_long_dash_split_nothing() {
    assert_eq!(file_name_from_title("x \u{2014} \u{a0} - y"), Some("- y".to_string()));
    assert_eq!(file_name_from_title("a - b \u{2014} c - d"), Some("c - d".to_string()));
}

#[test]
fn long_dashes_that_share_a_space_are_split_from_the_left() {
    assert_eq!(
        file_name_from_title("a \u{2014} \u{2014} b"),
        Some("\u{2014} b".to_string())
    );
}
