use pack_preferences::process::{
    detect_eve_prefixes, distinct_prefixes, extract_prefix, is_process_id, names_client,
    DetectedPrefix, ProcessEntry,
};
use std::path::PathBuf;

#[test]
fn test_extract_prefix() {
    let cmdline = "/home/user/Games/Eve/drive_c/eve/exefile.exe\0--arg";
    let prefix = extract_prefix(cmdline).map(PathBuf::from);
    assert_eq!(prefix, Some(PathBuf::from("/home/user/Games/Eve/drive_c")));
}

#[test]
fn test_extract_prefix_mixed_case() {
    let cmdline = "/home/user/Games/Eve/Drive_C/eve/exefile.exe";
    let prefix = extract_prefix(cmdline);
    // Should still work with mixed case
    assert!(prefix.is_some());
}

#[test]
fn test_extract_prefix_no_match() {
    let cmdline = "/usr/bin/firefox";
    let prefix = extract_prefix(cmdline).map(PathBuf::from);
    assert_eq!(prefix, None);
}

#[test]
fn prefix_keeps_the_case_in_which_it_is_written() {
    let cmdline = "/home/user/Games/Eve/Drive_C/eve/exefile.exe";
    assert_eq!(
        extract_prefix(cmdline),
        Some(String::from("/home/user/Games/Eve/Drive_C"))
    );
}

#[test]
fn prefix_comes_from_the_first_argument_that_names_the_drive() {
    let cmdline = "wine\0/a/b/drive_c/x.exe\0/other/drive_c/y";
    assert_eq!(extract_prefix(cmdline), Some(String::from("/a/b/drive_c")));
}

#[test]
fn prefix_ends_at_the_first_drive_of_its_argument() {
    let cmdline = "/p/drive_c/q/drive_c/game.exe";
    assert_eq!(extract_prefix(cmdline), Some(String::from("/p/drive_c")));
}

#[test]
fn short_and_empty_command_lines_name_no_drive() {
    assert_eq!(extract_prefix(""), None);
    assert_eq!(extract_prefix("drive_"), None);
    assert_eq!(extract_prefix("drive\0_c"), None);
    assert_eq!(extract_prefix("drive_c"), Some(String::from("drive_c")));
}

#[test]
fn process_numbers_are_decimal_and_fit_in_32_bits() {
    assert!(is_process_id("1"));
    assert!(is_process_id("0"));
    assert!(is_process_id("4294967295"));
    assert!(is_process_id("0000000000001"));
    assert!(!is_process_id("4294967296"));
    assert!(!is_process_id("99999999999999999999999"));
    assert!(!is_process_id(""));
    assert!(!is_process_id("self"));
    assert!(!is_process_id("12a"));
    assert!(!is_process_id("-1"));
}

#[test]
fn client_is_known_by_its_program_name_in_any_case() {
    assert!(names_client("/x/drive_c/eve/exefile.exe\0--arg"));
    assert!(names_client("C:\\EVE\\EVE-Online.EXE"));
    assert!(names_client("ExeFile.exe"));
    assert!(!names_client("/usr/bin/firefox"));
    assert!(!names_client("exefile"));
    assert!(!names_client("exefile\0.exe"));
    assert!(!names_client(""));
}

#[test]
fn roots_are_found_in_the_order_of_the_process_list() {
    let entry = |name: &str, cmdline: Option<&str>| ProcessEntry {
        name: String::from(name),
        cmdline: cmdline.map(String::from),
    };
    let entries = vec![
        entry("10", Some("/b/drive_c/eve/exefile.exe\0")),
        entry("self", Some("/c/drive_c/eve/exefile.exe\0")),
        entry("11", Some("/usr/bin/firefox\0")),
        entry("12", None),
        entry("13", Some("/a/Drive_C/tq/bin/EXEFILE.EXE\0/x")),
        entry("14", Some("/b/drive_c/eve/exefile.exe\0")),
        entry("15", Some("exefile.exe\0--no-drive")),
    ];
    let found: Vec<String> = detect_eve_prefixes(&entries)
        .into_iter()
        .map(|p| p.path)
        .collect();
    assert_eq!(found, vec!["/a/Drive_C", "/b/drive_c"]);
    assert!(detect_eve_prefixes(&Vec::new()).is_empty());
}

#[test]
fn roots_come_once_each_in_dictionary_order() {
    let root = |p: &str| DetectedPrefix { path: String::from(p) };
    let found = vec![
        root("/z/drive_c"),
        root("/a/drive_c"),
        root("/z/drive_c"),
        root("/m/drive_c"),
        root("/a/drive_c"),
        root("/a-b/drive_c"),
    ];
    let roots: Vec<String> = distinct_prefixes(found).into_iter().map(|p| p.path).collect();
    assert_eq!(roots, vec!["/a-b/drive_c", "/a/drive_c", "/m/drive_c", "/z/drive_c"]);
    assert!(distinct_prefixes(Vec::new()).is_empty());
}
