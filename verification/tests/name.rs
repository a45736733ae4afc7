use pipe_logger_lib::{Timestamp, format_rotated_name};
use pipe_logger_lib::name::lex_lt_exec;
use pipe_logger_lib::recover::{find_point_index, match_rotated_entry, recover_rotated_names};

fn ts(year: u32, month: u32, day: u32, hour: u32, minute: u32, second: u32, ms: u32) -> Timestamp {
    Timestamp { year, month, day, hour, minute, second, millisecond: ms }
}

#[test]
fn formats_fixed_width_name() {
    let t = ts(2024, 1, 2, 3, 4, 5, 678);
    assert_eq!(
        "logfile-2024-01-02-03-04-05-678.log",
        format_rotated_name("logfile", &t, ".log")
    );
}

#[test]
fn formats_name_without_extension() {
    let t = ts(1999, 12, 31, 23, 59, 59, 999);
    assert_eq!("out-1999-12-31-23-59-59-999", format_rotated_name("out", &t, ""));
}

#[test]
fn formats_name_with_dotted_stem() {
    let t = ts(2024, 10, 5, 0, 0, 0, 0);
    assert_eq!(
        "my.log-2024-10-05-00-00-00-000.txt",
        format_rotated_name("my.log", &t, ".txt")
    );
}

#[test]
fn names_sort_in_rotation_order() {
    let earlier = format_rotated_name("logfile", &ts(2024, 1, 2, 3, 4, 5, 678), ".log");
    let later_ms = format_rotated_name("logfile", &ts(2024, 1, 2, 3, 4, 5, 679), ".log");
    let later_year = format_rotated_name("logfile", &ts(2025, 1, 1, 0, 0, 0, 0), ".log");
    assert!(lex_lt_exec(&earlier, &later_ms));
    assert!(lex_lt_exec(&later_ms, &later_year));
    assert!(lex_lt_exec(&earlier, &later_year));
    assert!(!lex_lt_exec(&later_ms, &earlier));
    assert!(!lex_lt_exec(&earlier, &earlier));
}

#[test]
fn point_index_splits_at_last_dot() {
    assert_eq!(7, find_point_index("logfile.log"));
    assert_eq!(5, find_point_index("noext"));
    assert_eq!(0, find_point_index(".hidden"));
    assert_eq!(3, find_point_index("a.b.c"));
    assert_eq!(0, find_point_index(""));
}

#[test]
fn matches_plain_rotated_entry() {
    let r = match_rotated_entry("logfile-2024-01-02-03-04-05-678.log", "logfile", ".log");
    assert_eq!(Some("logfile-2024-01-02-03-04-05-678.log".to_string()), r);
}

#[test]
fn matches_compressed_entry_under_base_name() {
    let r = match_rotated_entry("logfile-2024-01-02-03-04-05-678.log.xz", "logfile", ".log");
    assert_eq!(Some("logfile-2024-01-02-03-04-05-678.log".to_string()), r);
}

#[test]
fn matches_generated_name() {
    let t = ts(2026, 10, 12, 13, 14, 15, 16);
    let name = format_rotated_name("logfile", &t, ".log");
    assert_eq!(Some(name.clone()), match_rotated_entry(&name, "logfile", ".log"));
}

#[test]
fn rejects_foreign_entries() {
    // the active file itself
    assert_eq!(None, match_rotated_entry("logfile.log", "logfile", ".log"));
    // another stem
    assert_eq!(
        None,
        match_rotated_entry("other-2024-01-02-03-04-05-678.log", "logfile", ".log")
    );
    // a month field whose first digit exceeds 5
    assert_eq!(
        None,
        match_rotated_entry("logfile-2024-61-02-03-04-05-678.log", "logfile", ".log")
    );
    // a year not beginning with 1 or 2
    assert_eq!(
        None,
        match_rotated_entry("logfile-3024-01-02-03-04-05-678.log", "logfile", ".log")
    );
    // a truncated timestamp block
    assert_eq!(None, match_rotated_entry("logfile-2024-01.log", "logfile", ".log"));
    // the wrong extension
    assert_eq!(
        None,
        match_rotated_entry("logfile-2024-01-02-03-04-05-678.txt", "logfile", ".log")
    );
}

#[test]
fn recovery_filters_and_sorts() {
    let listing = vec![
        "logfile-2024-01-02-03-04-06-000.log".to_string(),
        "logfile.log".to_string(),
        "notes.txt".to_string(),
        "logfile-2023-12-31-23-59-59-999.log.xz".to_string(),
        "logfile-2024-01-02-03-04-05-678.log".to_string(),
        "logfile-9999-01-02-03-04-05-678.log".to_string(),
    ];
    let recovered = recover_rotated_names(&listing, "logfile", ".log");
    assert_eq!(
        vec![
            "logfile-2023-12-31-23-59-59-999.log".to_string(),
            "logfile-2024-01-02-03-04-05-678.log".to_string(),
            "logfile-2024-01-02-03-04-06-000.log".to_string(),
        ],
        recovered
    );
}
