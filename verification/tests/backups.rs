use chrono::{NaiveDate, NaiveDateTime};
use pack_preferences::backups::{
    backup_name, backup_name_at, backup_path_at, backup_place, create_backup, list_backups,
    new_backup_name, stamp_text, BackupError, LocalTime,
};
use pack_preferences::discovery::ListedEntry;

fn dir(name: &str) -> ListedEntry {
    ListedEntry {
        path: format!("/eve/{}", name),
        name: String::from(name),
        is_file: false,
        is_dir: true,
    }
}

fn plain_file(name: &str) -> ListedEntry {
    ListedEntry {
        path: format!("/eve/{}", name),
        name: String::from(name),
        is_file: true,
        is_dir: false,
    }
}

#[test]
fn backup_name_joins_directory_and_stamp() {
    assert_eq!(
        backup_name("settings_Default", "20240131_235959"),
        "settings_Default_backup_20240131_235959"
    );
    assert_eq!(backup_name("", ""), "_backup_");
}

#[test]
fn new_backup_name_carries_a_stamp_of_the_local_time() {
    let name = new_backup_name("settings_Default");
    let stamp = name.strip_prefix("settings_Default_backup_").unwrap();
    assert_eq!(stamp.len(), 15);
    for (i, c) in stamp.chars().enumerate() {
        if i == 8 {
            assert_eq!(c, '_');
        } else {
            assert!(c.is_ascii_digit());
        }
    }
    assert!(stamp > "20200101_000000");
}

#[test]
fn three_backups_are_listed_newest_first() {
    let siblings = vec![
        dir("settings_Default_backup_20240101_120000"),
        dir("settings_Default"),
        dir("settings_Default_backup_20240301_080000"),
        dir("settings_Default_backup_20240101_120001"),
    ];
    assert_eq!(
        list_backups("settings_Default", &siblings),
        vec![
            String::from("/eve/settings_Default_backup_20240301_080000"),
            String::from("/eve/settings_Default_backup_20240101_120001"),
            String::from("/eve/settings_Default_backup_20240101_120000"),
        ]
    );
}

#[test]
fn only_directories_with_the_prefix_are_backups() {
    let siblings = vec![
        plain_file("settings_Default_backup_20240101_120000"),
        dir("settings_Other_backup_20240101_120000"),
        dir("settings_Default_backup"),
        dir("settings_Default_backup_"),
        dir("xsettings_Default_backup_20240101_120000"),
    ];
    assert_eq!(
        list_backups("settings_Default", &siblings),
        vec![String::from("/eve/settings_Default_backup_")]
    );
    assert!(list_backups("settings_Default", &Vec::new()).is_empty());
}

fn at(year: i32, month: u32, day: u32, hour: u32, minute: u32, second: u32) -> LocalTime {
    LocalTime { year, month, day, hour, minute, second }
}

fn by_chrono(t: &LocalTime) -> String {
    let moment: NaiveDateTime = NaiveDate::from_ymd_opt(t.year, t.month, t.day)
        .unwrap()
        .and_hms_opt(t.hour, t.minute, t.second)
        .unwrap();
    moment.format("%Y%m%d_%H%M%S").to_string()
}

#[test]
fn stamp_is_fixed_width_and_zero_padded() {
    assert_eq!(stamp_text(&at(2024, 1, 31, 23, 59, 59)), "20240131_235959");
    assert_eq!(stamp_text(&at(2024, 12, 1, 0, 0, 0)), "20241201_000000");
    assert_eq!(stamp_text(&at(7, 3, 4, 5, 6, 7)), "00070304_050607");
    assert_eq!(stamp_text(&at(0, 1, 1, 0, 0, 0)), "00000101_000000");
    assert_eq!(stamp_text(&at(9999, 12, 31, 23, 59, 59)), "99991231_235959");
}

#[test]
fn years_outside_four_digits_carry_a_sign() {
    assert_eq!(stamp_text(&at(10000, 1, 1, 0, 0, 0)), "+100000101_000000");
    assert_eq!(stamp_text(&at(-1, 1, 1, 0, 0, 0)), "-00010101_000000");
    assert_eq!(stamp_text(&at(-12345, 1, 1, 0, 0, 0)), "-123450101_000000");
    assert_eq!(stamp_text(&at(i32::MIN, 1, 1, 0, 0, 0)), "-21474836480101_000000");
    assert_eq!(stamp_text(&at(i32::MAX, 1, 1, 0, 0, 0)), "+21474836470101_000000");
}

#[test]
fn stamp_is_what_the_calendar_library_writes() {
    for t in [
        at(2024, 2, 29, 13, 5, 9),
        at(1970, 1, 1, 0, 0, 0),
        at(999, 10, 10, 10, 10, 10),
        at(0, 6, 15, 1, 2, 3),
        at(9999, 12, 31, 23, 59, 59),
        at(12345, 7, 8, 9, 10, 11),
        at(-1, 1, 2, 3, 4, 5),
        at(-123456, 11, 30, 20, 0, 0),
    ] {
        assert_eq!(stamp_text(&t), by_chrono(&t));
    }
}

#[test]
fn stamps_sort_as_the_moments_do() {
    let moments = [
        at(1999, 12, 31, 23, 59, 59),
        at(2000, 1, 1, 0, 0, 0),
        at(2000, 1, 1, 0, 0, 1),
        at(2000, 1, 1, 0, 1, 0),
        at(2000, 1, 1, 1, 0, 0),
        at(2000, 1, 2, 0, 0, 0),
        at(2000, 2, 1, 0, 0, 0),
        at(2000, 10, 1, 0, 0, 0),
        at(2001, 1, 1, 0, 0, 0),
    ];
    for pair in moments.windows(2) {
        assert!(stamp_text(&pair[0]) < stamp_text(&pair[1]));
        assert!(backup_name_at("d", &pair[0]) < backup_name_at("d", &pair[1]));
    }
}

#[test]
fn backups_made_at_three_moments_are_listed_newest_first() {
    let moments = [
        at(2024, 1, 1, 12, 0, 0),
        at(2024, 3, 1, 8, 0, 0),
        at(2024, 1, 1, 12, 0, 1),
    ];
    let siblings: Vec<ListedEntry> = moments
        .iter()
        .map(|t| dir(&backup_name_at("settings_Default", t)))
        .collect();
    assert_eq!(
        list_backups("settings_Default", &siblings),
        vec![
            String::from("/eve/settings_Default_backup_20240301_080000"),
            String::from("/eve/settings_Default_backup_20240101_120001"),
            String::from("/eve/settings_Default_backup_20240101_120000"),
        ]
    );
}

#[test]
fn snapshot_lies_beside_the_settings_directory() {
    let place = backup_place("/eve/c_tq/settings_Default").unwrap();
    assert_eq!(place.parent, "/eve/c_tq");
    assert_eq!(place.dir_name, "settings_Default");
    assert_eq!(
        backup_path_at("/eve/c_tq/settings_Default", &at(2024, 1, 31, 23, 59, 59)),
        Ok(String::from("/eve/c_tq/settings_Default_backup_20240131_235959"))
    );
    let made = create_backup("/eve/c_tq/settings_Default").unwrap();
    assert!(made.starts_with("/eve/c_tq/settings_Default_backup_"));
    assert_eq!(made.len(), "/eve/c_tq/settings_Default_backup_".len() + 15);
}

#[test]
fn directory_without_parent_or_name_has_no_snapshot() {
    assert_eq!(backup_place("/").unwrap_err(), BackupError::NoParent);
    assert_eq!(backup_place("").unwrap_err(), BackupError::NoParent);
    assert_eq!(backup_place("/eve/..").unwrap_err(), BackupError::NoName);
    assert_eq!(backup_place("..").unwrap_err(), BackupError::NoName);
    assert_eq!(create_backup("/"), Err(BackupError::NoParent));
    assert_eq!(
        backup_path_at("/eve/..", &at(2024, 1, 1, 0, 0, 0)),
        Err(BackupError::NoName)
    );
    assert_eq!(BackupError::NoParent.message(), "Settings directory has no parent");
    assert_eq!(BackupError::NoName.message(), "Settings directory has no name");
}
