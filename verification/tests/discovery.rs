use pack_preferences::discovery::{
    classify_name, discover_character_files, parse_char_file, parse_user_file, CharacterFile,
    FileType, ListedEntry,
};

fn file(dir: &str, name: &str) -> ListedEntry {
    ListedEntry {
        path: format!("{}/{}", dir, name),
        name: String::from(name),
        is_file: true,
        is_dir: false,
    }
}

fn ids(files: &[CharacterFile]) -> Vec<(u64, bool)> {
    files.iter().map(|f| (f.character_id, f.is_default)).collect()
}

#[test]
fn test_parse_char_file() {
    assert_eq!(
        parse_char_file("core_char_123456789.dat"),
        Some((123456789, false))
    );
    assert_eq!(parse_char_file("core_char__.dat"), Some((0, true)));
    assert_eq!(parse_char_file("core_user_123.dat"), None);
    assert_eq!(parse_char_file("other.dat"), None);
}

#[test]
fn test_parse_user_file() {
    assert_eq!(
        parse_user_file("core_user_987654321.dat"),
        Some((987654321, false))
    );
    assert_eq!(parse_user_file("core_user__.dat"), Some((0, true)));
    assert_eq!(parse_user_file("core_char_123.dat"), None);
}

#[test]
fn empty_segment_is_a_template() {
    assert_eq!(parse_char_file("core_char_.dat"), Some((0, true)));
    assert_eq!(parse_user_file("core_user_.dat"), Some((0, true)));
}

#[test]
fn names_outside_the_grammar_give_nothing() {
    assert_eq!(classify_name("random.txt"), None);
    assert_eq!(classify_name("core_char_abc.dat"), None);
    assert_eq!(classify_name("core_char_12a.dat"), None);
    assert_eq!(classify_name("core_char_-1.dat"), None);
    assert_eq!(classify_name("core_char_1.DAT"), None);
    assert_eq!(classify_name("Core_char_1.dat"), None);
    assert_eq!(classify_name("core_char_1.dat.bak"), None);
    assert_eq!(classify_name("core_char___.dat"), None);
    assert_eq!(classify_name("core_char"), None);
    assert_eq!(classify_name(".dat"), None);
    assert_eq!(classify_name(""), None);
}

#[test]
fn classify_name_tells_the_categories_apart() {
    assert_eq!(
        classify_name("core_char_42.dat"),
        Some((FileType::Character, 42, false))
    );
    assert_eq!(
        classify_name("core_user_42.dat"),
        Some((FileType::User, 42, false))
    );
    assert_eq!(
        classify_name("core_char__.dat"),
        Some((FileType::Character, 0, true))
    );
    assert_eq!(
        classify_name("core_user__.dat"),
        Some((FileType::User, 0, true))
    );
}

#[test]
fn identity_reaches_the_largest_value_and_no_further() {
    assert_eq!(
        parse_char_file("core_char_18446744073709551615.dat"),
        Some((u64::MAX, false))
    );
    assert_eq!(parse_char_file("core_char_18446744073709551616.dat"), None);
    assert_eq!(parse_char_file("core_char_99999999999999999999.dat"), None);
    assert_eq!(parse_char_file("core_char_0.dat"), Some((0, false)));
    assert_eq!(parse_char_file("core_char_007.dat"), Some((7, false)));
    assert_eq!(
        parse_char_file("core_char_000000000000000000000000000001.dat"),
        Some((1, false))
    );
}

#[test]
fn listing_is_sorted_with_templates_last() {
    let entries = vec![
        file("/s", "core_char_5.dat"),
        file("/s", "core_char__.dat"),
        file("/s", "core_char_1.dat"),
    ];
    let files = discover_character_files(&entries);
    assert_eq!(ids(&files), vec![(1, false), (5, false), (0, true)]);
    assert_eq!(files[0].path, "/s/core_char_1.dat");
    assert_eq!(files[1].path, "/s/core_char_5.dat");
    assert_eq!(files[2].path, "/s/core_char__.dat");
    assert!(files.iter().all(|f| f.file_type == FileType::Character));
}

#[test]
fn listing_passes_over_directories_and_other_files() {
    let mut dir = file("/s", "core_char_9.dat");
    dir.is_file = false;
    dir.is_dir = true;
    let entries = vec![
        dir,
        file("/s", "random.txt"),
        file("/s", "core_char_abc.dat"),
        file("/s", "core_user_3.dat"),
    ];
    let files = discover_character_files(&entries);
    assert_eq!(files.len(), 1);
    assert_eq!(files[0].character_id, 3);
    assert_eq!(files[0].file_type, FileType::User);
    assert!(!files[0].is_default);
    assert_eq!(files[0].path, "/s/core_user_3.dat");
}

#[test]
fn empty_listing_gives_no_files() {
    let files = discover_character_files(&Vec::new());
    assert!(files.is_empty());
}

#[test]
fn files_of_equal_rank_keep_the_order_of_the_listing() {
    let entries = vec![
        file("/s", "core_user_7.dat"),
        file("/s", "core_user__.dat"),
        file("/s", "core_char_7.dat"),
        file("/s", "core_char__.dat"),
        file("/s", "core_char_2.dat"),
    ];
    let files = discover_character_files(&entries);
    let seen: Vec<(FileType, u64, bool)> = files
        .iter()
        .map(|f| (f.file_type, f.character_id, f.is_default))
        .collect();
    assert_eq!(
        seen,
        vec![
            (FileType::Character, 2, false),
            (FileType::User, 7, false),
            (FileType::Character, 7, false),
            (FileType::User, 0, true),
            (FileType::Character, 0, true),
        ]
    );
}

#[test]
fn end_to_end_listing_of_three_files() {
    let entries = vec![
        file("/s", "core_char_200.dat"),
        file("/s", "core_char__.dat"),
        file("/s", "core_char_100.dat"),
    ];
    let files = discover_character_files(&entries);
    assert_eq!(files.len(), 3);
    assert_eq!(ids(&files), vec![(100, false), (200, false), (0, true)]);
}
