use pack_preferences::discovery::{discover_character_files, CharacterFile, FileType, ListedEntry};
use pack_preferences::settings::{
    copy_file_atomic, copy_targets, sync_settings, CopyOutcome, SyncError, SyncResult,
};

fn character(id: u64) -> CharacterFile {
    CharacterFile {
        path: format!("/s/core_char_{}.dat", id),
        character_id: id,
        file_type: FileType::Character,
        is_default: false,
    }
}

fn account(id: u64) -> CharacterFile {
    CharacterFile {
        path: format!("/s/core_user_{}.dat", id),
        character_id: id,
        file_type: FileType::User,
        is_default: false,
    }
}

fn rows(results: &[SyncResult]) -> Vec<(String, bool, String)> {
    results
        .iter()
        .map(|r| (r.target_file.clone(), r.success, r.message.clone()))
        .collect()
}

fn row(path: &str, success: bool, message: &str) -> (String, bool, String) {
    (String::from(path), success, String::from(message))
}

#[test]
fn dry_run_previews_each_eligible_target_in_order() {
    let source = character(1);
    let (a, b, c) = (character(3), account(3), character(2));
    let targets = [&a, &b, &c];
    let results = sync_settings(&source, &targets, true, &[]).unwrap();
    assert_eq!(
        rows(&results),
        vec![
            row("/s/core_char_3.dat", true, "Would copy"),
            row("/s/core_char_2.dat", true, "Would copy"),
        ]
    );
    assert!(copy_targets(&source, &targets, true).is_empty());
}

#[test]
fn dry_run_does_not_read_the_outcomes() {
    let source = character(1);
    let a = character(3);
    let outcomes = [
        CopyOutcome::Failed(String::from("x")),
        CopyOutcome::Copied,
        CopyOutcome::Copied,
    ];
    let results = sync_settings(&source, &[&a], true, &outcomes).unwrap();
    assert_eq!(rows(&results), vec![row("/s/core_char_3.dat", true, "Would copy")]);
}

#[test]
fn targets_of_another_kind_get_no_row() {
    let source = account(1);
    let (a, b) = (character(3), character(4));
    let targets = [&a, &b];
    assert!(sync_settings(&source, &targets, true, &[]).unwrap().is_empty());
    assert!(sync_settings(&source, &targets, false, &[]).unwrap().is_empty());
    assert!(copy_targets(&source, &targets, false).is_empty());
}

#[test]
fn copies_are_planned_for_eligible_targets_in_order() {
    let source = character(1);
    let (a, b, c) = (character(3), account(3), character(2));
    let targets = [&a, &b, &c];
    assert_eq!(
        copy_targets(&source, &targets, false),
        vec![
            String::from("/s/core_char_3.dat"),
            String::from("/s/core_char_2.dat")
        ]
    );
}

#[test]
fn one_failure_does_not_touch_the_other_rows() {
    let source = character(1);
    let (a, b, c, d) = (character(3), account(3), character(2), character(9));
    let targets = [&a, &b, &c, &d];
    let outcomes = [
        CopyOutcome::Copied,
        CopyOutcome::Failed(String::from("Failed to copy to temp file: \"/s/core_char_2.tmp\"")),
        CopyOutcome::Copied,
    ];
    let results = sync_settings(&source, &targets, false, &outcomes).unwrap();
    assert_eq!(
        rows(&results),
        vec![
            row("/s/core_char_3.dat", true, "Copied successfully"),
            row(
                "/s/core_char_2.dat",
                false,
                "Failed: Failed to copy to temp file: \"/s/core_char_2.tmp\""
            ),
            row("/s/core_char_9.dat", true, "Copied successfully"),
        ]
    );
}

#[test]
fn outcomes_must_be_one_for_each_eligible_target() {
    let source = character(1);
    let (a, b) = (character(3), character(2));
    let targets = [&a, &b];
    assert_eq!(
        sync_settings(&source, &targets, false, &[CopyOutcome::Copied]).unwrap_err(),
        SyncError::OutcomeCount
    );
    assert_eq!(
        sync_settings(&source, &targets, false, &[]).unwrap_err(),
        SyncError::OutcomeCount
    );
    let three = [CopyOutcome::Copied, CopyOutcome::Copied, CopyOutcome::Copied];
    assert_eq!(
        sync_settings(&source, &targets, false, &three).unwrap_err(),
        SyncError::OutcomeCount
    );
}

#[test]
fn no_targets_give_no_rows() {
    let source = character(1);
    assert!(sync_settings(&source, &[], false, &[]).unwrap().is_empty());
    assert!(sync_settings(&source, &[], true, &[]).unwrap().is_empty());
}

#[test]
fn end_to_end_classify_then_sync() {
    let entries: Vec<ListedEntry> = ["core_char_100.dat", "core_char_200.dat", "core_char__.dat"]
        .iter()
        .map(|name| ListedEntry {
            path: format!("/s/{}", name),
            name: String::from(*name),
            is_file: true,
            is_dir: false,
        })
        .collect();
    let files = discover_character_files(&entries);
    assert_eq!(files.len(), 3);
    assert_eq!(
        files.iter().map(|f| (f.character_id, f.is_default)).collect::<Vec<_>>(),
        vec![(100, false), (200, false), (0, true)]
    );
    let targets = [&files[1]];
    assert_eq!(
        copy_targets(&files[0], &targets, false),
        vec![String::from("/s/core_char_200.dat")]
    );
    let results = sync_settings(&files[0], &targets, false, &[CopyOutcome::Copied]).unwrap();
    assert_eq!(
        rows(&results),
        vec![row("/s/core_char_200.dat", true, "Copied successfully")]
    );
}

#[test]
fn copy_goes_through_a_temporary_file_beside_the_target() {
    let plan = copy_file_atomic("/d/source.txt", "/d/dest.txt");
    assert_eq!(plan.source, "/d/source.txt");
    assert_eq!(plan.temp, "/d/dest.tmp");
    assert_eq!(plan.target, "/d/dest.txt");
    assert_ne!(plan.temp, plan.target);

    let plan = copy_file_atomic("/s/core_char_100.dat", "/s/core_char_200.dat");
    assert_eq!(plan.temp, "/s/core_char_200.tmp");

    let plan = copy_file_atomic("a", "/s/archive.tar.gz");
    assert_eq!(plan.temp, "/s/archive.tar.tmp");

    let plan = copy_file_atomic("a", "/s/plain");
    assert_eq!(plan.temp, "/s/plain.tmp");
}
