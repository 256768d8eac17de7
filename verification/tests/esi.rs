use pack_preferences::esi::{
    name_batches, next_batch, resolve_character_names, resolve_with_cache, status_class, uncached_ids,
    BatchReply, LookupError, NameEntry, StatusClass, BATCH_LIMIT,
};
use std::collections::HashMap;

fn entry(id: u64, name: &str, category: &str) -> NameEntry {
    NameEntry {
        id,
        name: String::from(name),
        category: String::from(category),
    }
}

#[test]
fn test_empty_ids() {
    let result = resolve_character_names(&[], &[]).unwrap();
    assert!(result.is_empty());
}

#[test]
fn batches_hold_at_most_the_limit() {
    assert_eq!(BATCH_LIMIT, 500);
    assert!(name_batches(&[]).is_empty());
    let ids: Vec<u64> = (0..1201).collect();
    let batches = name_batches(&ids);
    assert_eq!(batches.len(), 3);
    assert_eq!(batches[0], (0..500).collect::<Vec<u64>>());
    assert_eq!(batches[1], (500..1000).collect::<Vec<u64>>());
    assert_eq!(batches[2], (1000..1201).collect::<Vec<u64>>());
    let exact: Vec<u64> = (0..1000).collect();
    let batches = name_batches(&exact);
    assert_eq!(batches.len(), 2);
    assert_eq!(batches[1].len(), 500);
    assert_eq!(name_batches(&[7]), vec![vec![7]]);
}

#[test]
fn status_is_read_by_its_range() {
    assert_eq!(status_class(200), StatusClass::Success);
    assert_eq!(status_class(204), StatusClass::Success);
    assert_eq!(status_class(299), StatusClass::Success);
    assert_eq!(status_class(199), StatusClass::Rejected);
    assert_eq!(status_class(300), StatusClass::Rejected);
    assert_eq!(status_class(404), StatusClass::NotFound);
    assert_eq!(status_class(500), StatusClass::Rejected);
    assert_eq!(status_class(0), StatusClass::Rejected);
}

#[test]
fn only_characters_are_named_and_later_entries_win() {
    let replies = vec![BatchReply::Names(vec![
        entry(1, "Alice", "character"),
        entry(2, "Some Corp", "corporation"),
        entry(3, "Carol", "character"),
        entry(1, "Alicia", "character"),
        entry(4, "Dave", "Character"),
    ])];
    let names = resolve_character_names(&[1, 2, 3, 4], &replies).unwrap();
    assert_eq!(names.len(), 2);
    assert_eq!(names.get(&1), Some(&String::from("Alicia")));
    assert_eq!(names.get(&3), Some(&String::from("Carol")));
    assert_eq!(names.get(&2), None);
    assert_eq!(names.get(&4), None);
}

#[test]
fn replies_of_all_batches_are_put_together() {
    let ids: Vec<u64> = (1..=501).collect();
    let replies = vec![
        BatchReply::Names(vec![entry(1, "First", "character")]),
        BatchReply::Names(vec![entry(501, "Last", "character")]),
    ];
    let names = resolve_character_names(&ids, &replies).unwrap();
    assert_eq!(names.len(), 2);
    assert_eq!(names.get(&1), Some(&String::from("First")));
    assert_eq!(names.get(&501), Some(&String::from("Last")));
}

#[test]
fn unknown_ids_are_no_failure() {
    let names = resolve_character_names(&[9], &[BatchReply::NotFound]).unwrap();
    assert!(names.is_empty());
}

#[test]
fn first_failed_reply_ends_the_lookup() {
    let ids: Vec<u64> = (1..=1001).collect();
    let replies = vec![
        BatchReply::Names(vec![entry(1, "First", "character")]),
        BatchReply::Failed(String::from("ESI request failed with status: 500")),
        BatchReply::Failed(String::from("never read")),
    ];
    match resolve_character_names(&ids, &replies) {
        Err(LookupError::Failed(detail)) => {
            assert_eq!(detail, "ESI request failed with status: 500")
        }
        other => panic!("unexpected: {:?}", other),
    }
}

#[test]
fn batch_without_reply_is_an_error() {
    let ids: Vec<u64> = (1..=501).collect();
    let replies = vec![BatchReply::Names(vec![entry(1, "First", "character")])];
    assert!(matches!(
        resolve_character_names(&ids, &replies),
        Err(LookupError::MissingReply)
    ));
    assert!(matches!(
        resolve_character_names(&[1], &[]),
        Err(LookupError::MissingReply)
    ));
}

#[test]
fn replies_beyond_the_last_batch_are_not_read() {
    let replies = vec![
        BatchReply::Names(vec![entry(1, "First", "character")]),
        BatchReply::Failed(String::from("unused")),
    ];
    let names = resolve_character_names(&[1], &replies).unwrap();
    assert_eq!(names.len(), 1);
}

#[test]
fn cached_ids_are_not_asked_for() {
    let mut cache: HashMap<u64, String> = HashMap::new();
    cache.insert(2, String::from("Bob"));
    assert_eq!(uncached_ids(&[1, 2, 3, 1], &cache), vec![1, 3, 1]);
    assert_eq!(uncached_ids(&[2, 2], &cache), Vec::<u64>::new());
    assert_eq!(uncached_ids(&[], &cache), Vec::<u64>::new());
}

#[test]
fn fully_cached_ids_give_no_new_names() {
    let mut cache: HashMap<u64, String> = HashMap::new();
    cache.insert(2, String::from("Bob"));
    let replies = vec![BatchReply::Failed(String::from("unused"))];
    let names = resolve_with_cache(&[2], &cache, &replies).unwrap();
    assert!(names.is_empty());
    let names = resolve_with_cache(&[2], &cache, &[]).unwrap();
    assert!(names.is_empty());
}

#[test]
fn uncached_ids_are_resolved() {
    let mut cache: HashMap<u64, String> = HashMap::new();
    cache.insert(2, String::from("Bob"));
    let replies = vec![BatchReply::Names(vec![entry(5, "Eve", "character")])];
    let names = resolve_with_cache(&[2, 5], &cache, &replies).unwrap();
    assert_eq!(names.len(), 1);
    assert_eq!(names.get(&5), Some(&String::from("Eve")));
    assert!(matches!(
        resolve_with_cache(&[2, 5], &cache, &[]),
        Err(LookupError::MissingReply)
    ));
}

#[test]
fn batches_are_sent_until_a_failure_or_the_end() {
    let ids: Vec<u64> = (1..=1001).collect();
    let mut replies: Vec<BatchReply> = Vec::new();
    assert_eq!(next_batch(&ids, &replies), Some((1..=500).collect::<Vec<u64>>()));
    replies.push(BatchReply::NotFound);
    assert_eq!(next_batch(&ids, &replies), Some((501..=1000).collect::<Vec<u64>>()));
    replies.push(BatchReply::Names(vec![entry(600, "X", "character")]));
    assert_eq!(next_batch(&ids, &replies), Some(vec![1001]));
    replies.push(BatchReply::Names(vec![]));
    assert_eq!(next_batch(&ids, &replies), None);
    assert!(resolve_character_names(&ids, &replies).is_ok());

    let failed = vec![BatchReply::Failed(String::from("down"))];
    assert_eq!(next_batch(&ids, &failed), None);
    let failed_later = vec![BatchReply::NotFound, BatchReply::Failed(String::from("down"))];
    assert_eq!(next_batch(&ids, &failed_later), None);
    assert_eq!(next_batch(&[], &[]), None);
    assert_eq!(next_batch(&[5], &[]), Some(vec![5]));
}
