use database_manager::manager::DBManager;

fn hours(h: f64) -> u64 {
    h.to_bits()
}

/// Three sleeps, two tags, three associations and three comments.
fn sample() -> DBManager {
    let mut dbm = DBManager::init();
    assert_eq!(dbm.insert_sleep("2022-11-25", hours(7.5), 1), 1);
    assert_eq!(dbm.insert_sleep("2022-11-24", hours(6.0), 2), 2);
    assert_eq!(dbm.insert_sleep("2022-11-26", hours(8.0), 3), 3);
    assert_eq!(dbm.insert_tag("test name", 3713678), 1);
    assert_eq!(dbm.insert_tag("screen", 9590460), 2);
    assert!(dbm.add_tags_to_sleep(2, vec![2]));
    assert!(dbm.add_tags_to_sleep(1, vec![1, 2]));
    assert_eq!(dbm.insert_comment(1, "First comment"), 1);
    assert_eq!(dbm.insert_comment(2, "test comment"), 2);
    assert_eq!(dbm.insert_comment(1, "2nd comment on night"), 3);
    dbm
}

fn sorted_ids(v: Vec<i64>) -> Vec<i64> {
    let mut v = v;
    v.sort();
    v
}

#[test]
fn concrete_scenario() {
    let mut dbm = sample();
    let by_tag = dbm.get_sleeps_by_tag(2).unwrap();
    assert_eq!(sorted_ids(by_tag.iter().map(|s| s.sleep.id).collect()), vec![1, 2]);
    assert_eq!(dbm.get_all_sleeps().unwrap().len(), 3);
    assert!(dbm.delete_tag(1));
    let tags = dbm.get_sleep(1, true).unwrap().tags.unwrap();
    assert_eq!(tags.iter().map(|t| t.id).collect::<Vec<i64>>(), vec![2]);
}

#[test]
fn sleep_round_trip() {
    let mut dbm = DBManager::init();
    let id = dbm.insert_sleep("2023-05-13", hours(7.25), 5);
    assert!(id >= 1);
    let s = dbm.get_sleep(id, false).unwrap();
    assert_eq!(s.sleep.id, id);
    assert_eq!(s.sleep.night, "2023-05-13");
    assert_eq!(f64::from_bits(s.sleep.amount), 7.25);
    assert_eq!(s.sleep.quality, 5);
    assert!(s.tags.is_none());
}

#[test]
fn sleep_selects() {
    let dbm = sample();
    let s = dbm.get_sleep(2, false).unwrap();
    assert_eq!(s.sleep.id, 2);
    assert_eq!(s.sleep.night, "2022-11-24");
    assert_eq!(f64::from_bits(s.sleep.amount), 6.0);
    assert_eq!(s.sleep.quality, 2);
    assert!(s.tags.is_none());
    let with_tags = dbm.get_sleep(1, true).unwrap();
    assert_eq!(with_tags.sleep.night, "2022-11-25");
    assert_eq!(with_tags.tags.unwrap().len(), 2);
    assert!(dbm.get_sleep(100, false).is_none());
    assert_eq!(dbm.get_sleeps_by_tag(100).unwrap().len(), 0);
    assert_eq!(dbm.get_sleeps_by_month(11, 2022).unwrap().len(), 3);
    assert_eq!(dbm.get_sleeps_by_month(12, 2022).unwrap().len(), 0);
    assert_eq!(dbm.get_sleeps_by_month(11, 2023).unwrap().len(), 0);
}

#[test]
fn tag_aggregation_is_exact() {
    let dbm = sample();
    let tags = dbm.get_sleep(1, true).unwrap().tags.unwrap();
    let mut names: Vec<String> = tags.iter().map(|t| t.name.clone()).collect();
    names.sort();
    assert_eq!(names, vec!["screen".to_string(), "test name".to_string()]);
    assert!(dbm.get_sleep(1, false).unwrap().tags.is_none());
    let empty = dbm.get_sleep(3, true).unwrap().tags.unwrap();
    assert!(empty.is_empty());
}

#[test]
fn tag_selects() {
    let dbm = sample();
    let t = dbm.get_tag(2).unwrap();
    assert_eq!(t.id, 2);
    assert_eq!(t.name, "screen");
    assert_eq!(t.color, 9590460);
    assert!(dbm.get_tag(100).is_none());
    assert_eq!(dbm.get_all_tags().unwrap().len(), 2);
    let tags = dbm.get_sleep(2, true).unwrap().tags.unwrap();
    assert_eq!(tags.len(), 1);
    assert_eq!(tags[0].id, 2);
    assert_eq!(tags[0].name, "screen");
    assert_eq!(tags[0].color, 9590460);
    assert_eq!(dbm.get_tags_by_sleep(1).unwrap().len(), 2);
    assert_eq!(dbm.get_multiple_tags(vec![2, 7]).unwrap().len(), 1);
}

#[test]
fn comment_selects() {
    let dbm = sample();
    let first = dbm.get_comments_by_sleep(1).unwrap();
    assert_eq!(first.len(), 2);
    assert_eq!(first[0].comment, "First comment");
    let second = dbm.get_comments_by_sleep(2).unwrap();
    assert_eq!(second.len(), 1);
    assert_eq!(second[0].comment, "test comment");
    assert_eq!(dbm.get_comment(3).unwrap().comment, "2nd comment on night");
    assert!(dbm.get_comment(9).is_none());
}

#[test]
fn updates() {
    let mut dbm = sample();
    assert!(dbm.update_sleep_amount(1, hours(7.0)));
    assert_eq!(f64::from_bits(dbm.get_sleep(1, false).unwrap().sleep.amount), 7.0);
    assert!(dbm.update_sleep_quality(3, 1));
    assert_eq!(dbm.get_sleep(3, false).unwrap().sleep.quality, 1);
    assert!(dbm.update_tag_name(1, "update test"));
    assert_eq!(dbm.get_tag(1).unwrap().name, "update test");
    assert!(dbm.update_tag_color(2, 65535));
    assert_eq!(dbm.get_tag(2).unwrap().color, 65535);
    assert!(dbm.update_comment(3, "updated_comment"));
    assert_eq!(dbm.get_comments_by_sleep(1).unwrap()[1].comment, "updated_comment");
}

#[test]
fn update_of_missing_sleep_is_a_no_op() {
    let mut dbm = sample();
    assert!(!dbm.update_sleep_amount(42, hours(5.0)));
    assert!(!dbm.update_sleep_quality(42, 5));
    assert_eq!(dbm.get_all_sleeps().unwrap().len(), 3);
    assert!(dbm.get_sleep(42, false).is_none());
    assert!(!dbm.update_tag_name(42, "x"));
    assert!(!dbm.update_tag_color(42, 1));
    assert!(!dbm.update_comment(42, "x"));
}

#[test]
fn deletes_cascade() {
    let mut dbm = sample();
    assert!(dbm.remove_tag_from_sleep(1, 1));
    assert_eq!(dbm.get_sleep(1, true).unwrap().tags.unwrap().len(), 1);
    assert!(!dbm.remove_tag_from_sleep(1, 1));
    assert!(dbm.delete_sleep(1));
    assert!(!dbm.delete_sleep(1));
    assert_eq!(dbm.get_all_sleeps().unwrap().len(), 2);
    assert!(dbm.delete_tag(1));
    assert_eq!(dbm.get_all_tags().unwrap().len(), 1);
    assert_eq!(dbm.get_comments_by_sleep(1).unwrap().len(), 0);
    assert_eq!(dbm.get_tags_by_sleep(1).unwrap().len(), 0);
    assert_eq!(dbm.get_sleeps_by_tag(2).unwrap().len(), 1);
    assert_eq!(dbm.get_comments_by_sleep(2).unwrap().len(), 1);
    assert!(dbm.delete_comment(2));
    assert_eq!(dbm.get_comments_by_sleep(2).unwrap().len(), 0);
}

#[test]
fn batch_attach_stops_at_first_failure() {
    let mut dbm = sample();
    assert!(!dbm.add_tags_to_sleep(3, vec![1, 2, 99, 1]));
    let tags = dbm.get_tags_by_sleep(3).unwrap();
    assert_eq!(tags.iter().map(|t| t.id).collect::<Vec<i64>>(), vec![1, 2]);
}

#[test]
fn month_filter_pads_the_month() {
    let mut dbm = DBManager::init();
    dbm.insert_sleep("2022-11-24", hours(8.0), 3);
    assert_eq!(dbm.get_sleeps_by_month(11, 2022).unwrap().len(), 1);
    assert_eq!(dbm.get_sleeps_by_month(1, 2022).unwrap().len(), 0);
    assert_eq!(dbm.get_sleeps_by_month(11, 2023).unwrap().len(), 0);
    dbm.insert_sleep("2022-01-05", hours(8.0), 3);
    let jan = dbm.get_sleeps_by_month(1, 2022).unwrap();
    assert_eq!(jan.len(), 1);
    assert_eq!(jan[0].sleep.night, "2022-01-05");
}

#[test]
fn failed_inserts_give_the_sentinel() {
    let mut dbm = sample();
    assert_eq!(dbm.insert_comment(77, "orphan"), -1);
    assert_eq!(dbm.insert_comment(2, "kept"), 4);
}

#[test]
fn multiple_sleeps_keep_every_match() {
    let dbm = sample();
    let got = dbm.get_multiple_sleeps(vec![3, 1]).unwrap();
    assert_eq!(got.iter().map(|s| s.sleep.id).collect::<Vec<i64>>(), vec![1, 3]);
    assert!(got.iter().all(|s| s.tags.is_none()));
}

#[test]
fn duplicate_pairs_are_kept() {
    let mut dbm = sample();
    assert!(dbm.add_tags_to_sleep(2, vec![2]));
    assert_eq!(dbm.get_sleeps_by_tag(2).unwrap().len(), 2);
    assert!(dbm.remove_tag_from_sleep(2, 2));
    assert_eq!(dbm.get_tags_by_sleep(2).unwrap().len(), 0);
}
