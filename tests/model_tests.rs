use database_manager::manager::DBManager;
use database_manager::model::{
    AddCommentToSleepInput, AddTagsToSleepInput, MutationRoot, QueryRoot, RemoveTagFromSleepInput,
    Sleep, SleepInput, TagInput, UpdateCommentInput, UpdateSleepInput, UpdateTagInput,
};
use database_manager::night::{SleepsByMonthInput, SleepsInRangeInput};

fn hours(h: f64) -> u64 {
    h.to_bits()
}

fn seeded() -> DBManager {
    let mut dbm = DBManager::init();
    let m = MutationRoot;
    m.add_tag(&mut dbm, TagInput { name: String::from("test name"), color: 3713678 }).unwrap();
    m.add_tag(&mut dbm, TagInput { name: String::from("screen"), color: 9590460 }).unwrap();
    m.add_sleep(
        &mut dbm,
        SleepInput {
            night: String::from("2022-11-25"),
            amount: hours(7.5),
            quality: 1,
            tags: Some(vec![1, 2]),
            comments: Some(vec![String::from("First comment"), String::from("2nd comment")]),
        },
    )
    .unwrap();
    m.add_sleep(
        &mut dbm,
        SleepInput { night: String::from("2022-12-02"), amount: hours(6.0), quality: 2, tags: None, comments: None },
    )
    .unwrap();
    dbm
}

#[test]
fn add_sleep_attaches_tags_and_comments() {
    let dbm = seeded();
    let q = QueryRoot;
    let s = q.sleep(&dbm, 1).unwrap();
    assert_eq!((s.night.year, s.night.month, s.night.day), (2022, 11, 25));
    assert_eq!(f64::from_bits(s.amount), 7.5);
    assert!(s.tags.is_none());
    let tags = s.tags(&dbm).unwrap();
    assert_eq!(tags.iter().map(|t| t.name.as_str()).collect::<Vec<&str>>(), vec!["test name", "screen"]);
    let comments = s.comments(&dbm).unwrap();
    assert_eq!(comments.len(), 2);
    assert_eq!(comments[1].comment, "2nd comment");
}

#[test]
fn add_sleep_skips_comments_and_tags_that_fail() {
    let mut dbm = seeded();
    let s = MutationRoot
        .add_sleep(
            &mut dbm,
            SleepInput {
                night: String::from("2022-12-03"),
                amount: hours(5.0),
                quality: 4,
                tags: Some(vec![2, 50, 1]),
                comments: Some(vec![String::from("only")]),
            },
        )
        .unwrap();
    assert_eq!(s.id, 3);
    assert_eq!(s.tags(&dbm).unwrap().iter().map(|t| t.id).collect::<Vec<i64>>(), vec![2]);
    assert_eq!(s.comments(&dbm).unwrap().len(), 1);
}

#[test]
fn add_sleep_with_malformed_night_reads_back_nothing() {
    let mut dbm = DBManager::init();
    let r = MutationRoot.add_sleep(
        &mut dbm,
        SleepInput { night: String::from("25/11/2022"), amount: 0, quality: 1, tags: None, comments: None },
    );
    assert!(r.is_none());
    assert_eq!(dbm.get_all_sleeps().unwrap().len(), 1);
    assert!(QueryRoot.all_sleeps(&dbm).is_none());
}

#[test]
fn queries_by_month_and_range() {
    let dbm = seeded();
    let q = QueryRoot;
    let nov = q.sleeps_by_month(&dbm, SleepsByMonthInput { month: 11, year: 2022 }).unwrap();
    assert_eq!(nov.iter().map(|s| s.id).collect::<Vec<i64>>(), vec![1]);
    let start = SleepsInRangeInput { month: 11, year: 2022, day: None };
    let end = SleepsInRangeInput { month: 12, year: 2022, day: None };
    assert_eq!(q.sleeps_in_range(&dbm, start, end).unwrap().len(), 2);
    let start = SleepsInRangeInput { month: 11, year: 2022, day: Some(1) };
    let end = SleepsInRangeInput { month: 12, year: 2022, day: Some(1) };
    let got = q.sleeps_in_range(&dbm, start, end).unwrap();
    assert_eq!(got.iter().map(|s| s.id).collect::<Vec<i64>>(), vec![1]);
    let start = SleepsInRangeInput { month: 11, year: 2022, day: Some(26) };
    let end = SleepsInRangeInput { month: 12, year: 2022, day: Some(1) };
    assert_eq!(q.sleeps_in_range(&dbm, start, end).unwrap().len(), 0);
    let start = SleepsInRangeInput { month: 12, year: 2022, day: None };
    let end = SleepsInRangeInput { month: 1, year: 2023, day: None };
    let got = q.sleeps_in_range(&dbm, start, end).unwrap();
    assert_eq!(got.iter().map(|s| s.id).collect::<Vec<i64>>(), vec![2]);
    assert_eq!(q.all_sleeps(&dbm).unwrap().len(), 2);
}

#[test]
fn filter_by_date_keeps_absent_absent() {
    let start = SleepsInRangeInput { month: 1, year: 2022, day: None };
    assert!(Sleep::filter_sleeps_by_date(None, &start, &start).is_none());
}

#[test]
fn tag_queries() {
    let dbm = seeded();
    let q = QueryRoot;
    let t = q.tag(&dbm, 2).unwrap();
    assert_eq!((t.id, t.name.as_str(), t.color), (2, "screen", 9590460));
    assert!(q.tag(&dbm, 9).is_none());
    assert_eq!(q.all_tags(&dbm).unwrap().len(), 2);
}

#[test]
fn update_sleep_reports_only_real_changes() {
    let mut dbm = seeded();
    let m = MutationRoot;
    let s = m
        .update_sleep(&mut dbm, UpdateSleepInput { sleep_id: 2, amount: Some(hours(9.0)), quality: None })
        .unwrap();
    assert_eq!(f64::from_bits(s.amount), 9.0);
    assert_eq!(s.quality, 2);
    assert!(m.update_sleep(&mut dbm, UpdateSleepInput { sleep_id: 2, amount: None, quality: None }).is_none());
    assert!(m
        .update_sleep(&mut dbm, UpdateSleepInput { sleep_id: 9, amount: Some(hours(1.0)), quality: Some(1) })
        .is_none());
}

#[test]
fn update_tag_and_comment() {
    let mut dbm = seeded();
    let m = MutationRoot;
    let t = m
        .update_tag(&mut dbm, UpdateTagInput { tag_id: 1, name: Some(String::from("coffee")), color: None })
        .unwrap();
    assert_eq!((t.name.as_str(), t.color), ("coffee", 3713678));
    assert!(m.update_tag(&mut dbm, UpdateTagInput { tag_id: 1, name: None, color: None }).is_none());
    let c = m
        .update_comment(&mut dbm, UpdateCommentInput { comment_id: 2, comment: String::from("edited") })
        .unwrap();
    assert_eq!((c.id, c.sleep_id, c.comment.as_str()), (2, 1, "edited"));
    assert!(m.update_comment(&mut dbm, UpdateCommentInput { comment_id: 8, comment: String::from("x") }).is_none());
}

#[test]
fn attach_detach_and_delete() {
    let mut dbm = seeded();
    let m = MutationRoot;
    let s = m.add_tags_to_sleep(&mut dbm, AddTagsToSleepInput { sleep_id: 2, tag_ids: vec![2] }).unwrap();
    assert_eq!(s.tags(&dbm).unwrap().len(), 1);
    let s = m
        .add_comment_to_sleep(&mut dbm, AddCommentToSleepInput { sleep_id: 2, comment: String::from("late") })
        .unwrap();
    assert_eq!(s.comments(&dbm).unwrap()[0].comment, "late");
    assert!(m.remove_tag_from_sleep(&mut dbm, RemoveTagFromSleepInput { sleep_id: 2, tag_id: 2 }).is_some());
    assert!(m.remove_tag_from_sleep(&mut dbm, RemoveTagFromSleepInput { sleep_id: 2, tag_id: 2 }).is_none());
    assert!(m.delete_comment(&mut dbm, 1));
    assert!(m.delete_tag(&mut dbm, 1));
    assert!(m.delete_sleep(&mut dbm, 1));
    assert!(!m.delete_sleep(&mut dbm, 1));
    assert_eq!(QueryRoot.all_sleeps(&dbm).unwrap().len(), 1);
}
