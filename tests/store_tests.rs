use database_manager::rows::{DBComment, DBSleep, DBSleepTags, DBTag};
use database_manager::store::{Store, StoreError};

#[test]
fn ids_are_assigned_in_order_and_not_reused() {
    let mut store = Store::initialize();
    assert_eq!(DBSleep::insert(&mut store, "2022-11-25", 0, 1), Ok(1));
    assert_eq!(DBSleep::insert(&mut store, "2022-11-26", 0, 1), Ok(2));
    assert_eq!(DBSleep::delete(&mut store, 2), Ok(true));
    assert_eq!(DBSleep::insert(&mut store, "2022-11-27", 0, 1), Ok(3));
    let all = DBSleep::select_all(&store).unwrap();
    assert_eq!(all.iter().map(|s| s.id).collect::<Vec<i64>>(), vec![1, 3]);
}

#[test]
fn lookups_of_missing_rows_are_not_found() {
    let store = Store::initialize();
    assert!(matches!(DBSleep::select_one(&store, 1), Err(StoreError::NotFound)));
    assert!(matches!(DBTag::select_one(&store, 1), Err(StoreError::NotFound)));
    assert!(matches!(DBComment::select_by_id(&store, 1), Err(StoreError::NotFound)));
}

#[test]
fn references_to_missing_rows_are_refused() {
    let mut store = Store::initialize();
    let sleep = DBSleep::insert(&mut store, "2022-11-25", 0, 1).unwrap();
    let tag = DBTag::insert(&mut store, "screen", 9590460).unwrap();
    assert_eq!(DBSleepTags::insert(&mut store, sleep, 5), Err(StoreError::ConstraintViolation));
    assert_eq!(DBSleepTags::insert(&mut store, 5, tag), Err(StoreError::ConstraintViolation));
    assert_eq!(DBComment::insert(&mut store, 5, "x"), Err(StoreError::ConstraintViolation));
    assert_eq!(DBSleepTags::insert(&mut store, sleep, tag), Ok(1));
    assert_eq!(DBComment::insert(&mut store, sleep, "x"), Ok(1));
}

#[test]
fn deleting_a_sleep_deletes_what_references_it() {
    let mut store = Store::initialize();
    let a = DBSleep::insert(&mut store, "2022-11-25", 0, 1).unwrap();
    let b = DBSleep::insert(&mut store, "2022-11-26", 0, 1).unwrap();
    let t = DBTag::insert(&mut store, "screen", 1).unwrap();
    DBSleepTags::insert(&mut store, a, t).unwrap();
    DBSleepTags::insert(&mut store, b, t).unwrap();
    DBComment::insert(&mut store, a, "one").unwrap();
    DBComment::insert(&mut store, b, "two").unwrap();
    assert_eq!(DBSleep::delete(&mut store, a), Ok(true));
    assert!(DBSleepTags::select_by_sleep_id(&store, a).unwrap().is_empty());
    assert!(DBComment::select_by_sleep_id(&store, a).unwrap().is_empty());
    assert_eq!(DBSleepTags::select_by_tag_id(&store, t).unwrap().len(), 1);
    assert_eq!(DBComment::select_by_sleep_id(&store, b).unwrap()[0].comment, "two");
}

#[test]
fn deleting_a_tag_deletes_its_associations() {
    let mut store = Store::initialize();
    let a = DBSleep::insert(&mut store, "2022-11-25", 0, 1).unwrap();
    let t = DBTag::insert(&mut store, "screen", 1).unwrap();
    let u = DBTag::insert(&mut store, "coffee", 2).unwrap();
    DBSleepTags::insert(&mut store, a, t).unwrap();
    DBSleepTags::insert(&mut store, a, u).unwrap();
    assert_eq!(DBTag::delete(&mut store, t), Ok(true));
    let left = DBSleepTags::select_by_sleep_id(&store, a).unwrap();
    assert_eq!(left.len(), 1);
    assert_eq!(left[0].tag_id, u);
    assert_eq!(DBTag::delete(&mut store, t), Ok(false));
}

#[test]
fn month_select_matches_the_prefix() {
    let mut store = Store::initialize();
    DBSleep::insert(&mut store, "2022-11-24", 0, 1).unwrap();
    DBSleep::insert(&mut store, "2022-01-24", 0, 1).unwrap();
    DBSleep::insert(&mut store, "2022-1-24", 0, 1).unwrap();
    let nov = DBSleep::select_by_month(&store, 11, 2022).unwrap();
    assert_eq!(nov.len(), 1);
    let jan = DBSleep::select_by_month(&store, 1, 2022).unwrap();
    assert_eq!(jan.iter().map(|s| s.id).collect::<Vec<i64>>(), vec![2]);
}

#[test]
fn initialize_sets_the_schema_version() {
    let mut store = Store::initialize();
    assert_eq!(store.schema_version(), database_manager::store::SCHEMA_VERSION);
    assert_eq!(store.schema_version(), 1);
    DBSleep::insert(&mut store, "2022-11-25", 0, 1).unwrap();
    assert_eq!(store.schema_version(), 1);
    assert_eq!(database_manager::manager::DBManager::init().schema_version(), 1);
}
