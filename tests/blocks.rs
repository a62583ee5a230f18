use appendable::database::Database;
use appendable::errors::AppError;
use appendable::models::{Block, Project};

const T0: i64 = 1_700_000_000;
const T1: i64 = 1_700_003_600;
const T2: i64 = 1_700_007_200;

fn block(id: i64, start: i64, end: Option<i64>) -> Block {
    Block {
        block_id: id,
        text: "edited".to_string(),
        project: None,
        project_name: None,
        start,
        end,
        duration: 0,
        tags: Vec::new(),
    }
}

#[test]
fn insert_closes_the_open_block() {
    let mut db = Database::new();
    let a = db.insert_block("A".to_string(), None, Some(T0)).unwrap();
    assert_eq!(a.end, None);
    assert_eq!(a.duration, 0);
    let b = db.insert_block("B".to_string(), None, Some(T1)).unwrap();
    let a_now = db.select_block(a.block_id).unwrap();
    assert_eq!(a_now.end, Some(T1));
    assert_eq!(a_now.duration, T1 - T0);
    assert_eq!(b.end, None);
    assert_eq!(db.select_block(b.block_id).unwrap().end, None);
    assert_eq!(db.nearest_block_before(T1).unwrap().block_timestamp, T0);
}

#[test]
fn at_most_one_block_stays_open() {
    let mut db = Database::new();
    for k in 0..5 {
        db.insert_block(format!("b{k}"), None, Some(T0 + 60 * k)).unwrap();
        let open = db.blocks.iter().filter(|r| r.end.is_none()).count();
        assert_eq!(open, 1);
    }
    for k in 0..4 {
        assert_eq!(db.blocks[k].end, Some(db.blocks[k + 1].start));
        assert_eq!(db.blocks[k].duration, 60);
    }
}

#[test]
fn put_with_mismatched_id_is_bad_request() {
    let mut db = Database::new();
    for k in 0..6 {
        db.insert_block(format!("b{k}"), None, Some(T0 + k)).unwrap();
    }
    let r = db.update_block(5, block(6, T0, Some(T1)));
    assert_eq!(r.err(), Some(AppError::BadRequest));
}

#[test]
fn insert_without_start_is_bad_request() {
    let mut db = Database::new();
    assert_eq!(db.insert_block("x".to_string(), None, None).err(), Some(AppError::BadRequest));
    assert!(db.blocks.is_empty());
}

#[test]
fn insert_earlier_than_a_stored_block_is_bad_request() {
    let mut db = Database::new();
    db.insert_block("a".to_string(), None, Some(T1)).unwrap();
    assert_eq!(db.insert_block("b".to_string(), None, Some(T0)).err(), Some(AppError::BadRequest));
    assert_eq!(db.blocks.len(), 1);
    assert_eq!(db.blocks[0].end, None);
}

#[test]
fn insert_with_unknown_project_is_bad_request() {
    let mut db = Database::new();
    assert_eq!(db.insert_block("a".to_string(), Some(3), Some(T0)).err(), Some(AppError::BadRequest));
}

#[test]
fn insert_joins_the_project_name() {
    let mut db = Database::new();
    let p = db
        .insert_project(Project { project_id: 0, name: "Work".to_string(), archived: false, color: None })
        .unwrap();
    let b = db.insert_block("a".to_string(), Some(p.project_id), Some(T0)).unwrap();
    assert_eq!(b.project_name, Some("Work".to_string()));
    assert_eq!(b.project, Some(p.project_id));
}

#[test]
fn update_recomputes_duration_without_closing_others() {
    let mut db = Database::new();
    let a = db.insert_block("a".to_string(), None, Some(T0)).unwrap();
    let b = db.insert_block("b".to_string(), None, Some(T1)).unwrap();
    let u = db.update_block(a.block_id, block(a.block_id, T0, Some(T0 + 90))).unwrap();
    assert_eq!(u.duration, 90);
    assert_eq!(u.text, "edited");
    assert_eq!(db.select_block(b.block_id).unwrap().end, None);
}

#[test]
fn update_that_reopens_beside_an_open_block_is_bad_request() {
    let mut db = Database::new();
    let a = db.insert_block("a".to_string(), None, Some(T0)).unwrap();
    db.insert_block("b".to_string(), None, Some(T1)).unwrap();
    assert_eq!(db.update_block(a.block_id, block(a.block_id, T0, None)).err(), Some(AppError::BadRequest));
}

#[test]
fn update_of_unknown_block_is_not_found() {
    let mut db = Database::new();
    assert_eq!(db.update_block(9, block(9, T0, None)).err(), Some(AppError::NotFound));
}

#[test]
fn delete_reports_whether_a_row_went() {
    let mut db = Database::new();
    let a = db.insert_block("a".to_string(), None, Some(T0)).unwrap();
    assert!(db.delete_block(a.block_id));
    assert!(!db.delete_block(a.block_id));
    assert_eq!(db.select_block(a.block_id).err(), Some(AppError::NotFound));
}

#[test]
fn list_is_ascending_and_bounded_strictly() {
    let mut db = Database::new();
    db.insert_block("a".to_string(), None, Some(T0)).unwrap();
    let b = db.insert_block("b".to_string(), None, Some(T1)).unwrap();
    let c = db.insert_block("c".to_string(), None, Some(T2)).unwrap();
    db.update_block(b.block_id, block(b.block_id, T2 + 10, Some(T2 + 20))).unwrap();
    let r = db.list_blocks(T0, T2 + 100);
    let ids: Vec<i64> = r.iter().map(|x| x.block_id).collect();
    assert_eq!(ids, vec![c.block_id, b.block_id]);
    assert!(r.iter().all(|x| x.tags.is_empty()));
    let again = db.list_blocks(T0, T2 + 100);
    let ids2: Vec<i64> = again.iter().map(|x| x.block_id).collect();
    assert_eq!(ids, ids2);
}

#[test]
fn list_aggregates_distinct_tag_names() {
    let mut db = Database::new();
    let a = db.insert_block("a".to_string(), None, Some(T0)).unwrap();
    let t1 = db.insert_tag("deep".to_string(), false).unwrap();
    let t2 = db.insert_tag("deep".to_string(), false).unwrap();
    let t3 = db.insert_tag("call".to_string(), false).unwrap();
    db.tag_block(a.block_id, t1.tag_id).unwrap();
    db.tag_block(a.block_id, t2.tag_id).unwrap();
    db.tag_block(a.block_id, t3.tag_id).unwrap();
    assert_eq!(db.tag_block(a.block_id, 99), Err(AppError::BadRequest));
    let r = db.list_blocks(T0 - 1, T0 + 1);
    assert_eq!(r.len(), 1);
    assert_eq!(r[0].tags, vec!["deep".to_string(), "call".to_string()]);
}

#[test]
fn nearest_before_the_first_block_is_not_found() {
    let mut db = Database::new();
    db.insert_block("a".to_string(), None, Some(T0)).unwrap();
    assert_eq!(db.nearest_block_before(T0).err(), Some(AppError::NotFound));
    assert_eq!(db.nearest_block_before(T0 + 1).unwrap().block_timestamp, T0);
}

#[test]
fn exhausted_ids_are_an_internal_error() {
    let mut db = Database::new();
    db.next_block_id = i64::MAX;
    assert_eq!(db.insert_block("a".to_string(), None, Some(T0)).err(), Some(AppError::InternalServer));
    assert!(db.blocks.is_empty());
    db.next_color_id = i64::MAX;
    assert_eq!(db.insert_color("#000000".to_string()).err(), Some(AppError::InternalServer));
}

#[test]
fn untagging_removes_the_name() {
    let mut db = Database::new();
    let a = db.insert_block("a".to_string(), None, Some(T0)).unwrap();
    let t = db.insert_tag("deep".to_string(), false).unwrap();
    db.tag_block(a.block_id, t.tag_id).unwrap();
    db.tag_block(a.block_id, t.tag_id).unwrap();
    assert_eq!(db.select_block(a.block_id).unwrap().tags, vec!["deep".to_string()]);
    assert!(db.untag_block(a.block_id, t.tag_id));
    assert!(db.select_block(a.block_id).unwrap().tags.is_empty());
    assert!(!db.untag_block(a.block_id, t.tag_id));
}
