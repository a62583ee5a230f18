use appendable::database::Database;
use appendable::errors::AppError;
use appendable::models::Entry;

const T0: i64 = 1_700_000_000;
const T1: i64 = 1_700_000_600;
const T2: i64 = 1_700_001_200;

fn edit(e: &Entry) -> Entry {
    Entry {
        entry_id: e.entry_id,
        parent: e.parent,
        path: e.path.clone(),
        nesting: e.nesting,
        start_timestamp: e.start_timestamp,
        end_timestamp: Some(e.start_timestamp + 30),
        text: "done".to_string(),
        show_todo: true,
        is_done: true,
        estimated_duration: Some(45),
        tags: Vec::new(),
    }
}

fn add(db: &mut Database, parent: Option<i64>, start: i64) -> Entry {
    db.insert_entry(parent, Some(start), "e".to_string(), false, false, None).unwrap()
}

#[test]
fn entries_close_by_nesting() {
    let mut db = Database::new();
    let e1 = add(&mut db, None, T0);
    assert_eq!(e1.nesting, 0);
    let e2 = add(&mut db, Some(e1.entry_id), T1);
    assert_eq!(e2.nesting, 1);
    assert_eq!(db.select_entry(e1.entry_id).unwrap().end_timestamp, None);
    let e3 = add(&mut db, None, T2);
    assert_eq!(e3.nesting, 0);
    assert_eq!(db.select_entry(e1.entry_id).unwrap().end_timestamp, Some(T2));
    assert_eq!(db.select_entry(e2.entry_id).unwrap().end_timestamp, Some(T2));
    assert_eq!(db.select_entry(e3.entry_id).unwrap().end_timestamp, None);
}

#[test]
fn sibling_closes_only_its_level_and_deeper() {
    let mut db = Database::new();
    let root = add(&mut db, None, T0);
    let a = add(&mut db, Some(root.entry_id), T1);
    let a1 = add(&mut db, Some(a.entry_id), T1 + 1);
    let b = add(&mut db, Some(root.entry_id), T2);
    assert_eq!(db.select_entry(root.entry_id).unwrap().end_timestamp, None);
    assert_eq!(db.select_entry(a.entry_id).unwrap().end_timestamp, Some(T2));
    assert_eq!(db.select_entry(a1.entry_id).unwrap().end_timestamp, Some(T2));
    assert_eq!(db.select_entry(b.entry_id).unwrap().end_timestamp, None);
}

#[test]
fn paths_follow_the_parent() {
    let mut db = Database::new();
    let e1 = add(&mut db, None, T0);
    assert!(e1.path.is_empty());
    assert_eq!(e1.parent, None);
    let e2 = add(&mut db, Some(e1.entry_id), T1);
    assert_eq!(e2.path, vec![e1.entry_id]);
    let e3 = add(&mut db, Some(e2.entry_id), T2);
    assert_eq!(e3.path, vec![e1.entry_id, e2.entry_id]);
    assert_eq!(e3.nesting, 2);
    assert_eq!(e3.parent, Some(e2.entry_id));
}

#[test]
fn unknown_parent_or_missing_start_is_bad_request() {
    let mut db = Database::new();
    let r = db.insert_entry(Some(4), Some(T0), "x".to_string(), false, false, None);
    assert_eq!(r.err(), Some(AppError::BadRequest));
    let r = db.insert_entry(None, None, "x".to_string(), false, false, None);
    assert_eq!(r.err(), Some(AppError::BadRequest));
    assert!(db.entries.is_empty());
}

#[test]
fn delete_with_children_removes_the_subtree() {
    let mut db = Database::new();
    let root = add(&mut db, None, T0);
    let a = add(&mut db, Some(root.entry_id), T0 + 1);
    let a1 = add(&mut db, Some(a.entry_id), T0 + 2);
    let b = add(&mut db, Some(root.entry_id), T0 + 3);
    let other = add(&mut db, None, T0 + 4);
    assert!(db.delete_entry(a.entry_id, true));
    let left: Vec<i64> = db.entries.iter().map(|r| r.entry_id).collect();
    assert_eq!(left, vec![root.entry_id, b.entry_id, other.entry_id]);
    assert_eq!(db.select_entry(a1.entry_id).err(), Some(AppError::NotFound));
}

#[test]
fn delete_alone_orphans_the_children() {
    let mut db = Database::new();
    let root = add(&mut db, None, T0);
    let a = add(&mut db, Some(root.entry_id), T0 + 1);
    let a1 = add(&mut db, Some(a.entry_id), T0 + 2);
    assert!(db.delete_entry(a.entry_id, false));
    assert_eq!(db.entries.len(), 2);
    let child = db.select_entry(a1.entry_id).unwrap();
    assert_eq!(child.parent, Some(a.entry_id));
    assert_eq!(child.path, vec![root.entry_id, a.entry_id]);
    assert!(!db.delete_entry(a.entry_id, false));
}

#[test]
fn update_replaces_fields_but_not_position() {
    let mut db = Database::new();
    let root = add(&mut db, None, T0);
    let a = add(&mut db, Some(root.entry_id), T1);
    let u = db.update_entry(a.entry_id, edit(&a)).unwrap();
    assert_eq!(u.text, "done");
    assert!(u.is_done && u.show_todo);
    assert_eq!(u.end_timestamp, Some(T1 + 30));
    assert_eq!(u.estimated_duration, Some(45));
    assert_eq!(u.path, vec![root.entry_id]);
    assert_eq!(u.nesting, 1);
}

#[test]
fn update_that_moves_an_entry_is_bad_request() {
    let mut db = Database::new();
    let root = add(&mut db, None, T0);
    let a = add(&mut db, Some(root.entry_id), T1);
    let mut moved = edit(&a);
    moved.parent = None;
    assert_eq!(db.update_entry(a.entry_id, moved).err(), Some(AppError::BadRequest));
    assert_eq!(db.update_entry(a.entry_id + 1, edit(&a)).err(), Some(AppError::BadRequest));
    let mut ghost = edit(&a);
    ghost.entry_id = 77;
    assert_eq!(db.update_entry(77, ghost).err(), Some(AppError::NotFound));
}

#[test]
fn list_entries_orders_by_path_then_id() {
    let mut db = Database::new();
    let r1 = add(&mut db, None, T0 + 1);
    let c1 = add(&mut db, Some(r1.entry_id), T0 + 2);
    let r2 = add(&mut db, None, T0 + 3);
    let c2 = add(&mut db, Some(r1.entry_id), T0 + 4);
    let t = db.insert_tag("focus".to_string(), false).unwrap();
    db.tag_entry(c2.entry_id, t.tag_id).unwrap();
    let r = db.list_entries(T0, T0 + 100);
    let ids: Vec<i64> = r.iter().map(|e| e.entry_id).collect();
    assert_eq!(ids, vec![r1.entry_id, r2.entry_id, c1.entry_id, c2.entry_id]);
    assert_eq!(r[3].tags, vec!["focus".to_string()]);
    assert!(r[0].tags.is_empty());
    assert_eq!(db.list_entries(T0 + 1, T0 + 3).len(), 1);
}

#[test]
fn nearest_entry_before() {
    let mut db = Database::new();
    add(&mut db, None, T0);
    add(&mut db, None, T1);
    assert_eq!(db.nearest_entry_before(T2).unwrap().block_timestamp, T1);
    assert_eq!(db.nearest_entry_before(T1).unwrap().block_timestamp, T0);
    assert_eq!(db.nearest_entry_before(T0).err(), Some(AppError::NotFound));
}

#[test]
fn reopening_beside_an_open_entry_is_bad_request() {
    let mut db = Database::new();
    let a = add(&mut db, None, T0);
    let b = add(&mut db, None, T1);
    assert_eq!(db.select_entry(a.entry_id).unwrap().end_timestamp, Some(T1));
    let mut reopened = edit(&a);
    reopened.end_timestamp = None;
    assert_eq!(db.update_entry(a.entry_id, reopened).err(), Some(AppError::BadRequest));
    let mut closed = edit(&b);
    closed.end_timestamp = Some(T2);
    assert_eq!(db.update_entry(b.entry_id, closed).unwrap().end_timestamp, Some(T2));
    let mut reopened = edit(&a);
    reopened.end_timestamp = None;
    assert_eq!(db.update_entry(a.entry_id, reopened).unwrap().end_timestamp, None);
}

#[test]
fn untagging_an_entry_keeps_other_links() {
    let mut db = Database::new();
    let a = add(&mut db, None, T0);
    let t1 = db.insert_tag("x".to_string(), false).unwrap();
    let t2 = db.insert_tag("y".to_string(), false).unwrap();
    db.tag_entry(a.entry_id, t1.tag_id).unwrap();
    db.tag_entry(a.entry_id, t2.tag_id).unwrap();
    assert!(db.untag_entry(a.entry_id, t1.tag_id));
    assert_eq!(db.select_entry(a.entry_id).unwrap().tags, vec!["y".to_string()]);
    assert_eq!(db.tag_entry(99, t1.tag_id), Err(AppError::BadRequest));
}
