use appendable::auth::{check_login, Claims};
use appendable::clock::{day_end, day_start, RangeParams};
use appendable::database::Database;
use appendable::errors::AppError;
use appendable::models::Project;
use appendable::paths::path_string;
use appendable::tags::parse_tags;

#[test]
fn tags_split_on_commas_and_drop_empty_pieces() {
    assert_eq!(parse_tags("a,,b,"), vec!["a".to_string(), "b".to_string()]);
    assert_eq!(parse_tags("deep work,call"), vec!["deep work".to_string(), "call".to_string()]);
    assert!(parse_tags("").is_empty());
    assert!(parse_tags(",,").is_empty());
}

#[test]
fn errors_map_to_statuses_and_messages() {
    assert_eq!(AppError::BadRequest.status_code(), 400);
    assert_eq!(AppError::InvalidToken.status_code(), 400);
    assert_eq!(AppError::MissingCredentials.status_code(), 400);
    assert_eq!(AppError::WrongCredentials.status_code(), 401);
    assert_eq!(AppError::NotFound.status_code(), 404);
    assert_eq!(AppError::InternalServer.status_code(), 500);
    assert_eq!(AppError::NotFound.message(), "Resource not found");
    assert_eq!(AppError::InternalServer.message(), "Internal server error");
}

#[test]
fn day_window_of_an_instant() {
    assert_eq!(day_start(90_061), 86_400);
    assert_eq!(day_end(90_061), 172_799);
    assert_eq!(day_start(-1), -86_400);
    assert_eq!(day_start(0), 0);
    let p = RangeParams { start: None, end: Some(5) };
    assert_eq!(p.get_start_at(90_061), Ok(86_400));
    assert_eq!(p.get_end_at(90_061), Ok(5));
    assert_eq!(p.get_start_at(i64::MAX), Err(AppError::InternalServer));
    let q = RangeParams { start: Some(7), end: None };
    assert_eq!(q.get_start_at(i64::MIN), Ok(7));
    assert_eq!(q.get_end_at(90_061), Ok(172_799));
    assert_eq!(q.get_end_at(i64::MIN), Err(AppError::InternalServer));
    assert_eq!(p.get_end(), Ok(5));
    let s = RangeParams { start: None, end: None }.get_start().unwrap();
    assert_eq!(s % 86_400, 0);
    let e = RangeParams { start: None, end: None }.get_end().unwrap();
    assert_eq!(e % 86_400, 86_399);
}

#[test]
fn login_checks_credentials() {
    let id = "me".to_string();
    let secret = "pw".to_string();
    let r = check_login("".to_string(), &secret, &id, &secret, 10);
    assert_eq!(r.err(), Some(AppError::MissingCredentials));
    let r = check_login("me".to_string(), &"nope".to_string(), &id, &secret, 10);
    assert_eq!(r.err(), Some(AppError::WrongCredentials));
    let c = check_login("me".to_string(), &secret, &id, &secret, 10).unwrap();
    assert_eq!(c.client_id, "me");
    assert_eq!(c.exp, 3_610);
}

#[test]
fn expired_claims_are_refused() {
    let c = Claims { client_id: "me".to_string(), exp: 100 };
    assert!(c.validate(100).is_ok());
    let c = Claims { client_id: "me".to_string(), exp: 100 };
    assert_eq!(c.validate(101).err(), Some(AppError::InvalidToken));
}

#[test]
fn registry_checks_references() {
    let mut db = Database::new();
    let p = Project { project_id: 0, name: "x".to_string(), archived: false, color: Some(1) };
    assert_eq!(db.insert_project(p).err(), Some(AppError::BadRequest));
    let c = db.insert_color("#ff0000".to_string()).unwrap();
    let p = Project { project_id: 0, name: "x".to_string(), archived: false, color: Some(c.color_id) };
    let p = db.insert_project(p).unwrap();
    assert_eq!(p.project_id, 1);
    let q = Project { project_id: 1, name: "y".to_string(), archived: true, color: None };
    let q = db.update_project(q).unwrap();
    assert_eq!(db.get_project(1).unwrap().name, "y");
    assert!(q.archived);
    let missing = Project { project_id: 2, name: "z".to_string(), archived: false, color: None };
    assert_eq!(db.update_project(missing).err(), Some(AppError::NotFound));
    assert_eq!(db.get_project(2).err(), Some(AppError::NotFound));
    assert_eq!(db.list_projects().len(), 1);
    assert_eq!(db.list_colors()[0].hex_value, "#ff0000");
    db.insert_tag("t".to_string(), true).unwrap();
    assert_eq!(db.list_tags()[0].name, "t");
}

#[test]
fn paths_render_as_text() {
    assert_eq!(path_string(&vec![]), "/");
    assert_eq!(path_string(&vec![1, 7]), "/1/7/");
    assert_eq!(path_string(&vec![120, 3, 9_000_000_001]), "/120/3/9000000001/");
    assert_eq!(path_string(&vec![-5, i64::MIN]), "/-5/-9223372036854775808/");
}
