use labrinth::base62::{to_base62, DecodeError};
use labrinth::database::{Database, MessageBody, ReportType, ThreadType};
use labrinth::error::{ApiError, InputError};
use labrinth::report_item::{QueryReport, Report};
use labrinth::reports::{
    default_all, default_count, report_create, report_delete, report_edit, report_get, reports,
    to_report, CreateReport, EditReport, ItemType, ReportView, ReportsRequestOptions,
};
use labrinth::users::{CurrentUser, Role};

const PROJECT: u64 = 100;
const VERSION: u64 = 200;
const TARGET_USER: u64 = 300;
const REPORTER: u64 = 400;

fn catalog_db() -> Database {
    Database::new(
        vec![
            ReportType { id: 1, name: "spam".to_string() },
            ReportType { id: 2, name: "copyright".to_string() },
        ],
        vec![PROJECT],
        vec![VERSION],
        vec![TARGET_USER, REPORTER],
    )
}

fn user(id: u64) -> CurrentUser {
    CurrentUser { id, role: Role::Developer }
}

fn moderator() -> CurrentUser {
    CurrentUser { id: 9, role: Role::Moderator }
}

fn filing(kind: ItemType, item_id: u64) -> CreateReport {
    CreateReport {
        report_type: "spam".to_string(),
        item_id: to_base62(item_id),
        item_type: kind,
        body: "bad".to_string(),
    }
}

fn file(db: &mut Database, by: u64, kind: ItemType, item_id: u64, now: i64) -> ReportView {
    match report_create(db, &user(by), filing(kind, item_id), now) {
        Ok(v) => v,
        Err(e) => panic!("create failed: {:?}", e),
    }
}

fn list(db: &Database, who: &CurrentUser, count: i16, all: bool) -> Vec<ReportView> {
    reports(db, who, &ReportsRequestOptions { count, all })
}

#[test]
fn defaults_list_up_to_hundred_of_all() {
    assert_eq!(default_count(), 100);
    assert!(default_all());
}

#[test]
fn created_report_has_exactly_one_target() {
    let mut db = catalog_db();
    let v = file(&mut db, REPORTER, ItemType::Version, VERSION, 10);
    assert_eq!(v.item_type, ItemType::Version);
    assert_eq!(v.item_id, "3E");
    assert_eq!(v.reporter, REPORTER);
    assert!(!v.closed);
    assert_eq!(db.reports.len(), 1);
    let row = &db.reports[0];
    assert_eq!(row.project_id, None);
    assert_eq!(row.version_id, Some(VERSION));
    assert_eq!(row.user_id, None);
    assert_eq!(row.report_type_id, 1);
    assert_eq!(Some(row.thread_id), v.thread_id);
    assert_eq!(db.threads.len(), 1);
    assert_eq!(db.threads[0].type_, ThreadType::Report);
    assert!(db.threads[0].members.is_empty());
    assert!(db.messages.is_empty());
}

#[test]
fn report_on_missing_project_is_refused_and_nothing_stored() {
    let mut db = catalog_db();
    let r = report_create(&mut db, &user(REPORTER), filing(ItemType::Project, 999), 10);
    assert!(matches!(r, Err(ApiError::InvalidInput(InputError::ProjectNotFound))));
    assert!(db.reports.is_empty());
    assert!(db.threads.is_empty());
}

#[test]
fn report_errors_for_each_bad_input() {
    let mut db = catalog_db();
    let mut bad_type = filing(ItemType::Project, PROJECT);
    bad_type.report_type = "nonsense".to_string();
    assert!(matches!(
        report_create(&mut db, &user(REPORTER), bad_type, 1),
        Err(ApiError::InvalidInput(InputError::UnknownReportType))
    ));
    assert!(matches!(
        report_create(&mut db, &user(REPORTER), filing(ItemType::Unknown, PROJECT), 1),
        Err(ApiError::InvalidInput(InputError::UnknownItemType))
    ));
    assert!(matches!(
        report_create(&mut db, &user(REPORTER), filing(ItemType::Version, 5), 1),
        Err(ApiError::InvalidInput(InputError::VersionNotFound))
    ));
    assert!(matches!(
        report_create(&mut db, &user(REPORTER), filing(ItemType::User, 5), 1),
        Err(ApiError::InvalidInput(InputError::UserNotFound))
    ));
    let mut bad_id = filing(ItemType::Project, PROJECT);
    bad_id.item_id = "x-y".to_string();
    assert!(matches!(
        report_create(&mut db, &user(REPORTER), bad_id, 1),
        Err(ApiError::Decoding(DecodeError::InvalidBase62('-')))
    ));
    assert!(db.reports.is_empty());
    assert!(db.threads.is_empty());
}

#[test]
fn moderator_lists_oldest_open_reports_up_to_count() {
    let mut db = catalog_db();
    for t in [50i64, 10, 40, 20, 30] {
        file(&mut db, REPORTER, ItemType::Project, PROJECT, t);
    }
    let got = list(&db, &moderator(), 2, true);
    assert_eq!(got.len(), 2);
    assert_eq!(got[0].created, 10);
    assert_eq!(got[1].created, 20);
    assert_eq!(list(&db, &moderator(), 100, true).len(), 5);
}

#[test]
fn listing_leaves_out_closed_and_others_reports() {
    let mut db = catalog_db();
    let a = file(&mut db, REPORTER, ItemType::Project, PROJECT, 1);
    file(&mut db, TARGET_USER, ItemType::Project, PROJECT, 2);
    file(&mut db, REPORTER, ItemType::User, TARGET_USER, 3);
    let close = EditReport { body: None, closed: Some(true) };
    assert_eq!(report_edit(&mut db, &moderator(), a.id, close), Ok(()));
    let mine = list(&db, &user(REPORTER), 100, true);
    assert_eq!(mine.len(), 1);
    assert_eq!(mine[0].created, 3);
    assert_eq!(mine[0].item_type, ItemType::User);
    assert_eq!(list(&db, &moderator(), 100, true).len(), 2);
    assert_eq!(list(&db, &moderator(), 100, false).len(), 0);
    assert_eq!(list(&db, &moderator(), -1, true).len(), 0);
}

#[test]
fn listed_item_id_is_base62() {
    let mut db = catalog_db();
    file(&mut db, REPORTER, ItemType::Project, PROJECT, 1);
    let got = list(&db, &moderator(), 10, true);
    assert_eq!(got[0].item_id, "1c");
    assert_eq!(got[0].item_type, ItemType::Project);
    assert_eq!(got[0].report_type, "spam");
    assert_eq!(got[0].body, "bad");
}

#[test]
fn to_report_picks_first_target_or_unknown() {
    let q = QueryReport {
        id: 5,
        report_type: "spam".to_string(),
        project_id: None,
        version_id: None,
        user_id: Some(62),
        body: "b".to_string(),
        reporter: 1,
        created: 2,
        closed: true,
        thread_id: Some(3),
    };
    let v = to_report(q);
    assert_eq!(v.item_type, ItemType::User);
    assert_eq!(v.item_id, "10");
    assert!(v.closed);
    let none = QueryReport {
        id: 5,
        report_type: "spam".to_string(),
        project_id: None,
        version_id: None,
        user_id: None,
        body: "b".to_string(),
        reporter: 1,
        created: 2,
        closed: false,
        thread_id: None,
    };
    let v = to_report(none);
    assert_eq!(v.item_type, ItemType::Unknown);
    assert_eq!(v.item_id, "");
}

#[test]
fn get_masks_reports_of_others_as_missing() {
    let mut db = catalog_db();
    let v = file(&mut db, REPORTER, ItemType::Project, PROJECT, 1);
    let stranger = user(TARGET_USER);
    let hidden = report_get(&db, &stranger, v.id);
    let missing = report_get(&db, &stranger, v.id.wrapping_add(1));
    assert!(matches!(hidden, Err(ApiError::NotFound)));
    assert!(matches!(missing, Err(ApiError::NotFound)));
    let own = report_get(&db, &user(REPORTER), v.id).ok().unwrap();
    assert_eq!(own.id, v.id);
    assert_eq!(own.item_id, "1c");
    assert!(report_get(&db, &moderator(), v.id).is_ok());
}

#[test]
fn closing_and_reopening_post_system_messages() {
    let mut db = catalog_db();
    let v = file(&mut db, REPORTER, ItemType::Project, PROJECT, 1);
    let thread = v.thread_id.unwrap();
    let close = EditReport { body: None, closed: Some(true) };
    assert_eq!(report_edit(&mut db, &moderator(), v.id, close), Ok(()));
    assert!(db.reports[0].closed);
    assert_eq!(db.messages.len(), 1);
    assert_eq!(db.messages[0].thread_id, thread);
    assert_eq!(db.messages[0].author_id, None);
    assert!(matches!(db.messages[0].body, MessageBody::ThreadClosure));
    let reopen = EditReport { body: None, closed: Some(false) };
    assert_eq!(report_edit(&mut db, &moderator(), v.id, reopen), Ok(()));
    assert!(!db.reports[0].closed);
    assert_eq!(db.messages.len(), 2);
    assert!(matches!(db.messages[1].body, MessageBody::ThreadReopen));
}

#[test]
fn body_edit_posts_no_message() {
    let mut db = catalog_db();
    let v = file(&mut db, REPORTER, ItemType::User, TARGET_USER, 1);
    let edit = EditReport { body: Some("updated".to_string()), closed: None };
    assert_eq!(report_edit(&mut db, &user(TARGET_USER), v.id, edit), Ok(()));
    assert_eq!(db.reports[0].body, "updated");
    assert!(db.messages.is_empty());
}

#[test]
fn non_moderator_cannot_close_and_nothing_changes() {
    let mut db = catalog_db();
    let v = file(&mut db, REPORTER, ItemType::User, TARGET_USER, 1);
    let edit = EditReport { body: Some("changed".to_string()), closed: Some(true) };
    assert_eq!(
        report_edit(&mut db, &user(TARGET_USER), v.id, edit),
        Err(ApiError::InvalidInput(InputError::CannotChangeClosed))
    );
    assert!(!db.reports[0].closed);
    assert_eq!(db.reports[0].body, "bad");
    assert!(db.messages.is_empty());
}

#[test]
fn edit_by_unrelated_user_or_of_missing_report_is_not_found() {
    let mut db = catalog_db();
    let v = file(&mut db, REPORTER, ItemType::Project, PROJECT, 1);
    let edit = EditReport { body: Some("x".to_string()), closed: None };
    assert_eq!(report_edit(&mut db, &user(REPORTER), v.id, edit), Err(ApiError::NotFound));
    let edit = EditReport { body: Some("x".to_string()), closed: None };
    assert_eq!(
        report_edit(&mut db, &moderator(), v.id.wrapping_add(1), edit),
        Err(ApiError::NotFound)
    );
    assert_eq!(db.reports[0].body, "bad");
}

#[test]
fn overlong_body_is_refused() {
    let mut db = catalog_db();
    let v = file(&mut db, REPORTER, ItemType::Project, PROJECT, 1);
    let edit = EditReport { body: Some("a".repeat(65537)), closed: None };
    assert_eq!(
        report_edit(&mut db, &moderator(), v.id, edit),
        Err(ApiError::InvalidInput(InputError::BodyTooLong))
    );
    let edit = EditReport { body: Some("a".repeat(65536)), closed: None };
    assert_eq!(report_edit(&mut db, &moderator(), v.id, edit), Ok(()));
}

#[test]
fn deleted_report_loses_thread_and_messages() {
    let mut db = catalog_db();
    let keep = file(&mut db, REPORTER, ItemType::Project, PROJECT, 1);
    let v = file(&mut db, REPORTER, ItemType::Project, PROJECT, 2);
    let thread = v.thread_id.unwrap();
    let close = EditReport { body: None, closed: Some(true) };
    assert_eq!(report_edit(&mut db, &moderator(), v.id, close), Ok(()));
    let close = EditReport { body: None, closed: Some(true) };
    assert_eq!(report_edit(&mut db, &moderator(), keep.id, close), Ok(()));
    assert_eq!(db.messages.len(), 2);
    assert_eq!(report_delete(&mut db, &moderator(), v.id), Ok(()));
    assert!(matches!(report_get(&db, &moderator(), v.id), Err(ApiError::NotFound)));
    assert!(db.threads.iter().all(|t| t.id != thread));
    assert!(db.messages.iter().all(|m| m.thread_id != thread));
    assert_eq!(db.messages.len(), 1);
    assert_eq!(db.reports.len(), 1);
    assert_eq!(report_delete(&mut db, &moderator(), v.id), Err(ApiError::NotFound));
}

#[test]
fn only_moderators_delete() {
    let mut db = catalog_db();
    let v = file(&mut db, REPORTER, ItemType::Project, PROJECT, 1);
    assert_eq!(report_delete(&mut db, &user(REPORTER), v.id), Err(ApiError::Forbidden));
    assert_eq!(report_delete(&mut db, &user(REPORTER), 12345), Err(ApiError::Forbidden));
    assert_eq!(db.reports.len(), 1);
}

#[test]
fn report_storage_reads_back_rows() {
    let mut db = catalog_db();
    let a = file(&mut db, REPORTER, ItemType::Project, PROJECT, 5);
    let b = file(&mut db, REPORTER, ItemType::User, TARGET_USER, 3);
    let q = Report::get(a.id, &db).unwrap();
    assert_eq!(q.report_type, "spam");
    assert_eq!(q.project_id, Some(PROJECT));
    let many = Report::get_many(&vec![b.id, 77, a.id, b.id], &db);
    assert_eq!(many.len(), 2);
    assert_eq!(many[0].id, a.id);
    assert_eq!(many[0].created, 5);
    assert_eq!(many[1].id, b.id);
    assert_eq!(many[1].created, 3);
    assert_eq!(Report::remove_full(a.id, &mut db), Some(()));
    assert!(Report::get(a.id, &db).is_none());
    assert_eq!(Report::remove_full(a.id, &mut db), None);
}

#[test]
fn inserted_report_is_stored_open() {
    let mut db = catalog_db();
    let thread = labrinth::thread_item::ThreadBuilder { type_: ThreadType::Report, members: Vec::new() }
        .insert(&mut db)
        .unwrap();
    let row = Report {
        id: 42,
        report_type_id: 1,
        project_id: Some(PROJECT),
        version_id: None,
        user_id: None,
        body: "b".to_string(),
        reporter: REPORTER,
        created: 7,
        closed: true,
        thread_id: thread,
    };
    assert_eq!(row.insert(&mut db), 0);
    assert!(!db.reports[0].closed);
    assert!(!Report::get(42, &db).unwrap().closed);
}

#[test]
fn first_report_on_empty_store_succeeds() {
    let mut db = catalog_db();
    let v = report_create(&mut db, &user(REPORTER), filing(ItemType::User, TARGET_USER), 5);
    let v = match v {
        Ok(v) => v,
        Err(e) => panic!("create failed: {:?}", e),
    };
    assert_eq!(v.item_id, "4q");
    assert_eq!(db.reports.len(), 1);
    assert_eq!(db.reports[0].id, v.id);
    assert_eq!(db.reports[0].user_id, Some(TARGET_USER));
}

#[test]
fn created_reports_get_distinct_ids_and_threads() {
    let mut db = catalog_db();
    let a = file(&mut db, REPORTER, ItemType::Project, PROJECT, 1);
    let b = file(&mut db, REPORTER, ItemType::Project, PROJECT, 1);
    assert_ne!(a.id, b.id);
    assert_ne!(a.thread_id, b.thread_id);
}
