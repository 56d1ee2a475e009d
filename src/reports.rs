//! The report lifecycle: filing, listing, reading, editing and deleting
//! reports, with the access rules of each.
use vstd::prelude::*;
use crate::base62::{decoded, encode_spec, parse_base62, to_base62};
use crate::database::{is_first_named, report_ids, report_threads, type_ids, thread_ids, Database, MessageBody, ReportType, ThreadType};
use crate::error::{ApiError, InputError};
use crate::ids::{contains_id, generate_id, IdError};
use crate::report_item::{
    catalog_name,
    find_report,
    has_report,
    lemma_report_at_unique,
    report_at,
    query_at,
    QueryReport,
    Report,
};
use crate::thread_item::{messages_without, ThreadBuilder, ThreadMessageBuilder};
use crate::users::CurrentUser;

verus! {

/// Longest accepted report body, in characters, when a report is edited.
pub const MAX_REPORT_BODY: usize = 65536;

/// What kind of entity a report is about.
#[derive(Debug, Clone, Copy, PartialEq, Eq, Structural)]
pub enum ItemType {
    Project,
    Version,
    User,
    Unknown,
}

/// A report as filed by a user.
pub struct CreateReport {
    pub report_type: String,
    /// Base62 identifier of the reported entity.
    pub item_id: String,
    pub item_type: ItemType,
    pub body: String,
}

/// Changes to a report; `None` leaves a field as it is.
pub struct EditReport {
    pub body: Option<String>,
    pub closed: Option<bool>,
}

pub struct ReportsRequestOptions {
    /// Most reports to list.
    pub count: i16,
    /// For moderators: list the open reports of everyone.
    pub all: bool,
}

pub fn default_count() -> (r: i16)
    ensures
        r == 100,
{
    100
}

pub fn default_all() -> (r: bool)
    ensures
        r,
{
    true
}

/// A report as shown to users, its target as one identifier and kind.
pub struct ReportView {
    pub id: u64,
    pub report_type: String,
    pub item_id: String,
    pub item_type: ItemType,
    pub reporter: u64,
    pub body: String,
    pub created: i64,
    pub closed: bool,
    pub thread_id: Option<u64>,
}

/// The kind and identifier under which a report shows its target: the
/// first of project, version and user that is set, the identifier in base62.
pub open spec fn item_of(project: Option<u64>, version: Option<u64>, user: Option<u64>) -> (
    ItemType,
    Seq<char>,
) {
    if let Some(p) = project {
        (ItemType::Project, encode_spec(p as nat))
    } else if let Some(v) = version {
        (ItemType::Version, encode_spec(v as nat))
    } else if let Some(u) = user {
        (ItemType::User, encode_spec(u as nat))
    } else {
        (ItemType::Unknown, seq![])
    }
}

/// `v` shows the report read back as `q`.
pub open spec fn presents(v: ReportView, q: QueryReport) -> bool {
    &&& v.id == q.id
    &&& v.report_type@ == q.report_type@
    &&& (v.item_type, v.item_id@) == item_of(q.project_id, q.version_id, q.user_id)
    &&& v.reporter == q.reporter
    &&& v.body@ == q.body@
    &&& v.created == q.created
    &&& v.closed == q.closed
    &&& v.thread_id == q.thread_id
}

/// `v` shows the stored report `r`, whose type is named `name`.
pub open spec fn shows_report(v: ReportView, r: Report, name: Seq<char>) -> bool {
    &&& v.id == r.id
    &&& v.report_type@ == name
    &&& (v.item_type, v.item_id@) == item_of(r.project_id, r.version_id, r.user_id)
    &&& v.reporter == r.reporter
    &&& v.body@ == r.body@
    &&& v.created == r.created
    &&& v.closed == r.closed
    &&& v.thread_id == Some(r.thread_id)
}

/// Turns a report read back into the form shown to users.
pub fn to_report(x: QueryReport) -> (r: ReportView)
    ensures
        presents(r, x),
{
    let (item_type, item_id) = if let Some(p) = x.project_id {
        (ItemType::Project, to_base62(p))
    } else if let Some(v) = x.version_id {
        (ItemType::Version, to_base62(v))
    } else if let Some(u) = x.user_id {
        (ItemType::User, to_base62(u))
    } else {
        (ItemType::Unknown, String::new())
    };
    ReportView {
        id: x.id,
        report_type: x.report_type,
        item_id,
        item_type,
        reporter: x.reporter,
        body: x.body,
        created: x.created,
        closed: x.closed,
        thread_id: x.thread_id,
    }
}

/// Moderators see every report; other users the reports they filed.
pub open spec fn can_view_spec(user: CurrentUser, report: Report) -> bool {
    user.role.is_mod() || report.reporter == user.id
}

/// Moderators edit every report; other users a report whose target is
/// themselves.
pub open spec fn can_edit_spec(user: CurrentUser, report: Report) -> bool {
    user.role.is_mod() || report.user_id == Some(user.id)
}

pub fn can_view(user: &CurrentUser, report: &Report) -> (r: bool)
    ensures
        r == can_view_spec(*user, *report),
{
    user.role.is_mod() || report.reporter == user.id
}

pub fn can_edit(user: &CurrentUser, report: &Report) -> (r: bool)
    ensures
        r == can_edit_spec(*user, *report),
{
    user.role.is_mod() || report.user_id == Some(user.id)
}

/// Refuses a caller who is not a moderator.
pub fn require_moderator(user: &CurrentUser) -> (r: Result<(), ApiError>)
    ensures
        user.role.is_mod() ==> r is Ok,
        !user.role.is_mod() ==> r == Err::<(), ApiError>(ApiError::Forbidden),
{
    if user.role.is_mod() {
        Ok(())
    } else {
        Err(ApiError::Forbidden)
    }
}

/// Whether `x` names an existing entity of kind `t`.
pub open spec fn target_exists(db: &Database, t: ItemType, x: u64) -> bool {
    match t {
        ItemType::Project => db.projects@.contains(x),
        ItemType::Version => db.versions@.contains(x),
        ItemType::User => db.users@.contains(x),
        ItemType::Unknown => false,
    }
}

/// The error for a target of kind `t` that does not exist.
pub open spec fn missing_target(t: ItemType) -> InputError {
    match t {
        ItemType::Project => InputError::ProjectNotFound,
        ItemType::Version => InputError::VersionNotFound,
        _ => InputError::UserNotFound,
    }
}

/// The stored report `r` refers to `x` as a target of kind `t`, and to
/// nothing else.
pub open spec fn targets(r: Report, t: ItemType, x: u64) -> bool {
    match t {
        ItemType::Project => r.project_id == Some(x) && r.version_id is None && r.user_id is None,
        ItemType::Version => r.project_id is None && r.version_id == Some(x) && r.user_id is None,
        ItemType::User => r.project_id is None && r.version_id is None && r.user_id == Some(x),
        ItemType::Unknown => false,
    }
}

/// Checks that the target of a new report exists, giving its identifier.
fn check_target(db: &Database, item_type: ItemType, item_id: &String) -> (r: Result<u64, ApiError>)
    ensures
        item_type is Unknown ==> r == Err::<u64, ApiError>(ApiError::InvalidInput(InputError::UnknownItemType)),
        !(item_type is Unknown) ==> match decoded(item_id@) {
            Err(e) => r == Err::<u64, ApiError>(ApiError::Decoding(e)),
            Ok(x) => if target_exists(db, item_type, x) {
                r == Ok::<u64, ApiError>(x)
            } else {
                r == Err::<u64, ApiError>(ApiError::InvalidInput(missing_target(item_type)))
            },
        },
{
    if let ItemType::Unknown = item_type {
        return Err(ApiError::InvalidInput(InputError::UnknownItemType));
    }
    let x = match parse_base62(item_id.as_str()) {
        Ok(x) => x,
        Err(e) => {
            return Err(ApiError::Decoding(e));
        },
    };
    let (table, missing) = match item_type {
        ItemType::Project => (&db.projects, InputError::ProjectNotFound),
        ItemType::Version => (&db.versions, InputError::VersionNotFound),
        _ => (&db.users, InputError::UserNotFound),
    };
    if contains_id(table, x) {
        Ok(x)
    } else {
        Err(ApiError::InvalidInput(missing))
    }
}

/// Files a report by `current_user` at time `now`, bound to a new empty
/// thread. The report type must be in the catalog and the target must
/// exist; nothing is stored otherwise.
pub fn report_create(
    db: &mut Database,
    current_user: &CurrentUser,
    new_report: CreateReport,
    now: i64,
) -> (r: Result<ReportView, ApiError>)
    requires
        old(db).wf(),
    ensures
        final(db).wf(),
        final(db).same_catalogs(old(db)),
        final(db).pats == old(db).pats,
        r is Err ==> *final(db) == *old(db),
        (forall|k: int|
            0 <= k < old(db).report_types@.len() ==> #[trigger] old(db).report_types@[k].name@
                != new_report.report_type@) ==> r == Err::<ReportView, ApiError>(
            ApiError::InvalidInput(InputError::UnknownReportType),
        ),
        forall|k: int| #[trigger]
            is_first_named(old(db).report_types@, new_report.report_type@, k) ==> {
                if new_report.item_type is Unknown {
                    r == Err::<ReportView, ApiError>(ApiError::InvalidInput(InputError::UnknownItemType))
                } else {
                    match decoded(new_report.item_id@) {
                        Err(e) => r == Err::<ReportView, ApiError>(ApiError::Decoding(e)),
                        Ok(x) => if !target_exists(old(db), new_report.item_type, x) {
                            r == Err::<ReportView, ApiError>(
                                ApiError::InvalidInput(missing_target(new_report.item_type)),
                            )
                        } else {
                            &&& (r is Ok || r == Err::<ReportView, ApiError>(ApiError::ResourceExhausted))
                            &&& (old(db).reports@.len() == 0 && old(db).threads@.len() == 0 ==> r is Ok)
                            &&& r matches Ok(v) ==> {
                                &&& final(db).reports@.len() == old(db).reports@.len() + 1
                                &&& has_report(final(db).reports@, v.id)
                                &&& !has_report(old(db).reports@, v.id)
                                &&& v.report_type@ == new_report.report_type@
                                &&& v.item_id@ == new_report.item_id@
                                &&& v.item_type == new_report.item_type
                                &&& v.reporter == current_user.id
                                &&& v.body@ == new_report.body@
                                &&& v.created == now
                                &&& !v.closed
                                &&& v.thread_id is Some
                                &&& !thread_ids(old(db).threads@).contains(v.thread_id->0)
                                &&& final(db).threads@.len() == old(db).threads@.len() + 1
                                &&& final(db).threads@.drop_last() == old(db).threads@
                                &&& final(db).threads@.last().id == v.thread_id->0
                                &&& final(db).threads@.last().type_ == ThreadType::Report
                                &&& final(db).threads@.last().members@.len() == 0
                                &&& final(db).messages == old(db).messages
                                &&& forall|i: int| #[trigger]
                                    report_at(final(db).reports@, v.id, i) ==> {
                                        let row = final(db).reports@[i];
                                        &&& final(db).reports@.remove(i) == old(db).reports@
                                        &&& row.report_type_id == old(db).report_types@[k].id
                                        &&& targets(row, new_report.item_type, x)
                                        &&& row.target_count() == 1
                                        &&& row.body@ == new_report.body@
                                        &&& row.reporter == current_user.id
                                        &&& row.created == now
                                        &&& !row.closed
                                        &&& row.thread_id == v.thread_id->0
                                    }
                            }
                        },
                    }
                }
            },
{
    let report_type = match ReportType::get_id(&new_report.report_type, db) {
        Some(t) => t,
        None => {
            return Err(ApiError::InvalidInput(InputError::UnknownReportType));
        },
    };
    let target = match check_target(db, new_report.item_type, &new_report.item_id) {
        Ok(x) => x,
        Err(e) => {
            return Err(e);
        },
    };
    let id = match generate_id(&db.report_id_list()) {
        Ok(id) => id,
        Err(IdError::ResourceExhausted) => {
            return Err(ApiError::ResourceExhausted);
        },
    };
    let ghost db0 = *db;
    let thread_id = match (ThreadBuilder { type_: ThreadType::Report, members: Vec::new() }).insert(db) {
        Ok(t) => t,
        Err(e) => {
            return Err(e);
        },
    };
    let (project_id, version_id, user_id) = match new_report.item_type {
        ItemType::Project => (Some(target), None, None),
        ItemType::Version => (None, Some(target), None),
        _ => (None, None, Some(target)),
    };
    let report = Report {
        id,
        report_type_id: report_type,
        project_id,
        version_id,
        user_id,
        body: new_report.body.clone(),
        reporter: current_user.id,
        created: now,
        closed: false,
        thread_id,
    };
    proof {
        assert(db.threads@.drop_last() =~= db0.threads@);
        assert(thread_ids(db.threads@)[db.threads@.len() - 1] == thread_id);
        if report_threads(db0.reports@).contains(thread_id) {
            let w = choose|w: int|
                0 <= w < report_threads(db0.reports@).len() && report_threads(db0.reports@)[w] == thread_id;
            assert(db0.reports@[w].thread_id == thread_id);
        }
        assert forall|i: int| 0 <= i < db0.reports@.len() implies thread_ids(db.threads@).contains(
            #[trigger] db0.reports@[i].thread_id,
        ) by {
            let x = db0.reports@[i].thread_id;
            let w = choose|w: int| 0 <= w < thread_ids(db0.threads@).len() && thread_ids(db0.threads@)[w] == x;
            assert(thread_ids(db.threads@)[w] == x);
        }
    }
    let pos = report.insert(db);
    proof {
        let after = db.reports@;
        assert(report_at(after, id, pos as int));
        assert forall|i: int| #[trigger] report_at(after, id, i) implies i == pos by {
            lemma_report_at_unique(after, id, pos as int, i);
        }
        assert(after.remove(pos as int) =~= db0.reports@);
        assert(has_report(db.reports@, id));
        assert(db.reports@.len() == old(db).reports@.len() + 1);
        if has_report(db0.reports@, id) {
            let w = choose|w: int| report_at(db0.reports@, id, w);
            assert(report_ids(db0.reports@)[w] == id);
        }
    }
    Ok(
        ReportView {
            id,
            report_type: new_report.report_type,
            item_id: new_report.item_id,
            item_type: new_report.item_type,
            reporter: current_user.id,
            body: new_report.body,
            created: now,
            closed: false,
            thread_id: Some(thread_id),
        },
    )
}

/// The open reports that a listing shows, oldest first: everyone's where
/// `everyone`, else those filed by `user`.
pub open spec fn listed(reports: Seq<Report>, user: u64, everyone: bool) -> Seq<Report>
    decreases reports.len(),
{
    if reports.len() == 0 {
        seq![]
    } else {
        let rest = listed(reports.drop_last(), user, everyone);
        let r = reports.last();
        if !r.closed && (everyone || r.reporter == user) {
            rest.push(r)
        } else {
            rest
        }
    }
}

/// How many reports a count asks for; a negative count asks for none.
pub open spec fn limit(count: i16) -> nat {
    if count < 0 {
        0
    } else {
        count as nat
    }
}

/// Shows the report stored at `i`.
fn view_at(db: &Database, i: usize) -> (v: ReportView)
    requires
        db.wf(),
        i < db.reports@.len(),
    ensures
        shows_report(
            v,
            db.reports@[i as int],
            catalog_name(db.report_types@, db.reports@[i as int].report_type_id),
        ),
{
    to_report(query_at(db, i))
}

/// Lists open reports, oldest first, at most `count.count` of them: for a
/// moderator asking for all, everyone's; otherwise the caller's own.
pub fn reports(db: &Database, current_user: &CurrentUser, count: &ReportsRequestOptions) -> (r: Vec<
    ReportView,
>)
    requires
        db.wf(),
    ensures
        ({
            let l = listed(db.reports@, current_user.id, current_user.role.is_mod() && count.all);
            &&& r@.len() == if l.len() < limit(count.count) {
                l.len()
            } else {
                limit(count.count)
            }
            &&& forall|k: int|
                0 <= k < r@.len() ==> shows_report(
                    #[trigger] r@[k],
                    l[k],
                    catalog_name(db.report_types@, l[k].report_type_id),
                )
        }),
{
    let everyone = current_user.role.is_mod() && count.all;
    let cap: usize = if count.count < 0 {
        0
    } else {
        count.count as usize
    };
    let mut r: Vec<ReportView> = Vec::new();
    let mut i: usize = 0;
    while i < db.reports.len()
        invariant
            db.wf(),
            0 <= i <= db.reports@.len(),
            cap == limit(count.count),
            everyone == (current_user.role.is_mod() && count.all),
            ({
                let l = listed(db.reports@.take(i as int), current_user.id, everyone);
                &&& r@.len() == if l.len() < cap {
                    l.len()
                } else {
                    cap as nat
                }
                &&& forall|k: int|
                    0 <= k < r@.len() ==> shows_report(
                        #[trigger] r@[k],
                        l[k],
                        catalog_name(db.report_types@, l[k].report_type_id),
                    )
            }),
        decreases db.reports@.len() - i,
    {
        let ghost l0 = listed(db.reports@.take(i as int), current_user.id, everyone);
        assert(db.reports@.take(i as int + 1).drop_last() =~= db.reports@.take(i as int));
        assert(db.reports@.take(i as int + 1).last() == db.reports@[i as int]);
        let row = &db.reports[i];
        if !row.closed && (everyone || row.reporter == current_user.id) {
            if r.len() < cap {
                let v = view_at(db, i);
                r.push(v);
            }
        }
        i = i + 1;
    }
    assert(db.reports@.take(db.reports@.len() as int) =~= db.reports@);
    r
}

/// Shows the report `id` to a moderator or to the user who filed it. To
/// anyone else it answers as if the report did not exist.
pub fn report_get(db: &Database, current_user: &CurrentUser, id: u64) -> (r: Result<
    ReportView,
    ApiError,
>)
    requires
        db.wf(),
    ensures
        !has_report(db.reports@, id) ==> r == Err::<ReportView, ApiError>(ApiError::NotFound),
        forall|i: int| #[trigger]
            report_at(db.reports@, id, i) ==> if can_view_spec(*current_user, db.reports@[i]) {
                r matches Ok(v) && shows_report(
                    v,
                    db.reports@[i],
                    catalog_name(db.report_types@, db.reports@[i].report_type_id),
                )
            } else {
                r == Err::<ReportView, ApiError>(ApiError::NotFound)
            },
{
    match find_report(&db.reports, id) {
        None => Err(ApiError::NotFound),
        Some(i) => {
            proof {
                assert forall|j: int| #[trigger] report_at(db.reports@, id, j) implies j == i by {
                    lemma_report_at_unique(db.reports@, id, i as int, j);
                }
            }
            if !can_view(current_user, &db.reports[i]) {
                return Err(ApiError::NotFound);
            }
            Ok(view_at(db, i))
        },
    }
}

/// The message that records setting `closed` on a report that was
/// `was_closed`: a reopening when it goes from closed to open, a closure
/// otherwise.
pub open spec fn transition_message(was_closed: bool, closed: bool) -> MessageBody {
    if !closed && was_closed {
        MessageBody::ThreadReopen
    } else {
        MessageBody::ThreadClosure
    }
}

/// `new` is `old` with the edits of `edit` applied.
pub open spec fn edited(old: Report, new: Report, edit: EditReport) -> bool {
    &&& new.id == old.id
    &&& new.report_type_id == old.report_type_id
    &&& new.project_id == old.project_id
    &&& new.version_id == old.version_id
    &&& new.user_id == old.user_id
    &&& new.reporter == old.reporter
    &&& new.created == old.created
    &&& new.thread_id == old.thread_id
    &&& new.body@ == (match edit.body {
        Some(b) => b@,
        None => old.body@,
    })
    &&& new.closed == (match edit.closed {
        Some(c) => c,
        None => old.closed,
    })
}

/// Edits the report `id`. Moderators may edit any report; another user
/// only a report whose target is that user, and may not close or reopen
/// it. Every change of `closed` posts a system message to the report's
/// thread. Nothing is stored when an error is returned.
pub fn report_edit(db: &mut Database, current_user: &CurrentUser, id: u64, edit_report: EditReport) -> (r:
    Result<(), ApiError>)
    requires
        old(db).wf(),
    ensures
        final(db).wf(),
        r is Err ==> *final(db) == *old(db),
        final(db).same_catalogs(old(db)),
        final(db).pats == old(db).pats,
        final(db).threads == old(db).threads,
        !has_report(old(db).reports@, id) ==> r == Err::<(), ApiError>(ApiError::NotFound),
        forall|i: int| #[trigger]
            report_at(old(db).reports@, id, i) ==> {
                let rep = old(db).reports@[i];
                if !can_edit_spec(*current_user, rep) {
                    r == Err::<(), ApiError>(ApiError::NotFound)
                } else if edit_report.body matches Some(b) && b@.len() > MAX_REPORT_BODY {
                    r == Err::<(), ApiError>(ApiError::InvalidInput(InputError::BodyTooLong))
                } else if edit_report.closed is Some && !current_user.role.is_mod() {
                    r == Err::<(), ApiError>(ApiError::InvalidInput(InputError::CannotChangeClosed))
                } else {
                    &&& (edit_report.closed is None || old(db).messages@.len() == 0 ==> r is Ok)
                    &&& (r is Ok || r == Err::<(), ApiError>(ApiError::ResourceExhausted))
                    &&& r is Ok ==> {
                        &&& final(db).reports@.len() == old(db).reports@.len()
                        &&& forall|j: int|
                            0 <= j < old(db).reports@.len() && j != i ==> final(db).reports@[j]
                                == old(db).reports@[j]
                        &&& edited(rep, final(db).reports@[i], edit_report)
                        &&& (edit_report.closed is None ==> final(db).messages == old(db).messages)
                        &&& (edit_report.closed matches Some(c) ==> {
                            let m = final(db).messages@.last();
                            &&& final(db).messages@ == old(db).messages@.push(m)
                            &&& m.thread_id == rep.thread_id
                            &&& m.author_id is None
                            &&& m.body == transition_message(rep.closed, c)
                        })
                    }
                }
            },
{
    let i = match find_report(&db.reports, id) {
        None => {
            return Err(ApiError::NotFound);
        },
        Some(i) => i,
    };
    proof {
        assert forall|j: int| #[trigger] report_at(old(db).reports@, id, j) implies j == i by {
            lemma_report_at_unique(old(db).reports@, id, i as int, j);
        }
    }
    let is_mod = current_user.role.is_mod();
    if !can_edit(current_user, &db.reports[i]) {
        return Err(ApiError::NotFound);
    }
    if let Some(b) = &edit_report.body {
        if b.unicode_len() > MAX_REPORT_BODY {
            return Err(ApiError::InvalidInput(InputError::BodyTooLong));
        }
    }
    if edit_report.closed.is_some() && !is_mod {
        return Err(ApiError::InvalidInput(InputError::CannotChangeClosed));
    }
    let ghost db0 = *db;
    if let Some(c) = edit_report.closed {
        let was_closed = db.reports[i].closed;
        let thread_id = db.reports[i].thread_id;
        let body = if !c && was_closed {
            MessageBody::ThreadReopen
        } else {
            MessageBody::ThreadClosure
        };
        proof {
            assert(thread_ids(db.threads@).contains(db.reports@[i as int].thread_id));
        }
        match (ThreadMessageBuilder { author_id: None, body, thread_id }).insert(db) {
            Ok(_) => {},
            Err(e) => {
                return Err(e);
            },
        }
    }
    let ghost before = db.reports@;
    let mut row = db.reports.remove(i);
    if let Some(b) = edit_report.body {
        row.body = b;
    }
    if let Some(c) = edit_report.closed {
        row.closed = c;
    }
    db.reports.insert(i, row);
    proof {
        let after = db.reports@;
        assert(after =~= before.update(i as int, after[i as int]));
        assert(report_ids(after) =~= report_ids(before));
        assert(report_threads(after) =~= report_threads(before));
        assert forall|a: int, b: int| 0 <= a < b < after.len() implies #[trigger] after[a].created
            <= #[trigger] after[b].created by {
            assert(before[a].created <= before[b].created);
        }
        assert forall|j: int| 0 <= j < after.len() implies (#[trigger] after[j]).target_count() <= 1
            && thread_ids(db.threads@).contains(after[j].thread_id) && type_ids(
            db.report_types@,
        ).contains(after[j].report_type_id) by {
            assert(before[j].target_count() <= 1);
        }
    }
    Ok(())
}

/// Deletes the report `id` with its thread and the thread's messages.
/// Only moderators may delete, which is checked before the report is
/// looked up.
pub fn report_delete(db: &mut Database, current_user: &CurrentUser, id: u64) -> (r: Result<
    (),
    ApiError,
>)
    requires
        old(db).wf(),
    ensures
        final(db).wf(),
        r is Err ==> *final(db) == *old(db),
        !current_user.role.is_mod() ==> r == Err::<(), ApiError>(ApiError::Forbidden),
        current_user.role.is_mod() && !has_report(old(db).reports@, id) ==> r == Err::<(), ApiError>(
            ApiError::NotFound,
        ),
        current_user.role.is_mod() && has_report(old(db).reports@, id) ==> r is Ok,
        r is Ok ==> forall|i: int| #[trigger]
            report_at(old(db).reports@, id, i) ==> {
                let t = old(db).reports@[i].thread_id;
                &&& final(db).reports@ == old(db).reports@.remove(i)
                &&& !thread_ids(final(db).threads@).contains(t)
                &&& final(db).messages@ == messages_without(old(db).messages@, t)
            },
        r is Ok ==> forall|i: int, k: int|
            #[trigger] report_at(old(db).reports@, id, i) && 0 <= k < old(db).threads@.len()
                && #[trigger] old(db).threads@[k].id == old(db).reports@[i].thread_id
                ==> final(db).threads@ == old(db).threads@.remove(k),
        current_user.role.is_mod() ==> !has_report(final(db).reports@, id),
        final(db).pats == old(db).pats,
        final(db).same_catalogs(old(db)),
{
    if let Err(e) = require_moderator(current_user) {
        return Err(e);
    }
    match Report::remove_full(id, db) {
        Some(()) => Ok(()),
        None => Err(ApiError::NotFound),
    }
}

} // verus!
