//! Stored report rows, and how they are inserted, read and deleted.
use vstd::prelude::*;
use crate::database::{
    lemma_remove_contains,
    lemma_remove_keeps_unique,
    report_ids,
    report_threads,
    reports_wf,
    thread_ids,
    threads_wf,
    type_ids,
    Database,
    ReportType,
    Thread,
};
use crate::ids::contains_id;
use crate::thread_item::messages_without;

verus! {

/// A report as stored: at most one of the three targets is set.
pub struct Report {
    pub id: u64,
    pub report_type_id: u64,
    pub project_id: Option<u64>,
    pub version_id: Option<u64>,
    pub user_id: Option<u64>,
    pub body: String,
    pub reporter: u64,
    /// Seconds since the Unix epoch.
    pub created: i64,
    pub closed: bool,
    pub thread_id: u64,
}

/// A report as read back, with the name of its type.
pub struct QueryReport {
    pub id: u64,
    pub report_type: String,
    pub project_id: Option<u64>,
    pub version_id: Option<u64>,
    pub user_id: Option<u64>,
    pub body: String,
    pub reporter: u64,
    pub created: i64,
    pub closed: bool,
    pub thread_id: Option<u64>,
}

impl Report {
    /// How many of the three target references are set.
    pub open spec fn target_count(&self) -> nat {
        (if self.project_id is Some { 1nat } else { 0nat }) + (if self.version_id is Some {
            1nat
        } else {
            0nat
        }) + (if self.user_id is Some { 1nat } else { 0nat })
    }
}

/// `i` is where the report `id` is stored.
pub open spec fn report_at(reports: Seq<Report>, id: u64, i: int) -> bool {
    0 <= i < reports.len() && reports[i].id == id
}

pub open spec fn has_report(reports: Seq<Report>, id: u64) -> bool {
    exists|i: int| report_at(reports, id, i)
}

/// `k` is the first catalog entry with identifier `tid`.
pub open spec fn is_first_type(types: Seq<ReportType>, tid: u64, k: int) -> bool {
    &&& 0 <= k < types.len()
    &&& types[k].id == tid
    &&& forall|j: int| 0 <= j < k ==> #[trigger] types[j].id != tid
}

/// The name under which the catalog lists the type `tid`.
pub open spec fn catalog_name(types: Seq<ReportType>, tid: u64) -> Seq<char> {
    types[choose|k: int| is_first_type(types, tid, k)].name@
}

/// `q` reads back the stored report `r`, whose type is named `name`.
pub open spec fn queries(q: QueryReport, r: Report, name: Seq<char>) -> bool {
    &&& q.id == r.id
    &&& q.report_type@ == name
    &&& q.project_id == r.project_id
    &&& q.version_id == r.version_id
    &&& q.user_id == r.user_id
    &&& q.body@ == r.body@
    &&& q.reporter == r.reporter
    &&& q.created == r.created
    &&& q.closed == r.closed
    &&& q.thread_id == Some(r.thread_id)
}

/// The stored reports whose identifier is in `ids`, each once, newest
/// first.
pub open spec fn newest_first_among(reports: Seq<Report>, ids: Seq<u64>) -> Seq<Report>
    decreases reports.len(),
{
    if reports.len() == 0 {
        seq![]
    } else {
        let rest = newest_first_among(reports.drop_last(), ids);
        if ids.contains(reports.last().id) {
            seq![reports.last()] + rest
        } else {
            rest
        }
    }
}

proof fn lemma_first_type_unique(types: Seq<ReportType>, tid: u64, k: int)
    requires
        is_first_type(types, tid, k),
    ensures
        catalog_name(types, tid) == types[k].name@,
{
    let c = choose|c: int| is_first_type(types, tid, c);
    assert(is_first_type(types, tid, c));
    if c < k {
        assert(types[c].id != tid);
    } else if k < c {
        assert(types[k].id != tid);
    }
}

/// Index of the first catalog entry with identifier `tid`.
pub fn find_type_by_id(types: &Vec<ReportType>, tid: u64) -> (r: Option<usize>)
    ensures
        r matches Some(k) ==> is_first_type(types@, tid, k as int),
        r is None ==> !type_ids(types@).contains(tid),
{
    let mut k: usize = 0;
    while k < types.len()
        invariant
            0 <= k <= types@.len(),
            forall|j: int| 0 <= j < k ==> #[trigger] types@[j].id != tid,
        decreases types@.len() - k,
    {
        if types[k].id == tid {
            return Some(k);
        }
        k = k + 1;
    }
    proof {
        if type_ids(types@).contains(tid) {
            let w = choose|w: int| 0 <= w < type_ids(types@).len() && type_ids(types@)[w] == tid;
            assert(types@[w].id == tid);
        }
    }
    None
}

/// Index of the report `id`, if stored.
pub fn find_report(reports: &Vec<Report>, id: u64) -> (r: Option<usize>)
    ensures
        r matches Some(i) ==> report_at(reports@, id, i as int),
        r is None ==> !has_report(reports@, id),
{
    let mut i: usize = 0;
    while i < reports.len()
        invariant
            0 <= i <= reports@.len(),
            forall|j: int| 0 <= j < i ==> #[trigger] reports@[j].id != id,
        decreases reports@.len() - i,
    {
        if reports[i].id == id {
            return Some(i);
        }
        i = i + 1;
    }
    None
}

/// With unique identifiers, a report is stored at one place only.
pub proof fn lemma_report_at_unique(reports: Seq<Report>, id: u64, i: int, j: int)
    requires
        report_ids(reports).no_duplicates(),
        report_at(reports, id, i),
        report_at(reports, id, j),
    ensures
        i == j,
{
    assert(report_ids(reports)[i] == report_ids(reports)[j]);
}

/// Inserting a fresh identifier anywhere keeps a list free of duplicates.
pub proof fn lemma_insert_keeps_unique(s: Seq<u64>, pos: int, x: u64)
    requires
        s.no_duplicates(),
        !s.contains(x),
        0 <= pos <= s.len(),
    ensures
        s.insert(pos, x).no_duplicates(),
{
    let t = s.insert(pos, x);
    assert forall|a: int, b: int| 0 <= a < t.len() && 0 <= b < t.len() && a != b implies t[a]
        != t[b] by {
        if a != pos && b != pos {
            let a2 = if a < pos { a } else { a - 1 };
            let b2 = if b < pos { b } else { b - 1 };
            assert(t[a] == s[a2]);
            assert(t[b] == s[b2]);
        } else if a == pos {
            let b2 = if b < pos { b } else { b - 1 };
            assert(t[b] == s[b2]);
        } else {
            let a2 = if a < pos { a } else { a - 1 };
            assert(t[a] == s[a2]);
        }
    }
}

impl Report {
    /// Stores the report, open, after every report created no later than
    /// it, so that reports stay ordered oldest first.
    pub fn insert(self, db: &mut Database) -> (pos: usize)
        requires
            reports_wf(old(db).reports@, old(db).threads@, old(db).report_types@),
            !report_ids(old(db).reports@).contains(self.id),
            !report_threads(old(db).reports@).contains(self.thread_id),
            thread_ids(old(db).threads@).contains(self.thread_id),
            type_ids(old(db).report_types@).contains(self.report_type_id),
            self.target_count() <= 1,
        ensures
            reports_wf(final(db).reports@, final(db).threads@, final(db).report_types@),
            pos <= old(db).reports@.len(),
            final(db).reports@ == old(db).reports@.insert(pos as int, Report { closed: false, ..self }),
            final(db).pats == old(db).pats,
            final(db).threads == old(db).threads,
            final(db).messages == old(db).messages,
            final(db).same_catalogs(old(db)),
    {
        let mut pos: usize = 0;
        while pos < db.reports.len() && db.reports[pos].created <= self.created
            invariant
                0 <= pos <= db.reports@.len(),
                db.reports@ == old(db).reports@,
                forall|j: int| 0 <= j < pos ==> #[trigger] db.reports@[j].created <= self.created,
            decreases db.reports@.len() - pos,
        {
            pos = pos + 1;
        }
        let ghost before = db.reports@;
        let mut row = self;
        row.closed = false;
        let ghost x = row;
        db.reports.insert(pos, row);
        proof {
            let after = db.reports@;
            assert(report_ids(after) =~= report_ids(before).insert(pos as int, x.id));
            assert(report_threads(after) =~= report_threads(before).insert(pos as int, x.thread_id));
            lemma_insert_keeps_unique(report_ids(before), pos as int, x.id);
            lemma_insert_keeps_unique(report_threads(before), pos as int, x.thread_id);
            assert forall|i: int, j: int| 0 <= i < j < after.len() implies #[trigger] after[i].created
                <= #[trigger] after[j].created by {
                if j < pos {
                } else if j == pos {
                    assert(after[i] == before[i]);
                } else if i < pos {
                    assert(after[j] == before[j - 1]);
                    if (pos as int) < before.len() {
                        assert(before[pos as int].created > x.created);
                        assert(before[i].created <= before[j - 1].created);
                    }
                } else if i == pos {
                    assert(after[j] == before[j - 1]);
                    assert(before[pos as int].created <= before[j - 1].created);
                } else {
                    assert(after[i] == before[i - 1]);
                    assert(after[j] == before[j - 1]);
                }
            }
            assert forall|i: int| 0 <= i < after.len() implies (#[trigger] after[i]).target_count()
                <= 1 && thread_ids(db.threads@).contains(after[i].thread_id) && type_ids(
                db.report_types@,
            ).contains(after[i].report_type_id) by {
                if i < pos {
                    assert(after[i] == before[i]);
                } else if i > pos {
                    assert(after[i] == before[i - 1]);
                }
            }
        }
        pos
    }

    /// Reads back the report `id` with the name of its type.
    pub fn get(id: u64, db: &Database) -> (r: Option<QueryReport>)
        requires
            db.wf(),
        ensures
            r is None <==> !has_report(db.reports@, id),
            r matches Some(q) ==> forall|i: int|
                #[trigger] report_at(db.reports@, id, i) ==> queries(
                    q,
                    db.reports@[i],
                    catalog_name(db.report_types@, db.reports@[i].report_type_id),
                ),
    {
        match find_report(&db.reports, id) {
            None => None,
            Some(i) => {
                proof {
                    assert forall|j: int| #[trigger] report_at(db.reports@, id, j) implies j == i by {
                        lemma_report_at_unique(db.reports@, id, i as int, j);
                    }
                }
                Some(query_at(db, i))
            },
        }
    }

    /// Reads back, newest first, each stored report whose identifier is in
    /// `report_ids`; identifiers of no report are skipped.
    pub fn get_many(report_ids: &Vec<u64>, db: &Database) -> (r: Vec<QueryReport>)
        requires
            db.wf(),
        ensures
            ({
                let sel = newest_first_among(db.reports@, report_ids@);
                &&& r@.len() == sel.len()
                &&& forall|k: int|
                    0 <= k < r@.len() ==> queries(
                        #[trigger] r@[k],
                        sel[k],
                        catalog_name(db.report_types@, sel[k].report_type_id),
                    )
            }),
    {
        let mut r: Vec<QueryReport> = Vec::new();
        let mut i: usize = 0;
        while i < db.reports.len()
            invariant
                db.wf(),
                0 <= i <= db.reports@.len(),
                ({
                    let sel = newest_first_among(db.reports@.take(i as int), report_ids@);
                    &&& r@.len() == sel.len()
                    &&& forall|k: int|
                        0 <= k < r@.len() ==> queries(
                            #[trigger] r@[k],
                            sel[k],
                            catalog_name(db.report_types@, sel[k].report_type_id),
                        )
                }),
            decreases db.reports@.len() - i,
        {
            assert(db.reports@.take(i as int + 1).drop_last() =~= db.reports@.take(i as int));
            assert(db.reports@.take(i as int + 1).last() == db.reports@[i as int]);
            if contains_id(report_ids, db.reports[i].id) {
                let q = query_at(db, i);
                r.insert(0, q);
            }
            i = i + 1;
        }
        assert(db.reports@.take(db.reports@.len() as int) =~= db.reports@);
        r
    }

    /// Deletes the report `id` and, before it, its thread with all the
    /// thread's messages. `None` when no such report exists.
    pub fn remove_full(id: u64, db: &mut Database) -> (r: Option<()>)
        requires
            old(db).wf(),
        ensures
            final(db).wf(),
            r is Some <==> has_report(old(db).reports@, id),
            r is None ==> *final(db) == *old(db),
            forall|i: int| #[trigger]
                report_at(old(db).reports@, id, i) ==> {
                    let t = old(db).reports@[i].thread_id;
                    &&& final(db).reports@ == old(db).reports@.remove(i)
                    &&& !thread_ids(final(db).threads@).contains(t)
                    &&& final(db).messages@ == messages_without(old(db).messages@, t)
                },
            forall|i: int, k: int|
                #[trigger] report_at(old(db).reports@, id, i) && 0 <= k < old(db).threads@.len()
                    && #[trigger] old(db).threads@[k].id == old(db).reports@[i].thread_id
                    ==> final(db).threads@ == old(db).threads@.remove(k),
            !has_report(final(db).reports@, id),
            final(db).pats == old(db).pats,
            final(db).same_catalogs(old(db)),
    {
        let i = match find_report(&db.reports, id) {
            None => {
                return None;
            },
            Some(i) => i,
        };
        proof {
            assert forall|j: int| #[trigger] report_at(old(db).reports@, id, j) implies j == i by {
                lemma_report_at_unique(old(db).reports@, id, i as int, j);
            }
        }
        let thread = db.reports[i].thread_id;
        let ghost reports0 = db.reports@;
        let ghost threads0 = db.threads@;
        Thread::remove_full(thread, db);
        db.reports.remove(i);
        proof {
            let after = db.reports@;
            assert(report_ids(after) =~= report_ids(reports0).remove(i as int));
            assert(report_threads(after) =~= report_threads(reports0).remove(i as int));
            lemma_remove_keeps_unique(report_ids(reports0), i as int);
            lemma_remove_keeps_unique(report_threads(reports0), i as int);
            assert forall|j: int| 0 <= j < after.len() implies (#[trigger] after[j]).target_count()
                <= 1 && thread_ids(db.threads@).contains(after[j].thread_id) && type_ids(
                db.report_types@,
            ).contains(after[j].report_type_id) by {
                let j2 = if j < i { j } else { j + 1 };
                assert(after[j] == reports0[j2]);
                assert(report_threads(reports0)[j2] != report_threads(reports0)[i as int]);
            }
            assert forall|a: int, b: int| 0 <= a < b < after.len() implies #[trigger] after[a].created
                <= #[trigger] after[b].created by {
                let a2 = if a < i { a } else { a + 1 };
                let b2 = if b < i { b } else { b + 1 };
                assert(after[a] == reports0[a2]);
                assert(after[b] == reports0[b2]);
            }
            if has_report(after, id) {
                let w = choose|w: int| report_at(after, id, w);
                let w2 = if w < i { w } else { w + 1 };
                assert(report_at(reports0, id, w2));
                lemma_report_at_unique(reports0, id, i as int, w2);
            }
        }
        Some(())
    }
}

/// Reads back the report stored at `i`.
pub fn query_at(db: &Database, i: usize) -> (q: QueryReport)
    requires
        db.wf(),
        i < db.reports@.len(),
    ensures
        queries(
            q,
            db.reports@[i as int],
            catalog_name(db.report_types@, db.reports@[i as int].report_type_id),
        ),
{
    let row = &db.reports[i];
    proof {
        assert(type_ids(db.report_types@).contains(row.report_type_id));
    }
    let k = match find_type_by_id(&db.report_types, row.report_type_id) {
        Some(k) => k,
        None => 0,
    };
    proof {
        lemma_first_type_unique(db.report_types@, row.report_type_id, k as int);
    }
    QueryReport {
        id: row.id,
        report_type: db.report_types[k].name.clone(),
        project_id: row.project_id,
        version_id: row.version_id,
        user_id: row.user_id,
        body: row.body.clone(),
        reporter: row.reporter,
        created: row.created,
        closed: row.closed,
        thread_id: Some(row.thread_id),
    }
}

} // verus!
