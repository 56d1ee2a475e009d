//! The stored state: tokens, reports, threads and their messages, and the
//! catalogs that reports refer to.
use vstd::prelude::*;
use crate::report_item::Report;

verus! {

/// A personal access token as stored.
pub struct PatRow {
    pub id: u64,
    pub access_token: u64,
    pub user_id: u64,
    pub scope: String,
    /// Seconds since the Unix epoch.
    pub expires_at: i64,
}

#[derive(Debug, Clone, Copy, PartialEq, Eq, Structural)]
pub enum ThreadType {
    Report,
    Project,
    DirectMessage,
}

pub struct Thread {
    pub id: u64,
    pub type_: ThreadType,
    pub members: Vec<u64>,
}

pub enum MessageBody {
    Text { body: String },
    ThreadClosure,
    ThreadReopen,
}

pub struct ThreadMessage {
    pub id: u64,
    pub thread_id: u64,
    /// `None` for a message that the system posted.
    pub author_id: Option<u64>,
    pub body: MessageBody,
}

/// An entry of the catalog of report types.
pub struct ReportType {
    pub id: u64,
    pub name: String,
}

pub struct Database {
    pub pats: Vec<PatRow>,
    pub reports: Vec<Report>,
    pub report_types: Vec<ReportType>,
    pub threads: Vec<Thread>,
    pub messages: Vec<ThreadMessage>,
    pub projects: Vec<u64>,
    pub versions: Vec<u64>,
    pub users: Vec<u64>,
}

pub open spec fn pat_ids(pats: Seq<PatRow>) -> Seq<u64> {
    pats.map_values(|p: PatRow| p.id)
}

pub open spec fn pat_tokens(pats: Seq<PatRow>) -> Seq<u64> {
    pats.map_values(|p: PatRow| p.access_token)
}

pub open spec fn report_ids(reports: Seq<Report>) -> Seq<u64> {
    reports.map_values(|r: Report| r.id)
}

pub open spec fn report_threads(reports: Seq<Report>) -> Seq<u64> {
    reports.map_values(|r: Report| r.thread_id)
}

pub open spec fn thread_ids(threads: Seq<Thread>) -> Seq<u64> {
    threads.map_values(|t: Thread| t.id)
}

pub open spec fn message_ids(messages: Seq<ThreadMessage>) -> Seq<u64> {
    messages.map_values(|m: ThreadMessage| m.id)
}

/// Token identifiers and secrets are each unique.
pub open spec fn pats_wf(pats: Seq<PatRow>) -> bool {
    pat_ids(pats).no_duplicates() && pat_tokens(pats).no_duplicates()
}

/// Every message belongs to an existing thread; thread and message ids are
/// unique.
pub open spec fn threads_wf(threads: Seq<Thread>, messages: Seq<ThreadMessage>) -> bool {
    &&& thread_ids(threads).no_duplicates()
    &&& message_ids(messages).no_duplicates()
    &&& forall|i: int|
        0 <= i < messages.len() ==> thread_ids(threads).contains(#[trigger] messages[i].thread_id)
}

pub open spec fn type_ids(types: Seq<ReportType>) -> Seq<u64> {
    types.map_values(|t: ReportType| t.id)
}

/// Reports have unique ids and threads of their own, at most one target,
/// a catalogued type, an existing thread, and are kept oldest first.
pub open spec fn reports_wf(reports: Seq<Report>, threads: Seq<Thread>, types: Seq<ReportType>) -> bool {
    &&& forall|i: int|
        0 <= i < reports.len() ==> type_ids(types).contains(#[trigger] reports[i].report_type_id)
    &&& report_ids(reports).no_duplicates()
    &&& report_threads(reports).no_duplicates()
    &&& forall|i: int| 0 <= i < reports.len() ==> (#[trigger] reports[i]).target_count() <= 1
    &&& forall|i: int|
        0 <= i < reports.len() ==> thread_ids(threads).contains(#[trigger] reports[i].thread_id)
    &&& forall|i: int, j: int|
        0 <= i < j < reports.len() ==> #[trigger] reports[i].created <= #[trigger] reports[j].created
}

impl Database {
    /// The catalogs of report types and of existing entities are the same.
    pub open spec fn same_catalogs(&self, other: &Database) -> bool {
        &&& self.report_types == other.report_types
        &&& self.projects == other.projects
        &&& self.versions == other.versions
        &&& self.users == other.users
    }

    pub open spec fn wf(&self) -> bool {
        &&& pats_wf(self.pats@)
        &&& threads_wf(self.threads@, self.messages@)
        &&& reports_wf(self.reports@, self.threads@, self.report_types@)
    }

    /// An empty store with the given catalogs of report types and of
    /// existing projects, versions and users.
    pub fn new(
        report_types: Vec<ReportType>,
        projects: Vec<u64>,
        versions: Vec<u64>,
        users: Vec<u64>,
    ) -> (r: Database)
        ensures
            r.wf(),
            r.pats@.len() == 0,
            r.reports@.len() == 0,
            r.threads@.len() == 0,
            r.messages@.len() == 0,
            r.report_types@ == report_types@,
            r.projects@ == projects@,
            r.versions@ == versions@,
            r.users@ == users@,
    {
        let r = Database {
            pats: Vec::new(),
            reports: Vec::new(),
            report_types,
            threads: Vec::new(),
            messages: Vec::new(),
            projects,
            versions,
            users,
        };
        assert(pat_ids(r.pats@) =~= Seq::<u64>::empty());
        assert(pat_tokens(r.pats@) =~= Seq::<u64>::empty());
        assert(thread_ids(r.threads@) =~= Seq::<u64>::empty());
        assert(report_ids(r.reports@) =~= Seq::<u64>::empty());
        assert(report_threads(r.reports@) =~= Seq::<u64>::empty());
        assert(message_ids(r.messages@) =~= Seq::<u64>::empty());
        r
    }

    /// The identifiers of all tokens.
    pub fn pat_id_list(&self) -> (r: Vec<u64>)
        ensures
            r@ == pat_ids(self.pats@),
    {
        let mut r: Vec<u64> = Vec::new();
        let mut i: usize = 0;
        while i < self.pats.len()
            invariant
                0 <= i <= self.pats@.len(),
                r@.len() == i,
                forall|k: int| 0 <= k < i ==> r@[k] == self.pats@[k].id,
            decreases self.pats@.len() - i,
        {
            r.push(self.pats[i].id);
            i = i + 1;
        }
        assert(r@ =~= pat_ids(self.pats@));
        r
    }

    /// The secrets of all tokens.
    pub fn pat_token_list(&self) -> (r: Vec<u64>)
        ensures
            r@ == pat_tokens(self.pats@),
    {
        let mut r: Vec<u64> = Vec::new();
        let mut i: usize = 0;
        while i < self.pats.len()
            invariant
                0 <= i <= self.pats@.len(),
                r@.len() == i,
                forall|k: int| 0 <= k < i ==> r@[k] == self.pats@[k].access_token,
            decreases self.pats@.len() - i,
        {
            r.push(self.pats[i].access_token);
            i = i + 1;
        }
        assert(r@ =~= pat_tokens(self.pats@));
        r
    }

    /// The identifiers of all reports.
    pub fn report_id_list(&self) -> (r: Vec<u64>)
        ensures
            r@ == report_ids(self.reports@),
    {
        let mut r: Vec<u64> = Vec::new();
        let mut i: usize = 0;
        while i < self.reports.len()
            invariant
                0 <= i <= self.reports@.len(),
                r@.len() == i,
                forall|k: int| 0 <= k < i ==> r@[k] == self.reports@[k].id,
            decreases self.reports@.len() - i,
        {
            r.push(self.reports[i].id);
            i = i + 1;
        }
        assert(r@ =~= report_ids(self.reports@));
        r
    }

    /// The identifiers of all threads.
    pub fn thread_id_list(&self) -> (r: Vec<u64>)
        ensures
            r@ == thread_ids(self.threads@),
    {
        let mut r: Vec<u64> = Vec::new();
        let mut i: usize = 0;
        while i < self.threads.len()
            invariant
                0 <= i <= self.threads@.len(),
                r@.len() == i,
                forall|k: int| 0 <= k < i ==> r@[k] == self.threads@[k].id,
            decreases self.threads@.len() - i,
        {
            r.push(self.threads[i].id);
            i = i + 1;
        }
        assert(r@ =~= thread_ids(self.threads@));
        r
    }

    /// The identifiers of all thread messages.
    pub fn message_id_list(&self) -> (r: Vec<u64>)
        ensures
            r@ == message_ids(self.messages@),
    {
        let mut r: Vec<u64> = Vec::new();
        let mut i: usize = 0;
        while i < self.messages.len()
            invariant
                0 <= i <= self.messages@.len(),
                r@.len() == i,
                forall|k: int| 0 <= k < i ==> r@[k] == self.messages@[k].id,
            decreases self.messages@.len() - i,
        {
            r.push(self.messages[i].id);
            i = i + 1;
        }
        assert(r@ =~= message_ids(self.messages@));
        r
    }
}

/// Removing an element keeps a list free of duplicates.
pub proof fn lemma_remove_keeps_unique(s: Seq<u64>, i: int)
    requires
        s.no_duplicates(),
        0 <= i < s.len(),
    ensures
        s.remove(i).no_duplicates(),
{
    let t = s.remove(i);
    assert forall|a: int, b: int| 0 <= a < t.len() && 0 <= b < t.len() && a != b implies t[a]
        != t[b] by {
        let a2 = if a < i { a } else { a + 1 };
        let b2 = if b < i { b } else { b + 1 };
        assert(t[a] == s[a2]);
        assert(t[b] == s[b2]);
    }
}

} // verus!

verus! {

/// After removing an element other than `x`, `x` is still there; and
/// nothing new appears.
pub proof fn lemma_remove_contains(s: Seq<u64>, k: int, x: u64)
    requires
        0 <= k < s.len(),
    ensures
        s.remove(k).contains(x) ==> s.contains(x),
        s.contains(x) && s[k] != x ==> s.remove(k).contains(x),
{
    let t = s.remove(k);
    if t.contains(x) {
        let w = choose|w: int| 0 <= w < t.len() && t[w] == x;
        let w2 = if w < k { w } else { w + 1 };
        assert(s[w2] == x);
    }
    if s.contains(x) && s[k] != x {
        let w = choose|w: int| 0 <= w < s.len() && s[w] == x;
        let w2 = if w < k { w } else { w - 1 };
        assert(t[w2] == x);
    }
}

} // verus!

verus! {

/// `k` is the first catalog entry named `name`.
pub open spec fn is_first_named(types: Seq<ReportType>, name: Seq<char>, k: int) -> bool {
    &&& 0 <= k < types.len()
    &&& types[k].name@ == name
    &&& forall|j: int| 0 <= j < k ==> #[trigger] types[j].name@ != name
}

impl ReportType {
    /// The identifier of the report type called `name`.
    pub fn get_id(name: &String, db: &Database) -> (r: Option<u64>)
        ensures
            r is None <==> forall|k: int| 0 <= k < db.report_types@.len() ==> #[trigger] db.report_types@[k].name@ != name@,
            forall|k: int| #[trigger] is_first_named(db.report_types@, name@, k) ==> r == Some(db.report_types@[k].id),
            r matches Some(id) ==> type_ids(db.report_types@).contains(id),
    {
        let mut k: usize = 0;
        while k < db.report_types.len()
            invariant
                0 <= k <= db.report_types@.len(),
                forall|j: int| 0 <= j < k ==> #[trigger] db.report_types@[j].name@ != name@,
            decreases db.report_types@.len() - k,
        {
            if db.report_types[k].name == *name {
                proof {
                    assert forall|j: int| #[trigger] is_first_named(db.report_types@, name@, j) implies j == k by {
                        if j < k {
                        } else if j > k {
                            assert(db.report_types@[k as int].name@ == name@);
                        }
                    }
                    assert(type_ids(db.report_types@)[k as int] == db.report_types@[k as int].id);
                }
                return Some(db.report_types[k].id);
            }
            k = k + 1;
        }
        None
    }
}

} // verus!

verus! {

/// In a well-formed store no two tokens share an identifier or a secret,
/// and no two reports, threads or messages share an identifier.
pub proof fn lemma_identifiers_unique(db: Database)
    requires
        db.wf(),
    ensures
        forall|i: int, j: int|
            0 <= i < j < db.pats@.len() ==> #[trigger] db.pats@[i].id != #[trigger] db.pats@[j].id
                && db.pats@[i].access_token != db.pats@[j].access_token,
        forall|i: int, j: int|
            0 <= i < j < db.reports@.len() ==> #[trigger] db.reports@[i].id
                != #[trigger] db.reports@[j].id,
        forall|i: int, j: int|
            0 <= i < j < db.threads@.len() ==> #[trigger] db.threads@[i].id
                != #[trigger] db.threads@[j].id,
        forall|i: int, j: int|
            0 <= i < j < db.messages@.len() ==> #[trigger] db.messages@[i].id
                != #[trigger] db.messages@[j].id,
{
    assert forall|i: int, j: int| 0 <= i < j < db.pats@.len() implies #[trigger] db.pats@[i].id
        != #[trigger] db.pats@[j].id && db.pats@[i].access_token != db.pats@[j].access_token by {
        assert(pat_ids(db.pats@)[i] != pat_ids(db.pats@)[j]);
        assert(pat_tokens(db.pats@)[i] != pat_tokens(db.pats@)[j]);
    }
    assert forall|i: int, j: int| 0 <= i < j < db.reports@.len() implies #[trigger] db.reports@[i].id
        != #[trigger] db.reports@[j].id by {
        assert(report_ids(db.reports@)[i] != report_ids(db.reports@)[j]);
    }
    assert forall|i: int, j: int| 0 <= i < j < db.threads@.len() implies #[trigger] db.threads@[i].id
        != #[trigger] db.threads@[j].id by {
        assert(thread_ids(db.threads@)[i] != thread_ids(db.threads@)[j]);
    }
    assert forall|i: int, j: int|
        0 <= i < j < db.messages@.len() implies #[trigger] db.messages@[i].id
        != #[trigger] db.messages@[j].id by {
        assert(message_ids(db.messages@)[i] != message_ids(db.messages@)[j]);
    }
}

} // verus!
