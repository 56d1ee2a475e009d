//! Discussion threads and their messages.
use vstd::prelude::*;
use crate::database::{
    lemma_remove_contains,
    lemma_remove_keeps_unique,
    message_ids,
    thread_ids,
    threads_wf,
    Database,
    MessageBody,
    Thread,
    ThreadMessage,
    ThreadType,
};
use crate::error::ApiError;
use crate::ids::{generate_id, lemma_fresh_id_keeps_unique, IdError};

verus! {

/// The messages of `ms` that do not belong to `thread`, in order.
pub open spec fn messages_without(ms: Seq<ThreadMessage>, thread: u64) -> Seq<ThreadMessage>
    decreases ms.len(),
{
    if ms.len() == 0 {
        seq![]
    } else {
        let rest = messages_without(ms.drop_last(), thread);
        if ms.last().thread_id == thread {
            rest
        } else {
            rest.push(ms.last())
        }
    }
}

/// A thread about to be created.
pub struct ThreadBuilder {
    pub type_: ThreadType,
    pub members: Vec<u64>,
}

impl ThreadBuilder {
    /// Stores a new empty thread under a fresh identifier.
    pub fn insert(self, db: &mut Database) -> (r: Result<u64, ApiError>)
        requires
            threads_wf(old(db).threads@, old(db).messages@),
        ensures
            threads_wf(final(db).threads@, final(db).messages@),
            final(db).pats == old(db).pats,
            final(db).same_catalogs(old(db)),
            final(db).reports == old(db).reports,
            final(db).messages == old(db).messages,
            old(db).threads@.len() == 0 ==> r is Ok,
            r is Err ==> r == Err::<u64, ApiError>(ApiError::ResourceExhausted) && final(db).threads
                == old(db).threads,
            r matches Ok(id) ==> {
                let t = final(db).threads@.last();
                &&& final(db).threads@ == old(db).threads@.push(t)
                &&& thread_ids(final(db).threads@) == thread_ids(old(db).threads@).push(id)
                &&& !thread_ids(old(db).threads@).contains(id)
                &&& t.id == id
                &&& t.type_ == self.type_
                &&& t.members@ == self.members@
            },
    {
        let id = match generate_id(&db.thread_id_list()) {
            Ok(id) => id,
            Err(IdError::ResourceExhausted) => {
                return Err(ApiError::ResourceExhausted);
            },
        };
        let ghost before = db.threads@;
        db.threads.push(Thread { id, type_: self.type_, members: self.members });
        proof {
            assert(thread_ids(db.threads@) =~= thread_ids(before).push(id));
            lemma_fresh_id_keeps_unique(thread_ids(before), id);
            assert forall|i: int| 0 <= i < db.messages@.len() implies thread_ids(
                db.threads@,
            ).contains(#[trigger] db.messages@[i].thread_id) by {
                let x = db.messages@[i].thread_id;
                let w = choose|w: int| 0 <= w < thread_ids(before).len() && thread_ids(before)[w] == x;
                assert(thread_ids(db.threads@)[w] == x);
            }
        }
        Ok(id)
    }
}

/// A message about to be posted to an existing thread.
pub struct ThreadMessageBuilder {
    /// `None` for a message that the system posts.
    pub author_id: Option<u64>,
    pub body: MessageBody,
    pub thread_id: u64,
}

impl ThreadMessageBuilder {
    /// Appends the message to its thread under a fresh identifier.
    pub fn insert(self, db: &mut Database) -> (r: Result<u64, ApiError>)
        requires
            threads_wf(old(db).threads@, old(db).messages@),
            thread_ids(old(db).threads@).contains(self.thread_id),
        ensures
            threads_wf(final(db).threads@, final(db).messages@),
            final(db).pats == old(db).pats,
            final(db).same_catalogs(old(db)),
            final(db).reports == old(db).reports,
            final(db).threads == old(db).threads,
            old(db).messages@.len() == 0 ==> r is Ok,
            r is Err ==> r == Err::<u64, ApiError>(ApiError::ResourceExhausted) && final(db).messages
                == old(db).messages,
            r matches Ok(id) ==> {
                let m = final(db).messages@.last();
                &&& final(db).messages@ == old(db).messages@.push(m)
                &&& !message_ids(old(db).messages@).contains(id)
                &&& m.id == id
                &&& m.thread_id == self.thread_id
                &&& m.author_id == self.author_id
                &&& m.body == self.body
            },
    {
        let id = match generate_id(&db.message_id_list()) {
            Ok(id) => id,
            Err(IdError::ResourceExhausted) => {
                return Err(ApiError::ResourceExhausted);
            },
        };
        let ghost before = db.messages@;
        db.messages.push(
            ThreadMessage { id, thread_id: self.thread_id, author_id: self.author_id, body: self.body },
        );
        proof {
            assert(message_ids(db.messages@) =~= message_ids(before).push(id));
            lemma_fresh_id_keeps_unique(message_ids(before), id);
        }
        Ok(id)
    }
}

/// Index of the thread `id`, if any.
fn find_thread(threads: &Vec<Thread>, id: u64) -> (r: Option<usize>)
    ensures
        r matches Some(k) ==> k < threads@.len() && threads@[k as int].id == id,
        r is None ==> forall|j: int| 0 <= j < threads@.len() ==> #[trigger] threads@[j].id != id,
{
    let mut k: usize = 0;
    while k < threads.len()
        invariant
            0 <= k <= threads@.len(),
            forall|j: int| 0 <= j < k ==> #[trigger] threads@[j].id != id,
        decreases threads@.len() - k,
    {
        if threads[k].id == id {
            return Some(k);
        }
        k = k + 1;
    }
    None
}

impl Thread {
    /// Deletes the thread `id`, if it exists, with all of its messages.
    pub fn remove_full(id: u64, db: &mut Database) -> (r: Option<()>)
        requires
            threads_wf(old(db).threads@, old(db).messages@),
        ensures
            threads_wf(final(db).threads@, final(db).messages@),
            final(db).pats == old(db).pats,
            final(db).same_catalogs(old(db)),
            final(db).reports == old(db).reports,
            r is Some <==> thread_ids(old(db).threads@).contains(id),
            !thread_ids(final(db).threads@).contains(id),
            forall|x: u64|
                x != id ==> (thread_ids(final(db).threads@).contains(x) <==> thread_ids(
                    old(db).threads@,
                ).contains(x)),
            forall|k: int|
                0 <= k < old(db).threads@.len() && #[trigger] old(db).threads@[k].id == id
                    ==> final(db).threads@ == old(db).threads@.remove(k),
            !thread_ids(old(db).threads@).contains(id) ==> final(db).threads == old(db).threads,
            final(db).messages@ == messages_without(old(db).messages@, id),
    {
        let mut found: Option<()> = None;
        let pos = find_thread(&db.threads, id);
        let ghost old_ids = thread_ids(old(db).threads@);
        if let Some(k) = pos {
            db.threads.remove(k);
            found = Some(());
            proof {
                assert(old_ids[k as int] == id);
                assert forall|k2: int|
                    0 <= k2 < old(db).threads@.len() && #[trigger] old(db).threads@[k2].id == id
                    implies k2 == k by {
                    assert(old_ids[k2] == id);
                }
                assert(thread_ids(db.threads@) =~= old_ids.remove(k as int));
                lemma_remove_keeps_unique(old_ids, k as int);
                assert forall|x: u64| x != id implies (thread_ids(db.threads@).contains(x)
                    <==> old_ids.contains(x)) by {
                    lemma_remove_contains(old_ids, k as int, x);
                }
                if thread_ids(db.threads@).contains(id) {
                    let w = choose|w: int|
                        0 <= w < thread_ids(db.threads@).len() && thread_ids(db.threads@)[w] == id;
                    let w2 = if w < k { w } else { w + 1 };
                    assert(old_ids[w2] == id);
                    assert(old_ids.no_duplicates());
                }
            }
        } else {
            proof {
                if old_ids.contains(id) {
                    let w = choose|w: int| 0 <= w < old_ids.len() && old_ids[w] == id;
                    assert(db.threads@[w].id == id);
                }
            }
        }
        let mut rest: Vec<ThreadMessage> = Vec::new();
        std::mem::swap(&mut rest, &mut db.messages);
        assert(message_ids(db.messages@) =~= Seq::<u64>::empty());
        let ghost all = rest@;
        let n = rest.len();
        let mut j: usize = 0;
        while j < n
            invariant
                n == all.len(),
                0 <= j <= n,
                rest@ == all.skip(j as int),
                db.messages@ == messages_without(all.take(j as int), id),
                all == old(db).messages@,
                thread_ids(db.threads@).no_duplicates(),
                !thread_ids(db.threads@).contains(id),
                forall|k: int|
                    0 <= k < old(db).threads@.len() && #[trigger] old(db).threads@[k].id == id
                        ==> db.threads@ == old(db).threads@.remove(k),
                !thread_ids(old(db).threads@).contains(id) ==> db.threads == old(db).threads,
                threads_wf(old(db).threads@, old(db).messages@),
                forall|x: u64|
                    x != id ==> (thread_ids(db.threads@).contains(x) <==> thread_ids(
                        old(db).threads@,
                    ).contains(x)),
                forall|q: int|
                    0 <= q < db.messages@.len() ==> thread_ids(db.threads@).contains(
                        #[trigger] db.messages@[q].thread_id,
                    ),
                message_ids(db.messages@).no_duplicates(),
                forall|q: int|
                    0 <= q < db.messages@.len() ==> message_ids(all.take(j as int)).contains(
                        #[trigger] db.messages@[q].id,
                    ),
                db.pats == old(db).pats,
                db.same_catalogs(old(db)),
                db.reports == old(db).reports,
            decreases n - j,
        {
            let m = rest.remove(0);
            proof {
                assert(all.take(j as int + 1).drop_last() =~= all.take(j as int));
                assert(all.skip(j as int)[0] == all[j as int]);
                assert(rest@ =~= all.skip(j as int + 1));
                assert(thread_ids(old(db).threads@).contains(all[j as int].thread_id));
            }
            let ghost kept0 = db.messages@;
            let ghost mid = m.id;
            proof {
                let ids0 = message_ids(all.take(j as int));
                let ids1 = message_ids(all.take(j as int + 1));
                assert(ids1 =~= ids0.push(mid));
                assert forall|x: u64| ids0.contains(x) implies ids1.contains(x) by {
                    let w = choose|w: int| 0 <= w < ids0.len() && ids0[w] == x;
                    assert(ids1[w] == x);
                }
                if ids0.contains(mid) {
                    let w = choose|w: int| 0 <= w < ids0.len() && ids0[w] == mid;
                    assert(message_ids(all)[w] == mid);
                    assert(message_ids(all)[j as int] == mid);
                }
                assert(ids1[j as int] == mid);
            }
            if m.thread_id != id {
                db.messages.push(m);
                proof {
                    assert(message_ids(db.messages@) =~= message_ids(kept0).push(mid));
                    if message_ids(kept0).contains(mid) {
                        let w = choose|w: int|
                            0 <= w < message_ids(kept0).len() && message_ids(kept0)[w] == mid;
                        assert(message_ids(all.take(j as int)).contains(kept0[w].id));
                    }
                    lemma_fresh_id_keeps_unique(message_ids(kept0), mid);
                }
            }
            j = j + 1;
        }
        proof {
            assert(all.take(n as int) =~= all);
        }
        found
    }
}

} // verus!
