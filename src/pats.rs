//! Issuing, listing, editing and revoking personal access tokens.
use vstd::prelude::*;
use crate::base62::{decoded, parse_base62};
use crate::database::{pat_ids, pat_tokens, Database, PatRow, lemma_remove_keeps_unique};
use crate::error::{ApiError, InputError};
use crate::ids::{generate_id, lemma_fresh_id_keeps_unique, IdError};
use crate::pat::{resolve_spec, show_pat, shows_pat, PersonalAccessToken};

verus! {

pub const SECONDS_PER_DAY: i64 = 86400;

pub struct CreatePersonalAccessToken {
    pub scope: String,
    /// The token expires this many days from now.
    pub expire_in_days: i64,
}

pub struct ModifyPersonalAccessToken {
    /// The token's secret, in base62.
    pub access_token: String,
    pub scope: Option<String>,
    /// Resets the expiry to this many days from now.
    pub expire_in_days: Option<i64>,
}

/// The moment `days` days after `now`, in seconds.
pub open spec fn expiry_spec(now: i64, days: i64) -> int {
    now + days * SECONDS_PER_DAY
}

pub open spec fn fits_i64(v: int) -> bool {
    i64::MIN <= v <= i64::MAX
}

/// `days` days after `now`, or `None` where that does not fit a timestamp.
pub fn expiry_after(now: i64, days: i64) -> (r: Option<i64>)
    ensures
        fits_i64(expiry_spec(now, days)) ==> r == Some(expiry_spec(now, days) as i64),
        !fits_i64(expiry_spec(now, days)) ==> r is None,
{
    let span: i128 = days as i128 * SECONDS_PER_DAY as i128;
    let v: i128 = now as i128 + span;
    if v < i64::MIN as i128 || v > i64::MAX as i128 {
        None
    } else {
        Some(v as i64)
    }
}

/// The tokens of `user`, in stored order.
pub open spec fn pats_of(pats: Seq<PatRow>, user: u64) -> Seq<PatRow>
    decreases pats.len(),
{
    if pats.len() == 0 {
        seq![]
    } else {
        let rest = pats_of(pats.drop_last(), user);
        if pats.last().user_id == user {
            rest.push(pats.last())
        } else {
            rest
        }
    }
}

proof fn lemma_pats_of_contains(pats: Seq<PatRow>, user: u64, i: int)
    requires
        0 <= i < pats.len(),
        pats[i].user_id == user,
    ensures
        pats_of(pats, user).contains(pats[i]),
    decreases pats.len(),
{
    let rest = pats_of(pats.drop_last(), user);
    if i == pats.len() - 1 {
        assert(pats_of(pats, user)[rest.len() as int] == pats[i]);
    } else {
        assert(pats.drop_last()[i] == pats[i]);
        lemma_pats_of_contains(pats.drop_last(), user, i);
        let k = choose|k: int| 0 <= k < rest.len() && rest[k] == pats[i];
        if pats.last().user_id == user {
            assert(pats_of(pats, user)[k] == pats[i]);
        }
    }
}

/// An expired token still appears among its owner's tokens, while its
/// secret no longer authenticates anyone.
pub proof fn lemma_expired_token_listed_not_resolved(db: Database, i: int, now: i64)
    requires
        db.wf(),
        0 <= i < db.pats@.len(),
        db.pats@[i].expires_at < now,
    ensures
        resolve_spec(db.pats@, db.pats@[i].access_token, now) is None,
        pats_of(db.pats@, db.pats@[i].user_id).contains(db.pats@[i]),
{
    let pats = db.pats@;
    let token = pats[i].access_token;
    assert(exists|i: int| 0 <= i < pats.len() && #[trigger] pats[i].access_token == token);
    let j = choose|j: int| 0 <= j < pats.len() && #[trigger] pats[j].access_token == token;
    assert(pat_tokens(pats)[i] == pat_tokens(pats)[j]);
    lemma_pats_of_contains(pats, pats[i].user_id, i);
}

/// All tokens of `user`, expired ones included.
pub fn get_pats(db: &Database, user: u64) -> (r: Vec<PersonalAccessToken>)
    ensures
        r@.len() == pats_of(db.pats@, user).len(),
        forall|k: int| 0 <= k < r@.len() ==> shows_pat(#[trigger] r@[k], pats_of(db.pats@, user)[k]),
{
    let mut r: Vec<PersonalAccessToken> = Vec::new();
    let mut i: usize = 0;
    while i < db.pats.len()
        invariant
            0 <= i <= db.pats@.len(),
            r@.len() == pats_of(db.pats@.take(i as int), user).len(),
            forall|k: int|
                0 <= k < r@.len() ==> shows_pat(
                    #[trigger] r@[k],
                    pats_of(db.pats@.take(i as int), user)[k],
                ),
        decreases db.pats@.len() - i,
    {
        assert(db.pats@.take(i as int + 1).drop_last() =~= db.pats@.take(i as int));
        if db.pats[i].user_id == user {
            let t = show_pat(&db.pats[i]);
            r.push(t);
        }
        i = i + 1;
    }
    assert(db.pats@.take(db.pats@.len() as int) =~= db.pats@);
    r
}

/// Issues a token for `user` that expires `expire_in_days` days after `now`.
pub fn create_pat(db: &mut Database, user: u64, info: &CreatePersonalAccessToken, now: i64) -> (r:
    Result<PersonalAccessToken, ApiError>)
    requires
        old(db).wf(),
    ensures
        final(db).wf(),
        final(db).reports == old(db).reports,
        final(db).same_catalogs(old(db)),
        final(db).threads == old(db).threads,
        final(db).messages == old(db).messages,
        !fits_i64(expiry_spec(now, info.expire_in_days)) ==> r == Err::<
            PersonalAccessToken,
            ApiError,
        >(ApiError::InvalidInput(InputError::ExpiryOutOfRange)),
        fits_i64(expiry_spec(now, info.expire_in_days)) ==> (r is Ok || r == Err::<
            PersonalAccessToken,
            ApiError,
        >(ApiError::ResourceExhausted)),
        fits_i64(expiry_spec(now, info.expire_in_days)) && old(db).pats@.len() == 0 ==> r is Ok,
        r is Err ==> final(db).pats@ == old(db).pats@,
        r matches Ok(t) ==> {
            let row = final(db).pats@.last();
            &&& final(db).pats@ == old(db).pats@.push(row)
            &&& !pat_ids(old(db).pats@).contains(row.id)
            &&& !pat_tokens(old(db).pats@).contains(row.access_token)
            &&& row.user_id == user
            &&& row.scope@ == info.scope@
            &&& row.expires_at == expiry_spec(now, info.expire_in_days)
            &&& shows_pat(t, row)
        },
{
    let expires_at = match expiry_after(now, info.expire_in_days) {
        Some(e) => e,
        None => {
            return Err(ApiError::InvalidInput(InputError::ExpiryOutOfRange));
        },
    };
    let id = match generate_id(&db.pat_id_list()) {
        Ok(id) => id,
        Err(IdError::ResourceExhausted) => {
            return Err(ApiError::ResourceExhausted);
        },
    };
    let token = match generate_id(&db.pat_token_list()) {
        Ok(t) => t,
        Err(IdError::ResourceExhausted) => {
            return Err(ApiError::ResourceExhausted);
        },
    };
    let row = PatRow { id, access_token: token, user_id: user, scope: info.scope.clone(), expires_at };
    let t = show_pat(&row);
    let ghost before = db.pats@;
    db.pats.push(row);
    proof {
        assert(pat_ids(db.pats@) =~= pat_ids(before).push(id));
        assert(pat_tokens(db.pats@) =~= pat_tokens(before).push(token));
        lemma_fresh_id_keeps_unique(pat_ids(before), id);
        lemma_fresh_id_keeps_unique(pat_tokens(before), token);
    }
    Ok(t)
}

/// `i` holds the token with secret `token` owned by `user`.
pub open spec fn pat_matches(pats: Seq<PatRow>, i: int, token: u64, user: u64) -> bool {
    0 <= i < pats.len() && pats[i].access_token == token && pats[i].user_id == user
}

/// Index of the token of `user` with secret `token`, if any.
fn find_owned_pat(pats: &Vec<PatRow>, token: u64, user: u64) -> (r: Option<usize>)
    ensures
        r matches Some(i) ==> pat_matches(pats@, i as int, token, user),
        r is None ==> forall|i: int| !pat_matches(pats@, i, token, user),
{
    let mut i: usize = 0;
    while i < pats.len()
        invariant
            0 <= i <= pats@.len(),
            forall|k: int| 0 <= k < i ==> !pat_matches(pats@, k, token, user),
        decreases pats@.len() - i,
    {
        if pats[i].access_token == token && pats[i].user_id == user {
            return Some(i);
        }
        i = i + 1;
    }
    None
}

/// Replaces the scope and, counted from `now`, the expiry of a token of
/// `user`. Fields not given keep their values. A secret that is not valid
/// base62 matches no token.
pub fn edit_pat(db: &mut Database, user: u64, info: &ModifyPersonalAccessToken, now: i64) -> (r:
    Result<PersonalAccessToken, ApiError>)
    requires
        old(db).wf(),
    ensures
        final(db).wf(),
        final(db).reports == old(db).reports,
        final(db).same_catalogs(old(db)),
        final(db).threads == old(db).threads,
        final(db).messages == old(db).messages,
        r is Err ==> final(db).pats@ == old(db).pats@,
        decoded(info.access_token@) is Err ==> r == Err::<PersonalAccessToken, ApiError>(
            ApiError::NotFound,
        ),
        decoded(info.access_token@) matches Ok(token) ==> {
            &&& (forall|i: int| !pat_matches(old(db).pats@, i, token, user)) ==> r == Err::<
                PersonalAccessToken,
                ApiError,
            >(ApiError::NotFound)
            &&& forall|i: int| #[trigger]
                pat_matches(old(db).pats@, i, token, user) ==> {
                    let old_row = old(db).pats@[i];
                    let new_row = final(db).pats@[i];
                    if info.expire_in_days matches Some(d) && !fits_i64(expiry_spec(now, d)) {
                        r == Err::<PersonalAccessToken, ApiError>(
                            ApiError::InvalidInput(InputError::ExpiryOutOfRange),
                        )
                    } else {
                        &&& r matches Ok(t) && shows_pat(t, new_row)
                        &&& final(db).pats@.len() == old(db).pats@.len()
                        &&& forall|j: int|
                            0 <= j < old(db).pats@.len() && j != i ==> final(db).pats@[j]
                                == old(db).pats@[j]
                        &&& new_row.id == old_row.id
                        &&& new_row.access_token == old_row.access_token
                        &&& new_row.user_id == old_row.user_id
                        &&& new_row.scope@ == (match info.scope {
                            Some(s) => s@,
                            None => old_row.scope@,
                        })
                        &&& new_row.expires_at == (match info.expire_in_days {
                            Some(d) => expiry_spec(now, d),
                            None => old_row.expires_at as int,
                        })
                    }
                }
        },
{
    let token = match parse_base62(info.access_token.as_str()) {
        Ok(t) => t,
        Err(_) => {
            return Err(ApiError::NotFound);
        },
    };
    let i = match find_owned_pat(&db.pats, token, user) {
        Some(i) => i,
        None => {
            return Err(ApiError::NotFound);
        },
    };
    proof {
        assert forall|j: int| pat_matches(old(db).pats@, j, token, user) implies j == i by {
            assert(pat_tokens(db.pats@)[j] == pat_tokens(db.pats@)[i as int]);
        }
    }
    let expires_at = match info.expire_in_days {
        Some(d) => match expiry_after(now, d) {
            Some(e) => e,
            None => {
                return Err(ApiError::InvalidInput(InputError::ExpiryOutOfRange));
            },
        },
        None => db.pats[i].expires_at,
    };
    let scope = match &info.scope {
        Some(s) => s.clone(),
        None => db.pats[i].scope.clone(),
    };
    let row = PatRow {
        id: db.pats[i].id,
        access_token: db.pats[i].access_token,
        user_id: db.pats[i].user_id,
        scope,
        expires_at,
    };
    let t = show_pat(&row);
    let ghost before = db.pats@;
    db.pats.set(i, row);
    proof {
        assert(pat_ids(db.pats@) =~= pat_ids(before));
        assert(pat_tokens(db.pats@) =~= pat_tokens(before));
    }
    Ok(t)
}

/// Revokes the token of `user` with the given secret. A secret that is not
/// valid base62 matches no token.
pub fn delete_pat(db: &mut Database, user: u64, access_token: &str) -> (r: Result<(), ApiError>)
    requires
        old(db).wf(),
    ensures
        final(db).wf(),
        final(db).reports == old(db).reports,
        final(db).same_catalogs(old(db)),
        final(db).threads == old(db).threads,
        final(db).messages == old(db).messages,
        r is Err ==> final(db).pats@ == old(db).pats@,
        decoded(access_token@) is Err ==> r == Err::<(), ApiError>(ApiError::NotFound),
        decoded(access_token@) matches Ok(token) ==> {
            &&& (forall|i: int| !pat_matches(old(db).pats@, i, token, user)) ==> r == Err::<
                (),
                ApiError,
            >(ApiError::NotFound)
            &&& forall|i: int| #[trigger]
                pat_matches(old(db).pats@, i, token, user) ==> r is Ok && final(db).pats@ == old(
                    db,
                ).pats@.remove(i)
        },
{
    let token = match parse_base62(access_token) {
        Ok(t) => t,
        Err(_) => {
            return Err(ApiError::NotFound);
        },
    };
    let i = match find_owned_pat(&db.pats, token, user) {
        Some(i) => i,
        None => {
            return Err(ApiError::NotFound);
        },
    };
    proof {
        assert forall|j: int| pat_matches(old(db).pats@, j, token, user) implies j == i by {
            assert(pat_tokens(db.pats@)[j] == pat_tokens(db.pats@)[i as int]);
        }
    }
    let ghost before = db.pats@;
    db.pats.remove(i);
    proof {
        assert(pat_ids(db.pats@) =~= pat_ids(before).remove(i as int));
        assert(pat_tokens(db.pats@) =~= pat_tokens(before).remove(i as int));
        lemma_remove_keeps_unique(pat_ids(before), i as int);
        lemma_remove_keeps_unique(pat_tokens(before), i as int);
    }
    Ok(())
}

} // verus!
