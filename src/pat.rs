//! Personal access tokens: their outward form and the lookup that turns a
//! presented secret into the user it belongs to.
use vstd::prelude::*;
use crate::base62::{decoded, encode_spec, parse_base62, to_base62, DecodeError};
use crate::database::{pat_tokens, pats_wf, Database, PatRow};

verus! {

/// A token as shown to its owner, identifier and secret in base62.
pub struct PersonalAccessToken {
    pub id: String,
    pub access_token: String,
    pub scope: String,
    pub user_id: u64,
    /// Seconds since the Unix epoch.
    pub expires_at: i64,
}

/// `t` shows the stored token `row`.
pub open spec fn shows_pat(t: PersonalAccessToken, row: PatRow) -> bool {
    &&& t.id@ == encode_spec(row.id as nat)
    &&& t.access_token@ == encode_spec(row.access_token as nat)
    &&& t.scope@ == row.scope@
    &&& t.user_id == row.user_id
    &&& t.expires_at == row.expires_at
}

/// The user that the secret `token` authenticates at time `now`: none when no
/// token has that secret, and none when the token has expired.
pub open spec fn resolve_spec(pats: Seq<PatRow>, token: u64, now: i64) -> Option<u64> {
    if exists|i: int| 0 <= i < pats.len() && #[trigger] pats[i].access_token == token {
        let i = choose|i: int| 0 <= i < pats.len() && #[trigger] pats[i].access_token == token;
        if pats[i].expires_at < now {
            None
        } else {
            Some(pats[i].user_id)
        }
    } else {
        None
    }
}

/// Builds the outward form of a stored token.
pub fn show_pat(row: &PatRow) -> (t: PersonalAccessToken)
    ensures
        shows_pat(t, *row),
{
    PersonalAccessToken {
        id: to_base62(row.id),
        access_token: to_base62(row.access_token),
        scope: row.scope.clone(),
        user_id: row.user_id,
        expires_at: row.expires_at,
    }
}

/// Index of the token with secret `token`, if any.
pub fn find_pat_by_token(pats: &Vec<PatRow>, token: u64) -> (r: Option<usize>)
    ensures
        r matches Some(i) ==> i < pats@.len() && pats@[i as int].access_token == token,
        r is None ==> forall|i: int| 0 <= i < pats@.len() ==> #[trigger] pats@[i].access_token != token,
{
    let mut i: usize = 0;
    while i < pats.len()
        invariant
            0 <= i <= pats@.len(),
            forall|k: int| 0 <= k < i ==> #[trigger] pats@[k].access_token != token,
        decreases pats@.len() - i,
    {
        if pats[i].access_token == token {
            return Some(i);
        }
        i = i + 1;
    }
    None
}

/// With unique secrets, the token found for a secret is the one that
/// `resolve_spec` reads.
proof fn lemma_resolve_at(pats: Seq<PatRow>, i: int, now: i64)
    requires
        pats_wf(pats),
        0 <= i < pats.len(),
    ensures
        resolve_spec(pats, pats[i].access_token, now) == (if pats[i].expires_at < now {
            None
        } else {
            Some(pats[i].user_id)
        }),
{
    let token = pats[i].access_token;
    assert(exists|i: int| 0 <= i < pats.len() && #[trigger] pats[i].access_token == token);
    let j = choose|j: int| 0 <= j < pats.len() && #[trigger] pats[j].access_token == token;
    assert(pat_tokens(pats)[i] == pat_tokens(pats)[j]);
}

/// Resolves a presented secret, in base62, to the user that owns it. An
/// unknown secret and an expired token both give `Ok(None)`.
pub fn get_user_from_pat(db: &Database, access_token: &str, now: i64) -> (r: Result<
    Option<u64>,
    DecodeError,
>)
    requires
        db.wf(),
    ensures
        r == (match decoded(access_token@) {
            Ok(token) => Ok(resolve_spec(db.pats@, token, now)),
            Err(e) => Err(e),
        }),
{
    let token = match parse_base62(access_token) {
        Ok(t) => t,
        Err(e) => {
            return Err(e);
        },
    };
    match find_pat_by_token(&db.pats, token) {
        None => Ok(None),
        Some(i) => {
            proof {
                lemma_resolve_at(db.pats@, i as int, now);
            }
            if db.pats[i].expires_at < now {
                Ok(None)
            } else {
                Ok(Some(db.pats[i].user_id))
            }
        },
    }
}

} // verus!
