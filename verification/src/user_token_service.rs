use vstd::prelude::*;
use crate::errors::{self, Errors};
use crate::user_token_repository::{self, UserTokenV};

verus! {

/// A persisted long-lived token: one opaque value per (user, purpose),
/// exchanged for a fresh token pair on refresh and revoked on logout.
#[derive(Debug)]
pub struct Token {
    pub user_id: u128,
    /// The purpose discriminator under which the row is keyed.
    pub subject: String,
    /// The opaque, unguessable token value.
    pub token: String,
    /// Seconds since the epoch.
    pub created_at: u64,
    /// Always `created_at` plus the fixed validity period.
    pub expires_at: u64,
    /// Free-form payload, unused by the token lifecycle itself.
    pub payload: Option<String>,
}

/// The mathematical value of a `Token`.
pub struct TokenV {
    pub user_id: u128,
    pub subject: Seq<char>,
    pub token: Seq<char>,
    pub created_at: u64,
    pub expires_at: u64,
    pub payload: Option<Seq<char>>,
}

pub open spec fn opt_str_view(o: Option<String>) -> Option<Seq<char>> {
    match o {
        Some(p) => Some(p@),
        None => None,
    }
}

impl View for Token {
    type V = TokenV;

    open spec fn view(&self) -> TokenV {
        TokenV {
            user_id: self.user_id,
            subject: self.subject@,
            token: self.token@,
            created_at: self.created_at,
            expires_at: self.expires_at,
            payload: opt_str_view(self.payload),
        }
    }
}

/// The token service: every mutation of the refresh-token store goes
/// through it, and the rotating replacement is one atomic operation.
pub struct T {
    pub repo: user_token_repository::T,
}

impl View for T {
    type V = Seq<UserTokenV>;

    open spec fn view(&self) -> Seq<UserTokenV> {
        self.repo@
    }
}

impl T {
    pub fn make(repo: user_token_repository::T) -> (t: T)
        ensures
            t@ == repo@,
    {
        T { repo }
    }

    /// Persist a token for (user, subject) valid from `now` for
    /// `validity_seconds`. The row is appended; rotation goes through
    /// `rotate`.
    pub fn create(
        &mut self,
        user_id: u128,
        token: String,
        subject: String,
        validity_seconds: u64,
        payload: Option<String>,
        now: u64,
    ) -> (r: errors::Result<Token>)
        requires
            now + validity_seconds <= u64::MAX,
        ensures
            match r {
                Ok(t) => {
                    &&& t@ == (TokenV {
                        user_id,
                        subject: subject@,
                        token: token@,
                        created_at: now,
                        expires_at: (now + validity_seconds) as u64,
                        payload: opt_str_view(payload),
                    })
                    &&& final(self)@.len() == old(self)@.len() + 1
                    &&& final(self)@ == old(self)@ + seq![
                        UserTokenV { id: final(self)@.last().id, tok: t@ },
                    ]
                },
                Err(_) => false,
            },
    {
        let t = Token {
            user_id,
            subject,
            token,
            created_at: now,
            expires_at: now + validity_seconds,
            payload,
        };
        let copy = Token {
            user_id: t.user_id,
            subject: t.subject.clone(),
            token: t.token.clone(),
            created_at: t.created_at,
            expires_at: t.expires_at,
            payload: clone_opt_string(&t.payload),
        };
        let _ = self.repo.insert(t);
        Ok(copy)
    }

    /// Look a token up by (purpose, value) alone; expiry is the caller's
    /// check.
    pub fn get(&self, subject: &String, token: &String) -> (r: errors::Result<Option<Token>>)
        ensures
            match r {
                Ok(Some(t)) => exists|id: u128|
                    user_token_repository::spec_lookup(self@, subject@, token@) == Some(
                        UserTokenV { id, tok: t@ },
                    ),
                Ok(None) => user_token_repository::spec_lookup(self@, subject@, token@) is None,
                Err(_) => false,
            },
    {
        match self.repo.get_by_subject_and_token(subject, token) {
            None => Ok(None),
            Some((found_id, found_tok)) => {
                proof {
                    assert(user_token_repository::spec_lookup(self@, subject@, token@) == Some(
                        UserTokenV { id: found_id, tok: found_tok@ },
                    ));
                }
                Ok(Some(found_tok))
            },
        }
    }

    /// Revoke every token of (user, subject). Revoking where none exists is
    /// not an error.
    pub fn revoke(&mut self, user_id: u128, subject: &String) -> (r: errors::Result<()>)
        ensures
            r matches Ok(u) && u == (),
            final(self)@ == user_token_repository::spec_revoke(old(self)@, user_id, subject@),
    {
        self.repo.revoke_by_user_and_subject(user_id, subject)
    }

    /// The rotating replacement, as one atomic operation on the store:
    /// revoke everything under (user, subject), then persist the new value.
    /// Afterwards the new row is the only one under that key.
    pub fn rotate(
        &mut self,
        user_id: u128,
        token: String,
        subject: String,
        validity_seconds: u64,
        payload: Option<String>,
        now: u64,
    ) -> (r: errors::Result<Token>)
        requires
            now + validity_seconds <= u64::MAX,
        ensures
            match r {
                Ok(t) => {
                    &&& t@ == (TokenV {
                        user_id,
                        subject: subject@,
                        token: token@,
                        created_at: now,
                        expires_at: (now + validity_seconds) as u64,
                        payload: opt_str_view(payload),
                    })
                    &&& final(self)@ == user_token_repository::spec_revoke(
                        old(self)@,
                        user_id,
                        subject@,
                    ) + seq![UserTokenV { id: final(self)@.last().id, tok: t@ }]
                },
                Err(_) => false,
            },
    {
        let subject_key = subject.clone();
        let _ = self.revoke(user_id, &subject_key);
        self.create(user_id, token, subject, validity_seconds, payload, now)
    }
}

/// Copy an optional string value.
pub fn clone_opt_string(o: &Option<String>) -> (r: Option<String>)
    ensures
        opt_str_view(r) == opt_str_view(*o),
{
    match o {
        Some(p) => Some(p.clone()),
        None => None,
    }
}

} // verus!

verus! {

impl T {
    /// How many live rows the store holds under (user, purpose).
    pub fn count(&self, user_id: u128, subject: &String) -> (r: usize)
        ensures
            r == user_token_repository::count_key(self@, user_id, subject@),
    {
        self.repo.count_by_user_and_subject(user_id, subject)
    }
}

} // verus!
