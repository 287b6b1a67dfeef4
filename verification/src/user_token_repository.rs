use vstd::prelude::*;
use crate::errors::{self};
use crate::user_token_service::{Token, TokenV, opt_str_view, clone_opt_string};
use crate::trusted::random_u128;

verus! {

/// The persisted token table, modeled as the sequence of its rows. Every
/// statement the flows make about rotation and revocation is a statement
/// about this sequence.
pub struct T {
    tokens: Vec<UserToken>,
}

/// One row of the token table.
#[derive(Debug)]
pub struct UserToken {
    pub id: u128,
    pub user_id: u128,
    pub subject: String,
    pub token: String,
    pub created_at: u64,
    pub expires_at: u64,
    pub payload: Option<String>,
}

/// The mathematical value of a row: its identifier and its token value.
pub struct UserTokenV {
    pub id: u128,
    pub tok: TokenV,
}

impl View for UserToken {
    type V = UserTokenV;

    open spec fn view(&self) -> UserTokenV {
        UserTokenV {
            id: self.id,
            tok: TokenV {
                user_id: self.user_id,
                subject: self.subject@,
                token: self.token@,
                created_at: self.created_at,
                expires_at: self.expires_at,
                payload: opt_str_view(self.payload),
            },
        }
    }
}

impl View for T {
    type V = Seq<UserTokenV>;

    closed spec fn view(&self) -> Seq<UserTokenV> {
        self.tokens@.map_values(|t: UserToken| t@)
    }
}

/// Both rows live under the same (user, purpose) key.
pub open spec fn same_key(a: UserTokenV, b: UserTokenV) -> bool {
    a.tok.user_id == b.tok.user_id && a.tok.subject == b.tok.subject
}

/// At most one live row per (user, purpose): the store invariant that
/// rotation is obliged to restore.
pub open spec fn store_wf(s: Seq<UserTokenV>) -> bool {
    forall|i: int, j: int| 0 <= i < j < s.len() ==> !same_key(#[trigger] s[i], #[trigger] s[j])
}

/// The rows that revoking (user, subject) leaves behind, in order.
pub open spec fn spec_revoke(s: Seq<UserTokenV>, user_id: u128, subject: Seq<char>) -> Seq<
    UserTokenV,
>
    decreases s.len(),
{
    if s.len() == 0 {
        Seq::empty()
    } else {
        let rest = spec_revoke(s.skip(1), user_id, subject);
        if s[0].tok.user_id == user_id && s[0].tok.subject == subject {
            rest
        } else {
            seq![s[0]] + rest
        }
    }
}

/// The first row whose (purpose, value) pair matches, if any.
pub open spec fn spec_lookup(s: Seq<UserTokenV>, subject: Seq<char>, token: Seq<char>) -> Option<
    UserTokenV,
>
    decreases s.len(),
{
    if s.len() == 0 {
        None
    } else if s[0].tok.subject == subject && s[0].tok.token == token {
        Some(s[0])
    } else {
        spec_lookup(s.skip(1), subject, token)
    }
}

/// What revocation leaves: no row under the key, every other row kept, and
/// nothing invented.
pub proof fn lemma_revoke_props(s: Seq<UserTokenV>, user_id: u128, subject: Seq<char>)
    ensures
        forall|j: int|
            0 <= j < spec_revoke(s, user_id, subject).len() ==> !(
            (#[trigger] spec_revoke(s, user_id, subject)[j]).tok.user_id == user_id && spec_revoke(
                s,
                user_id,
                subject,
            )[j].tok.subject == subject),
        forall|j: int|
            0 <= j < spec_revoke(s, user_id, subject).len() ==> s.contains(
                #[trigger] spec_revoke(s, user_id, subject)[j],
            ),
        forall|i: int|
            0 <= i < s.len() && !((#[trigger] s[i]).tok.user_id == user_id && s[i].tok.subject
                == subject) ==> spec_revoke(s, user_id, subject).contains(s[i]),
    decreases s.len(),
{
    if s.len() > 0 {
        lemma_revoke_props(s.skip(1), user_id, subject);
        let r = spec_revoke(s, user_id, subject);
        let rest = spec_revoke(s.skip(1), user_id, subject);
        assert forall|j: int| 0 <= j < r.len() implies s.contains(#[trigger] r[j]) by {
            if s[0].tok.user_id == user_id && s[0].tok.subject == subject {
                assert(rest[j] == r[j]);
                assert(s.skip(1).contains(r[j]));
                let w = choose|w: int| 0 <= w < s.skip(1).len() && s.skip(1)[w] == r[j];
                assert(s[w + 1] == r[j]);
            } else {
                if j > 0 {
                    assert(r[j] == rest[j - 1]);
                    assert(s.skip(1).contains(r[j]));
                    let w = choose|w: int| 0 <= w < s.skip(1).len() && s.skip(1)[w] == r[j];
                    assert(s[w + 1] == r[j]);
                }
            }
        }
        assert forall|i: int|
            0 <= i < s.len() && !((#[trigger] s[i]).tok.user_id == user_id && s[i].tok.subject
                == subject) implies r.contains(s[i]) by {
            if i == 0 {
                assert(r[0] == s[0]);
            } else {
                assert(s.skip(1)[i - 1] == s[i]);
                assert(rest.contains(s[i]));
                let w = choose|w: int| 0 <= w < rest.len() && rest[w] == s[i];
                if s[0].tok.user_id == user_id && s[0].tok.subject == subject {
                    assert(r[w] == s[i]);
                } else {
                    assert(r[w + 1] == s[i]);
                }
            }
        }
    }
}

/// A lookup fails exactly when no row matches.
pub proof fn lemma_lookup_none(s: Seq<UserTokenV>, subject: Seq<char>, token: Seq<char>)
    ensures
        (spec_lookup(s, subject, token) is None) <==> (forall|i: int|
            0 <= i < s.len() ==> !((#[trigger] s[i]).tok.subject == subject && s[i].tok.token
                == token)),
        spec_lookup(s, subject, token) matches Some(rv) ==> s.contains(rv) && rv.tok.subject
            == subject && rv.tok.token == token,
    decreases s.len(),
{
    if s.len() > 0 {
        lemma_lookup_none(s.skip(1), subject, token);
        if s[0].tok.subject == subject && s[0].tok.token == token {
        } else {
            match spec_lookup(s.skip(1), subject, token) {
                Some(rv) => {
                    let w = choose|w: int| 0 <= w < s.skip(1).len() && s.skip(1)[w] == rv;
                    assert(s[w + 1] == rv);
                },
                None => {
                    assert forall|i: int|
                        0 <= i < s.len() implies !((#[trigger] s[i]).tok.subject == subject
                        && s[i].tok.token == token) by {
                        if i > 0 {
                            assert(s.skip(1)[i - 1] == s[i]);
                        }
                    }
                },
            }
        }
    }
}

/// A scan that matched nothing before `i` and stops at `i` agrees with the
/// specified lookup.
proof fn lemma_lookup_scan(s: Seq<UserTokenV>, subject: Seq<char>, token: Seq<char>, i: int)
    requires
        0 <= i <= s.len(),
        forall|k: int|
            0 <= k < i ==> !((#[trigger] s[k]).tok.subject == subject && s[k].tok.token == token),
        i == s.len() || (s[i].tok.subject == subject && s[i].tok.token == token),
    ensures
        spec_lookup(s, subject, token) == (if i == s.len() {
            None
        } else {
            Some(s[i])
        }),
    decreases i,
{
    if i == 0 {
    } else {
        assert forall|k: int|
            0 <= k < i - 1 implies !((#[trigger] s.skip(1)[k]).tok.subject == subject && s.skip(
            1,
        )[k].tok.token == token) by {
            assert(s.skip(1)[k] == s[k + 1]);
        }
        if i < s.len() {
            assert(s.skip(1)[i - 1] == s[i]);
        }
        lemma_lookup_scan(s.skip(1), subject, token, i - 1);
    }
}

impl T {
    /// An empty table.
    pub fn create() -> (t: T)
        ensures
            t@ =~= Seq::<UserTokenV>::empty(),
    {
        T { tokens: Vec::new() }
    }

    /// Append a row for the given token under a fresh random identifier and
    /// return that identifier.
    pub fn insert(&mut self, entity: Token) -> (r: errors::Result<u128>)
        ensures
            match r {
                Ok(id) => final(self)@ =~= old(self)@ + seq![UserTokenV { id, tok: entity@ }],
                Err(_) => false,
            },
    {
        let row = UserToken::of_new_token(entity);
        let id = row.id;
        self.tokens.push(row);
        proof {
            assert(final(self)@ =~= old(self)@ + seq![final(self).tokens@.last()@]);
        }
        Ok(id)
    }

    /// The first row keyed by (purpose, value), as a fresh pair; `None`
    /// when no row matches.
    pub fn get_by_subject_and_token(&self, p_subject: &String, p_token: &String) -> (r: Option<
        (u128, Token),
    >)
        ensures
            match r {
                Some((id, tok)) => spec_lookup(self@, p_subject@, p_token@) == Some(
                    UserTokenV { id, tok: tok@ },
                ),
                None => spec_lookup(self@, p_subject@, p_token@) is None,
            },
    {
        let n = self.tokens.len();
        let mut i: usize = 0;
        while i < n
            invariant
                0 <= i <= n,
                n == self.tokens@.len(),
                forall|k: int|
                    0 <= k < i ==> !((#[trigger] self@[k]).tok.subject == p_subject@
                        && self@[k].tok.token == p_token@),
            decreases n - i,
        {
            let row = &self.tokens[i];
            if row.subject == *p_subject && row.token == *p_token {
                proof {
                    assert(self@[i as int] == row@);
                    lemma_lookup_scan(self@, p_subject@, p_token@, i as int);
                }
                let tok = Token {
                    user_id: row.user_id,
                    subject: row.subject.clone(),
                    token: row.token.clone(),
                    created_at: row.created_at,
                    expires_at: row.expires_at,
                    payload: clone_opt_string(&row.payload),
                };
                return Some((row.id, tok));
            }
            proof {
                assert(self@[i as int] == row@);
            }
            i = i + 1;
        }
        proof {
            lemma_lookup_scan(self@, p_subject@, p_token@, n as int);
        }
        None
    }

    /// Delete every row of (user, purpose). Deleting where nothing matches
    /// is not an error.
    pub fn revoke_by_user_and_subject(&mut self, p_user_id: u128, p_subject: &String) -> (r:
        errors::Result<()>)
        ensures
            r is Ok,
            final(self)@ == spec_revoke(old(self)@, p_user_id, p_subject@),
    {
        let mut taken: Vec<UserToken> = Vec::new();
        core::mem::swap(&mut self.tokens, &mut taken);
        let ghost before = taken@.map_values(|t: UserToken| t@);
        let mut kept: Vec<UserToken> = Vec::new();
        proof {
            assert(before.skip(0) =~= before);
        }
        let mut i: usize = 0;
        let n = taken.len();
        while i < n
            invariant
                0 <= i <= n,
                n == taken@.len(),
                before == taken@.map_values(|t: UserToken| t@),
                spec_revoke(before, p_user_id, p_subject@) =~= kept@.map_values(
                    |t: UserToken| t@,
                ) + spec_revoke(before.skip(i as int), p_user_id, p_subject@),
            decreases n - i,
        {
            let row = &taken[i];
            proof {
                assert(before.skip(i as int)[0] == taken@[i as int]@);
                assert(before.skip(i as int).skip(1) =~= before.skip(i + 1));
            }
            if row.user_id == p_user_id && row.subject == *p_subject {
            } else {
                let copy = UserToken {
                    id: row.id,
                    user_id: row.user_id,
                    subject: row.subject.clone(),
                    token: row.token.clone(),
                    created_at: row.created_at,
                    expires_at: row.expires_at,
                    payload: clone_opt_string(&row.payload),
                };
                proof {
                    assert(copy@ == taken@[i as int]@);
                }
                let ghost kept0 = kept@.map_values(|t: UserToken| t@);
                kept.push(copy);
                proof {
                    assert(kept@.map_values(|t: UserToken| t@) =~= kept0 + seq![
                        taken@[i as int]@,
                    ]);
                    assert(kept0 + (seq![taken@[i as int]@] + spec_revoke(
                        before.skip(i + 1),
                        p_user_id,
                        p_subject@,
                    )) =~= (kept0 + seq![taken@[i as int]@]) + spec_revoke(
                        before.skip(i + 1),
                        p_user_id,
                        p_subject@,
                    ));
                }
            }
            i = i + 1;
        }
        proof {
            assert(before.skip(n as int) =~= Seq::<UserTokenV>::empty());
            assert(kept@.map_values(|t: UserToken| t@) + Seq::<UserTokenV>::empty() =~= kept@
                .map_values(|t: UserToken| t@));
        }
        self.tokens = kept;
        Ok(())
    }
}

impl UserToken {
    /// The row for an existing identifier.
    pub fn of_token(id: u128, entity: Token) -> (r: UserToken)
        ensures
            r@ == (UserTokenV { id, tok: entity@ }),
    {
        UserToken {
            id,
            user_id: entity.user_id,
            subject: entity.subject,
            token: entity.token,
            created_at: entity.created_at,
            expires_at: entity.expires_at,
            payload: entity.payload,
        }
    }

    /// The row for a new entity, under a fresh random identifier.
    pub fn of_new_token(entity: Token) -> (r: UserToken)
        ensures
            r@.tok == entity@,
    {
        UserToken {
            id: random_u128(),
            user_id: entity.user_id,
            subject: entity.subject,
            token: entity.token,
            created_at: entity.created_at,
            expires_at: entity.expires_at,
            payload: entity.payload,
        }
    }

    /// Split a row back into its identifier and its token.
    pub fn into_token(self) -> (r: (u128, Token))
        ensures
            self@ == (UserTokenV { id: r.0, tok: r.1@ }),
    {
        (
            self.id,
            Token {
                user_id: self.user_id,
                subject: self.subject,
                token: self.token,
                created_at: self.created_at,
                expires_at: self.expires_at,
                payload: self.payload,
            },
        )
    }
}

} // verus!

verus! {

/// Revocation preserves the store invariant.
pub proof fn lemma_revoke_preserves_wf(s: Seq<UserTokenV>, user_id: u128, subject: Seq<char>)
    requires
        store_wf(s),
    ensures
        store_wf(spec_revoke(s, user_id, subject)),
    decreases s.len(),
{
    if s.len() > 0 {
        assert forall|i: int, j: int| 0 <= i < j < s.skip(1).len() implies !same_key(
            #[trigger] s.skip(1)[i],
            #[trigger] s.skip(1)[j],
        ) by {
            assert(s.skip(1)[i] == s[i + 1] && s.skip(1)[j] == s[j + 1]);
        }
        lemma_revoke_preserves_wf(s.skip(1), user_id, subject);
        lemma_revoke_props(s.skip(1), user_id, subject);
        let rest = spec_revoke(s.skip(1), user_id, subject);
        let r = spec_revoke(s, user_id, subject);
        if s[0].tok.user_id == user_id && s[0].tok.subject == subject {
        } else {
            assert forall|i: int, j: int| 0 <= i < j < r.len() implies !same_key(
                #[trigger] r[i],
                #[trigger] r[j],
            ) by {
                if i == 0 {
                    assert(r[j] == rest[j - 1]);
                    assert(s.skip(1).contains(rest[j - 1]));
                    let w = choose|w: int|
                        0 <= w < s.skip(1).len() && s.skip(1)[w] == rest[j - 1];
                    assert(s[w + 1] == rest[j - 1]);
                    assert(!same_key(s[0], s[w + 1]));
                } else {
                    assert(r[i] == rest[i - 1] && r[j] == rest[j - 1]);
                }
            }
        }
    }
}

/// The rotating replacement restores the store invariant: after revoking a
/// key and appending one row under it, the invariant holds again.
pub proof fn lemma_rotate_preserves_wf(
    s: Seq<UserTokenV>,
    user_id: u128,
    subject: Seq<char>,
    row: UserTokenV,
)
    requires
        store_wf(s),
        row.tok.user_id == user_id,
        row.tok.subject == subject,
    ensures
        store_wf(spec_revoke(s, user_id, subject) + seq![row]),
{
    lemma_revoke_preserves_wf(s, user_id, subject);
    lemma_revoke_props(s, user_id, subject);
    let kept = spec_revoke(s, user_id, subject);
    let r = kept + seq![row];
    assert forall|i: int, j: int| 0 <= i < j < r.len() implies !same_key(
        #[trigger] r[i],
        #[trigger] r[j],
    ) by {
        if j < kept.len() {
            assert(r[i] == kept[i] && r[j] == kept[j]);
        } else {
            assert(r[i] == kept[i] && r[j] == row);
        }
    }
}

/// How many rows live under a (user, purpose) key.
pub open spec fn count_key(s: Seq<UserTokenV>, user_id: u128, subject: Seq<char>) -> nat
    decreases s.len(),
{
    if s.len() == 0 {
        0
    } else {
        (if s[0].tok.user_id == user_id && s[0].tok.subject == subject {
            1nat
        } else {
            0nat
        }) + count_key(s.skip(1), user_id, subject)
    }
}

proof fn lemma_count_key_zero(s: Seq<UserTokenV>, user_id: u128, subject: Seq<char>)
    requires
        forall|i: int|
            0 <= i < s.len() ==> !((#[trigger] s[i]).tok.user_id == user_id && s[i].tok.subject
                == subject),
    ensures
        count_key(s, user_id, subject) == 0,
    decreases s.len(),
{
    if s.len() > 0 {
        assert forall|i: int|
            0 <= i < s.skip(1).len() implies !((#[trigger] s.skip(1)[i]).tok.user_id == user_id
            && s.skip(1)[i].tok.subject == subject) by {
            assert(s.skip(1)[i] == s[i + 1]);
        }
        lemma_count_key_zero(s.skip(1), user_id, subject);
    }
}

/// Under the store invariant, no key holds more than one live row. This is
/// the single-active-session guarantee: every flow mutates the store in one
/// atomic call that preserves the invariant, so any interleaving of
/// concurrent logins, refreshes and logouts is a sequence of such calls and
/// leaves at most one live refresh token per (user, purpose).
pub proof fn lemma_wf_single_active(s: Seq<UserTokenV>, user_id: u128, subject: Seq<char>)
    requires
        store_wf(s),
    ensures
        count_key(s, user_id, subject) <= 1,
    decreases s.len(),
{
    if s.len() > 0 {
        assert forall|i: int, j: int| 0 <= i < j < s.skip(1).len() implies !same_key(
            #[trigger] s.skip(1)[i],
            #[trigger] s.skip(1)[j],
        ) by {
            assert(s.skip(1)[i] == s[i + 1] && s.skip(1)[j] == s[j + 1]);
        }
        lemma_wf_single_active(s.skip(1), user_id, subject);
        if s[0].tok.user_id == user_id && s[0].tok.subject == subject {
            assert forall|i: int|
                0 <= i < s.skip(1).len() implies !((#[trigger] s.skip(1)[i]).tok.user_id == user_id
                && s.skip(1)[i].tok.subject == subject) by {
                assert(s.skip(1)[i] == s[i + 1]);
                assert(!same_key(s[0], s[i + 1]));
            }
            lemma_count_key_zero(s.skip(1), user_id, subject);
        }
    }
}

} // verus!

verus! {

impl T {
    /// How many rows this table holds under (user, purpose).
    pub fn count_by_user_and_subject(&self, p_user_id: u128, p_subject: &String) -> (r: usize)
        ensures
            r == count_key(self@, p_user_id, p_subject@),
    {
        let n = self.tokens.len();
        let mut acc: usize = 0;
        let mut i: usize = 0;
        proof {
            assert(self@.skip(0) =~= self@);
            lemma_count_key_bound(self@, p_user_id, p_subject@);
        }
        while i < n
            invariant
                0 <= i <= n,
                n == self.tokens@.len(),
                n == self@.len(),
                acc + count_key(self@.skip(i as int), p_user_id, p_subject@) == count_key(
                    self@,
                    p_user_id,
                    p_subject@,
                ),
                count_key(self@.skip(i as int), p_user_id, p_subject@) <= n - i,
                count_key(self@, p_user_id, p_subject@) <= n,
            decreases n - i,
        {
            proof {
                assert(self@.skip(i as int)[0] == self@[i as int]);
                assert(self@[i as int] == self.tokens@[i as int]@);
                assert(self@.skip(i as int).skip(1) =~= self@.skip(i + 1));
                lemma_count_key_bound(self@.skip(i + 1), p_user_id, p_subject@);
            }
            let row = &self.tokens[i];
            if row.user_id == p_user_id && row.subject == *p_subject {
                acc = acc + 1;
            }
            i = i + 1;
        }
        proof {
            assert(self@.skip(n as int) =~= Seq::<UserTokenV>::empty());
        }
        acc
    }
}

/// A key's row count never exceeds the table's length.
proof fn lemma_count_key_bound(s: Seq<UserTokenV>, user_id: u128, subject: Seq<char>)
    ensures
        count_key(s, user_id, subject) <= s.len(),
    decreases s.len(),
{
    if s.len() > 0 {
        lemma_count_key_bound(s.skip(1), user_id, subject);
    }
}

} // verus!

verus! {

/// The first row with this identifier, if any.
pub open spec fn spec_get_id(s: Seq<UserTokenV>, id: u128) -> Option<UserTokenV>
    decreases s.len(),
{
    if s.len() == 0 {
        None
    } else if s[0].id == id {
        Some(s[0])
    } else {
        spec_get_id(s.skip(1), id)
    }
}

/// How many rows carry this identifier.
pub open spec fn count_id(s: Seq<UserTokenV>, id: u128) -> nat
    decreases s.len(),
{
    if s.len() == 0 {
        0
    } else {
        (if s[0].id == id {
            1nat
        } else {
            0nat
        }) + count_id(s.skip(1), id)
    }
}

/// Every row with this identifier replaced by the given token.
pub open spec fn spec_update_id(s: Seq<UserTokenV>, id: u128, tok: TokenV) -> Seq<UserTokenV> {
    Seq::new(s.len(), |i: int| if s[i].id == id { UserTokenV { id, tok } } else { s[i] })
}

/// The rows left after deleting this identifier, in order.
pub open spec fn spec_delete_id(s: Seq<UserTokenV>, id: u128) -> Seq<UserTokenV>
    decreases s.len(),
{
    if s.len() == 0 {
        Seq::empty()
    } else {
        let rest = spec_delete_id(s.skip(1), id);
        if s[0].id == id {
            rest
        } else {
            seq![s[0]] + rest
        }
    }
}

/// A scan that saw no identifier match before `i` and stopped at `i` agrees
/// with the specified get.
proof fn lemma_get_id_scan(s: Seq<UserTokenV>, id: u128, i: int)
    requires
        0 <= i <= s.len(),
        forall|k: int| 0 <= k < i ==> (#[trigger] s[k]).id != id,
        i == s.len() || s[i].id == id,
    ensures
        spec_get_id(s, id) == (if i == s.len() {
            None
        } else {
            Some(s[i])
        }),
    decreases i,
{
    if i > 0 {
        assert forall|k: int| 0 <= k < i - 1 implies (#[trigger] s.skip(1)[k]).id != id by {
            assert(s.skip(1)[k] == s[k + 1]);
        }
        if i < s.len() {
            assert(s.skip(1)[i - 1] == s[i]);
        }
        lemma_get_id_scan(s.skip(1), id, i - 1);
    }
}

impl T {
    /// The row stored under this identifier, as a fresh pair; `None` when
    /// no row carries it.
    pub fn get(&self, p_id: u128) -> (r: Option<(u128, Token)>)
        ensures
            match r {
                Some((id, tok)) => id == p_id && spec_get_id(self@, p_id) == Some(
                    UserTokenV { id, tok: tok@ },
                ),
                None => spec_get_id(self@, p_id) is None,
            },
    {
        let n = self.tokens.len();
        let mut i: usize = 0;
        while i < n
            invariant
                0 <= i <= n,
                n == self.tokens@.len(),
                forall|k: int| 0 <= k < i ==> (#[trigger] self@[k]).id != p_id,
            decreases n - i,
        {
            let row = &self.tokens[i];
            if row.id == p_id {
                proof {
                    assert(self@[i as int] == row@);
                    lemma_get_id_scan(self@, p_id, i as int);
                }
                let tok = Token {
                    user_id: row.user_id,
                    subject: row.subject.clone(),
                    token: row.token.clone(),
                    created_at: row.created_at,
                    expires_at: row.expires_at,
                    payload: clone_opt_string(&row.payload),
                };
                return Some((row.id, tok));
            }
            proof {
                assert(self@[i as int] == row@);
            }
            i = i + 1;
        }
        proof {
            lemma_get_id_scan(self@, p_id, n as int);
        }
        None
    }

    /// Overwrite the row stored under this identifier. Exactly one row must
    /// match for the update to be reported as done; an unknown identifier
    /// is a caller error.
    pub fn update(&mut self, p_id: u128, entity: Token) -> (r: errors::Result<()>)
        ensures
            final(self)@ == spec_update_id(old(self)@, p_id, entity@),
            r is Ok <==> count_id(old(self)@, p_id) == 1,
            r matches Err(e) ==> e matches crate::errors::Errors::BadRequest(_),
    {
        let n = self.tokens.len();
        let mut matched: usize = 0;
        let mut i: usize = 0;
        proof {
            assert(self@.skip(0) =~= self@);
            lemma_count_id_bound(self@, p_id);
        }
        while i < n
            invariant
                0 <= i <= n,
                n == self.tokens@.len(),
                n == self@.len(),
                self@ == old(self)@,
                matched + count_id(self@.skip(i as int), p_id) == count_id(self@, p_id),
                count_id(self@, p_id) <= n,
                count_id(self@.skip(i as int), p_id) <= n - i,
            decreases n - i,
        {
            proof {
                assert(self@.skip(i as int)[0] == self@[i as int]);
                assert(self@[i as int] == self.tokens@[i as int]@);
                assert(self@.skip(i as int).skip(1) =~= self@.skip(i + 1));
                lemma_count_id_bound(self@.skip(i + 1), p_id);
            }
            if self.tokens[i].id == p_id {
                matched = matched + 1;
            }
            i = i + 1;
        }
        proof {
            assert(self@.skip(n as int) =~= Seq::<UserTokenV>::empty());
        }
        let mut taken: Vec<UserToken> = Vec::new();
        core::mem::swap(&mut self.tokens, &mut taken);
        let ghost before = taken@.map_values(|t: UserToken| t@);
        let mut updated: Vec<UserToken> = Vec::new();
        let mut j: usize = 0;
        let m = taken.len();
        while j < m
            invariant
                0 <= j <= m,
                m == taken@.len(),
                before == taken@.map_values(|t: UserToken| t@),
                updated@.map_values(|t: UserToken| t@) =~= spec_update_id(
                    before,
                    p_id,
                    entity@,
                ).take(j as int),
            decreases m - j,
        {
            let row = &taken[j];
            proof {
                assert(before[j as int] == taken@[j as int]@);
            }
            let ghost updated0 = updated@.map_values(|t: UserToken| t@);
            if row.id == p_id {
                let copy = UserToken {
                    id: p_id,
                    user_id: entity.user_id,
                    subject: entity.subject.clone(),
                    token: entity.token.clone(),
                    created_at: entity.created_at,
                    expires_at: entity.expires_at,
                    payload: clone_opt_string(&entity.payload),
                };
                updated.push(copy);
            } else {
                let copy = UserToken {
                    id: row.id,
                    user_id: row.user_id,
                    subject: row.subject.clone(),
                    token: row.token.clone(),
                    created_at: row.created_at,
                    expires_at: row.expires_at,
                    payload: clone_opt_string(&row.payload),
                };
                updated.push(copy);
            }
            j = j + 1;
            proof {
                assert(updated@.map_values(|t: UserToken| t@) =~= updated0 + seq![
                    spec_update_id(before, p_id, entity@)[j - 1],
                ]);
                assert(spec_update_id(before, p_id, entity@).take(j as int) =~= spec_update_id(
                    before,
                    p_id,
                    entity@,
                ).take(j - 1) + seq![spec_update_id(before, p_id, entity@)[j - 1]]);
            }
        }
        self.tokens = updated;
        proof {
            assert(spec_update_id(before, p_id, entity@).take(m as int) =~= spec_update_id(
                before,
                p_id,
                entity@,
            ));
        }
        if matched == 1 {
            Ok(())
        } else {
            Err(crate::errors::Errors::BadRequest(String::from_str("id not found")))
        }
    }

    /// Delete the row stored under this identifier. Deleting an unknown
    /// identifier is reported as a store error.
    pub fn delete(&mut self, p_id: u128) -> (r: errors::Result<()>)
        ensures
            final(self)@ == spec_delete_id(old(self)@, p_id),
            r is Ok <==> count_id(old(self)@, p_id) > 0,
            r matches Err(e) ==> e matches crate::errors::Errors::DatabaseError(_),
    {
        let mut taken: Vec<UserToken> = Vec::new();
        core::mem::swap(&mut self.tokens, &mut taken);
        let ghost before = taken@.map_values(|t: UserToken| t@);
        let mut kept: Vec<UserToken> = Vec::new();
        let mut matched: usize = 0;
        proof {
            assert(before.skip(0) =~= before);
            lemma_count_id_bound(before, p_id);
        }
        let n = taken.len();
        let mut i: usize = 0;
        while i < n
            invariant
                0 <= i <= n,
                n == taken@.len(),
                before == taken@.map_values(|t: UserToken| t@),
                spec_delete_id(before, p_id) =~= kept@.map_values(|t: UserToken| t@)
                    + spec_delete_id(before.skip(i as int), p_id),
                matched + count_id(before.skip(i as int), p_id) == count_id(before, p_id),
                count_id(before, p_id) <= n,
                count_id(before.skip(i as int), p_id) <= n - i,
            decreases n - i,
        {
            let row = &taken[i];
            proof {
                assert(before.skip(i as int)[0] == taken@[i as int]@);
                assert(before.skip(i as int).skip(1) =~= before.skip(i + 1));
                lemma_count_id_bound(before.skip(i + 1), p_id);
            }
            if row.id == p_id {
                matched = matched + 1;
            } else {
                let copy = UserToken {
                    id: row.id,
                    user_id: row.user_id,
                    subject: row.subject.clone(),
                    token: row.token.clone(),
                    created_at: row.created_at,
                    expires_at: row.expires_at,
                    payload: clone_opt_string(&row.payload),
                };
                proof {
                    assert(copy@ == taken@[i as int]@);
                }
                let ghost kept0 = kept@.map_values(|t: UserToken| t@);
                kept.push(copy);
                proof {
                    assert(kept@.map_values(|t: UserToken| t@) =~= kept0 + seq![
                        taken@[i as int]@,
                    ]);
                    assert(kept0 + (seq![taken@[i as int]@] + spec_delete_id(
                        before.skip(i + 1),
                        p_id,
                    )) =~= (kept0 + seq![taken@[i as int]@]) + spec_delete_id(
                        before.skip(i + 1),
                        p_id,
                    ));
                }
            }
            i = i + 1;
        }
        proof {
            assert(before.skip(n as int) =~= Seq::<UserTokenV>::empty());
            assert(kept@.map_values(|t: UserToken| t@) + Seq::<UserTokenV>::empty() =~= kept@
                .map_values(|t: UserToken| t@));
        }
        self.tokens = kept;
        if matched > 0 {
            Ok(())
        } else {
            Err(crate::errors::Errors::DatabaseError(String::from_str("id not found")))
        }
    }
}

/// An identifier's row count never exceeds the table's length.
proof fn lemma_count_id_bound(s: Seq<UserTokenV>, id: u128)
    ensures
        count_id(s, id) <= s.len(),
    decreases s.len(),
{
    if s.len() > 0 {
        lemma_count_id_bound(s.skip(1), id);
    }
}

} // verus!
