use vstd::prelude::*;
use crate::role::Role;
use crate::dec::{
    spec_dec_digits, dec_value, is_canonical_dec, all_dec_digits, is_dec_digit,
    lemma_dec_digits_value, push_dec_u128, parse_dec_u128,
};

verus! {

/// The claims embedded in a signed access token: purpose discriminator,
/// issued-at and expires-at (seconds since the epoch), the user, and the
/// user's role. They exist only for the lifetime of one request's
/// validation and are recoverable only from the token string.
#[derive(Debug)]
pub struct Claims {
    /// Purpose discriminator, e.g. the bytes of "ACCESS_TOKEN".
    pub sub: Vec<u8>,
    /// Issued-at, seconds since the epoch.
    pub iat: u64,
    /// Expires-at, seconds since the epoch.
    pub exp: u64,
    /// The authenticated user.
    pub user_id: u128,
    /// The user's role, read from the credential row.
    pub role: Role,
}

/// The mathematical value of a `Claims`.
pub struct ClaimsV {
    pub sub: Seq<u8>,
    pub iat: u64,
    pub exp: u64,
    pub user_id: u128,
    pub role: Role,
}

impl View for Claims {
    type V = ClaimsV;

    open spec fn view(&self) -> ClaimsV {
        ClaimsV { sub: self.sub@, iat: self.iat, exp: self.exp, user_id: self.user_id, role: self.role }
    }
}

/// A purpose discriminator must be printable ASCII free of quote and
/// backslash, so that it embeds in the payload text verbatim.
pub open spec fn sub_wf(s: Seq<u8>) -> bool {
    forall|i: int|
        0 <= i < s.len() ==> 32 <= #[trigger] s[i] < 127 && s[i] != 34 && s[i] != 92
}

pub open spec fn claims_wf(c: ClaimsV) -> bool {
    sub_wf(c.sub)
}

/// `{"sub":"`
pub open spec fn lit_sub() -> Seq<u8> {
    seq![123u8, 34u8, 115u8, 117u8, 98u8, 34u8, 58u8, 34u8]
}

/// `","iat":`
pub open spec fn lit_iat() -> Seq<u8> {
    seq![34u8, 44u8, 34u8, 105u8, 97u8, 116u8, 34u8, 58u8]
}

/// `,"exp":`
pub open spec fn lit_exp() -> Seq<u8> {
    seq![44u8, 34u8, 101u8, 120u8, 112u8, 34u8, 58u8]
}

/// `,"user_id":`
pub open spec fn lit_user() -> Seq<u8> {
    seq![44u8, 34u8, 117u8, 115u8, 101u8, 114u8, 95u8, 105u8, 100u8, 34u8, 58u8]
}

/// `,"role":"`
pub open spec fn lit_role() -> Seq<u8> {
    seq![44u8, 34u8, 114u8, 111u8, 108u8, 101u8, 34u8, 58u8, 34u8]
}

/// `"}`
pub open spec fn lit_end() -> Seq<u8> {
    seq![34u8, 125u8]
}

/// The canonical payload text of a claims value: one JSON object with the
/// fields in a fixed order, numbers in canonical decimal, no spaces.
pub open spec fn spec_claims_json(c: ClaimsV) -> Seq<u8> {
    lit_sub() + c.sub + lit_iat() + spec_dec_digits(c.iat as nat) + lit_exp() + spec_dec_digits(
        c.exp as nat,
    ) + lit_user() + spec_dec_digits(c.user_id as nat) + lit_role() + c.role.spec_name_bytes()
        + lit_end()
}

/// Append `s` to `out`.
pub fn push_bytes(out: &mut Vec<u8>, s: &[u8])
    ensures
        final(out)@ == old(out)@ + s@,
{
    let mut i: usize = 0;
    while i < s.len()
        invariant
            0 <= i <= s@.len(),
            out@ == old(out)@ + s@.take(i as int),
        decreases s@.len() - i,
    {
        out.push(s[i]);
        i = i + 1;
        proof {
            assert(out@ =~= old(out)@ + s@.take(i as int));
        }
    }
    proof {
        assert(old(out)@ + s@.take(i as int) =~= old(out)@ + s@);
    }
}

/// Render the canonical payload text of `c`.
#[verifier::rlimit(50)]
pub fn render_claims_json(c: &Claims) -> (out: Vec<u8>)
    ensures
        out@ == spec_claims_json(c@),
{
    let mut out: Vec<u8> = Vec::new();
    out.push(123);
    out.push(34);
    out.push(115);
    out.push(117);
    out.push(98);
    out.push(34);
    out.push(58);
    out.push(34);
    proof {
        assert(out@ =~= lit_sub());
    }
    push_bytes(&mut out, c.sub.as_slice());
    out.push(34);
    out.push(44);
    out.push(34);
    out.push(105);
    out.push(97);
    out.push(116);
    out.push(34);
    out.push(58);
    proof {
        assert(out@ =~= lit_sub() + c.sub@ + lit_iat());
    }
    push_dec_u128(c.iat as u128, &mut out);
    out.push(44);
    out.push(34);
    out.push(101);
    out.push(120);
    out.push(112);
    out.push(34);
    out.push(58);
    proof {
        assert(out@ =~= lit_sub() + c.sub@ + lit_iat() + spec_dec_digits(c.iat as nat)
            + lit_exp());
    }
    push_dec_u128(c.exp as u128, &mut out);
    out.push(44);
    out.push(34);
    out.push(117);
    out.push(115);
    out.push(101);
    out.push(114);
    out.push(95);
    out.push(105);
    out.push(100);
    out.push(34);
    out.push(58);
    proof {
        assert(out@ =~= lit_sub() + c.sub@ + lit_iat() + spec_dec_digits(c.iat as nat) + lit_exp()
            + spec_dec_digits(c.exp as nat) + lit_user());
    }
    push_dec_u128(c.user_id, &mut out);
    out.push(44);
    out.push(34);
    out.push(114);
    out.push(111);
    out.push(108);
    out.push(101);
    out.push(34);
    out.push(58);
    out.push(34);
    proof {
        assert(out@ =~= lit_sub() + c.sub@ + lit_iat() + spec_dec_digits(c.iat as nat) + lit_exp()
            + spec_dec_digits(c.exp as nat) + lit_user() + spec_dec_digits(c.user_id as nat)
            + lit_role());
    }
    c.role.push_name_bytes(&mut out);
    out.push(34);
    out.push(125);
    proof {
        assert(out@ =~= spec_claims_json(c@));
    }
    out
}

/// The role name at the very end of a payload: the whole remainder must be
/// the name followed by `"}`.
pub open spec fn spec_parse_role_end(s: Seq<u8>) -> Option<Role> {
    if s == Role::Admin.spec_name_bytes() + lit_end() {
        Some(Role::Admin)
    } else if s == Role::Editor.spec_name_bytes() + lit_end() {
        Some(Role::Editor)
    } else if s == Role::User.spec_name_bytes() + lit_end() {
        Some(Role::User)
    } else {
        None
    }
}

/// The numeric and role fields after the discriminator: `","iat":` onward.
pub open spec fn spec_parse_fields(t: Seq<u8>) -> Option<(u64, u64, u128, Role)> {
    if t.len() < 8 || t.take(8) != lit_iat() {
        None
    } else {
        let r3 = t.skip(8);
        let c1 = crate::scan::find_byte(r3, 44);
        let iat_d = r3.take(c1);
        if c1 >= r3.len() || !is_canonical_dec(iat_d) || dec_value(iat_d) > u64::MAX {
            None
        } else {
            let r4 = r3.skip(c1);
            if r4.len() < 7 || r4.take(7) != lit_exp() {
                None
            } else {
                let r5 = r4.skip(7);
                let c2 = crate::scan::find_byte(r5, 44);
                let exp_d = r5.take(c2);
                if c2 >= r5.len() || !is_canonical_dec(exp_d) || dec_value(exp_d) > u64::MAX {
                    None
                } else {
                    let r6 = r5.skip(c2);
                    match spec_parse_tail(r6) {
                        Some((uid, role)) => Some(
                            (dec_value(iat_d) as u64, dec_value(exp_d) as u64, uid, role),
                        ),
                        None => None,
                    }
                }
            }
        }
    }
}

/// The user identifier and role fields: `,"user_id":` onward.
pub open spec fn spec_parse_tail(t: Seq<u8>) -> Option<(u128, Role)> {
    if t.len() < 11 || t.take(11) != lit_user() {
        None
    } else {
        let r7 = t.skip(11);
        let c3 = crate::scan::find_byte(r7, 44);
        let uid_d = r7.take(c3);
        if c3 >= r7.len() || !is_canonical_dec(uid_d) || dec_value(uid_d) > u128::MAX {
            None
        } else {
            let r8 = r7.skip(c3);
            if r8.len() < 9 || r8.take(9) != lit_role() {
                None
            } else {
                match spec_parse_role_end(r8.skip(9)) {
                    Some(role) => Some((dec_value(uid_d) as u128, role)),
                    None => None,
                }
            }
        }
    }
}

/// The strict reading of a payload: accepts exactly the canonical renderings
/// of well-formed claims whose numbers fit their fields, and recovers the
/// claims value.
pub open spec fn spec_parse_claims(s: Seq<u8>) -> Option<ClaimsV> {
    if s.len() < 8 || s.take(8) != lit_sub() {
        None
    } else {
        let r1 = s.skip(8);
        let q = crate::scan::find_byte(r1, 34);
        let sub = r1.take(q);
        if q >= r1.len() || !sub_wf(sub) {
            None
        } else {
            match spec_parse_fields(r1.skip(q)) {
                Some((iat, exp, user_id, role)) => Some(
                    ClaimsV { sub, iat, exp, user_id, role },
                ),
                None => None,
            }
        }
    }
}


} // verus!

verus! {

fn lit_sub_vec() -> (v: Vec<u8>)
    ensures
        v@ == lit_sub(),
{
    let mut v: Vec<u8> = Vec::new();
    v.push(123);
    v.push(34);
    v.push(115);
    v.push(117);
    v.push(98);
    v.push(34);
    v.push(58);
    v.push(34);
    proof {
        assert(v@ =~= lit_sub());
    }
    v
}

fn lit_iat_vec() -> (v: Vec<u8>)
    ensures
        v@ == lit_iat(),
{
    let mut v: Vec<u8> = Vec::new();
    v.push(34);
    v.push(44);
    v.push(34);
    v.push(105);
    v.push(97);
    v.push(116);
    v.push(34);
    v.push(58);
    proof {
        assert(v@ =~= lit_iat());
    }
    v
}

fn lit_exp_vec() -> (v: Vec<u8>)
    ensures
        v@ == lit_exp(),
{
    let mut v: Vec<u8> = Vec::new();
    v.push(44);
    v.push(34);
    v.push(101);
    v.push(120);
    v.push(112);
    v.push(34);
    v.push(58);
    proof {
        assert(v@ =~= lit_exp());
    }
    v
}

fn lit_user_vec() -> (v: Vec<u8>)
    ensures
        v@ == lit_user(),
{
    let mut v: Vec<u8> = Vec::new();
    v.push(44);
    v.push(34);
    v.push(117);
    v.push(115);
    v.push(101);
    v.push(114);
    v.push(95);
    v.push(105);
    v.push(100);
    v.push(34);
    v.push(58);
    proof {
        assert(v@ =~= lit_user());
    }
    v
}

fn lit_role_vec() -> (v: Vec<u8>)
    ensures
        v@ == lit_role(),
{
    let mut v: Vec<u8> = Vec::new();
    v.push(44);
    v.push(34);
    v.push(114);
    v.push(111);
    v.push(108);
    v.push(101);
    v.push(34);
    v.push(58);
    v.push(34);
    proof {
        assert(v@ =~= lit_role());
    }
    v
}

fn lit_end_vec() -> (v: Vec<u8>)
    ensures
        v@ == lit_end(),
{
    let mut v: Vec<u8> = Vec::new();
    v.push(34);
    v.push(125);
    proof {
        assert(v@ =~= lit_end());
    }
    v
}

fn role_name_vec(role: Role) -> (v: Vec<u8>)
    ensures
        v@ == role.spec_name_bytes(),
{
    let mut v: Vec<u8> = Vec::new();
    role.push_name_bytes(&mut v);
    proof {
        assert(v@ =~= role.spec_name_bytes());
    }
    v
}

/// Read the claims out of a payload text; `None` for anything that is not
/// the canonical rendering of well-formed claims.
#[verifier::loop_isolation(false)]
#[verifier::rlimit(50)]
pub fn parse_claims_json(s: &[u8]) -> (r: Option<Claims>)
    ensures
        match r {
            Some(c) => spec_parse_claims(s@) == Some(c@) && claims_wf(c@),
            None => spec_parse_claims(s@) is None,
        },
{
    let l0 = lit_sub_vec();
    if !crate::scan::starts_with(s, 0, l0.as_slice()) {
        proof {
            assert(s@.skip(0) =~= s@);
            if s@.len() >= 8 {
                assert(s@.take(8) =~= s@.skip(0).take(8));
            }
        }
        return None;
    }
    proof {
        assert(s@.skip(0) =~= s@);
        assert(s@.take(8) =~= s@.skip(0).take(8));
    }
    let ghost r1 = s@.skip(8);
    let q = crate::scan::find_from(s, 8, 34);
    proof {
        crate::scan::lemma_find_byte_props(r1, 34);
    }
    if q == s.len() {
        return None;
    }
    let ghost subg = r1.take(q - 8);
    proof {
        assert(subg =~= s@.subrange(8, q as int));
    }
    // the discriminator must be printable ASCII without quote or backslash
    let mut k: usize = 8;
    while k < q
        invariant
            8 <= k <= q,
            forall|i: int| 8 <= i < k ==> 32 <= #[trigger] s@[i] < 127 && s@[i] != 34 && s@[i] != 92,
        decreases q - k,
    {
        let b = s[k];
        if b < 32 || b >= 127 || b == 92 {
            proof {
                assert(!sub_wf(subg)) by {
                    assert(subg[k - 8] == s@[k as int]);
                }
            }
            return None;
        }
        proof {
            assert(s@[k as int] != 34) by {
                assert(r1[k - 8] == s@[k as int]);
            }
        }
        k = k + 1;
    }
    proof {
        assert(sub_wf(subg)) by {
            assert forall|i: int| 0 <= i < subg.len() implies 32 <= #[trigger] subg[i] < 127
                && subg[i] != 34 && subg[i] != 92 by {
                assert(subg[i] == s@[i + 8]);
                assert(r1[i] == s@[i + 8]);
            }
        }
    }
    let sub_vec = vstd::slice::slice_to_vec(vstd::slice::slice_subrange(s, 8, q));
    proof {
        assert(r1.skip(q - 8) =~= s@.skip(q as int));
    }
    let fields = match parse_fields(s, q) {
        Some(v) => v,
        None => {
            return None;
        },
    };
    let (iat, exp, user_id, role) = fields;
    let c = Claims { sub: sub_vec, iat, exp, user_id, role };
    proof {
        assert(c@.sub =~= subg);
        assert(spec_parse_claims(s@) == Some(c@));
    }
    Some(c)
}

/// Read the numeric and role fields that follow the discriminator.
#[verifier::loop_isolation(false)]
#[verifier::rlimit(50)]
fn parse_fields(s: &[u8], pos: usize) -> (r: Option<(u64, u64, u128, Role)>)
    requires
        pos <= s@.len(),
    ensures
        r == spec_parse_fields(s@.skip(pos as int)),
{
    let ghost t = s@.skip(pos as int);
    let n = s.len();
    let l1 = lit_iat_vec();
    if !crate::scan::starts_with(s, pos, l1.as_slice()) {
        proof {
            assert(t.take(8) =~= s@.skip(pos as int).take(8));
        }
        return None;
    }
    let p3 = pos + 8;
    let ghost r3 = t.skip(8);
    proof {
        assert(r3 =~= s@.skip(p3 as int));
    }
    let c1 = crate::scan::find_from(s, p3, 44);
    proof {
        crate::scan::lemma_find_byte_props(r3, 44);
    }
    if c1 == n {
        return None;
    }
    let ghost iat_d = r3.take(c1 - p3);
    proof {
        assert(iat_d =~= s@.subrange(p3 as int, c1 as int));
    }
    let iat_wide = match parse_dec_u128(vstd::slice::slice_subrange(s, p3, c1)) {
        Some(v) => v,
        None => {
            return None;
        },
    };
    if iat_wide > 0xffff_ffff_ffff_ffff {
        return None;
    }
    let iat: u64 = iat_wide as u64;
    let ghost r4 = r3.skip(c1 - p3);
    proof {
        assert(r4 =~= s@.skip(c1 as int));
    }
    let l2 = lit_exp_vec();
    if !crate::scan::starts_with(s, c1, l2.as_slice()) {
        proof {
            assert(r4.take(7) =~= s@.skip(c1 as int).take(7));
        }
        return None;
    }
    proof {
        assert(r4.take(7) =~= s@.skip(c1 as int).take(7));
    }
    let p5 = c1 + 7;
    let ghost r5 = r4.skip(7);
    proof {
        assert(r5 =~= s@.skip(p5 as int));
    }
    let c2 = crate::scan::find_from(s, p5, 44);
    proof {
        crate::scan::lemma_find_byte_props(r5, 44);
    }
    if c2 == n {
        return None;
    }
    let ghost exp_d = r5.take(c2 - p5);
    proof {
        assert(exp_d =~= s@.subrange(p5 as int, c2 as int));
    }
    let exp_wide = match parse_dec_u128(vstd::slice::slice_subrange(s, p5, c2)) {
        Some(v) => v,
        None => {
            return None;
        },
    };
    if exp_wide > 0xffff_ffff_ffff_ffff {
        return None;
    }
    let exp: u64 = exp_wide as u64;
    let ghost r6 = r5.skip(c2 - p5);
    proof {
        assert(r6 =~= s@.skip(c2 as int));
    }
    let tail = match parse_tail(s, c2) {
        Some(v) => v,
        None => {
            return None;
        },
    };
    let (user_id, role) = tail;
    Some((iat, exp, user_id, role))
}

/// Read the user identifier and role fields that close a payload.
#[verifier::loop_isolation(false)]
#[verifier::rlimit(50)]
fn parse_tail(s: &[u8], pos: usize) -> (r: Option<(u128, Role)>)
    requires
        pos <= s@.len(),
    ensures
        r == spec_parse_tail(s@.skip(pos as int)),
{
    let ghost t = s@.skip(pos as int);
    let n = s.len();
    let l3 = lit_user_vec();
    if !crate::scan::starts_with(s, pos, l3.as_slice()) {
        proof {
            assert(t.take(11) =~= s@.skip(pos as int).take(11));
        }
        return None;
    }
    let p7 = pos + 11;
    let ghost r7 = t.skip(11);
    proof {
        assert(r7 =~= s@.skip(p7 as int));
    }
    let c3 = crate::scan::find_from(s, p7, 44);
    proof {
        crate::scan::lemma_find_byte_props(r7, 44);
    }
    if c3 == n {
        return None;
    }
    let ghost uid_d = r7.take(c3 - p7);
    proof {
        assert(uid_d =~= s@.subrange(p7 as int, c3 as int));
    }
    let user_id = match parse_dec_u128(vstd::slice::slice_subrange(s, p7, c3)) {
        Some(v) => v,
        None => {
            return None;
        },
    };
    let ghost r8 = r7.skip(c3 - p7);
    proof {
        assert(r8 =~= s@.skip(c3 as int));
    }
    let l4 = lit_role_vec();
    if !crate::scan::starts_with(s, c3, l4.as_slice()) {
        proof {
            assert(r8.take(9) =~= s@.skip(c3 as int).take(9));
        }
        return None;
    }
    proof {
        assert(r8.take(9) =~= s@.skip(c3 as int).take(9));
    }
    let p9 = c3 + 9;
    proof {
        assert(r8.skip(9) =~= s@.skip(p9 as int));
    }
    let role = match parse_role_end(s, p9) {
        Some(role) => role,
        None => {
            return None;
        },
    };
    Some((user_id, role))
}


/// Read the role name and the closing `"}` that must fill the rest of the
/// payload.
fn parse_role_end(s: &[u8], pos: usize) -> (r: Option<Role>)
    requires
        pos <= s@.len(),
    ensures
        r == spec_parse_role_end(s@.skip(pos as int)),
{
    let ghost t = s@.skip(pos as int);
    let n = s.len();
    let lend = lit_end_vec();
    let admin = role_name_vec(Role::Admin);
    let editor = role_name_vec(Role::Editor);
    let user = role_name_vec(Role::User);
    proof {
        lemma_role_ends_distinct();
    }
    if crate::scan::starts_with(s, pos, admin.as_slice()) {
        proof {
            assert(admin@.len() == 5);
            assert(pos + 5 <= s@.len());
        }
        if pos + 5 <= n && crate::scan::starts_with(s, pos + 5, lend.as_slice()) && n == pos + 7 {
            proof {
                assert(t =~= Role::Admin.spec_name_bytes() + lit_end());
            }
            return Some(Role::Admin);
        }
        proof {
            lemma_role_end_mismatch(s@, pos as int, Role::Admin);
        }
        return None;
    }
    if crate::scan::starts_with(s, pos, editor.as_slice()) {
        proof {
            assert(editor@.len() == 6);
            assert(pos + 6 <= s@.len());
        }
        if pos + 6 <= n && crate::scan::starts_with(s, pos + 6, lend.as_slice()) && n == pos + 8 {
            proof {
                assert(t =~= Role::Editor.spec_name_bytes() + lit_end());
            }
            return Some(Role::Editor);
        }
        proof {
            lemma_role_end_mismatch(s@, pos as int, Role::Editor);
        }
        return None;
    }
    if crate::scan::starts_with(s, pos, user.as_slice()) {
        proof {
            assert(user@.len() == 4);
            assert(pos + 4 <= s@.len());
        }
        if pos + 4 <= n && crate::scan::starts_with(s, pos + 4, lend.as_slice()) && n == pos + 6 {
            proof {
                assert(t =~= Role::User.spec_name_bytes() + lit_end());
            }
            return Some(Role::User);
        }
        proof {
            lemma_role_end_mismatch(s@, pos as int, Role::User);
        }
        return None;
    }
    proof {
        assert(t != Role::Admin.spec_name_bytes() + lit_end()) by {
            if t == Role::Admin.spec_name_bytes() + lit_end() {
                assert(t.take(5) =~= Role::Admin.spec_name_bytes());
                assert(pos + 5 <= s@.len());
            }
        }
        assert(t != Role::Editor.spec_name_bytes() + lit_end()) by {
            if t == Role::Editor.spec_name_bytes() + lit_end() {
                assert(t.take(6) =~= Role::Editor.spec_name_bytes());
                assert(pos + 6 <= s@.len());
            }
        }
        assert(t != Role::User.spec_name_bytes() + lit_end()) by {
            if t == Role::User.spec_name_bytes() + lit_end() {
                assert(t.take(4) =~= Role::User.spec_name_bytes());
                assert(pos + 4 <= s@.len());
            }
        }
    }
    None
}

/// When the name matched but the tail after it is not exactly `"}`, the
/// remainder is no role ending at all.
proof fn lemma_role_end_mismatch(s: Seq<u8>, pos: int, matched: Role)
    requires
        0 <= pos <= s.len(),
        s.skip(pos).take(matched.spec_name_bytes().len() as int) == matched.spec_name_bytes(),
        !(pos + matched.spec_name_bytes().len() + 2 <= s.len() && s.skip(
            pos + matched.spec_name_bytes().len(),
        ).take(2) == lit_end() && s.len() == pos + matched.spec_name_bytes().len() + 2),
    ensures
        spec_parse_role_end(s.skip(pos)) is None,
{
    let t = s.skip(pos);
    let nl = matched.spec_name_bytes().len() as int;
    lemma_role_ends_distinct();
    assert forall|role: Role| t != role.spec_name_bytes() + lit_end() by {
        if t == role.spec_name_bytes() + lit_end() {
            assert(t.take(role.spec_name_bytes().len() as int) =~= role.spec_name_bytes());
            assert(t.len() == role.spec_name_bytes().len() + 2);
            // two role names that both prefix t must be equal, as one
            // prefixes the other
            let rl = role.spec_name_bytes().len() as int;
            if rl <= nl {
                assert(role.spec_name_bytes() =~= matched.spec_name_bytes().take(rl));
            } else {
                assert(matched.spec_name_bytes() =~= role.spec_name_bytes().take(nl));
            }
            assert(role == matched);
            assert(t.skip(nl) =~= lit_end());
            assert(t.skip(nl) =~= s.skip(pos + nl).take(2));
        }
    }
}

/// No role name is a prefix of another.
proof fn lemma_role_ends_distinct()
    ensures
        forall|r1: Role, r2: Role|
            r1 != r2 ==> #[trigger] r1.spec_name_bytes().take(
                min_len(r1, r2),
            ) != r2.spec_name_bytes().take(min_len(r1, r2)),
{
    assert forall|r1: Role, r2: Role|
        r1 != r2 implies #[trigger] r1.spec_name_bytes().take(min_len(r1, r2))
        != r2.spec_name_bytes().take(min_len(r1, r2)) by {
        assert(r1.spec_name_bytes().take(min_len(r1, r2))[0] != r2.spec_name_bytes().take(
            min_len(r1, r2),
        )[0]);
    }
}

pub open spec fn min_len(r1: Role, r2: Role) -> int {
    if r1.spec_name_bytes().len() <= r2.spec_name_bytes().len() {
        r1.spec_name_bytes().len() as int
    } else {
        r2.spec_name_bytes().len() as int
    }
}

} // verus!

verus! {

/// Digit text contains neither a comma nor a quote.
proof fn lemma_digits_no_delims(s: Seq<u8>)
    requires
        all_dec_digits(s),
    ensures
        forall|i: int| 0 <= i < s.len() ==> s[i] != 44 && #[trigger] s[i] != 34,
{
    assert forall|i: int| 0 <= i < s.len() implies s[i] != 44 && #[trigger] s[i] != 34 by {
        assert(is_dec_digit(s[i]));
    }
}

/// Parsing recovers the user identifier and role from their rendering.
proof fn lemma_round_trip_tail(uid: u128, role: Role)
    ensures
        spec_parse_tail(
            lit_user() + spec_dec_digits(uid as nat) + lit_role() + role.spec_name_bytes()
                + lit_end(),
        ) == Some((uid, role)),
{
    let du = spec_dec_digits(uid as nat);
    let nm = role.spec_name_bytes();
    let t = lit_user() + du + lit_role() + nm + lit_end();
    lemma_dec_digits_value(uid as nat);
    lemma_digits_no_delims(du);
    assert(t.take(11) =~= lit_user());
    let r7 = t.skip(11);
    let tail4 = lit_role() + nm + lit_end();
    assert(r7 =~= du + tail4);
    assert(tail4[0] == 44);
    crate::scan::lemma_find_byte_concat(du, tail4, 44);
    let c3 = crate::scan::find_byte(r7, 44);
    assert(c3 == du.len());
    assert(r7.take(c3) =~= du);
    assert(dec_value(du) == uid as nat);
    let r8 = r7.skip(c3);
    assert(r8 =~= tail4);
    assert(r8.take(9) =~= lit_role());
    assert(r8.skip(9) =~= nm + lit_end());
    assert(spec_parse_role_end(nm + lit_end()) == Some(role)) by {
        assert(Role::Admin.spec_name_bytes().len() == 5);
        assert(Role::Editor.spec_name_bytes().len() == 6);
        assert(Role::User.spec_name_bytes().len() == 4);
    }
}

/// Parsing recovers the numeric fields from their rendering, whatever
/// well-parsing tail follows them.
#[verifier::rlimit(100)]
proof fn lemma_round_trip_fields(iat: u64, exp: u64, tail3: Seq<u8>, uid: u128, role: Role)
    requires
        spec_parse_tail(tail3) == Some((uid, role)),
        tail3.len() > 0,
        tail3[0] == 44,
    ensures
        spec_parse_fields(
            lit_iat() + spec_dec_digits(iat as nat) + lit_exp() + spec_dec_digits(exp as nat)
                + tail3,
        ) == Some((iat, exp, uid, role)),
{
    let di = spec_dec_digits(iat as nat);
    let de = spec_dec_digits(exp as nat);
    let t = lit_iat() + di + lit_exp() + de + tail3;
    lemma_dec_digits_value(iat as nat);
    lemma_dec_digits_value(exp as nat);
    lemma_digits_no_delims(di);
    lemma_digits_no_delims(de);
    assert(t.take(8) =~= lit_iat());
    let r3 = t.skip(8);
    let tail2 = lit_exp() + de + tail3;
    assert(r3 =~= di + tail2);
    assert(tail2[0] == 44);
    crate::scan::lemma_find_byte_concat(di, tail2, 44);
    assert(find_byte_is(r3, di, tail2));
    let c1 = crate::scan::find_byte(r3, 44);
    assert(c1 == di.len());
    assert(r3.take(c1) =~= di);
    let r4 = r3.skip(c1);
    assert(r4 =~= tail2);
    assert(r4.take(7) =~= lit_exp());
    let r5 = r4.skip(7);
    assert(r5 =~= de + tail3);
    crate::scan::lemma_find_byte_concat(de, tail3, 44);
    let c2 = crate::scan::find_byte(r5, 44);
    assert(c2 == de.len());
    assert(r5.take(c2) =~= de);
    let r6 = r5.skip(c2);
    assert(r6 =~= tail3);
}

/// Used only to state that the first comma of a digit-text-plus-tail pair
/// sits at the seam.
spec fn find_byte_is(r: Seq<u8>, a: Seq<u8>, b: Seq<u8>) -> bool {
    r == a + b ==> crate::scan::find_byte(r, 44) == a.len()
}

/// Round trip: the strict reading recovers every well-formed claims value
/// from its canonical payload text.
pub proof fn lemma_claims_json_round_trip(c: ClaimsV)
    requires
        claims_wf(c),
    ensures
        spec_parse_claims(spec_claims_json(c)) == Some(c),
{
    let s = spec_claims_json(c);
    let di = spec_dec_digits(c.iat as nat);
    let de = spec_dec_digits(c.exp as nat);
    let du = spec_dec_digits(c.user_id as nat);
    let nm = c.role.spec_name_bytes();
    let tail1 = lit_iat() + di + lit_exp() + de + lit_user() + du + lit_role() + nm + lit_end();
    assert(s.take(8) =~= lit_sub());
    let r1 = s.skip(8);
    assert(r1 =~= c.sub + tail1);
    assert(tail1[0] == 34);
    crate::scan::lemma_find_byte_concat(c.sub, tail1, 34);
    let q = crate::scan::find_byte(r1, 34);
    assert(q == c.sub.len());
    assert(r1.take(q) =~= c.sub);
    assert(r1.skip(q) =~= tail1);
    let tail3 = lit_user() + du + lit_role() + nm + lit_end();
    lemma_round_trip_tail(c.user_id, c.role);
    lemma_round_trip_fields(c.iat, c.exp, tail3, c.user_id, c.role);
    assert(lit_iat() + di + lit_exp() + de + tail3 =~= tail1);
    assert(spec_parse_fields(tail1) == Some((c.iat, c.exp, c.user_id, c.role)));
}

} // verus!
