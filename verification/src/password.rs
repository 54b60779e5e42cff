//! The password engine: memory-hard hashing with per-record parameters.
//!
//! Passwords are hashed with scrypt; each record stores its own cost
//! parameters so they can be raised later without invalidating old records.
//! Setting a password enforces the policy (length bounds and a blacklist);
//! checking recomputes the hash with the stored parameters and compares in
//! constant time, and collapses every failure into `AuthenticationFailed`.

use vstd::prelude::*;
use vstd::string::StringSliceAdditionalSpecFns;

use crate::error::Error;
use crate::tags::has_tag;
use crate::text::{first_where, lemma_first_where_bounds, lemma_first_where_holds};
use crate::user::{trim_leading, trim_trailing, collect_chars, chars_of_trimmed_line};

verus! {

/// The default cost parameters for new records.
pub const DEFAULT_LOG_N: u8 = 15;

/// The default block-size parameter for new records.
pub const DEFAULT_R: u32 = 8;

/// The default parallelism parameter for new records.
pub const DEFAULT_P: u32 = 1;

/// Passwords longer than this many bytes are rejected before any hashing,
/// as a computation-exhaustion guard.
pub const MAX_PASSWORD_LEN: usize = 8192;

/// What scrypt derives from a password, salt and cost parameters. The
/// derivation is a pure function of its arguments; its pages-long definition
/// is not restated here.
pub uninterp spec fn kdf_of(password: Seq<u8>, salt: Seq<u8>, log_n: u8, r: u32, p: u32) -> Seq<
    u8,
>;

/// Whether scrypt accepts the cost parameters. A pure function of the
/// parameters (given this machine's address width).
pub uninterp spec fn kdf_ok(log_n: u8, r: u32, p: u32) -> bool;

/// Relies on `scrypt::Params::new` and `scrypt::scrypt`: parameter validation
/// depends on the parameters alone, and the derived key is a function of the
/// password, the salt and the parameters alone. The precondition keeps
/// `Params::new` away from its unchecked `r * p` multiplication.
#[verifier::external_body]
fn scrypt_hash(password: &[u8], salt: &[u8], log_n: u8, r: u32, p: u32) -> (res: Option<Vec<u8>>)
    requires
        (r as u64) * (p as u64) < 0x4000_0000,
    ensures
        res is Some <==> kdf_ok(log_n, r, p),
        (log_n <= 20 && 1 <= r <= 8 && 1 <= p <= 4) ==> res is Some,
        res matches Some(h) ==> h@ == kdf_of(password@, salt@, log_n, r, p) && h@.len() == 32,
{
    let params = match scrypt::Params::new(log_n, r, p) {
        Ok(p) => p,
        Err(_) => {
            return None;
        },
    };
    let mut out = vec![0u8; 32];
    match scrypt::scrypt(password, salt, &params, &mut out) {
        Ok(()) => Some(out),
        Err(_) => None,
    }
}

/// Relies on `rand::fill` over `ThreadRng`, a cryptographically secure
/// generator: the buffer is filled with `n` random bytes.
#[verifier::external_body]
fn random_bytes(n: usize) -> (r: Vec<u8>)
    ensures
        r@.len() == n,
{
    let mut out = vec![0u8; n];
    rand::fill(&mut out[..]);
    out
}

/// One stored password record.
pub struct Password {
    /// The owning user.
    pub user_id: u64,
    /// The derived key.
    pub hash: Vec<u8>,
    /// The per-record random salt.
    pub salt: Vec<u8>,
    /// log₂ of the scrypt cost parameter `N`, as stored.
    pub logn: i16,
    /// The scrypt block-size parameter, as stored.
    pub param_r: i32,
    /// The scrypt parallelism parameter, as stored.
    pub param_p: i32,
}

/// The mathematical shape of a password record.
pub ghost struct PasswordV {
    /// The owning user.
    pub user_id: u64,
    /// The derived key.
    pub hash: Seq<u8>,
    /// The salt.
    pub salt: Seq<u8>,
    /// log₂ of `N`, as stored.
    pub logn: i16,
    /// The block-size parameter, as stored.
    pub param_r: i32,
    /// The parallelism parameter, as stored.
    pub param_p: i32,
}

impl View for Password {
    type V = PasswordV;

    open spec fn view(&self) -> PasswordV {
        PasswordV {
            user_id: self.user_id,
            hash: self.hash@,
            salt: self.salt@,
            logn: self.logn,
            param_r: self.param_r,
            param_p: self.param_p,
        }
    }
}

impl Password {
    /// Builds a record from stored column values.
    pub fn new(user_id: u64, hash: Vec<u8>, salt: Vec<u8>, logn: i16, param_r: i32, param_p: i32)
        -> (r: Password)
        ensures
            r@ == (PasswordV { user_id, hash: hash@, salt: salt@, logn, param_r, param_p }),
    {
        Password { user_id, hash, salt, logn, param_r, param_p }
    }

    /// The derived key.
    pub fn hash(&self) -> (r: &Vec<u8>)
        ensures
            r@ == self@.hash,
    {
        &self.hash
    }

    /// The salt.
    pub fn salt(&self) -> (r: &Vec<u8>)
        ensures
            r@ == self@.salt,
    {
        &self.salt
    }

    /// log₂ of `N`. The stored column is wider than `u8`; a value outside
    /// `u8` is excluded here, as the caller must treat it as invalid.
    pub fn logn(&self) -> (r: u8)
        requires
            0 <= self@.logn <= 255,
        ensures
            r == self@.logn,
    {
        self.logn as u8
    }

    /// The block-size parameter; a negative stored value is excluded here.
    pub fn param_r(&self) -> (r: u32)
        requires
            self@.param_r >= 0,
        ensures
            r == self@.param_r,
    {
        self.param_r as u32
    }

    /// The parallelism parameter; a negative stored value is excluded here.
    pub fn param_p(&self) -> (r: u32)
        requires
            self@.param_p >= 0,
        ensures
            r == self@.param_p,
    {
        self.param_p as u32
    }
}

/// Whether a stored record's parameters are usable: in range for scrypt's
/// argument types, inside the unchecked-multiplication guard, and accepted
/// by scrypt itself.
pub open spec fn stored_params_ok(rec: PasswordV) -> bool {
    &&& 0 <= rec.logn <= 255
    &&& rec.param_r >= 1
    &&& rec.param_p >= 1
    &&& (rec.param_r as int) * (rec.param_p as int) < 0x4000_0000
    &&& kdf_ok(rec.logn as u8, rec.param_r as u32, rec.param_p as u32)
}

/// Whether a password check for `rec` succeeds with `password`: the policy
/// length bound holds, the stored parameters are usable, and recomputing the
/// derivation over the stored salt yields the stored hash.
pub open spec fn password_matches(rec: PasswordV, password: &str) -> bool {
    &&& password.spec_bytes().len() <= MAX_PASSWORD_LEN
    &&& stored_params_ok(rec)
    &&& kdf_of(
        password.spec_bytes(),
        rec.salt,
        rec.logn as u8,
        rec.param_r as u32,
        rec.param_p as u32,
    ) == rec.hash
}

/// Whether a new password violates the set-time policy for the given
/// blacklist: too many bytes, too few characters, or blacklisted.
pub open spec fn policy_violation(blacklist: Seq<Seq<char>>, password: &str) -> bool {
    ||| password.spec_bytes().len() > MAX_PASSWORD_LEN
    ||| password@.len() < 8
    ||| has_tag(blacklist, password@)
}

/// The index of the record for `user_id`, if any.
pub open spec fn record_idx(records: Seq<PasswordV>, user_id: u64) -> Option<int> {
    first_where(records, |r: PasswordV| r.user_id == user_id)
}

/// The password manager: stored records and the blacklist.
pub struct PasswordManager {
    records: Vec<Password>,
    blacklist: Vec<String>,
}

impl PasswordManager {
    /// The stored records.
    pub closed spec fn records_view(&self) -> Seq<PasswordV> {
        self.records@.map_values(|p: Password| p@)
    }

    /// The blacklist entries.
    pub closed spec fn blacklist_view(&self) -> Seq<Seq<char>> {
        self.blacklist.deep_view()
    }

    /// At most one record per user.
    pub open spec fn wf(&self) -> bool {
        forall|i: int, j: int|
            0 <= i < j < self.records_view().len() ==> (#[trigger] self.records_view()[i]).user_id
                != (#[trigger] self.records_view()[j]).user_id
    }

    /// Creates a manager over the given blacklist of forbidden passwords.
    pub fn new(blacklist: Vec<String>) -> (s: Self)
        ensures
            s.records_view() =~= Seq::<PasswordV>::empty(),
            s.blacklist_view() == blacklist.deep_view(),
            s.wf(),
    {
        let s = PasswordManager { records: Vec::new(), blacklist };
        proof {
            assert(s.records_view() =~= Seq::<PasswordV>::empty());
        }
        s
    }

    /// Checks the policy for a new password: at most `MAX_PASSWORD_LEN`
    /// bytes, at least 8 characters, and not blacklisted.
    pub fn verify_password(&self, password: &str) -> (r: Result<(), Error>)
        ensures
            match r {
                Ok(()) => {
                    &&& password.spec_bytes().len() <= MAX_PASSWORD_LEN
                    &&& password@.len() >= 8
                    &&& !has_tag(self.blacklist_view(), password@)
                },
                Err(e) => match e {
                    Error::NewPasswordInvalid(m) => {
                        ||| (m@ == "password too long"@ && password.spec_bytes().len()
                            > MAX_PASSWORD_LEN)
                        ||| (m@ == "password must be at least 8 characters"@
                            && password.spec_bytes().len() <= MAX_PASSWORD_LEN && password@.len()
                            < 8)
                        ||| (m@ == "password is too common"@ && password.spec_bytes().len()
                            <= MAX_PASSWORD_LEN && password@.len() >= 8 && has_tag(
                            self.blacklist_view(),
                            password@,
                        ))
                    },
                    _ => false,
                },
            },
    {
        let pw_bytes = password.as_bytes();
        if pw_bytes.len() > MAX_PASSWORD_LEN {
            return Err(Error::NewPasswordInvalid("password too long".to_owned()));
        }
        if password.unicode_len() < 8 {
            return Err(
                Error::NewPasswordInvalid("password must be at least 8 characters".to_owned()),
            );
        }
        if crate::tags::contains_str(&self.blacklist, password) {
            return Err(Error::NewPasswordInvalid("password is too common".to_owned()));
        }
        Ok(())
    }

    /// Sets the user's password: checks the policy, draws a fresh 16-byte
    /// salt, hashes with the default parameters, and upserts the record.
    pub fn set(&mut self, user_id: u64, password: &str) -> (r: Result<(), Error>)
        requires
            old(self).wf(),
        ensures
            final(self).wf(),
            final(self).blacklist_view() == old(self).blacklist_view(),
            match r {
                Ok(()) => {
                    &&& password.spec_bytes().len() <= MAX_PASSWORD_LEN
                    &&& password@.len() >= 8
                    &&& !has_tag(old(self).blacklist_view(), password@)
                    &&& {
                        let recs = final(self).records_view();
                        let oldr = old(self).records_view();
                        match record_idx(oldr, user_id) {
                            Some(i) => {
                                &&& recs.len() == oldr.len()
                                &&& forall|j: int|
                                    0 <= j < oldr.len() && j != i ==> recs[j] == oldr[j]
                                &&& new_record_ok(recs[i], user_id, password)
                            },
                            None => {
                                &&& recs.len() == oldr.len() + 1
                                &&& forall|j: int| 0 <= j < oldr.len() ==> recs[j] == oldr[j]
                                &&& new_record_ok(recs.last(), user_id, password)
                            },
                        }
                    }
                },
                Err(e) => {
                    &&& final(self).records_view() == old(self).records_view()
                    &&& match e {
                        Error::NewPasswordInvalid(m) => {
                            ||| (m@ == "password too long"@ && password.spec_bytes().len()
                                > MAX_PASSWORD_LEN)
                            ||| (m@ == "password must be at least 8 characters"@
                                && password.spec_bytes().len() <= MAX_PASSWORD_LEN
                                && password@.len() < 8)
                            ||| (m@ == "password is too common"@ && password.spec_bytes().len()
                                <= MAX_PASSWORD_LEN && password@.len() >= 8 && has_tag(
                                old(self).blacklist_view(),
                                password@,
                            ))
                        },
                        _ => false,
                    }
                },
            },
    {
        if let Err(e) = self.verify_password(password) {
            return Err(e);
        }
        let salt = random_bytes(16);
        let hash = match scrypt_hash(
            password.as_bytes(),
            salt.as_slice(),
            DEFAULT_LOG_N,
            DEFAULT_R,
            DEFAULT_P,
        ) {
            Some(h) => h,
            None => {
                // Unreachable: the default cost parameters are always
                // accepted, as the wrapper's contract states.
                proof {
                    assert(false);
                }
                return Err(Error::AuthenticationFailed);
            },
        };
        let rec = Password {
            user_id,
            hash,
            salt,
            logn: DEFAULT_LOG_N as i16,
            param_r: DEFAULT_R as i32,
            param_p: DEFAULT_P as i32,
        };
        let ghost oldr = self.records_view();
        match self.find_record(user_id) {
            Some(i) => {
                proof {
                    lemma_first_where_bounds(oldr, |r: PasswordV| r.user_id == user_id);
                }
                self.records.set(i, rec);
                proof {
                    assert forall|j: int|
                        0 <= j < self.records_view().len() && j != i
                        implies self.records_view()[j] == oldr[j] by {
                        assert(self.records_view()[j] == self.records@[j]@);
                    }
                    assert(self.records_view()[i as int] == self.records@[i as int]@);
                    self.lemma_upsert_wf(oldr, i as int, user_id);
                }
            },
            None => {
                self.records.push(rec);
                proof {
                    assert forall|j: int| 0 <= j < oldr.len()
                        implies self.records_view()[j] == oldr[j] by {
                        assert(self.records_view()[j] == self.records@[j]@);
                    }
                    assert(self.records_view().last() == self.records@[oldr.len() as int]@);
                    lemma_first_where_bounds(oldr, |r: PasswordV| r.user_id == user_id);
                    assert forall|i: int, j: int| 0 <= i < j < self.records_view().len()
                        implies (#[trigger] self.records_view()[i]).user_id != (
                        #[trigger] self.records_view()[j]).user_id by {
                        assert(self.records_view()[i] == oldr[i]);
                        if j < oldr.len() {
                            assert(self.records_view()[j] == oldr[j]);
                        }
                    }
                }
            },
        }
        Ok(())
    }

    /// After replacing the record at `i` for the same user, uniqueness holds.
    proof fn lemma_upsert_wf(&self, oldr: Seq<PasswordV>, i: int, user_id: u64)
        requires
            0 <= i < oldr.len(),
            self.records_view().len() == oldr.len(),
            forall|i2: int, j2: int|
                0 <= i2 < j2 < oldr.len() ==> (#[trigger] oldr[i2]).user_id != (
                #[trigger] oldr[j2]).user_id,
            forall|j: int|
                0 <= j < oldr.len() && j != i ==> #[trigger] self.records_view()[j] == oldr[j],
            self.records_view()[i].user_id == oldr[i].user_id,
        ensures
            self.wf(),
    {
        assert forall|a: int, b: int| 0 <= a < b < self.records_view().len()
            implies (#[trigger] self.records_view()[a]).user_id != (
            #[trigger] self.records_view()[b]).user_id by {
            if a != i && b != i {
                assert(self.records_view()[a] == oldr[a] && self.records_view()[b] == oldr[b]);
            } else if a == i {
                assert(self.records_view()[b] == oldr[b]);
            } else {
                assert(self.records_view()[a] == oldr[a]);
            }
        }
    }

    /// The position of the record for `user_id`.
    fn find_record(&self, user_id: u64) -> (r: Option<usize>)
        ensures
            match r {
                Some(k) => k < self.records_view().len() && record_idx(
                    self.records_view(),
                    user_id,
                ) == Some(k as int),
                None => record_idx(self.records_view(), user_id) is None,
            },
    {
        let mut i: usize = 0;
        while i < self.records.len()
            invariant
                i <= self.records@.len(),
                self.records_view().len() == self.records@.len(),
                forall|j: int| 0 <= j < i ==> (#[trigger] self.records_view()[j]).user_id != user_id,
            decreases self.records@.len() - i,
        {
            proof {
                assert(self.records_view()[i as int] == self.records@[i as int]@);
            }
            if self.records[i].user_id == user_id {
                proof {
                    lemma_first_where_holds(
                        self.records_view(),
                        |r: PasswordV| r.user_id == user_id,
                        i as int,
                    );
                }
                return Some(i);
            }
            i += 1;
        }
        proof {
            lemma_first_where_bounds(self.records_view(), |r: PasswordV| r.user_id == user_id);
        }
        None
    }

    /// Checks a password. Succeeds exactly when a record exists, its
    /// parameters are usable, and the recomputed derivation matches; every
    /// failure is `AuthenticationFailed`. Callers that serve untrusted
    /// clients pause before reporting a failure.
    pub fn check(&self, user_id: u64, password: &str) -> (r: Result<(), Error>)
        ensures
            r is Ok <==> (match record_idx(self.records_view(), user_id) {
                Some(i) => password_matches(self.records_view()[i], password),
                None => false,
            }),
            r is Err ==> r->Err_0 == Error::AuthenticationFailed,
    {
        self.check_internal(user_id, password)
    }

    /// The check itself, shared by `check`.
    fn check_internal(&self, user_id: u64, password: &str) -> (r: Result<(), Error>)
        ensures
            r is Ok <==> (match record_idx(self.records_view(), user_id) {
                Some(i) => password_matches(self.records_view()[i], password),
                None => false,
            }),
            r is Err ==> r->Err_0 == Error::AuthenticationFailed,
    {
        let pw_bytes = password.as_bytes();
        if pw_bytes.len() > MAX_PASSWORD_LEN {
            return Err(Error::AuthenticationFailed);
        }
        let k = match self.find_record(user_id) {
            Some(k) => k,
            None => {
                return Err(Error::AuthenticationFailed);
            },
        };
        proof {
            assert(self.records_view()[k as int] == self.records@[k as int]@);
        }
        let rec = &self.records[k];
        if !(rec.logn >= 0 && rec.logn <= 255 && rec.param_r >= 1 && rec.param_p >= 1) {
            return Err(Error::AuthenticationFailed);
        }
        let r32 = rec.param_r as u32;
        let p32 = rec.param_p as u32;
        proof {
            assert((r32 as int) * (p32 as int) < 0x1_0000_0000_0000_0000) by (nonlinear_arith)
                requires
                    (r32 as int) < 0x1_0000_0000,
                    (p32 as int) < 0x1_0000_0000,
            ;
        }
        if !((r32 as u64) * (p32 as u64) < 0x4000_0000) {
            return Err(Error::AuthenticationFailed);
        }
        let computed = match scrypt_hash(
            password.as_bytes(),
            rec.salt.as_slice(),
            rec.logn as u8,
            r32,
            p32,
        ) {
            Some(h) => h,
            None => {
                return Err(Error::AuthenticationFailed);
            },
        };
        if ct_eq_bytes(&computed, &rec.hash) {
            Ok(())
        } else {
            Err(Error::AuthenticationFailed)
        }
    }
}

/// Compares two byte vectors without an early exit on mismatch.
pub fn ct_eq_bytes(a: &Vec<u8>, b: &Vec<u8>) -> (r: bool)
    ensures
        r == (a@ =~= b@),
{
    if a.len() != b.len() {
        return false;
    }
    let mut acc: u8 = 0;
    let mut i: usize = 0;
    while i < a.len()
        invariant
            i <= a@.len(),
            a@.len() == b@.len(),
            (acc == 0) <==> (forall|j: int| 0 <= j < i ==> a@[j] == b@[j]),
        decreases a@.len() - i,
    {
        let x = a[i];
        let y = b[i];
        let d = x ^ y;
        proof {
            assert((x ^ y == 0) == (x == y)) by (bit_vector);
        }
        let old_acc = acc;
        acc = acc | d;
        proof {
            assert(((old_acc | d) == 0) == (old_acc == 0 && d == 0)) by (bit_vector);
        }
        i += 1;
    }
    if acc == 0 {
        proof {
            assert(a@ =~= b@);
        }
        true
    } else {
        false
    }
}

/// A well-formed freshly stored record for `user_id` and `password`: the
/// default parameters (which scrypt accepts), a fresh 16-byte salt, and the
/// derivation of the password over them — so a later check with the same
/// password succeeds.
pub open spec fn new_record_ok(rec: PasswordV, user_id: u64, password: &str) -> bool {
    &&& rec.user_id == user_id
    &&& rec.logn == DEFAULT_LOG_N
    &&& rec.param_r == DEFAULT_R
    &&& rec.param_p == DEFAULT_P
    &&& rec.salt.len() == 16
    &&& rec.hash == kdf_of(password.spec_bytes(), rec.salt, DEFAULT_LOG_N, DEFAULT_R, DEFAULT_P)
    &&& stored_params_ok(rec)
}

/// Splits blacklist text into trimmed, non-empty lines.
pub open spec fn blacklist_of(s: Seq<char>, cur: Seq<char>) -> Seq<Seq<char>>
    decreases s.len(),
{
    if s.len() == 0 {
        if trim_trailing(trim_leading(cur)).len() == 0 {
            seq![]
        } else {
            seq![trim_trailing(trim_leading(cur))]
        }
    } else if s[0] == '\n' {
        if trim_trailing(trim_leading(cur)).len() == 0 {
            blacklist_of(s.drop_first(), seq![])
        } else {
            seq![trim_trailing(trim_leading(cur))] + blacklist_of(s.drop_first(), seq![])
        }
    } else {
        blacklist_of(s.drop_first(), cur.push(s[0]))
    }
}

/// Parses blacklist file text: one forbidden password per line, leading and
/// trailing whitespace ignored, empty lines skipped.
pub fn build_blacklist(text: &str) -> (r: Vec<String>)
    ensures
        r.deep_view() == blacklist_of(text@, Seq::empty()),
{
    let chars = collect_chars(text);
    let cur: Vec<char> = Vec::new();
    proof {
        assert(chars@.skip(0) =~= chars@);
        assert(cur@ =~= Seq::<char>::empty());
    }
    blacklist_from(&chars, 0, cur)
}

fn blacklist_from(chars: &Vec<char>, i: usize, cur: Vec<char>) -> (r: Vec<String>)
    requires
        i <= chars@.len(),
    ensures
        r.deep_view() == blacklist_of(chars@.skip(i as int), cur@),
    decreases chars@.len() - i,
{
    proof {
        if i < chars@.len() {
            assert(chars@.skip(i as int).drop_first() =~= chars@.skip(i + 1));
            assert(chars@.skip(i as int)[0] == chars@[i as int]);
        }
    }
    if i == chars.len() {
        proof {
            assert(chars@.skip(i as int) =~= Seq::<char>::empty());
        }
        let line = chars_of_trimmed_line(cur);
        match line {
            Some(s) => {
                let mut out: Vec<String> = Vec::new();
                out.push(s);
                proof {
                    assert(out.deep_view() =~= blacklist_of(Seq::empty(), cur@));
                }
                out
            },
            None => {
                let out: Vec<String> = Vec::new();
                proof {
                    assert(out.deep_view() =~= blacklist_of(Seq::empty(), cur@));
                }
                out
            },
        }
    } else if chars[i] == '\n' {
        let empty: Vec<char> = Vec::new();
        proof {
            assert(empty@ =~= Seq::<char>::empty());
        }
        let rest = blacklist_from(chars, i + 1, empty);
        let line = chars_of_trimmed_line(cur);
        match line {
            Some(s) => {
                let ghost rest_deep = rest.deep_view();
                let ghost s_view = s@;
                let mut out: Vec<String> = Vec::new();
                out.push(s);
                let mut rest2 = rest;
                out.append(&mut rest2);
                proof {
                    assert forall|t: int| 0 <= t < out.deep_view().len()
                        implies #[trigger] out.deep_view()[t] == (
                    if t == 0 {
                        s_view
                    } else {
                        rest_deep[t - 1]
                    }) by {
                        assert(out.deep_view()[t] == out@[t]@);
                        if t > 0 {
                            assert(rest_deep[t - 1] == rest@[t - 1]@);
                        }
                    }
                    assert(out.deep_view() =~= seq![s_view] + rest_deep);
                    assert(out.deep_view() =~= blacklist_of(chars@.skip(i as int), cur@));
                }
                out
            },
            None => {
                proof {
                    assert(rest.deep_view() =~= blacklist_of(chars@.skip(i as int), cur@));
                }
                rest
            },
        }
    } else {
        let mut cur2 = cur;
        cur2.push(chars[i]);
        blacklist_from(chars, i + 1, cur2)
    }
}

} // verus!
