//! Login sessions: token issuance, lookup and revocation.
//!
//! A token is 64 random URL-safe characters from a cryptographically strong
//! source. Each user has at most one session; re-issuing replaces it. Token
//! checks compare without an early exit on the first differing character and
//! collapse every failure into `AuthenticationFailed`.

use vstd::prelude::*;

use crate::error::Error;
use crate::store::clone_string;
use crate::text::{ascii_chars, ascii_string, first_where, lemma_first_where_bounds,
    lemma_first_where_holds};

verus! {

/// An IP network: an address with a prefix length, as bound to a session.
#[derive(Debug, Clone, Copy, PartialEq, Eq, Structural)]
pub enum IpNet {
    /// An IPv4 network.
    V4 {
        /// The address as a 32-bit value.
        addr: u32,
        /// The prefix length, at most 32.
        prefix: u8,
    },
    /// An IPv6 network.
    V6 {
        /// The upper 64 bits of the address.
        hi: u64,
        /// The lower 64 bits of the address.
        lo: u64,
        /// The prefix length, at most 128.
        prefix: u8,
    },
}

/// One login session.
pub struct Session {
    /// The owning user; at most one session per user.
    pub user_id: u64,
    /// The opaque URL-safe token.
    pub token: String,
    /// The network the session was created from.
    pub ip_address: IpNet,
    /// Logical creation timestamp.
    pub created_at: u64,
}

/// The mathematical shape of a session.
pub ghost struct SessionV {
    /// The owning user.
    pub user_id: u64,
    /// The token.
    pub token: Seq<char>,
    /// The bound network.
    pub ip_address: IpNet,
    /// Logical creation timestamp.
    pub created_at: u64,
}

impl View for Session {
    type V = SessionV;

    open spec fn view(&self) -> SessionV {
        SessionV {
            user_id: self.user_id,
            token: self.token@,
            ip_address: self.ip_address,
            created_at: self.created_at,
        }
    }
}

impl Session {
    /// The owning user.
    pub fn user_id(&self) -> (r: u64)
        ensures
            r == self@.user_id,
    {
        self.user_id
    }

    /// The token.
    pub fn token(&self) -> (r: &str)
        ensures
            r@ == self@.token,
    {
        self.token.as_str()
    }

    /// The bound network.
    pub fn ip_address(&self) -> (r: IpNet)
        ensures
            r == self@.ip_address,
    {
        self.ip_address
    }

    /// The logical creation timestamp.
    pub fn created_at(&self) -> (r: u64)
        ensures
            r == self@.created_at,
    {
        self.created_at
    }
}

/// Relies on `rand::random_range` over `ThreadRng`, a cryptographically
/// secure generator: the result is below the given bound.
#[verifier::external_body]
fn rand_below(n: usize) -> (r: usize)
    requires
        n > 0,
    ensures
        r < n,
{
    rand::random_range(0..n)
}

/// A URL-safe token byte: ASCII alphanumeric, `-` or `_`.
pub open spec fn is_urlsafe_byte(b: u8) -> bool {
    (65 <= b <= 90) || (97 <= b <= 122) || (48 <= b <= 57) || b == 45 || b == 95
}

/// A URL-safe token character.
pub open spec fn is_urlsafe_char(c: char) -> bool {
    (65 <= c as int && c as int <= 90) || (97 <= c as int && c as int <= 122) || (48 <= c as int
        && c as int <= 57) || c == '-' || c == '_'
}

/// The URL-safe alphabet, indexed 0 to 63.
fn urlsafe_byte(i: usize) -> (r: u8)
    requires
        i < 64,
    ensures
        is_urlsafe_byte(r),
        r < 128,
{
    if i < 26 {
        65 + (i as u8)
    } else if i < 52 {
        97 + ((i - 26) as u8)
    } else if i < 62 {
        48 + ((i - 52) as u8)
    } else if i == 62 {
        45
    } else {
        95
    }
}

/// A well-formed token: 64 URL-safe characters.
pub open spec fn is_token(s: Seq<char>) -> bool {
    s.len() == 64 && forall|i: int| 0 <= i < s.len() ==> is_urlsafe_char(#[trigger] s[i])
}

/// Draws a fresh random token: 64 URL-safe characters.
pub fn generate_token() -> (r: String)
    ensures
        is_token(r@),
{
    let mut bytes: Vec<u8> = Vec::new();
    let mut i: usize = 0;
    while i < 64
        invariant
            i <= 64,
            bytes@.len() == i,
            forall|j: int| 0 <= j < i ==> is_urlsafe_byte(#[trigger] bytes@[j]) && bytes@[j] < 128,
        decreases 64 - i,
    {
        let b = urlsafe_byte(rand_below(64));
        bytes.push(b);
        i += 1;
    }
    let s = ascii_string(bytes);
    proof {
        assert forall|j: int| 0 <= j < s@.len() implies is_urlsafe_char(#[trigger] s@[j]) by {
            assert(s@[j] == bytes@[j] as char);
        }
    }
    s
}

/// Compares two strings without an early exit on the first difference.
pub fn ct_eq_str(a: &str, b: &str) -> (r: bool)
    ensures
        r == (a@ =~= b@),
{
    let a_len = a.unicode_len();
    let b_len = b.unicode_len();
    if a_len != b_len {
        return false;
    }
    let mut same = true;
    let mut i: usize = 0;
    while i < a_len
        invariant
            i <= a_len,
            a_len == a@.len(),
            a_len == b@.len(),
            same <==> (forall|j: int| 0 <= j < i ==> a@[j] == b@[j]),
        decreases a_len - i,
    {
        let ca = a.get_char(i);
        let cb = b.get_char(i);
        let eq_here = ca == cb;
        same = same && eq_here;
        i += 1;
    }
    proof {
        if same {
            assert(a@ =~= b@);
        }
    }
    same
}

/// The index of the session for `user_id`, if any.
pub open spec fn session_idx(sessions: Seq<SessionV>, user_id: u64) -> Option<int> {
    first_where(sessions, |s: SessionV| s.user_id == user_id)
}

/// The session manager: the table of live sessions.
pub struct SessionManager {
    sessions: Vec<Session>,
    tick: u64,
}

impl View for SessionManager {
    type V = Seq<SessionV>;

    closed spec fn view(&self) -> Seq<SessionV> {
        self.sessions@.map_values(|s: Session| s@)
    }
}

impl SessionManager {
    /// At most one session per user, and every token well formed.
    pub open spec fn wf(&self) -> bool {
        &&& forall|i: int, j: int|
            0 <= i < j < self@.len() ==> (#[trigger] self@[i]).user_id != (
            #[trigger] self@[j]).user_id
        &&& forall|i: int| 0 <= i < self@.len() ==> is_token((#[trigger] self@[i]).token)
    }

    /// The logical clock has room to advance.
    pub open spec fn tick_ok(&self) -> bool {
        self.spec_tick() < 0xffff_ffff_ffff_ffff
    }

    /// The logical clock.
    pub closed spec fn spec_tick(&self) -> u64 {
        self.tick
    }

    /// The logical clock's current value, so unverified callers can test
    /// `tick_ok` before asking for a token.
    pub fn tick(&self) -> (r: u64)
        ensures
            r == self.spec_tick(),
    {
        self.tick
    }

    /// Creates an empty manager.
    pub fn new() -> (s: Self)
        ensures
            s@ =~= Seq::<SessionV>::empty(),
            s.wf(),
            s.spec_tick() == 0,
    {
        let s = SessionManager { sessions: Vec::new(), tick: 0 };
        proof {
            assert(s@ =~= Seq::<SessionV>::empty());
        }
        s
    }

    /// The position of the session for `user_id`.
    fn find_session(&self, user_id: u64) -> (r: Option<usize>)
        ensures
            match r {
                Some(k) => k < self@.len() && session_idx(self@, user_id) == Some(k as int),
                None => session_idx(self@, user_id) is None,
            },
    {
        let mut i: usize = 0;
        while i < self.sessions.len()
            invariant
                i <= self.sessions@.len(),
                self@.len() == self.sessions@.len(),
                forall|j: int| 0 <= j < i ==> (#[trigger] self@[j]).user_id != user_id,
            decreases self.sessions@.len() - i,
        {
            proof {
                assert(self@[i as int] == self.sessions@[i as int]@);
            }
            if self.sessions[i].user_id == user_id {
                proof {
                    lemma_first_where_holds(self@, |s: SessionV| s.user_id == user_id, i as int);
                }
                return Some(i);
            }
            i += 1;
        }
        proof {
            lemma_first_where_bounds(self@, |s: SessionV| s.user_id == user_id);
        }
        None
    }

    /// Issues a fresh token for the user, replacing any existing session.
    /// Returns the token.
    pub fn create_token(&mut self, user_id: u64, ip: IpNet) -> (r: String)
        requires
            old(self).wf(),
            old(self).tick_ok(),
        ensures
            final(self).wf(),
            final(self).spec_tick() == old(self).spec_tick() + 1,
            is_token(r@),
            session_idx(final(self)@, user_id) is Some,
            final(self)@[session_idx(final(self)@, user_id)->Some_0] == (SessionV {
                user_id,
                token: r@,
                ip_address: ip,
                created_at: (old(self).spec_tick() + 1) as u64,
            }),
            forall|u: u64|
                u != user_id ==> #[trigger] session_of(final(self)@, u) == session_of(
                    old(self)@,
                    u,
                ),
    {
        let ghost oldv = self@;
        match self.find_session(user_id) {
            Some(k) => {
                proof {
                    lemma_first_where_bounds(oldv, |s: SessionV| s.user_id == user_id);
                }
                self.sessions.remove(k);
                proof {
                    assert forall|t: int| 0 <= t < self@.len() implies #[trigger] self@[t] == (
                    if t < k {
                        oldv[t]
                    } else {
                        oldv[t + 1]
                    }) by {
                        assert(self@[t] == self.sessions@[t]@);
                    }
                    lemma_sessions_removed(oldv, self@, k as int, user_id);
                }
            },
            None => {},
        }
        let ghost midv = self@;
        proof {
            lemma_first_where_bounds(midv, |s: SessionV| s.user_id == user_id);
        }
        self.tick = self.tick + 1;
        let token = generate_token();
        let token_copy = clone_string(&token);
        let s = Session { user_id, token, ip_address: ip, created_at: self.tick };
        self.sessions.push(s);
        proof {
            assert forall|t: int| 0 <= t < self@.len() implies #[trigger] self@[t] == (
            if t < midv.len() {
                midv[t]
            } else {
                SessionV { user_id, token: token_copy@, ip_address: ip, created_at: self.tick }
            }) by {
                assert(self@[t] == self.sessions@[t]@);
            }
            assert(forall|j: int| 0 <= j < midv.len() ==> (#[trigger] midv[j]).user_id != user_id);
            lemma_first_where_holds(self@, |s: SessionV| s.user_id == user_id, midv.len() as int);
            assert forall|u: u64| u != user_id
                implies #[trigger] session_of(self@, u) == session_of(oldv, u) by {
                lemma_session_of_push_other(midv, self@, u, user_id);
            }
        }
        token_copy
    }

    /// The user's current token, if a session exists.
    pub fn get_token(&self, user_id: u64) -> (r: Option<String>)
        ensures
            match r {
                Some(t) => session_of(self@, user_id) is Some && t@ == session_of(
                    self@,
                    user_id,
                )->Some_0.token,
                None => session_of(self@, user_id) is None,
            },
    {
        match self.find_session(user_id) {
            Some(k) => {
                proof {
                    assert(self@[k as int] == self.sessions@[k as int]@);
                }
                Some(clone_string(&self.sessions[k].token))
            },
            None => None,
        }
    }

    /// Validates a token: succeeds exactly when the user has a session whose
    /// token matches character for character.
    pub fn check_token(&self, user_id: u64, token: &str) -> (r: Result<(), Error>)
        ensures
            r is Ok <==> (match session_of(self@, user_id) {
                Some(s) => s.token == token@,
                None => false,
            }),
            r is Err ==> r->Err_0 == Error::AuthenticationFailed,
    {
        match self.find_session(user_id) {
            Some(k) => {
                proof {
                    assert(self@[k as int] == self.sessions@[k as int]@);
                }
                if ct_eq_str(self.sessions[k].token.as_str(), token) {
                    Ok(())
                } else {
                    Err(Error::AuthenticationFailed)
                }
            },
            None => Err(Error::AuthenticationFailed),
        }
    }

    /// The user's session, if any.
    pub fn get_session(&self, user_id: u64) -> (r: Option<&Session>)
        ensures
            match r {
                Some(s) => session_of(self@, user_id) == Some(s@),
                None => session_of(self@, user_id) is None,
            },
    {
        match self.find_session(user_id) {
            Some(k) => {
                proof {
                    assert(self@[k as int] == self.sessions@[k as int]@);
                }
                Some(&self.sessions[k])
            },
            None => None,
        }
    }

    /// Deletes the user's session; reports whether one was present.
    pub fn revoke_token(&mut self, user_id: u64) -> (r: bool)
        requires
            old(self).wf(),
        ensures
            final(self).wf(),
            final(self).spec_tick() == old(self).spec_tick(),
            r == (session_of(old(self)@, user_id) is Some),
            session_of(final(self)@, user_id) is None,
            forall|u: u64|
                u != user_id ==> #[trigger] session_of(final(self)@, u) == session_of(
                    old(self)@,
                    u,
                ),
    {
        let ghost oldv = self@;
        match self.find_session(user_id) {
            Some(k) => {
                proof {
                    lemma_first_where_bounds(oldv, |s: SessionV| s.user_id == user_id);
                }
                self.sessions.remove(k);
                proof {
                    assert forall|t: int| 0 <= t < self@.len() implies #[trigger] self@[t] == (
                    if t < k {
                        oldv[t]
                    } else {
                        oldv[t + 1]
                    }) by {
                        assert(self@[t] == self.sessions@[t]@);
                    }
                    lemma_sessions_removed(oldv, self@, k as int, user_id);
                }
                true
            },
            None => false,
        }
    }
}

/// The session record for `user_id`, if any.
pub open spec fn session_of(sessions: Seq<SessionV>, user_id: u64) -> Option<SessionV> {
    match session_idx(sessions, user_id) {
        Some(i) => Some(sessions[i]),
        None => None,
    }
}

/// After removing the session at `k` (the one for `user_id`), the user has
/// none and every other user's session is unchanged.
proof fn lemma_sessions_removed(oldv: Seq<SessionV>, newv: Seq<SessionV>, k: int, user_id: u64)
    requires
        0 <= k < oldv.len(),
        newv.len() == oldv.len() - 1,
        forall|t: int|
            0 <= t < newv.len() ==> #[trigger] newv[t] == (if t < k {
                oldv[t]
            } else {
                oldv[t + 1]
            }),
        oldv[k].user_id == user_id,
        forall|i: int, j: int|
            0 <= i < j < oldv.len() ==> (#[trigger] oldv[i]).user_id != (
            #[trigger] oldv[j]).user_id,
        forall|i: int| 0 <= i < oldv.len() ==> is_token((#[trigger] oldv[i]).token),
    ensures
        forall|i: int, j: int|
            0 <= i < j < newv.len() ==> (#[trigger] newv[i]).user_id != (
            #[trigger] newv[j]).user_id,
        forall|i: int| 0 <= i < newv.len() ==> is_token((#[trigger] newv[i]).token),
        session_of(newv, user_id) is None,
        forall|u: u64| u != user_id ==> #[trigger] session_of(newv, u) == session_of(oldv, u),
{
    assert forall|i: int, j: int| 0 <= i < j < newv.len()
        implies (#[trigger] newv[i]).user_id != (#[trigger] newv[j]).user_id by {
        let it = if i < k {
            i
        } else {
            i + 1
        };
        let jt = if j < k {
            j
        } else {
            j + 1
        };
        assert(newv[i] == oldv[it] && newv[j] == oldv[jt]);
    }
    assert forall|i: int| 0 <= i < newv.len() implies is_token((#[trigger] newv[i]).token) by {
        if i < k {
            assert(newv[i] == oldv[i]);
        } else {
            assert(newv[i] == oldv[i + 1]);
        }
    }
    lemma_first_where_bounds(newv, |s: SessionV| s.user_id == user_id);
    if session_idx(newv, user_id) is Some {
        let t = session_idx(newv, user_id)->Some_0;
        assert(newv[t].user_id == user_id);
        let ot = if t < k {
            t
        } else {
            t + 1
        };
        assert(newv[t] == oldv[ot]);
        assert(ot != k);
    }
    assert forall|u: u64| u != user_id
        implies #[trigger] session_of(newv, u) == session_of(oldv, u) by {
        lemma_first_where_bounds(oldv, |s: SessionV| s.user_id == u);
        lemma_first_where_bounds(newv, |s: SessionV| s.user_id == u);
        match session_idx(oldv, u) {
            Some(oi) => {
                assert(oi != k);
                let ni = if oi < k {
                    oi
                } else {
                    oi - 1
                };
                assert(newv[ni] == oldv[oi]);
                assert forall|j: int| 0 <= j < ni implies (#[trigger] newv[j]).user_id != u by {
                    let jo = if j < k {
                        j
                    } else {
                        j + 1
                    };
                    assert(newv[j] == oldv[jo]);
                }
                lemma_first_where_holds(newv, |s: SessionV| s.user_id == u, ni);
            },
            None => {
                if session_idx(newv, u) is Some {
                    let t = session_idx(newv, u)->Some_0;
                    let ot = if t < k {
                        t
                    } else {
                        t + 1
                    };
                    assert(newv[t] == oldv[ot]);
                }
            },
        }
    }
}

/// Pushing a session for `user_id` leaves every other user's session alone.
proof fn lemma_session_of_push_other(midv: Seq<SessionV>, newv: Seq<SessionV>, u: u64, user_id: u64)
    requires
        u != user_id,
        newv.len() == midv.len() + 1,
        forall|t: int| 0 <= t < midv.len() ==> #[trigger] newv[t] == midv[t],
        newv[newv.len() - 1].user_id == user_id,
    ensures
        session_of(newv, u) == session_of(midv, u),
{
    lemma_first_where_bounds(midv, |s: SessionV| s.user_id == u);
    lemma_first_where_bounds(newv, |s: SessionV| s.user_id == u);
    match session_idx(midv, u) {
        Some(oi) => {
            assert(newv[oi] == midv[oi]);
            assert forall|j: int| 0 <= j < oi implies (#[trigger] newv[j]).user_id != u by {
                assert(newv[j] == midv[j]);
            }
            lemma_first_where_holds(newv, |s: SessionV| s.user_id == u, oi);
        },
        None => {
            if session_idx(newv, u) is Some {
                let t = session_idx(newv, u)->Some_0;
                assert(newv[t].user_id == u);
                if t < midv.len() {
                    assert(newv[t] == midv[t]);
                }
            }
        },
    }
}

} // verus!
