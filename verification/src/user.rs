//! User records and the user manager.
//!
//! User ids are assigned consecutively from 1. Names and emails are unique;
//! the email is trimmed and ASCII-lowercased before storage; the username is
//! stored as supplied but must match `[A-Za-z0-9_-]{3,24}`. Deleting a user
//! only marks the record (soft delete).

use vstd::prelude::*;

use crate::error::Error;
use crate::text::{chars_string, first_where, lemma_first_where_bounds, lemma_first_where_holds,
    str_eq};

verus! {

/// One user record.
pub struct User {
    /// The identity, `position + 1`.
    pub user_id: u64,
    /// The username, matching `[A-Za-z0-9_-]{3,24}`; unique.
    pub name: String,
    /// The normalized email; unique.
    pub email: String,
    /// Whether the email was verified.
    pub is_verified: bool,
    /// Whether the account is a bot.
    pub is_bot: bool,
    /// Free-form profile field.
    pub author_page: String,
    /// Free-form profile field.
    pub website: String,
    /// Free-form profile field.
    pub about: String,
    /// Free-form profile field.
    pub gender: String,
    /// Free-form profile field.
    pub location: String,
    /// Logical creation timestamp (the user's id).
    pub created_at: u64,
    /// Present exactly when the user is soft-deleted.
    pub deleted_at: Option<u64>,
}

/// The mathematical shape of a user record.
pub ghost struct UserV {
    /// The identity.
    pub user_id: u64,
    /// The username.
    pub name: Seq<char>,
    /// The normalized email.
    pub email: Seq<char>,
    /// Whether the email was verified.
    pub is_verified: bool,
    /// Whether the account is a bot.
    pub is_bot: bool,
    /// Free-form profile field.
    pub author_page: Seq<char>,
    /// Free-form profile field.
    pub website: Seq<char>,
    /// Free-form profile field.
    pub about: Seq<char>,
    /// Free-form profile field.
    pub gender: Seq<char>,
    /// Free-form profile field.
    pub location: Seq<char>,
    /// Logical creation timestamp.
    pub created_at: u64,
    /// Present exactly when soft-deleted.
    pub deleted_at: Option<u64>,
}

impl View for User {
    type V = UserV;

    open spec fn view(&self) -> UserV {
        UserV {
            user_id: self.user_id,
            name: self.name@,
            email: self.email@,
            is_verified: self.is_verified,
            is_bot: self.is_bot,
            author_page: self.author_page@,
            website: self.website@,
            about: self.about@,
            gender: self.gender@,
            location: self.location@,
            created_at: self.created_at,
            deleted_at: self.deleted_at,
        }
    }
}

impl User {
    /// The user's id.
    pub fn id(&self) -> (r: u64)
        ensures
            r == self@.user_id,
    {
        self.user_id
    }

    /// The username.
    pub fn name(&self) -> (r: &str)
        ensures
            r@ == self@.name,
    {
        self.name.as_str()
    }

    /// The normalized email.
    pub fn email(&self) -> (r: &str)
        ensures
            r@ == self@.email,
    {
        self.email.as_str()
    }

    /// Whether the email was verified.
    pub fn is_verified(&self) -> (r: bool)
        ensures
            r == self@.is_verified,
    {
        self.is_verified
    }

    /// Whether the account is a bot.
    pub fn is_bot(&self) -> (r: bool)
        ensures
            r == self@.is_bot,
    {
        self.is_bot
    }

    /// The author-page field.
    pub fn author_page(&self) -> (r: &str)
        ensures
            r@ == self@.author_page,
    {
        self.author_page.as_str()
    }

    /// The website field.
    pub fn website(&self) -> (r: &str)
        ensures
            r@ == self@.website,
    {
        self.website.as_str()
    }

    /// The about field.
    pub fn about(&self) -> (r: &str)
        ensures
            r@ == self@.about,
    {
        self.about.as_str()
    }

    /// The gender field.
    pub fn gender(&self) -> (r: &str)
        ensures
            r@ == self@.gender,
    {
        self.gender.as_str()
    }

    /// The location field.
    pub fn location(&self) -> (r: &str)
        ensures
            r@ == self@.location,
    {
        self.location.as_str()
    }

    /// The logical creation timestamp.
    pub fn created_at(&self) -> (r: u64)
        ensures
            r == self@.created_at,
    {
        self.created_at
    }

    /// The logical deletion timestamp, if soft-deleted.
    pub fn deleted_at(&self) -> (r: Option<u64>)
        ensures
            r == self@.deleted_at,
    {
        self.deleted_at
    }

    /// A user is active exactly when not soft-deleted.
    pub fn is_active(&self) -> (r: bool)
        ensures
            r == (self@.deleted_at is None),
    {
        self.deleted_at.is_none()
    }
}

/// A character allowed in a username.
pub open spec fn is_username_char(c: char) -> bool {
    ||| (97 <= c as int && c as int <= 122)
    ||| (65 <= c as int && c as int <= 90)
    ||| (48 <= c as int && c as int <= 57)
    ||| c == '_'
    ||| c == '-'
}

/// A valid username: 3 to 24 characters of `[A-Za-z0-9_-]`.
pub open spec fn valid_username(s: Seq<char>) -> bool {
    &&& 3 <= s.len() <= 24
    &&& forall|i: int| 0 <= i < s.len() ==> is_username_char(#[trigger] s[i])
}

/// Whether `name` is a valid username.
pub fn is_valid_username(name: &str) -> (r: bool)
    ensures
        r == valid_username(name@),
{
    let len = name.unicode_len();
    if len < 3 || len > 24 {
        return false;
    }
    let mut i: usize = 0;
    while i < len
        invariant
            len == name@.len(),
            i <= len,
            forall|j: int| 0 <= j < i ==> is_username_char(#[trigger] name@[j]),
        decreases len - i,
    {
        let c = name.get_char(i);
        let ok = ('a' <= c && c <= 'z') || ('A' <= c && c <= 'Z') || ('0' <= c && c <= '9') || c
            == '_' || c == '-';
        if !ok {
            return false;
        }
        i += 1;
    }
    true
}

/// The ASCII-lowercased form of a character.
pub open spec fn lower_char(c: char) -> char {
    if 65 <= c as int && c as int <= 90 {
        ((c as int + 32) as u8) as char
    } else {
        c
    }
}

/// ASCII whitespace trimmed at both ends.
pub open spec fn is_ws(c: char) -> bool {
    c == ' ' || c == '\t' || c == '\r' || c == '\n'
}

/// Leading whitespace removed.
pub open spec fn trim_leading(s: Seq<char>) -> Seq<char>
    decreases s.len(),
{
    if s.len() > 0 && is_ws(s[0]) {
        trim_leading(s.drop_first())
    } else {
        s
    }
}

/// Trailing whitespace removed.
pub open spec fn trim_trailing(s: Seq<char>) -> Seq<char>
    decreases s.len(),
{
    if s.len() > 0 && is_ws(s[s.len() - 1]) {
        trim_trailing(s.drop_last())
    } else {
        s
    }
}

/// The normalized form of an email: trimmed, then ASCII-lowercased.
pub open spec fn email_norm(s: Seq<char>) -> Seq<char> {
    trim_trailing(trim_leading(s)).map_values(|c: char| lower_char(c))
}

/// Normalizes an email address.
pub fn normalize_email(email: &str) -> (r: String)
    ensures
        r@ == email_norm(email@),
{
    let chars = collect_chars(email);
    let t1 = trim_lead_exec(chars);
    let t2 = trim_trail_exec(t1);
    let lowered = lower_exec(&t2);
    chars_string(&lowered)
}

/// The characters of a string slice, in order.
pub fn collect_chars(s: &str) -> (r: Vec<char>)
    ensures
        r@ == s@,
{
    let len = s.unicode_len();
    let mut out: Vec<char> = Vec::new();
    let mut i: usize = 0;
    while i < len
        invariant
            len == s@.len(),
            i <= len,
            out@ =~= s@.subrange(0, i as int),
        decreases len - i,
    {
        out.push(s.get_char(i));
        proof {
            assert(out@ =~= s@.subrange(0, i + 1));
        }
        i += 1;
    }
    proof {
        assert(s@.subrange(0, len as int) =~= s@);
    }
    out
}

fn trim_lead_exec(v: Vec<char>) -> (r: Vec<char>)
    ensures
        r@ == trim_leading(v@),
    decreases v@.len(),
{
    if v.len() > 0 {
        let c = v[0];
        if c == ' ' || c == '\t' || c == '\r' || c == '\n' {
            let ghost orig = v@;
            let mut v2 = v;
            v2.remove(0);
            proof {
                assert(v2@ =~= orig.drop_first());
            }
            return trim_lead_exec(v2);
        }
    }
    v
}

fn trim_trail_exec(v: Vec<char>) -> (r: Vec<char>)
    ensures
        r@ == trim_trailing(v@),
    decreases v@.len(),
{
    if v.len() > 0 {
        let c = v[v.len() - 1];
        if c == ' ' || c == '\t' || c == '\r' || c == '\n' {
            let ghost orig = v@;
            let mut v2 = v;
            v2.pop();
            proof {
                assert(v2@ =~= orig.drop_last());
            }
            return trim_trail_exec(v2);
        }
    }
    v
}

fn lower_exec(v: &Vec<char>) -> (r: Vec<char>)
    ensures
        r@ == v@.map_values(|c: char| lower_char(c)),
{
    let mut out: Vec<char> = Vec::new();
    let mut i: usize = 0;
    while i < v.len()
        invariant
            i <= v@.len(),
            out@ =~= v@.subrange(0, i as int).map_values(|c: char| lower_char(c)),
        decreases v@.len() - i,
    {
        let c = v[i];
        if 'A' <= c && c <= 'Z' {
            out.push((((c as u8) + 32)) as char);
        } else {
            out.push(c);
        }
        proof {
            assert(v@.subrange(0, i + 1).map_values(|c: char| lower_char(c)) =~= v@.subrange(
                0,
                i as int,
            ).map_values(|c: char| lower_char(c)).push(lower_char(v@[i as int])));
        }
        i += 1;
    }
    proof {
        assert(v@.subrange(0, v@.len() as int) =~= v@);
    }
    out
}

/// ASCII-lowercases a string (other characters are kept).
pub fn to_lowercase(s: &str) -> (r: String)
    ensures
        r@ == s@.map_values(|c: char| lower_char(c)),
{
    let chars = collect_chars(s);
    let lowered = lower_exec(&chars);
    chars_string(&lowered)
}

/// The trimmed form of a line as a `String`, or `None` when it trims to
/// nothing.
pub fn chars_of_trimmed_line(cur: Vec<char>) -> (r: Option<String>)
    ensures
        match r {
            Some(s) => trim_trailing(trim_leading(cur@)).len() > 0 && s@ == trim_trailing(
                trim_leading(cur@),
            ),
            None => trim_trailing(trim_leading(cur@)).len() == 0,
        },
{
    let t1 = trim_lead_exec(cur);
    let t2 = trim_trail_exec(t1);
    if t2.len() == 0 {
        None
    } else {
        Some(chars_string(&t2))
    }
}

/// The index of the user with the given name, if any.
pub open spec fn user_name_idx(users: Seq<UserV>, name: Seq<char>) -> Option<int> {
    first_where(users, |u: UserV| u.name == name)
}

/// The index of the user with the given (normalized) email, if any.
pub open spec fn user_email_idx(users: Seq<UserV>, email: Seq<char>) -> Option<int> {
    first_where(users, |u: UserV| u.email == email)
}

/// The user manager: the table of user records.
pub struct UserManager {
    users: Vec<User>,
    tick: u64,
}

impl View for UserManager {
    type V = Seq<UserV>;

    closed spec fn view(&self) -> Seq<UserV> {
        self.users@.map_values(|u: User| u@)
    }
}

impl UserManager {
    /// Well-formed table: ids follow positions, names and emails unique.
    pub open spec fn wf(&self) -> bool {
        &&& forall|i: int| 0 <= i < self@.len() ==> (#[trigger] self@[i]).user_id == i + 1
        &&& forall|i: int, j: int|
            0 <= i < j < self@.len() ==> (#[trigger] self@[i]).name != (#[trigger] self@[j]).name
        &&& forall|i: int, j: int|
            0 <= i < j < self@.len() ==> (#[trigger] self@[i]).email != (#[trigger] self@[j]).email
    }

    /// Room for one more user.
    pub open spec fn can_create(&self) -> bool {
        self@.len() < 0xffff_ffff_ffff_ffff
    }

    /// Creates an empty table.
    pub fn new() -> (s: Self)
        ensures
            s@ =~= Seq::<UserV>::empty(),
            s.wf(),
            s.spec_tick() == 0,
    {
        let s = UserManager { users: Vec::new(), tick: 0 };
        proof {
            assert(s@ =~= Seq::<UserV>::empty());
        }
        s
    }

    /// Creates a user. The name must be a valid username and unused; the
    /// email is normalized and must be unused. Returns the new user's id.
    pub fn create(&mut self, name: &str, email: &str) -> (r: Result<u64, Error>)
        requires
            old(self).wf(),
            old(self).can_create(),
        ensures
            final(self).wf(),
            final(self).spec_tick() == old(self).spec_tick(),
            match r {
                Ok(id) => {
                    &&& valid_username(name@)
                    &&& user_name_idx(old(self)@, name@) is None
                    &&& user_email_idx(old(self)@, email_norm(email@)) is None
                    &&& id == old(self)@.len() + 1
                    &&& final(self)@ == old(self)@.push(
                        (UserV {
                            user_id: (old(self)@.len() + 1) as u64,
                            name: name@,
                            email: email_norm(email@),
                            is_verified: false,
                            is_bot: false,
                            author_page: Seq::empty(),
                            website: Seq::empty(),
                            about: Seq::empty(),
                            gender: Seq::empty(),
                            location: Seq::empty(),
                            created_at: (old(self)@.len() + 1) as u64,
                            deleted_at: None,
                        }),
                    )
                },
                Err(e) => {
                    &&& final(self)@ == old(self)@
                    &&& match e {
                        Error::UserInvalid(_) => !valid_username(name@) || user_name_idx(
                            old(self)@,
                            name@,
                        ) is Some || user_email_idx(old(self)@, email_norm(email@)) is Some,
                        _ => false,
                    }
                },
            },
    {
        if !is_valid_username(name) {
            return Err(Error::UserInvalid("invalid username".to_owned()));
        }
        let email_n = normalize_email(email);
        if let Some(_) = self.find_name(name) {
            return Err(Error::UserInvalid("username already used".to_owned()));
        }
        if let Some(_) = self.find_email(email_n.as_str()) {
            return Err(Error::UserInvalid("email already used".to_owned()));
        }
        let id = (self.users.len() as u64) + 1;
        let u = User {
            user_id: id,
            name: name.to_owned(),
            email: email_n,
            is_verified: false,
            is_bot: false,
            author_page: String::new(),
            website: String::new(),
            about: String::new(),
            gender: String::new(),
            location: String::new(),
            created_at: id,
            deleted_at: None,
        };
        self.users.push(u);
        proof {
            assert(final(self)@ =~= old(self)@.push(
                (UserV {
                    user_id: (old(self)@.len() + 1) as u64,
                    name: name@,
                    email: email_norm(email@),
                    is_verified: false,
                    is_bot: false,
                    author_page: Seq::empty(),
                    website: Seq::empty(),
                    about: Seq::empty(),
                    gender: Seq::empty(),
                    location: Seq::empty(),
                    created_at: (old(self)@.len() + 1) as u64,
                    deleted_at: None,
                }),
            ));
            lemma_first_where_bounds(old(self)@, |u: UserV| u.name == name@);
            lemma_first_where_bounds(old(self)@, |u: UserV| u.email == email_norm(email@));
            assert forall|i: int| 0 <= i < final(self)@.len()
                implies (#[trigger] final(self)@[i]).user_id == i + 1 by {
                if i < old(self)@.len() {
                    assert(final(self)@[i] == old(self)@[i]);
                }
            }
            assert forall|i: int, j: int| 0 <= i < j < final(self)@.len()
                implies (#[trigger] final(self)@[i]).name != (#[trigger] final(self)@[j]).name by {
                assert(final(self)@[i] == old(self)@[i]);
                if j < old(self)@.len() {
                    assert(final(self)@[j] == old(self)@[j]);
                }
            }
            assert forall|i: int, j: int| 0 <= i < j < final(self)@.len()
                implies (#[trigger] final(self)@[i]).email != (
                #[trigger] final(self)@[j]).email by {
                assert(final(self)@[i] == old(self)@[i]);
                if j < old(self)@.len() {
                    assert(final(self)@[j] == old(self)@[j]);
                }
            }
        }
        Ok(id)
    }

    /// The position of the user with this name.
    fn find_name(&self, name: &str) -> (r: Option<usize>)
        ensures
            match r {
                Some(k) => k < self@.len() && user_name_idx(self@, name@) == Some(k as int),
                None => user_name_idx(self@, name@) is None,
            },
    {
        let mut i: usize = 0;
        while i < self.users.len()
            invariant
                i <= self.users@.len(),
                self@.len() == self.users@.len(),
                forall|j: int| 0 <= j < i ==> (#[trigger] self@[j]).name != name@,
            decreases self.users@.len() - i,
        {
            proof {
                assert(self@[i as int] == self.users@[i as int]@);
            }
            if str_eq(self.users[i].name.as_str(), name) {
                proof {
                    lemma_first_where_holds(self@, |u: UserV| u.name == name@, i as int);
                }
                return Some(i);
            }
            i += 1;
        }
        proof {
            lemma_first_where_bounds(self@, |u: UserV| u.name == name@);
        }
        None
    }

    /// The position of the user with this (already normalized) email.
    fn find_email(&self, email: &str) -> (r: Option<usize>)
        ensures
            match r {
                Some(k) => k < self@.len() && user_email_idx(self@, email@) == Some(k as int),
                None => user_email_idx(self@, email@) is None,
            },
    {
        let mut i: usize = 0;
        while i < self.users.len()
            invariant
                i <= self.users@.len(),
                self@.len() == self.users@.len(),
                forall|j: int| 0 <= j < i ==> (#[trigger] self@[j]).email != email@,
            decreases self.users@.len() - i,
        {
            proof {
                assert(self@[i as int] == self.users@[i as int]@);
            }
            if str_eq(self.users[i].email.as_str(), email) {
                proof {
                    lemma_first_where_holds(self@, |u: UserV| u.email == email@, i as int);
                }
                return Some(i);
            }
            i += 1;
        }
        proof {
            lemma_first_where_bounds(self@, |u: UserV| u.email == email@);
        }
        None
    }

    /// The user with the given id, if any.
    pub fn get_by_id(&self, user_id: u64) -> (r: Option<&User>)
        ensures
            match r {
                Some(u) => 1 <= user_id <= self@.len() && u@ == self@[user_id - 1],
                None => !(1 <= user_id <= self@.len()),
            },
    {
        if user_id >= 1 && user_id <= self.users.len() as u64 {
            let k = (user_id - 1) as usize;
            proof {
                assert(self@[k as int] == self.users@[k as int]@);
            }
            Some(&self.users[k])
        } else {
            None
        }
    }

    /// The user with the given name, if any.
    pub fn get_by_name(&self, name: &str) -> (r: Option<&User>)
        ensures
            match r {
                Some(u) => {
                    &&& user_name_idx(self@, name@) is Some
                    &&& u@ == self@[user_name_idx(self@, name@)->Some_0]
                },
                None => user_name_idx(self@, name@) is None,
            },
    {
        match self.find_name(name) {
            Some(k) => {
                proof {
                    assert(self@[k as int] == self.users@[k as int]@);
                }
                Some(&self.users[k])
            },
            None => None,
        }
    }

    /// Partially updates the free-form profile fields; `None` leaves a field
    /// unchanged. Fails with `UserNotFound` for a bad id.
    pub fn edit(
        &mut self,
        user_id: u64,
        author_page: Option<&str>,
        website: Option<&str>,
        about: Option<&str>,
        gender: Option<&str>,
        location: Option<&str>,
    ) -> (r: Result<(), Error>)
        requires
            old(self).wf(),
        ensures
            final(self).wf(),
            final(self).spec_tick() == old(self).spec_tick(),
            match r {
                Ok(()) => {
                    &&& 1 <= user_id <= old(self)@.len()
                    &&& final(self)@.len() == old(self)@.len()
                    &&& final(self)@[user_id - 1] == (UserV {
                        author_page: match author_page {
                            Some(s) => s@,
                            None => old(self)@[user_id - 1].author_page,
                        },
                        website: match website {
                            Some(s) => s@,
                            None => old(self)@[user_id - 1].website,
                        },
                        about: match about {
                            Some(s) => s@,
                            None => old(self)@[user_id - 1].about,
                        },
                        gender: match gender {
                            Some(s) => s@,
                            None => old(self)@[user_id - 1].gender,
                        },
                        location: match location {
                            Some(s) => s@,
                            None => old(self)@[user_id - 1].location,
                        },
                        ..old(self)@[user_id - 1]
                    })
                    &&& forall|j: int|
                        0 <= j < old(self)@.len() && j != user_id - 1 ==> final(self)@[j] == old(
                            self,
                        )@[j]
                },
                Err(e) => {
                    &&& e == Error::UserNotFound
                    &&& !(1 <= user_id <= old(self)@.len())
                    &&& final(self)@ == old(self)@
                },
            },
    {
        if !(user_id >= 1 && user_id <= self.users.len() as u64) {
            return Err(Error::UserNotFound);
        }
        let k = (user_id - 1) as usize;
        let ghost oldv = self@;
        if let Some(s) = author_page {
            let u = &mut self.users[k];
            u.author_page = s.to_owned();
        }
        if let Some(s) = website {
            let u = &mut self.users[k];
            u.website = s.to_owned();
        }
        if let Some(s) = about {
            let u = &mut self.users[k];
            u.about = s.to_owned();
        }
        if let Some(s) = gender {
            let u = &mut self.users[k];
            u.gender = s.to_owned();
        }
        if let Some(s) = location {
            let u = &mut self.users[k];
            u.location = s.to_owned();
        }
        proof {
            self.lemma_profile_update(oldv, k as int);
        }
        Ok(())
    }

    /// After a profile-field update at `k`, uniqueness and ids still hold.
    proof fn lemma_profile_update(&self, oldv: Seq<UserV>, k: int)
        requires
            0 <= k < oldv.len(),
            self@.len() == oldv.len(),
            forall|i: int| 0 <= i < oldv.len() ==> (#[trigger] oldv[i]).user_id == i + 1,
            forall|i: int, j: int|
                0 <= i < j < oldv.len() ==> (#[trigger] oldv[i]).name != (#[trigger] oldv[j]).name,
            forall|i: int, j: int|
                0 <= i < j < oldv.len() ==> (#[trigger] oldv[i]).email != (
                #[trigger] oldv[j]).email,
            forall|i: int|
                0 <= i < self@.len() && i != k ==> #[trigger] self@[i] == oldv[i],
            self@[k].user_id == oldv[k].user_id,
            self@[k].name == oldv[k].name,
            self@[k].email == oldv[k].email,
        ensures
            self.wf(),
    {
        assert forall|i: int| 0 <= i < self@.len()
            implies (#[trigger] self@[i]).user_id == i + 1 by {
            if i != k {
                assert(self@[i] == oldv[i]);
            }
        }
        assert forall|i: int, j: int| 0 <= i < j < self@.len()
            implies (#[trigger] self@[i]).name != (#[trigger] self@[j]).name by {
            if i != k && j != k {
                assert(self@[i] == oldv[i] && self@[j] == oldv[j]);
            } else if i == k {
                assert(self@[j] == oldv[j]);
            } else {
                assert(self@[i] == oldv[i]);
            }
        }
        assert forall|i: int, j: int| 0 <= i < j < self@.len()
            implies (#[trigger] self@[i]).email != (#[trigger] self@[j]).email by {
            if i != k && j != k {
                assert(self@[i] == oldv[i] && self@[j] == oldv[j]);
            } else if i == k {
                assert(self@[j] == oldv[j]);
            } else {
                assert(self@[i] == oldv[i]);
            }
        }
    }

    /// Marks the user's email as verified.
    pub fn mark_verified(&mut self, user_id: u64) -> (r: Result<(), Error>)
        requires
            old(self).wf(),
        ensures
            final(self).wf(),
            final(self).spec_tick() == old(self).spec_tick(),
            match r {
                Ok(()) => {
                    &&& 1 <= user_id <= old(self)@.len()
                    &&& final(self)@.len() == old(self)@.len()
                    &&& final(self)@[user_id - 1] == (UserV {
                        is_verified: true,
                        ..old(self)@[user_id - 1]
                    })
                    &&& forall|j: int|
                        0 <= j < old(self)@.len() && j != user_id - 1 ==> final(self)@[j] == old(
                            self,
                        )@[j]
                },
                Err(e) => {
                    &&& e == Error::UserNotFound
                    &&& !(1 <= user_id <= old(self)@.len())
                    &&& final(self)@ == old(self)@
                },
            },
    {
        if !(user_id >= 1 && user_id <= self.users.len() as u64) {
            return Err(Error::UserNotFound);
        }
        let k = (user_id - 1) as usize;
        let ghost oldv = self@;
        let u = &mut self.users[k];
        u.is_verified = true;
        proof {
            self.lemma_profile_update(oldv, k as int);
        }
        Ok(())
    }

    /// Soft-deletes the user: sets `deleted_at`; the record remains.
    pub fn soft_delete(&mut self, user_id: u64) -> (r: Result<(), Error>)
        requires
            old(self).wf(),
            old(self).tick_ok(),
        ensures
            final(self).wf(),
            final(self).spec_tick() <= old(self).spec_tick() + 1,
            match r {
                Ok(()) => {
                    &&& 1 <= user_id <= old(self)@.len()
                    &&& final(self)@.len() == old(self)@.len()
                    &&& final(self)@[user_id - 1].deleted_at is Some
                    &&& final(self)@[user_id - 1] == (UserV {
                        deleted_at: final(self)@[user_id - 1].deleted_at,
                        ..old(self)@[user_id - 1]
                    })
                    &&& forall|j: int|
                        0 <= j < old(self)@.len() && j != user_id - 1 ==> final(self)@[j] == old(
                            self,
                        )@[j]
                },
                Err(e) => {
                    &&& e == Error::UserNotFound
                    &&& !(1 <= user_id <= old(self)@.len())
                    &&& final(self)@ == old(self)@
                },
            },
    {
        if !(user_id >= 1 && user_id <= self.users.len() as u64) {
            return Err(Error::UserNotFound);
        }
        let k = (user_id - 1) as usize;
        let ghost oldv = self@;
        self.tick = self.tick + 1;
        let t = self.tick;
        let u = &mut self.users[k];
        u.deleted_at = Some(t);
        proof {
            self.lemma_profile_update(oldv, k as int);
        }
        Ok(())
    }

    /// Clears a soft delete: the user can authenticate and author again.
    pub fn undelete(&mut self, user_id: u64) -> (r: Result<(), Error>)
        requires
            old(self).wf(),
        ensures
            final(self).wf(),
            final(self).spec_tick() == old(self).spec_tick(),
            match r {
                Ok(()) => {
                    &&& 1 <= user_id <= old(self)@.len()
                    &&& final(self)@.len() == old(self)@.len()
                    &&& final(self)@[user_id - 1] == (UserV {
                        deleted_at: None,
                        ..old(self)@[user_id - 1]
                    })
                    &&& forall|j: int|
                        0 <= j < old(self)@.len() && j != user_id - 1 ==> final(self)@[j] == old(
                            self,
                        )@[j]
                },
                Err(e) => {
                    &&& e == Error::UserNotFound
                    &&& !(1 <= user_id <= old(self)@.len())
                    &&& final(self)@ == old(self)@
                },
            },
    {
        if !(user_id >= 1 && user_id <= self.users.len() as u64) {
            return Err(Error::UserNotFound);
        }
        let k = (user_id - 1) as usize;
        let ghost oldv = self@;
        let u = &mut self.users[k];
        u.deleted_at = None;
        proof {
            self.lemma_profile_update(oldv, k as int);
        }
        Ok(())
    }

    /// The logical clock has room to advance.
    pub open spec fn tick_ok(&self) -> bool {
        self.spec_tick() < 0xffff_ffff_ffff_ffff
    }

    /// The logical clock.
    pub closed spec fn spec_tick(&self) -> u64 {
        self.tick
    }

    /// The logical clock's current value, so unverified callers can test
    /// `tick_ok` before a soft delete.
    pub fn tick(&self) -> (r: u64)
        ensures
            r == self.spec_tick(),
    {
        self.tick
    }
}

} // verus!
