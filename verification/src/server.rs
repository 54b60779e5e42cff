//! The server facade: one instance of each component, and the verbs that
//! compose them.
//!
//! The components are public fields, so callers can reach each one's full
//! interface directly; the methods here exist for the operations that cross
//! components: creating a user together with its password record, creating
//! a wiki together with its revision store, and authenticating before
//! issuing a session token.

use vstd::prelude::*;
use vstd::string::StringSliceAdditionalSpecFns;

use crate::error::Error;
use crate::page::{PageService, StoreEntryV, store_idx};
use crate::password::{PasswordManager, new_record_ok, policy_violation, record_idx,
    password_matches, MAX_PASSWORD_LEN};
use crate::tags::has_tag;
use crate::text::{lemma_first_where_bounds, lemma_first_where_holds, lemma_first_where_pointwise};
use crate::session::{SessionManager, Session, SessionV, IpNet, is_token, session_of};
use crate::slug::normalize_chars;
use crate::user::{UserManager, lower_char, to_lowercase, valid_username, email_norm,
    user_name_idx, user_email_idx};
use crate::wiki::{Wiki, WikiService, wiki_slug_idx, wiki_domain_idx};

verus! {

/// The assembled core: catalog, pages, users, passwords and sessions.
pub struct Server {
    /// The page service.
    pub pages: PageService,
    /// The wiki catalog.
    pub wikis: WikiService,
    /// The user manager.
    pub users: UserManager,
    /// The password engine.
    pub passwords: PasswordManager,
    /// The session manager.
    pub sessions: SessionManager,
}

/// The catalog and the store map stay coupled: a revision store exists
/// exactly for the wikis the catalog holds (ids `1..=n_wikis`). This is what
/// lets the facade promise that registering a store for a fresh wiki and
/// updating an existing wiki's store always succeed.
pub open spec fn catalog_coupled(stores: Seq<StoreEntryV>, n_wikis: int) -> bool {
    &&& forall|w: u64| #[trigger] store_idx(stores, w) is Some ==> 1 <= w <= n_wikis
    &&& forall|w: u64| 1 <= w <= n_wikis ==> (#[trigger] store_idx(stores, w)) is Some
}

impl Server {
    /// Every component is well formed, and every catalog wiki has a store
    /// (and no store is orphaned).
    pub open spec fn wf(&self) -> bool {
        &&& self.pages@.wf()
        &&& self.wikis.wf()
        &&& self.users.wf()
        &&& self.passwords.wf()
        &&& self.sessions.wf()
        &&& catalog_coupled(self.pages@.stores, self.wikis@.len() as int)
    }

    /// Assembles an empty core over the given password blacklist.
    pub fn new(blacklist: Vec<String>) -> (s: Server)
        ensures
            s.wf(),
            s.pages@.pages.len() == 0,
            s.pages@.revisions.len() == 0,
            s.pages@.stores.len() == 0,
            s.wikis@.len() == 0,
            s.users@.len() == 0,
            s.passwords.records_view().len() == 0,
            s.passwords.blacklist_view() == blacklist.deep_view(),
            s.sessions@.len() == 0,
            s.sessions.spec_tick() == 0,
            s.users.spec_tick() == 0,
    {
        Server {
            pages: PageService::new(),
            wikis: WikiService::new(),
            users: UserManager::new(),
            passwords: PasswordManager::new(blacklist),
            sessions: SessionManager::new(),
        }
    }

    /// Creates a user with a password: checks the password policy first,
    /// inserts the user row, then stores the password record, so a failure
    /// leaves no partial state. Returns the new user's id.
    pub fn create_user(&mut self, name: &str, email: &str, password: &str) -> (r: Result<
        u64,
        Error,
    >)
        requires
            old(self).wf(),
            old(self).users.can_create(),
        ensures
            final(self).wf(),
            final(self).pages == old(self).pages,
            final(self).wikis == old(self).wikis,
            final(self).sessions == old(self).sessions,
            match r {
                Ok(id) => {
                    &&& valid_username(name@)
                    &&& user_name_idx(old(self).users@, name@) is None
                    &&& user_email_idx(old(self).users@, email_norm(email@)) is None
                    &&& id == old(self).users@.len() + 1
                    &&& final(self).users@.len() == old(self).users@.len() + 1
                    &&& final(self).users@.last().name == name@
                    &&& final(self).users@.last().email == email_norm(email@)
                    &&& record_idx(final(self).passwords.records_view(), id) is Some
                    &&& new_record_ok(
                        final(self).passwords.records_view()[
                            record_idx(final(self).passwords.records_view(), id)->Some_0
                        ],
                        id,
                        password,
                    )
                    &&& password.spec_bytes().len() <= MAX_PASSWORD_LEN
                    &&& password@.len() >= 8
                    &&& !has_tag(old(self).passwords.blacklist_view(), password@)
                },
                Err(e) => {
                    &&& final(self).users@ == old(self).users@
                    &&& final(self).passwords.records_view() == old(self).passwords.records_view()
                    &&& (e is NewPasswordInvalid || e is UserInvalid)
                    &&& ((e is NewPasswordInvalid) <==> policy_violation(
                        old(self).passwords.blacklist_view(),
                        password,
                    ))
                    &&& ((e is UserInvalid) <==> (!policy_violation(
                        old(self).passwords.blacklist_view(),
                        password,
                    ) && (!valid_username(name@) || user_name_idx(
                        old(self).users@,
                        name@,
                    ) is Some || user_email_idx(old(self).users@, email_norm(email@)) is Some)))
                },
            },
    {
        if let Err(e) = self.passwords.verify_password(password) {
            return Err(e);
        }
        let id = match self.users.create(name, email) {
            Ok(id) => id,
            Err(e) => {
                return Err(e);
            },
        };
        let ghost oldrec = self.passwords.records_view();
        match self.passwords.set(id, password) {
            Ok(()) => {},
            Err(_) => {
                // Unreachable: the policy was already checked above against
                // the same password and blacklist.
                proof {
                    assert(false);
                }
                return Err(Error::AuthenticationFailed);
            },
        }
        proof {
            crate::text::lemma_first_where_bounds(
                self.passwords.records_view(),
                |rec: crate::password::PasswordV| rec.user_id == id,
            );
            crate::text::lemma_first_where_bounds(
                oldrec,
                |rec: crate::password::PasswordV| rec.user_id == id,
            );
            let recs = self.passwords.records_view();
            match record_idx(oldrec, id) {
                Some(i) => {
                    assert(recs[i].user_id == id);
                    assert forall|j: int| 0 <= j < i
                        implies (#[trigger] recs[j]).user_id != id by {
                        assert(recs[j] == oldrec[j]);
                    }
                    crate::text::lemma_first_where_holds(
                        recs,
                        |rec: crate::password::PasswordV| rec.user_id == id,
                        i,
                    );
                },
                None => {
                    assert(recs.last().user_id == id);
                    assert forall|j: int| 0 <= j < oldrec.len()
                        implies (#[trigger] recs[j]).user_id != id by {
                        assert(recs[j] == oldrec[j]);
                    }
                    crate::text::lemma_first_where_holds(
                        recs,
                        |rec: crate::password::PasswordV| rec.user_id == id,
                        oldrec.len() as int,
                    );
                },
            }
        }
        Ok(id)
    }

    /// Creates a wiki: normalizes the slug, lowercases the domain, inserts
    /// the catalog row, and registers the wiki's revision store with its
    /// initial commit. Returns the new wiki's id.
    pub fn create_wiki(&mut self, name: &str, slug: &str, domain: &str) -> (r: Result<u64, Error>)
        requires
            old(self).wf(),
            old(self).wikis.can_create(),
        ensures
            final(self).wf(),
            final(self).users == old(self).users,
            final(self).sessions == old(self).sessions,
            match r {
                Ok(id) => {
                    &&& id == old(self).wikis@.len() + 1
                    &&& final(self).wikis@.len() == old(self).wikis@.len() + 1
                    &&& final(self).wikis@.last().slug == normalize_chars(slug@)
                    &&& final(self).wikis@.last().domain == lower_of(domain@)
                    &&& crate::page::store_idx(final(self).pages@.stores, id) is Some
                    &&& final(self).pages@.stores[
                        crate::page::store_idx(final(self).pages@.stores, id)->Some_0
                    ].store == crate::page::initial_store(lower_of(domain@))
                },
                Err(e) => {
                    &&& final(self).wikis@ == old(self).wikis@
                    &&& final(self).pages == old(self).pages
                    &&& match e {
                        Error::SlugNotNormal => normalize_chars(slug@).len() == 0,
                        Error::WikiExists => normalize_chars(slug@).len() > 0 && (wiki_slug_idx(
                            old(self).wikis@,
                            normalize_chars(slug@),
                        ) is Some || wiki_domain_idx(old(self).wikis@, lower_of(domain@)) is Some),
                        _ => false,
                    }
                },
            },
    {
        let domain_lower = to_lowercase(domain);
        let id = match self.wikis.create(name, slug, domain_lower.as_str()) {
            Ok(id) => id,
            Err(e) => {
                return Err(e);
            },
        };
        proof {
            // The new id has no store yet: no store is orphaned, so a store
            // for a fresh id would point past the old catalog.
            if store_idx(self.pages@.stores, id) is Some {
                assert(false);
            }
        }
        let ghost mid_stores = self.pages@.stores;
        match self.pages.add_store(id, domain_lower.as_str()) {
            Ok(()) => {},
            Err(e) => {
                // Unreachable: the fresh id has no store, so registration
                // cannot collide.
                proof {
                    assert(false);
                }
                return Err(e);
            },
        }
        proof {
            lemma_first_where_bounds(
                self.pages@.stores,
                |e: StoreEntryV| e.wiki_id == id,
            );
            assert(self.pages@.stores[store_idx(self.pages@.stores, id)->Some_0]
                == self.pages@.stores.last());
            // the coupling holds of the extended state
            let news = self.pages@.stores;
            let n2 = self.wikis@.len() as int;
            assert forall|w: u64| #[trigger] store_idx(news, w) is Some
                implies 1 <= w <= n2 by {
                lemma_first_where_bounds(news, |e: StoreEntryV| e.wiki_id == w);
                let i = store_idx(news, w)->Some_0;
                if i < mid_stores.len() {
                    assert(news[i] == mid_stores[i]);
                    lemma_first_where_bounds(mid_stores, |e: StoreEntryV| e.wiki_id == w);
                    if store_idx(mid_stores, w) is None {
                        assert(mid_stores[i].wiki_id != w);
                    }
                    assert(1 <= w <= old(self).wikis@.len());
                } else {
                    assert(news[i].wiki_id == id);
                }
            }
            assert forall|w: u64| 1 <= w <= n2
                implies (#[trigger] store_idx(news, w)) is Some by {
                if w <= old(self).wikis@.len() {
                    assert(store_idx(mid_stores, w) is Some);
                    lemma_first_where_bounds(mid_stores, |e: StoreEntryV| e.wiki_id == w);
                    let j = store_idx(mid_stores, w)->Some_0;
                    assert(news[j] == mid_stores[j]);
                    assert forall|j2: int| 0 <= j2 < j
                        implies (#[trigger] news[j2]).wiki_id != w by {
                        assert(news[j2] == mid_stores[j2]);
                    }
                    lemma_first_where_holds(news, |e: StoreEntryV| e.wiki_id == w, j);
                } else {
                    assert(w == id);
                }
            }
        }
        Ok(id)
    }

    /// Renames a wiki; the slug cannot change.
    pub fn rename_wiki(&mut self, id: u64, new_name: &str) -> (r: Result<(), Error>)
        requires
            old(self).wf(),
        ensures
            final(self).wf(),
            final(self).pages == old(self).pages,
            match r {
                Ok(()) => {
                    &&& 1 <= id <= old(self).wikis@.len()
                    &&& final(self).wikis@[id - 1].name == new_name@
                    &&& final(self).wikis@[id - 1].slug == old(self).wikis@[id - 1].slug
                    &&& final(self).wikis@[id - 1].domain == old(self).wikis@[id - 1].domain
                },
                Err(e) => e == Error::WikiNotFound && !(1 <= id <= old(self).wikis@.len())
                    && final(self).wikis@ == old(self).wikis@,
            },
    {
        self.wikis.edit(id, Some(new_name), None)
    }

    /// Changes a wiki's domain, in the catalog and in the author lines of
    /// the wiki's future store commits.
    pub fn set_wiki_domain(&mut self, id: u64, new_domain: &str) -> (r: Result<(), Error>)
        requires
            old(self).wf(),
        ensures
            final(self).wf(),
            match r {
                Ok(()) => {
                    &&& 1 <= id <= old(self).wikis@.len()
                    &&& final(self).wikis@[id - 1].domain == new_domain@
                    &&& store_idx(final(self).pages@.stores, id) is Some
                    &&& final(self).pages@.stores[
                        store_idx(final(self).pages@.stores, id)->Some_0
                    ].store.domain == new_domain@
                },
                Err(e) => {
                    &&& final(self).wikis@ == old(self).wikis@
                    &&& final(self).pages == old(self).pages
                    &&& match e {
                        Error::WikiNotFound => !(1 <= id <= old(self).wikis@.len()),
                        Error::WikiExists => 1 <= id <= old(self).wikis@.len() && new_domain@
                            != old(self).wikis@[id - 1].domain && wiki_domain_idx(
                            old(self).wikis@,
                            new_domain@,
                        ) is Some,
                        _ => false,
                    }
                },
            },
    {
        if let Err(e) = self.wikis.edit(id, None, Some(new_domain)) {
            return Err(e);
        }
        let ghost before = self.pages@.stores;
        if let Err(e) = self.pages.set_domain(id, new_domain) {
            // Unreachable: every catalog wiki has a store.
            proof {
                assert(store_idx(before, id) is Some);
                assert(false);
            }
            return Err(e);
        }
        proof {
            lemma_first_where_bounds(before, |e: StoreEntryV| e.wiki_id == id);
            let k = store_idx(before, id)->Some_0;
            assert forall|j: int| 0 <= j < before.len()
                implies ((#[trigger] before[j]).wiki_id == id) == ((
                #[trigger] self.pages@.stores[j]).wiki_id == id) by {
                if j != k {
                    assert(self.pages@.stores[j] == before[j]);
                }
            }
            lemma_first_where_pointwise(
                self.pages@.stores,
                before,
                |e: StoreEntryV| e.wiki_id == id,
            );
            // the coupling survives: wiki ids and the catalog length are
            // unchanged
            assert forall|w: u64| true
                implies #[trigger] store_idx(self.pages@.stores, w) == store_idx(before, w) by {
                assert forall|j: int| 0 <= j < before.len()
                    implies ((#[trigger] before[j]).wiki_id == w) == ((
                    #[trigger] self.pages@.stores[j]).wiki_id == w) by {
                    if j != k {
                        assert(self.pages@.stores[j] == before[j]);
                    }
                }
                lemma_first_where_pointwise(
                    self.pages@.stores,
                    before,
                    |e: StoreEntryV| e.wiki_id == w,
                );
            }
        }
        Ok(())
    }

    /// The wiki with the given id.
    pub fn get_wiki(&self, id: u64) -> (r: Result<Wiki, Error>)
        ensures
            match r {
                Ok(w) => 1 <= id <= self.wikis@.len() && w@ == self.wikis@[id - 1],
                Err(e) => e == Error::WikiNotFound && !(1 <= id <= self.wikis@.len()),
            },
    {
        match self.wikis.get_by_id(id) {
            Ok(w) => Ok(w.duplicate()),
            Err(e) => Err(e),
        }
    }

    /// The id of the wiki whose slug is the normalization of `slug`.
    pub fn get_wiki_id(&self, slug: &str) -> (r: Result<u64, Error>)
        ensures
            match r {
                Ok(id) => {
                    &&& wiki_slug_idx(self.wikis@, normalize_chars(slug@)) is Some
                    &&& id == self.wikis@[
                        wiki_slug_idx(self.wikis@, normalize_chars(slug@))->Some_0
                    ].wiki_id
                },
                Err(e) => e == Error::WikiNotFound && wiki_slug_idx(
                    self.wikis@,
                    normalize_chars(slug@),
                ) is None,
            },
    {
        let slug_n = crate::slug::normalize(slug);
        match self.wikis.get_by_slug(slug_n.as_str()) {
            Ok(w) => Ok(w.id()),
            Err(e) => Err(e),
        }
    }

    /// Validates the password and issues a fresh session token, replacing
    /// any existing session (a re-login overwrites the old row and its
    /// token). Every authentication failure is `AuthenticationFailed` and
    /// leaves the state unchanged.
    pub fn create_session(&mut self, user_id: u64, password: &str, ip: IpNet) -> (r: Result<
        String,
        Error,
    >)
        requires
            old(self).wf(),
            old(self).sessions.tick_ok(),
        ensures
            final(self).wf(),
            final(self).pages == old(self).pages,
            final(self).wikis == old(self).wikis,
            final(self).users == old(self).users,
            final(self).passwords == old(self).passwords,
            final(self).sessions.spec_tick() <= old(self).sessions.spec_tick() + 1,
            match r {
                Ok(t) => {
                    &&& (match record_idx(old(self).passwords.records_view(), user_id) {
                        Some(i) => password_matches(
                            old(self).passwords.records_view()[i],
                            password,
                        ),
                        None => false,
                    })
                    &&& is_token(t@)
                    &&& session_of(final(self).sessions@, user_id) is Some
                    &&& session_of(final(self).sessions@, user_id)->Some_0 == (SessionV {
                        user_id,
                        token: t@,
                        ip_address: ip,
                        created_at: (old(self).sessions.spec_tick() + 1) as u64,
                    })
                    &&& (forall|u: u64|
                        u != user_id ==> #[trigger] session_of(final(self).sessions@, u)
                            == session_of(old(self).sessions@, u))
                },
                Err(e) => {
                    &&& e == Error::AuthenticationFailed
                    &&& final(self).sessions@ == old(self).sessions@
                    &&& !(match record_idx(old(self).passwords.records_view(), user_id) {
                        Some(i) => password_matches(
                            old(self).passwords.records_view()[i],
                            password,
                        ),
                        None => false,
                    })
                },
            },
    {
        if let Err(e) = self.passwords.check(user_id, password) {
            return Err(e);
        }
        let t = self.sessions.create_token(user_id, ip);
        Ok(t)
    }

    /// Checks a token for the given user.
    pub fn check_token(&self, user_id: u64, token: &str) -> (r: Result<(), Error>)
        ensures
            r is Ok <==> (match session_of(self.sessions@, user_id) {
                Some(s) => s.token == token@,
                None => false,
            }),
            r is Err ==> r->Err_0 == Error::AuthenticationFailed,
    {
        self.sessions.check_token(user_id, token)
    }

    /// The user's session, if one exists.
    pub fn get_session(&self, user_id: u64) -> (r: Option<&Session>)
        ensures
            match r {
                Some(s) => session_of(self.sessions@, user_id) == Some(s@),
                None => session_of(self.sessions@, user_id) is None,
            },
    {
        self.sessions.get_session(user_id)
    }

    /// Ends the user's session; reports whether one was present.
    pub fn end_session(&mut self, user_id: u64) -> (r: bool)
        requires
            old(self).wf(),
        ensures
            final(self).wf(),
            final(self).pages == old(self).pages,
            final(self).sessions.spec_tick() == old(self).sessions.spec_tick(),
            r == (session_of(old(self).sessions@, user_id) is Some),
            session_of(final(self).sessions@, user_id) is None,
            forall|u: u64|
                u != user_id ==> #[trigger] session_of(final(self).sessions@, u) == session_of(
                    old(self).sessions@,
                    u,
                ),
    {
        self.sessions.revoke_token(user_id)
    }
}

/// The ASCII-lowercased form of a character sequence.
pub open spec fn lower_of(s: Seq<char>) -> Seq<char> {
    s.map_values(|c: char| lower_char(c))
}

} // verus!
