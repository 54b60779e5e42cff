//! The page service: the page/revision catalog coordinated with the per-wiki
//! revision stores.
//!
//! Page and revision ids are assigned consecutively from 1, and double as
//! logical timestamps: a row's `created_at` is its own id, and `deleted_at`
//! holds the id of the deleting revision. Every mutating operation validates
//! its inputs first, then commits to the wiki's store and records a revision
//! row pointing at the new commit, so the catalog and the store stay in
//! lock-step: every `git_commit` of a revision row is a well-formed id of an
//! existing commit of its wiki's store.

use vstd::prelude::*;

use crate::error::Error;
use crate::githash::{GitHash, hash_chars, is_git_hash, lemma_hash_chars_wf};
use crate::slug::{check_normal, is_normal_chars};
use crate::store::{CommitInfo, RevisionStore, StoreV, find_idx, lemma_find_idx_extend,
    lemma_find_idx_bounds, tree_get, tree_set, tree_remove, lemma_tree_set, lemma_tree_remove,
    tree_wf, clone_string};
use crate::tags::{sorted_strict, disjoint_tags, has_tag, sort_unique, tag_diff};
use crate::text::{ascii_chars, dec_bytes, first_where, last_where, lemma_first_where_bounds,
    lemma_first_where_holds, lemma_first_where_pointwise, lemma_last_where_bounds,
    lemma_last_where_holds, str_eq, u64_to_string};

verus! {

/// The kind of change a revision records.
#[derive(Debug, Clone, Copy, PartialEq, Eq, Structural)]
pub enum ChangeType {
    /// The page was created.
    Create,
    /// The page's content or metadata was modified.
    Modify,
    /// The page was renamed.
    Rename,
    /// The page was soft-deleted.
    Delete,
    /// The page was restored from deletion.
    Restore,
    /// The page's tags were changed.
    Tags,
}

impl ChangeType {
    /// The verb used in the store commit message.
    pub open spec fn spec_verb(self) -> Seq<char> {
        match self {
            ChangeType::Create => "created"@,
            ChangeType::Modify => "modified"@,
            ChangeType::Rename => "renamed"@,
            ChangeType::Delete => "deleted"@,
            ChangeType::Restore => "restored"@,
            ChangeType::Tags => "tagged"@,
        }
    }

    /// The verb used in the store commit message.
    pub fn verb(&self) -> (r: &'static str)
        ensures
            r@ == self.spec_verb(),
    {
        match self {
            ChangeType::Create => "created",
            ChangeType::Modify => "modified",
            ChangeType::Rename => "renamed",
            ChangeType::Delete => "deleted",
            ChangeType::Restore => "restored",
            ChangeType::Tags => "tagged",
        }
    }
}

/// What a mutating page operation carries: where, what for, and by whom.
pub struct PageCommit {
    /// The wiki the page belongs to.
    pub wiki_id: u64,
    /// The page's slug.
    pub slug: String,
    /// The user-supplied revision message.
    pub message: String,
    /// The acting user's id.
    pub user_id: u64,
    /// The acting user's name, for the store's author line.
    pub username: String,
}

/// One page row.
pub struct Page {
    /// The identity, `position + 1`.
    pub page_id: u64,
    /// The owning wiki.
    pub wiki_id: u64,
    /// The slug, unique per wiki among live pages.
    pub slug: String,
    /// The title.
    pub title: String,
    /// The optional alternative title.
    pub alt_title: Option<String>,
    /// The tags, strictly sorted ascending.
    pub tags: Vec<String>,
    /// Logical creation timestamp (the page's id).
    pub created_at: u64,
    /// The deleting revision's id, when soft-deleted.
    pub deleted_at: Option<u64>,
}

/// The mathematical shape of a page row.
pub ghost struct PageV {
    /// The identity.
    pub page_id: u64,
    /// The owning wiki.
    pub wiki_id: u64,
    /// The slug.
    pub slug: Seq<char>,
    /// The title.
    pub title: Seq<char>,
    /// The optional alternative title.
    pub alt_title: Option<Seq<char>>,
    /// The tags, strictly sorted.
    pub tags: Seq<Seq<char>>,
    /// Logical creation timestamp.
    pub created_at: u64,
    /// The deleting revision's id, when soft-deleted.
    pub deleted_at: Option<u64>,
}

impl View for Page {
    type V = PageV;

    open spec fn view(&self) -> PageV {
        PageV {
            page_id: self.page_id,
            wiki_id: self.wiki_id,
            slug: self.slug@,
            title: self.title@,
            alt_title: match self.alt_title {
                Some(ref s) => Some(s@),
                None => None,
            },
            tags: self.tags.deep_view(),
            created_at: self.created_at,
            deleted_at: self.deleted_at,
        }
    }
}

impl Page {
    /// The page's id.
    pub fn id(&self) -> (r: u64)
        ensures
            r == self@.page_id,
    {
        self.page_id
    }

    /// The owning wiki's id.
    pub fn wiki_id(&self) -> (r: u64)
        ensures
            r == self@.wiki_id,
    {
        self.wiki_id
    }

    /// The page's slug.
    pub fn slug(&self) -> (r: &str)
        ensures
            r@ == self@.slug,
    {
        self.slug.as_str()
    }

    /// The page's title.
    pub fn title(&self) -> (r: &str)
        ensures
            r@ == self@.title,
    {
        self.title.as_str()
    }

    /// The alternative title, if set.
    pub fn alt_title(&self) -> (r: Option<&str>)
        ensures
            match r {
                Some(s) => self@.alt_title == Some(s@),
                None => self@.alt_title is None,
            },
    {
        match &self.alt_title {
            Some(s) => Some(s.as_str()),
            None => None,
        }
    }

    /// The page's tags, strictly sorted ascending.
    pub fn tags(&self) -> (r: &Vec<String>)
        ensures
            r.deep_view() == self@.tags,
    {
        &self.tags
    }

    /// The logical creation timestamp.
    pub fn created_at(&self) -> (r: u64)
        ensures
            r == self@.created_at,
    {
        self.created_at
    }

    /// The deleting revision's id, when soft-deleted.
    pub fn deleted_at(&self) -> (r: Option<u64>)
        ensures
            r == self@.deleted_at,
    {
        self.deleted_at
    }

    /// A page exists (is live) exactly when not soft-deleted.
    pub fn is_live(&self) -> (r: bool)
        ensures
            r == (self@.deleted_at is None),
    {
        self.deleted_at.is_none()
    }

    /// A copy of this page row.
    pub fn duplicate(&self) -> (r: Page)
        ensures
            r@ == self@,
    {
        let alt = match &self.alt_title {
            Some(s) => Some(clone_string(s)),
            None => None,
        };
        let mut tags_copy: Vec<String> = Vec::new();
        let mut i: usize = 0;
        while i < self.tags.len()
            invariant
                i <= self.tags@.len(),
                tags_copy@.len() == i,
                forall|j: int| 0 <= j < i ==> #[trigger] tags_copy@[j]@ == self.tags@[j]@,
            decreases self.tags@.len() - i,
        {
            tags_copy.push(clone_string(&self.tags[i]));
            i += 1;
        }
        proof {
            assert forall|j: int| 0 <= j < self.tags@.len()
                implies tags_copy.deep_view()[j] == self.tags.deep_view()[j] by {
                assert(tags_copy.deep_view()[j] == tags_copy@[j]@);
                assert(self.tags.deep_view()[j] == self.tags@[j]@);
            }
            assert(tags_copy.deep_view() =~= self.tags.deep_view());
        }
        Page {
            page_id: self.page_id,
            wiki_id: self.wiki_id,
            slug: clone_string(&self.slug),
            title: clone_string(&self.title),
            alt_title: alt,
            tags: tags_copy,
            created_at: self.created_at,
            deleted_at: self.deleted_at,
        }
    }
}

/// One revision row.
pub struct Revision {
    /// The identity, `position + 1`; strictly increasing within a page.
    pub revision_id: u64,
    /// The page this revision belongs to.
    pub page_id: u64,
    /// The acting user.
    pub user_id: u64,
    /// The user-supplied message.
    pub message: String,
    /// The id of the store commit this revision points at.
    pub git_commit: GitHash,
    /// The kind of change.
    pub change_type: ChangeType,
    /// Logical creation timestamp (the revision's id).
    pub created_at: u64,
}

/// The mathematical shape of a revision row.
pub ghost struct RevisionV {
    /// The identity.
    pub revision_id: u64,
    /// The page.
    pub page_id: u64,
    /// The acting user.
    pub user_id: u64,
    /// The message.
    pub message: Seq<char>,
    /// The commit id.
    pub git_commit: Seq<char>,
    /// The kind of change.
    pub change_type: ChangeType,
    /// Logical creation timestamp.
    pub created_at: u64,
}

impl View for Revision {
    type V = RevisionV;

    open spec fn view(&self) -> RevisionV {
        RevisionV {
            revision_id: self.revision_id,
            page_id: self.page_id,
            user_id: self.user_id,
            message: self.message@,
            git_commit: self.git_commit@,
            change_type: self.change_type,
            created_at: self.created_at,
        }
    }
}

impl Revision {
    /// The revision's id.
    pub fn id(&self) -> (r: u64)
        ensures
            r == self@.revision_id,
    {
        self.revision_id
    }

    /// The page the revision belongs to.
    pub fn page_id(&self) -> (r: u64)
        ensures
            r == self@.page_id,
    {
        self.page_id
    }

    /// The user-supplied message.
    pub fn message(&self) -> (r: &str)
        ensures
            r@ == self@.message,
    {
        self.message.as_str()
    }

    /// The commit id this revision points at.
    pub fn git_commit(&self) -> (r: &GitHash)
        ensures
            r@ == self@.git_commit,
    {
        &self.git_commit
    }

    /// The kind of change.
    pub fn change_type(&self) -> (r: ChangeType)
        ensures
            r == self@.change_type,
    {
        self.change_type
    }
}

/// One tag-change row; exists exactly for `Tags` revisions.
pub struct TagChange {
    /// The owning revision.
    pub revision_id: u64,
    /// The tags added, strictly sorted.
    pub added_tags: Vec<String>,
    /// The tags removed, strictly sorted; disjoint from `added_tags`.
    pub removed_tags: Vec<String>,
}

/// The mathematical shape of a tag-change row.
pub ghost struct TagChangeV {
    /// The owning revision.
    pub revision_id: u64,
    /// The tags added.
    pub added_tags: Seq<Seq<char>>,
    /// The tags removed.
    pub removed_tags: Seq<Seq<char>>,
}

impl View for TagChange {
    type V = TagChangeV;

    open spec fn view(&self) -> TagChangeV {
        TagChangeV {
            revision_id: self.revision_id,
            added_tags: self.added_tags.deep_view(),
            removed_tags: self.removed_tags.deep_view(),
        }
    }
}

impl TagChange {
    /// The owning revision's id.
    pub fn revision_id(&self) -> (r: u64)
        ensures
            r == self@.revision_id,
    {
        self.revision_id
    }

    /// The tags added.
    pub fn added_tags(&self) -> (r: &Vec<String>)
        ensures
            r.deep_view() == self@.added_tags,
    {
        &self.added_tags
    }

    /// The tags removed.
    pub fn removed_tags(&self) -> (r: &Vec<String>)
        ensures
            r.deep_view() == self@.removed_tags,
    {
        &self.removed_tags
    }
}

/// A wiki's revision store, keyed by wiki id.
pub struct StoreEntry {
    /// The wiki.
    pub wiki_id: u64,
    /// Its store.
    pub store: RevisionStore,
}

/// The page service state.
pub struct PageService {
    pages: Vec<Page>,
    revisions: Vec<Revision>,
    tag_history: Vec<TagChange>,
    stores: Vec<StoreEntry>,
}

/// A wiki id with its store, as spec data.
pub ghost struct StoreEntryV {
    /// The wiki.
    pub wiki_id: u64,
    /// Its store.
    pub store: StoreV,
}

/// The mathematical shape of the page service.
pub ghost struct ServiceV {
    /// The page rows.
    pub pages: Seq<PageV>,
    /// The revision rows.
    pub revisions: Seq<RevisionV>,
    /// The tag-change rows.
    pub tag_history: Seq<TagChangeV>,
    /// The per-wiki stores.
    pub stores: Seq<StoreEntryV>,
}

impl View for PageService {
    type V = ServiceV;

    closed spec fn view(&self) -> ServiceV {
        ServiceV {
            pages: self.pages@.map_values(|p: Page| p@),
            revisions: self.revisions@.map_values(|r: Revision| r@),
            tag_history: self.tag_history@.map_values(|t: TagChange| t@),
            stores: self.stores@.map_values(|e: StoreEntry| (StoreEntryV { wiki_id: e.wiki_id, store: e.store@ })),
        }
    }
}

/// A revision reference: either a revision id resolved through the catalog,
/// or a commit id used directly.
pub enum RevisionRef {
    /// A revision id.
    Id(u64),
    /// A commit id.
    Hash(GitHash),
}

/// The commit id a revision reference resolves to, if any.
pub open spec fn spec_resolve(v: ServiceV, rev: RevisionRef) -> Option<Seq<char>> {
    match rev {
        RevisionRef::Id(rid) => if 1 <= rid <= v.revisions.len() {
            Some(v.revisions[rid - 1].git_commit)
        } else {
            None
        },
        RevisionRef::Hash(h) => Some(h@),
    }
}

/// A freshly registered store: one empty initial commit authored
/// `"DEEPWELL <noreply@<domain>>"` with message `"Initial commit"`.
pub open spec fn initial_store(domain: Seq<char>) -> StoreV {
    (StoreV { domain, commits: Seq::empty() }).with_commit(
        "DEEPWELL"@,
        "Initial commit"@,
        Seq::empty(),
    )
}

/// Whether live page `i`'s blob exists in its wiki's store head tree: the
/// catalog and the stores stay in lock-step, so a live page can always be
/// read, renamed and removed.
pub open spec fn live_blob_ok(pages: Seq<PageV>, stores: Seq<StoreEntryV>, i: int) -> bool {
    match store_idx(stores, pages[i].wiki_id) {
        Some(k) => tree_get(stores[k].store.head_tree(), pages[i].slug) is Some,
        None => false,
    }
}

/// The position of the store for `wiki_id`, if any.
pub open spec fn store_idx(stores: Seq<StoreEntryV>, wiki_id: u64) -> Option<int> {
    first_where(stores, |e: StoreEntryV| e.wiki_id == wiki_id)
}

/// Whether revision `i`'s commit id names an existing commit of its page's
/// wiki's store.
pub open spec fn rev_commit_ok(
    pages: Seq<PageV>,
    revisions: Seq<RevisionV>,
    stores: Seq<StoreEntryV>,
    i: int,
) -> bool {
    &&& 1 <= revisions[i].page_id <= pages.len()
    &&& match store_idx(stores, pages[revisions[i].page_id - 1].wiki_id) {
        Some(k) => find_idx(stores[k].store.commits, revisions[i].git_commit) is Some,
        None => false,
    }
}

impl ServiceV {
    /// The position of the live page for `(wiki_id, slug)`, if any.
    pub open spec fn live_idx(self, wiki_id: u64, slug: Seq<char>) -> Option<int> {
        first_where(
            self.pages,
            |p: PageV| p.wiki_id == wiki_id && p.slug == slug && p.deleted_at is None,
        )
    }

    /// The position of the most recently created soft-deleted page for
    /// `(wiki_id, slug)`, if any.
    pub open spec fn last_deleted_idx(self, wiki_id: u64, slug: Seq<char>) -> Option<int> {
        last_where(
            self.pages,
            |p: PageV| p.wiki_id == wiki_id && p.slug == slug && p.deleted_at is Some,
        )
    }

    /// The position of the newest revision of page `page_id` whose change
    /// type is not `Delete`, if any.
    pub open spec fn last_nondelete_rev(self, page_id: u64) -> Option<int> {
        last_where(
            self.revisions,
            |r: RevisionV| r.page_id == page_id && r.change_type != ChangeType::Delete,
        )
    }

    /// The position of the newest revision of page `page_id`, if any.
    pub open spec fn last_rev(self, page_id: u64) -> Option<int> {
        last_where(self.revisions, |r: RevisionV| r.page_id == page_id)
    }

    /// Well-formed service state. This carries the catalog invariants:
    /// page and revision ids follow positions; at most one live page per
    /// `(wiki_id, slug)`; page tags strictly sorted; every revision points
    /// at an existing page and carries a well-formed commit id of an
    /// existing commit of its wiki's store; a tag-change row exists exactly
    /// for `Tags` revisions, with strictly sorted, disjoint lists; store
    /// wiki ids are distinct; every page's wiki has a store.
    pub open spec fn wf(self) -> bool {
        &&& forall|i: int| 0 <= i < self.pages.len() ==> (#[trigger] self.pages[i]).page_id == i + 1
        &&& forall|i: int, j: int|
            0 <= i < j < self.pages.len() && (#[trigger] self.pages[i]).deleted_at is None && (
            #[trigger] self.pages[j]).deleted_at is None ==> !(self.pages[i].wiki_id
                == self.pages[j].wiki_id && self.pages[i].slug == self.pages[j].slug)
        &&& forall|i: int| 0 <= i < self.pages.len() ==> sorted_strict((#[trigger] self.pages[i]).tags)
        &&& forall|i: int|
            0 <= i < self.pages.len() ==> is_normal_chars((#[trigger] self.pages[i]).slug)
        &&& forall|i: int|
            0 <= i < self.revisions.len() ==> (#[trigger] self.revisions[i]).revision_id == i + 1
        &&& forall|i: int|
            0 <= i < self.revisions.len() ==> is_git_hash((#[trigger] self.revisions[i]).git_commit)
        &&& forall|i: int|
            0 <= i < self.revisions.len() ==> #[trigger] rev_commit_ok(
                self.pages,
                self.revisions,
                self.stores,
                i,
            )
        &&& forall|t: int|
            0 <= t < self.tag_history.len() ==> 1 <= (#[trigger] self.tag_history[t]).revision_id
                <= self.revisions.len() && self.revisions[self.tag_history[t].revision_id
                - 1].change_type == ChangeType::Tags && sorted_strict(
                self.tag_history[t].added_tags,
            ) && sorted_strict(self.tag_history[t].removed_tags) && disjoint_tags(
                self.tag_history[t].added_tags,
                self.tag_history[t].removed_tags,
            )
        &&& forall|t1: int, t2: int|
            0 <= t1 < t2 < self.tag_history.len() ==> (
            #[trigger] self.tag_history[t1]).revision_id != (
            #[trigger] self.tag_history[t2]).revision_id
        &&& forall|i: int|
            0 <= i < self.revisions.len() && (#[trigger] self.revisions[i]).change_type
                == ChangeType::Tags ==> exists|t: int|
                0 <= t < self.tag_history.len() && (#[trigger] self.tag_history[t]).revision_id == i
                    + 1
        &&& forall|k1: int, k2: int|
            0 <= k1 < k2 < self.stores.len() ==> (#[trigger] self.stores[k1]).wiki_id != (
            #[trigger] self.stores[k2]).wiki_id
        &&& forall|k: int| 0 <= k < self.stores.len() ==> (#[trigger] self.stores[k]).store.wf()
        &&& forall|i: int|
            0 <= i < self.pages.len() ==> store_idx(
                self.stores,
                (#[trigger] self.pages[i]).wiki_id,
            ) is Some
        &&& forall|i: int|
            0 <= i < self.pages.len() && (#[trigger] self.pages[i]).deleted_at is None
                ==> live_blob_ok(self.pages, self.stores, i)
    }

    /// Room for one more page, revision and commit everywhere.
    pub open spec fn can_mutate(self) -> bool {
        &&& self.pages.len() < 0xffff_ffff_ffff_ffff
        &&& self.revisions.len() < 0xffff_ffff_ffff_ffff
        &&& forall|k: int| 0 <= k < self.stores.len() ==> (#[trigger] self.stores[k]).store.can_commit()
    }

    /// The state after `create` succeeds: one new live page with no tags, a
    /// `Create` revision, and a store commit writing `content` under `slug`.
    pub open spec fn spec_create(
        self,
        wiki_id: u64,
        slug: Seq<char>,
        message: Seq<char>,
        user_id: u64,
        username: Seq<char>,
        content: Seq<u8>,
        title: Seq<char>,
        alt_title: Option<Seq<char>>,
    ) -> ServiceV {
        let k = store_idx(self.stores, wiki_id)->Some_0;
        let st = self.stores[k].store;
        let pid = (self.pages.len() + 1) as u64;
        let rid = (self.revisions.len() + 1) as u64;
        ServiceV {
            pages: self.pages.push(
                (PageV {
                    page_id: pid,
                    wiki_id,
                    slug,
                    title,
                    alt_title,
                    tags: Seq::empty(),
                    created_at: pid,
                    deleted_at: None,
                }),
            ),
            revisions: self.revisions.push(
                (RevisionV {
                    revision_id: rid,
                    page_id: pid,
                    user_id,
                    message,
                    git_commit: hash_chars(st.commits.len() as nat),
                    change_type: ChangeType::Create,
                    created_at: rid,
                }),
            ),
            tag_history: self.tag_history,
            stores: self.stores.update(
                k,
                (StoreEntryV {
                    wiki_id,
                    store: st.with_commit(
                        username,
                        commit_msg(user_id, ChangeType::Create, pid, wiki_id),
                        tree_set(st.head_tree(), slug, content),
                    ),
                }),
            ),
        }
    }

    /// The state after `commit` succeeds on the live page at position `pi`:
    /// supplied metadata fields are updated, and a `Modify` revision is
    /// recorded whose store commit writes `content` when supplied and is an
    /// empty commit otherwise.
    pub open spec fn spec_commit_op(
        self,
        pi: int,
        message: Seq<char>,
        user_id: u64,
        username: Seq<char>,
        content: Option<Seq<u8>>,
        title: Option<Seq<char>>,
        alt_title: Option<Option<Seq<char>>>,
    ) -> ServiceV {
        let p = self.pages[pi];
        let k = store_idx(self.stores, p.wiki_id)->Some_0;
        let st = self.stores[k].store;
        let rid = (self.revisions.len() + 1) as u64;
        let tree = match content {
            Some(c) => tree_set(st.head_tree(), p.slug, c),
            None => st.head_tree(),
        };
        ServiceV {
            pages: self.pages.update(
                pi,
                (PageV {
                    title: match title {
                        Some(t) => t,
                        None => p.title,
                    },
                    alt_title: match alt_title {
                        Some(a) => a,
                        None => p.alt_title,
                    },
                    ..p
                }),
            ),
            revisions: self.revisions.push(
                (RevisionV {
                    revision_id: rid,
                    page_id: p.page_id,
                    user_id,
                    message,
                    git_commit: hash_chars(st.commits.len() as nat),
                    change_type: ChangeType::Modify,
                    created_at: rid,
                }),
            ),
            tag_history: self.tag_history,
            stores: self.stores.update(
                k,
                (StoreEntryV {
                    wiki_id: p.wiki_id,
                    store: st.with_commit(
                        username,
                        commit_msg(user_id, ChangeType::Modify, p.page_id, p.wiki_id),
                        tree,
                    ),
                }),
            ),
        }
    }

    /// The state after `rename` succeeds on the live page at position `pi`:
    /// the page's slug becomes `new_slug`, and a `Rename` revision is
    /// recorded whose store commit moves the blob.
    pub open spec fn spec_rename_op(
        self,
        pi: int,
        new_slug: Seq<char>,
        message: Seq<char>,
        user_id: u64,
        username: Seq<char>,
    ) -> ServiceV {
        let p = self.pages[pi];
        let k = store_idx(self.stores, p.wiki_id)->Some_0;
        let st = self.stores[k].store;
        let rid = (self.revisions.len() + 1) as u64;
        ServiceV {
            pages: self.pages.update(pi, (PageV { slug: new_slug, ..p })),
            revisions: self.revisions.push(
                (RevisionV {
                    revision_id: rid,
                    page_id: p.page_id,
                    user_id,
                    message,
                    git_commit: hash_chars(st.commits.len() as nat),
                    change_type: ChangeType::Rename,
                    created_at: rid,
                }),
            ),
            tag_history: self.tag_history,
            stores: self.stores.update(
                k,
                (StoreEntryV {
                    wiki_id: p.wiki_id,
                    store: st.with_commit(
                        username,
                        commit_msg(user_id, ChangeType::Rename, p.page_id, p.wiki_id),
                        tree_set(
                            tree_remove(st.head_tree(), p.slug),
                            new_slug,
                            st.current_page(p.slug)->Some_0,
                        ),
                    ),
                }),
            ),
        }
    }

    /// The state after `remove` succeeds on the live page at position `pi`:
    /// the page is marked deleted, a `Delete` revision is recorded, and the
    /// store commit removes the blob.
    pub open spec fn spec_remove(
        self,
        pi: int,
        message: Seq<char>,
        user_id: u64,
        username: Seq<char>,
    ) -> ServiceV {
        let p = self.pages[pi];
        let k = store_idx(self.stores, p.wiki_id)->Some_0;
        let st = self.stores[k].store;
        let rid = (self.revisions.len() + 1) as u64;
        ServiceV {
            pages: self.pages.update(pi, (PageV { deleted_at: Some(rid), ..p })),
            revisions: self.revisions.push(
                (RevisionV {
                    revision_id: rid,
                    page_id: p.page_id,
                    user_id,
                    message,
                    git_commit: hash_chars(st.commits.len() as nat),
                    change_type: ChangeType::Delete,
                    created_at: rid,
                }),
            ),
            tag_history: self.tag_history,
            stores: self.stores.update(
                k,
                (StoreEntryV {
                    wiki_id: p.wiki_id,
                    store: st.with_commit(
                        username,
                        commit_msg(user_id, ChangeType::Delete, p.page_id, p.wiki_id),
                        tree_remove(st.head_tree(), p.slug),
                    ),
                }),
            ),
        }
    }

    /// The state after `restore` succeeds on the deleted page at position
    /// `pi`, restored under `slug`: the page is made live under `slug`, a
    /// `Restore` revision is recorded, and the store commit writes the
    /// content the page had at its newest non-`Delete` revision.
    pub open spec fn spec_restore(
        self,
        pi: int,
        slug: Seq<char>,
        message: Seq<char>,
        user_id: u64,
        username: Seq<char>,
    ) -> ServiceV {
        let p = self.pages[pi];
        let k = store_idx(self.stores, p.wiki_id)->Some_0;
        let st = self.stores[k].store;
        let rid = (self.revisions.len() + 1) as u64;
        let at = self.revisions[self.last_nondelete_rev(p.page_id)->Some_0].git_commit;
        let content = st.page_at(at, p.slug)->Some_0;
        ServiceV {
            pages: self.pages.update(pi, (PageV { slug, deleted_at: None, ..p })),
            revisions: self.revisions.push(
                (RevisionV {
                    revision_id: rid,
                    page_id: p.page_id,
                    user_id,
                    message,
                    git_commit: hash_chars(st.commits.len() as nat),
                    change_type: ChangeType::Restore,
                    created_at: rid,
                }),
            ),
            tag_history: self.tag_history,
            stores: self.stores.update(
                k,
                (StoreEntryV {
                    wiki_id: p.wiki_id,
                    store: st.with_commit(
                        username,
                        commit_msg(user_id, ChangeType::Restore, p.page_id, p.wiki_id),
                        tree_set(st.head_tree(), slug, content),
                    ),
                }),
            ),
        }
    }
}

/// The head tree of a well-formed registered store is well formed.
proof fn lemma_old_head_wf(v: ServiceV, k: int)
    requires
        v.wf(),
        0 <= k < v.stores.len(),
    ensures
        tree_wf(v.stores[k].store.head_tree()),
{
    let st = v.stores[k].store;
    assert(st.wf());
    if st.commits.len() > 0 {
        assert(st.commits[st.commits.len() - 1] == st.commits.last());
        assert(tree_wf(st.commits[st.commits.len() - 1].tree));
    }
}

/// Every successful mutating operation changes the state in one shape: one
/// store gains one commit, one revision row is appended for the touched
/// page, the touched page is pushed or updated in place, and the tag history
/// is unchanged unless the new revision is a `Tags` revision. This lemma
/// carries well-formedness across that shape. `pi == oldv.pages.len()` means
/// the page was pushed.
proof fn lemma_wf_after_revision(oldv: ServiceV, newv: ServiceV, k: int, pi: int)
    requires
        oldv.wf(),
        0 <= k < oldv.stores.len(),
        0 <= pi <= oldv.pages.len(),
        // pages
        pi == oldv.pages.len() ==> newv.pages.len() == oldv.pages.len() + 1
            && newv.pages[pi].page_id == pi + 1,
        pi < oldv.pages.len() ==> newv.pages.len() == oldv.pages.len()
            && newv.pages[pi].page_id == oldv.pages[pi].page_id && newv.pages[pi].wiki_id
            == oldv.pages[pi].wiki_id,
        forall|j: int| 0 <= j < oldv.pages.len() && j != pi ==> #[trigger] newv.pages[j] == oldv.pages[j],
        sorted_strict(newv.pages[pi].tags),
        is_normal_chars(newv.pages[pi].slug),
        newv.pages[pi].deleted_at is None ==> forall|j: int|
            0 <= j < oldv.pages.len() && j != pi && (#[trigger] oldv.pages[j]).deleted_at is None
                ==> !(oldv.pages[j].wiki_id == newv.pages[pi].wiki_id && oldv.pages[j].slug
                == newv.pages[pi].slug),
        // revisions
        newv.revisions.len() == oldv.revisions.len() + 1,
        forall|i: int| 0 <= i < oldv.revisions.len() ==> #[trigger] newv.revisions[i]
            == oldv.revisions[i],
        newv.revisions.last().revision_id == oldv.revisions.len() + 1,
        newv.revisions.last().page_id == newv.pages[pi].page_id,
        newv.revisions.last().git_commit == hash_chars(
            oldv.stores[k].store.commits.len() as nat,
        ),
        // stores
        newv.stores.len() == oldv.stores.len(),
        forall|j: int| 0 <= j < oldv.stores.len() && j != k ==> #[trigger] newv.stores[j]
            == oldv.stores[j],
        newv.stores[k].wiki_id == oldv.stores[k].wiki_id,
        newv.stores[k].store.wf(),
        newv.stores[k].store.commits.len() == oldv.stores[k].store.commits.len() + 1,
        forall|c: int|
            0 <= c < oldv.stores[k].store.commits.len() ==> #[trigger] newv.stores[
                k
            ].store.commits[c] == oldv.stores[k].store.commits[c],
        newv.pages[pi].wiki_id == oldv.stores[k].wiki_id,
        // the touched page's blob, and other live pages' blobs, in store k
        newv.pages[pi].deleted_at is None ==> tree_get(
            newv.stores[k].store.head_tree(),
            newv.pages[pi].slug,
        ) is Some,
        forall|j: int|
            0 <= j < oldv.pages.len() && j != pi && (#[trigger] oldv.pages[j]).deleted_at is None
                && oldv.pages[j].wiki_id == oldv.stores[k].wiki_id ==> tree_get(
                newv.stores[k].store.head_tree(),
                oldv.pages[j].slug,
            ) == tree_get(oldv.stores[k].store.head_tree(), oldv.pages[j].slug),
        // tag history
        (newv.tag_history == oldv.tag_history && newv.revisions.last().change_type
            != ChangeType::Tags) || (newv.revisions.last().change_type == ChangeType::Tags
            && newv.tag_history.len() == oldv.tag_history.len() + 1 && (forall|t: int|
            0 <= t < oldv.tag_history.len() ==> #[trigger] newv.tag_history[t]
                == oldv.tag_history[t]) && newv.tag_history.last().revision_id
            == newv.revisions.last().revision_id && sorted_strict(
            newv.tag_history.last().added_tags,
        ) && sorted_strict(newv.tag_history.last().removed_tags) && disjoint_tags(
            newv.tag_history.last().added_tags,
            newv.tag_history.last().removed_tags,
        )),
    ensures
        newv.wf(),
{
    let pushed = pi == oldv.pages.len();
    let nr = newv.revisions.last();
    // page ids
    assert forall|i: int| 0 <= i < newv.pages.len()
        implies (#[trigger] newv.pages[i]).page_id == i + 1 by {
        if i != pi {
            assert(newv.pages[i] == oldv.pages[i]);
        }
    }
    // live uniqueness
    assert forall|i: int, j: int|
        0 <= i < j < newv.pages.len() && (#[trigger] newv.pages[i]).deleted_at is None && (
        #[trigger] newv.pages[j]).deleted_at is None
        implies !(newv.pages[i].wiki_id == newv.pages[j].wiki_id && newv.pages[i].slug
            == newv.pages[j].slug) by {
        if i != pi && j != pi {
            assert(newv.pages[i] == oldv.pages[i] && newv.pages[j] == oldv.pages[j]);
        } else if i == pi {
            assert(newv.pages[j] == oldv.pages[j]);
        } else {
            assert(newv.pages[i] == oldv.pages[i]);
        }
    }
    // tags sorted
    assert forall|i: int| 0 <= i < newv.pages.len()
        implies sorted_strict((#[trigger] newv.pages[i]).tags) by {
        if i != pi {
            assert(newv.pages[i] == oldv.pages[i]);
        }
    }
    // slugs normal
    assert forall|i: int| 0 <= i < newv.pages.len()
        implies is_normal_chars((#[trigger] newv.pages[i]).slug) by {
        if i != pi {
            assert(newv.pages[i] == oldv.pages[i]);
        }
    }
    // revision ids
    assert forall|i: int| 0 <= i < newv.revisions.len()
        implies (#[trigger] newv.revisions[i]).revision_id == i + 1 by {
        if i < oldv.revisions.len() {
            assert(newv.revisions[i] == oldv.revisions[i]);
        } else {
            assert(newv.revisions[i] == nr);
        }
    }
    // commit ids well formed
    assert forall|i: int| 0 <= i < newv.revisions.len()
        implies is_git_hash((#[trigger] newv.revisions[i]).git_commit) by {
        if i < oldv.revisions.len() {
            assert(newv.revisions[i] == oldv.revisions[i]);
        } else {
            assert(newv.revisions[i] == nr);
            lemma_hash_chars_wf(oldv.stores[k].store.commits.len() as nat);
        }
    }
    // store wiki ids agree pointwise, so store lookups agree
    assert forall|w: u64| true implies #[trigger] store_idx(newv.stores, w) == store_idx(
        oldv.stores,
        w,
    ) by {
        assert forall|j: int| 0 <= j < oldv.stores.len()
            implies ((#[trigger] oldv.stores[j]).wiki_id == w) == ((
            #[trigger] newv.stores[j]).wiki_id == w) by {
            if j != k {
                assert(newv.stores[j] == oldv.stores[j]);
            }
        }
        lemma_first_where_pointwise(newv.stores, oldv.stores, |e: StoreEntryV| e.wiki_id == w);
    }
    // every revision's commit still exists
    assert forall|i: int| 0 <= i < newv.revisions.len()
        implies #[trigger] rev_commit_ok(newv.pages, newv.revisions, newv.stores, i) by {
        if i < oldv.revisions.len() {
            assert(newv.revisions[i] == oldv.revisions[i]);
            assert(rev_commit_ok(oldv.pages, oldv.revisions, oldv.stores, i));
            let pidx = oldv.revisions[i].page_id - 1;
            assert(newv.pages[pidx].wiki_id == oldv.pages[pidx].wiki_id) by {
                if pidx != pi {
                    assert(newv.pages[pidx] == oldv.pages[pidx]);
                }
            }
            let w = oldv.pages[pidx].wiki_id;
            let kw = store_idx(oldv.stores, w)->Some_0;
            lemma_first_where_bounds(oldv.stores, |e: StoreEntryV| e.wiki_id == w);
            if kw != k {
                assert(newv.stores[kw] == oldv.stores[kw]);
            } else {
                lemma_find_idx_extend(
                    oldv.stores[k].store.commits,
                    newv.stores[k].store.commits,
                    oldv.revisions[i].git_commit,
                );
            }
        } else {
            assert(newv.revisions[i] == nr);
            let w = newv.pages[pi].wiki_id;
            assert(oldv.stores[k].wiki_id == w);
            assert forall|j: int| 0 <= j < k
                implies (#[trigger] oldv.stores[j]).wiki_id != w by {
                assert(oldv.stores[j].wiki_id != oldv.stores[k].wiki_id);
            }
            lemma_first_where_holds(oldv.stores, |e: StoreEntryV| e.wiki_id == w, k);
            assert(store_idx(newv.stores, w) == Some(k));
            newv.stores[k].store.lemma_find_own_hash(
                oldv.stores[k].store.commits.len() as int,
            );
            assert(1 <= nr.page_id <= newv.pages.len()) by {
                if pi < oldv.pages.len() {
                    assert(oldv.pages[pi].page_id == pi + 1);
                }
            }
        }
    }
    // tag history
    assert forall|t: int| 0 <= t < newv.tag_history.len()
        implies 1 <= (#[trigger] newv.tag_history[t]).revision_id <= newv.revisions.len()
            && newv.revisions[newv.tag_history[t].revision_id - 1].change_type == ChangeType::Tags
            && sorted_strict(newv.tag_history[t].added_tags) && sorted_strict(
            newv.tag_history[t].removed_tags,
        ) && disjoint_tags(newv.tag_history[t].added_tags, newv.tag_history[t].removed_tags) by {
        if t < oldv.tag_history.len() {
            assert(newv.tag_history[t] == oldv.tag_history[t]);
            let rid = oldv.tag_history[t].revision_id;
            assert(newv.revisions[rid - 1] == oldv.revisions[rid - 1]);
        }
    }
    assert forall|t1: int, t2: int| 0 <= t1 < t2 < newv.tag_history.len()
        implies (#[trigger] newv.tag_history[t1]).revision_id != (
        #[trigger] newv.tag_history[t2]).revision_id by {
        assert(newv.tag_history[t1] == oldv.tag_history[t1]);
        if t2 < oldv.tag_history.len() {
            assert(newv.tag_history[t2] == oldv.tag_history[t2]);
        } else {
            assert(oldv.tag_history[t1].revision_id <= oldv.revisions.len());
        }
    }
    assert forall|i: int|
        0 <= i < newv.revisions.len() && (#[trigger] newv.revisions[i]).change_type
            == ChangeType::Tags implies exists|t: int|
        0 <= t < newv.tag_history.len() && (#[trigger] newv.tag_history[t]).revision_id == i
            + 1 by {
        if i < oldv.revisions.len() {
            assert(newv.revisions[i] == oldv.revisions[i]);
            let t = choose|t: int|
                0 <= t < oldv.tag_history.len() && (#[trigger] oldv.tag_history[t]).revision_id
                    == i + 1;
            assert(newv.tag_history[t] == oldv.tag_history[t]);
            assert(newv.tag_history[t].revision_id == i + 1);
        } else {
            assert(newv.tag_history[newv.tag_history.len() - 1].revision_id == i + 1);
        }
    }
    // stores distinct and well formed
    assert forall|k1: int, k2: int| 0 <= k1 < k2 < newv.stores.len()
        implies (#[trigger] newv.stores[k1]).wiki_id != (#[trigger] newv.stores[k2]).wiki_id by {
        assert(newv.stores[k1].wiki_id == oldv.stores[k1].wiki_id) by {
            if k1 != k {
                assert(newv.stores[k1] == oldv.stores[k1]);
            }
        }
        assert(newv.stores[k2].wiki_id == oldv.stores[k2].wiki_id) by {
            if k2 != k {
                assert(newv.stores[k2] == oldv.stores[k2]);
            }
        }
    }
    assert forall|j: int| 0 <= j < newv.stores.len()
        implies (#[trigger] newv.stores[j]).store.wf() by {
        if j != k {
            assert(newv.stores[j] == oldv.stores[j]);
        }
    }
    // every page's wiki has a store
    assert forall|i: int| 0 <= i < newv.pages.len()
        implies store_idx(newv.stores, (#[trigger] newv.pages[i]).wiki_id) is Some by {
        if i != pi {
            assert(newv.pages[i] == oldv.pages[i]);
            assert(store_idx(oldv.stores, oldv.pages[i].wiki_id) is Some);
        } else {
            let w = newv.pages[pi].wiki_id;
            assert forall|j: int| 0 <= j < k
                implies (#[trigger] oldv.stores[j]).wiki_id != w by {
                assert(oldv.stores[j].wiki_id != oldv.stores[k].wiki_id);
            }
            lemma_first_where_holds(oldv.stores, |e: StoreEntryV| e.wiki_id == w, k);
        }
    }
    // every live page's blob still exists at its wiki's store head
    assert forall|i: int|
        0 <= i < newv.pages.len() && (#[trigger] newv.pages[i]).deleted_at is None
        implies live_blob_ok(newv.pages, newv.stores, i) by {
        if i == pi {
            let w = newv.pages[pi].wiki_id;
            assert forall|j: int| 0 <= j < k
                implies (#[trigger] oldv.stores[j]).wiki_id != w by {
                assert(oldv.stores[j].wiki_id != oldv.stores[k].wiki_id);
            }
            lemma_first_where_holds(oldv.stores, |e: StoreEntryV| e.wiki_id == w, k);
            assert(store_idx(newv.stores, w) == Some(k));
        } else {
            assert(newv.pages[i] == oldv.pages[i]);
            assert(live_blob_ok(oldv.pages, oldv.stores, i));
            let w = oldv.pages[i].wiki_id;
            let kw = store_idx(oldv.stores, w)->Some_0;
            lemma_first_where_bounds(oldv.stores, |e: StoreEntryV| e.wiki_id == w);
            assert(store_idx(newv.stores, w) == Some(kw));
            if kw != k {
                assert(newv.stores[kw] == oldv.stores[kw]);
            } else {
                assert(oldv.pages[i].wiki_id == oldv.stores[k].wiki_id);
                assert(tree_get(newv.stores[k].store.head_tree(), oldv.pages[i].slug)
                    == tree_get(oldv.stores[k].store.head_tree(), oldv.pages[i].slug));
            }
        }
    }
}

/// The store commit message the page service writes:
/// `"User ID <uid> <verb> page ID <pid> on wiki ID <wid>"`.
pub open spec fn commit_msg(user_id: u64, ct: ChangeType, page_id: u64, wiki_id: u64) -> Seq<
    char,
> {
    "User ID "@ + ascii_chars(dec_bytes(user_id as nat)) + " "@ + ct.spec_verb() + " page ID "@
        + ascii_chars(dec_bytes(page_id as nat)) + " on wiki ID "@ + ascii_chars(
        dec_bytes(wiki_id as nat),
    )
}

/// Renders the store commit message.
fn commit_data(user_id: u64, ct: ChangeType, page_id: u64, wiki_id: u64) -> (r: String)
    ensures
        r@ == commit_msg(user_id, ct, page_id, wiki_id),
{
    let mut s = "User ID ".to_owned();
    let uid = u64_to_string(user_id);
    s.append(uid.as_str());
    s.append(" ");
    s.append(ct.verb());
    s.append(" page ID ");
    let pid = u64_to_string(page_id);
    s.append(pid.as_str());
    s.append(" on wiki ID ");
    let wid = u64_to_string(wiki_id);
    s.append(wid.as_str());
    proof {
        assert(s@ =~= commit_msg(user_id, ct, page_id, wiki_id));
    }
    s
}

impl PageService {
    /// Creates an empty service with no wikis registered.
    pub fn new() -> (s: Self)
        ensures
            s@.pages =~= Seq::<PageV>::empty(),
            s@.revisions =~= Seq::<RevisionV>::empty(),
            s@.tag_history =~= Seq::<TagChangeV>::empty(),
            s@.stores =~= Seq::<StoreEntryV>::empty(),
            s@.wf(),
    {
        let s = PageService {
            pages: Vec::new(),
            revisions: Vec::new(),
            tag_history: Vec::new(),
            stores: Vec::new(),
        };
        proof {
            assert(s@.pages =~= Seq::<PageV>::empty());
            assert(s@.revisions =~= Seq::<RevisionV>::empty());
            assert(s@.tag_history =~= Seq::<TagChangeV>::empty());
            assert(s@.stores =~= Seq::<StoreEntryV>::empty());
        }
        s
    }

    /// The position of the store for `wiki_id`.
    fn find_store(&self, wiki_id: u64) -> (r: Option<usize>)
        ensures
            match r {
                Some(k) => k < self@.stores.len() && store_idx(self@.stores, wiki_id) == Some(
                    k as int,
                ),
                None => store_idx(self@.stores, wiki_id) is None,
            },
    {
        let mut i: usize = 0;
        while i < self.stores.len()
            invariant
                i <= self.stores@.len(),
                self@.stores.len() == self.stores@.len(),
                forall|j: int| 0 <= j < i ==> (#[trigger] self@.stores[j]).wiki_id != wiki_id,
            decreases self.stores@.len() - i,
        {
            proof {
                assert(self@.stores[i as int] == (StoreEntryV {
                    wiki_id: self.stores@[i as int].wiki_id,
                    store: self.stores@[i as int].store@,
                }));
            }
            if self.stores[i].wiki_id == wiki_id {
                proof {
                    lemma_first_where_holds(
                        self@.stores,
                        |e: StoreEntryV| e.wiki_id == wiki_id,
                        i as int,
                    );
                }
                return Some(i);
            }
            i += 1;
        }
        proof {
            lemma_first_where_bounds(self@.stores, |e: StoreEntryV| e.wiki_id == wiki_id);
        }
        None
    }

    /// The position of the live page for `(wiki_id, slug)`.
    fn find_live(&self, wiki_id: u64, slug: &str) -> (r: Option<usize>)
        ensures
            match r {
                Some(k) => k < self@.pages.len() && self@.live_idx(wiki_id, slug@) == Some(
                    k as int,
                ),
                None => self@.live_idx(wiki_id, slug@) is None,
            },
    {
        let mut i: usize = 0;
        while i < self.pages.len()
            invariant
                i <= self.pages@.len(),
                self@.pages.len() == self.pages@.len(),
                forall|j: int|
                    0 <= j < i ==> !((#[trigger] self@.pages[j]).wiki_id == wiki_id
                        && self@.pages[j].slug == slug@ && self@.pages[j].deleted_at is None),
            decreases self.pages@.len() - i,
        {
            proof {
                assert(self@.pages[i as int] == self.pages@[i as int]@);
            }
            let p = &self.pages[i];
            if p.wiki_id == wiki_id && p.deleted_at.is_none() && str_eq(p.slug.as_str(), slug) {
                proof {
                    lemma_first_where_holds(
                        self@.pages,
                        |p: PageV| p.wiki_id == wiki_id && p.slug == slug@ && p.deleted_at is None,
                        i as int,
                    );
                }
                return Some(i);
            }
            i += 1;
        }
        proof {
            lemma_first_where_bounds(
                self@.pages,
                |p: PageV| p.wiki_id == wiki_id && p.slug == slug@ && p.deleted_at is None,
            );
        }
        None
    }

    /// The position of the most recently created soft-deleted page for
    /// `(wiki_id, slug)`.
    fn find_last_deleted(&self, wiki_id: u64, slug: &str) -> (r: Option<usize>)
        ensures
            match r {
                Some(k) => k < self@.pages.len() && self@.last_deleted_idx(wiki_id, slug@) == Some(
                    k as int,
                ),
                None => self@.last_deleted_idx(wiki_id, slug@) is None,
            },
    {
        let mut i: usize = self.pages.len();
        while i > 0
            invariant
                i <= self.pages@.len(),
                self@.pages.len() == self.pages@.len(),
                forall|j: int|
                    i <= j < self@.pages.len() ==> !((#[trigger] self@.pages[j]).wiki_id == wiki_id
                        && self@.pages[j].slug == slug@ && self@.pages[j].deleted_at is Some),
            decreases i,
        {
            let k = i - 1;
            proof {
                assert(self@.pages[k as int] == self.pages@[k as int]@);
            }
            let p = &self.pages[k];
            if p.wiki_id == wiki_id && p.deleted_at.is_some() && str_eq(p.slug.as_str(), slug) {
                proof {
                    lemma_last_where_holds(
                        self@.pages,
                        |p: PageV| p.wiki_id == wiki_id && p.slug == slug@ && p.deleted_at is Some,
                        k as int,
                    );
                }
                return Some(k);
            }
            i = k;
        }
        proof {
            lemma_last_where_bounds(
                self@.pages,
                |p: PageV| p.wiki_id == wiki_id && p.slug == slug@ && p.deleted_at is Some,
            );
        }
        None
    }

    /// Registers a wiki: constructs its store and writes the initial commit.
    /// Re-adding an already registered wiki fails with `WikiExists`.
    pub fn add_store(&mut self, wiki_id: u64, domain: &str) -> (r: Result<(), Error>)
        requires
            old(self)@.wf(),
        ensures
            final(self)@.wf(),
            match r {
                Ok(()) => {
                    &&& store_idx(old(self)@.stores, wiki_id) is None
                    &&& final(self)@.pages == old(self)@.pages
                    &&& final(self)@.revisions == old(self)@.revisions
                    &&& final(self)@.tag_history == old(self)@.tag_history
                    &&& final(self)@.stores.len() == old(self)@.stores.len() + 1
                    &&& forall|j: int|
                        0 <= j < old(self)@.stores.len() ==> final(self)@.stores[j] == old(
                            self,
                        )@.stores[j]
                    &&& final(self)@.stores.last().wiki_id == wiki_id
                    &&& final(self)@.stores.last().store == initial_store(domain@)
                    &&& store_idx(final(self)@.stores, wiki_id) == Some(
                        old(self)@.stores.len() as int,
                    )
                },
                Err(e) => {
                    &&& e == Error::WikiExists
                    &&& store_idx(old(self)@.stores, wiki_id) is Some
                    &&& final(self)@ == old(self)@
                },
            },
    {
        if let Some(_) = self.find_store(wiki_id) {
            return Err(Error::WikiExists);
        }
        let ghost oldv = self@;
        let mut store = RevisionStore::new(domain.to_owned());
        proof {
            assert(store@ == (StoreV { domain: domain@, commits: Seq::empty() }));
        }
        let _ = store.initial_commit();
        let entry = StoreEntry { wiki_id, store };
        self.stores.push(entry);
        proof {
            assert forall|j: int| 0 <= j < oldv.stores.len()
                implies final(self)@.stores[j] == oldv.stores[j] by {
                assert(self@.stores[j] == (StoreEntryV {
                    wiki_id: self.stores@[j].wiki_id,
                    store: self.stores@[j].store@,
                }));
            }
            assert(self@.stores[oldv.stores.len() as int] == (StoreEntryV {
                wiki_id: self.stores@[oldv.stores.len() as int].wiki_id,
                store: self.stores@[oldv.stores.len() as int].store@,
            }));
            assert(self@.pages =~= oldv.pages);
            assert(self@.revisions =~= oldv.revisions);
            assert(self@.tag_history =~= oldv.tag_history);
            lemma_first_where_bounds(oldv.stores, |e: StoreEntryV| e.wiki_id == wiki_id);
            assert forall|j: int| 0 <= j < oldv.stores.len()
                implies (#[trigger] self@.stores[j]).wiki_id != wiki_id by {
                assert(self@.stores[j] == oldv.stores[j]);
            }
            lemma_first_where_holds(
                self@.stores,
                |e: StoreEntryV| e.wiki_id == wiki_id,
                oldv.stores.len() as int,
            );
            self.lemma_wf_after_store_push(oldv, wiki_id);
        }
        Ok(())
    }

    /// Adding a store for a fresh wiki preserves well-formedness.
    proof fn lemma_wf_after_store_push(&self, oldv: ServiceV, wiki_id: u64)
        requires
            oldv.wf(),
            self@.pages == oldv.pages,
            self@.revisions == oldv.revisions,
            self@.tag_history == oldv.tag_history,
            self@.stores.len() == oldv.stores.len() + 1,
            forall|j: int| 0 <= j < oldv.stores.len() ==> #[trigger] self@.stores[j] == oldv.stores[j],
            self@.stores.last().wiki_id == wiki_id,
            self@.stores.last().store.wf(),
            forall|j: int| 0 <= j < oldv.stores.len() ==> (#[trigger] oldv.stores[j]).wiki_id != wiki_id,
        ensures
            self@.wf(),
    {
        let newv = self@;
        assert forall|k1: int, k2: int| 0 <= k1 < k2 < newv.stores.len()
            implies (#[trigger] newv.stores[k1]).wiki_id != (#[trigger] newv.stores[k2]).wiki_id by {
            assert(newv.stores[k1] == oldv.stores[k1]);
            if k2 < oldv.stores.len() {
                assert(newv.stores[k2] == oldv.stores[k2]);
            }
        }
        assert forall|k: int| 0 <= k < newv.stores.len()
            implies (#[trigger] newv.stores[k]).store.wf() by {
            if k < oldv.stores.len() {
                assert(newv.stores[k] == oldv.stores[k]);
            }
        }
        assert forall|i: int| 0 <= i < newv.pages.len()
            implies store_idx(newv.stores, (#[trigger] newv.pages[i]).wiki_id) is Some by {
            assert(oldv.pages[i] == newv.pages[i]);
            lemma_first_where_bounds(oldv.stores, |e: StoreEntryV| e.wiki_id == newv.pages[i].wiki_id);
            let k = store_idx(oldv.stores, newv.pages[i].wiki_id)->Some_0;
            assert(newv.stores[k] == oldv.stores[k]);
            lemma_first_where_holds(newv.stores, |e: StoreEntryV| e.wiki_id == newv.pages[i].wiki_id, k);
        }
        assert forall|i: int| 0 <= i < newv.revisions.len()
            implies #[trigger] rev_commit_ok(newv.pages, newv.revisions, newv.stores, i) by {
            assert(rev_commit_ok(oldv.pages, oldv.revisions, oldv.stores, i));
            let w = oldv.pages[oldv.revisions[i].page_id - 1].wiki_id;
            lemma_first_where_bounds(oldv.stores, |e: StoreEntryV| e.wiki_id == w);
            let k = store_idx(oldv.stores, w)->Some_0;
            assert(newv.stores[k] == oldv.stores[k]);
            assert forall|j: int| 0 <= j < k implies (#[trigger] newv.stores[j]).wiki_id != w by {
                assert(newv.stores[j] == oldv.stores[j]);
            }
            lemma_first_where_holds(newv.stores, |e: StoreEntryV| e.wiki_id == w, k);
        }
        assert forall|i: int|
            0 <= i < newv.pages.len() && (#[trigger] newv.pages[i]).deleted_at is None
            implies live_blob_ok(newv.pages, newv.stores, i) by {
            assert(newv.pages[i] == oldv.pages[i]);
            assert(live_blob_ok(oldv.pages, oldv.stores, i));
            let w = oldv.pages[i].wiki_id;
            lemma_first_where_bounds(oldv.stores, |e: StoreEntryV| e.wiki_id == w);
            let kw = store_idx(oldv.stores, w)->Some_0;
            assert(newv.stores[kw] == oldv.stores[kw]);
            assert forall|j: int| 0 <= j < kw
                implies (#[trigger] newv.stores[j]).wiki_id != w by {
                assert(newv.stores[j] == oldv.stores[j]);
            }
            lemma_first_where_holds(newv.stores, |e: StoreEntryV| e.wiki_id == w, kw);
        }
    }

    /// Creates a page: inserts a live page row with no tags and records a
    /// `Create` revision whose store commit writes `content` under the slug.
    /// Returns the new page and revision ids. Fails with `SlugNotNormal`
    /// for a non-normal slug, `WikiNotFound` for an unregistered wiki, and
    /// `PageExists` when a live page already occupies the slug; failures
    /// leave the state unchanged.
    pub fn create(
        &mut self,
        commit: &PageCommit,
        content: &[u8],
        title: &str,
        alt_title: Option<&str>,
    ) -> (r: Result<(u64, u64), Error>)
        requires
            old(self)@.wf(),
            old(self)@.can_mutate(),
        ensures
            final(self)@.wf(),
            match r {
                Ok((pid, rid)) => {
                    &&& is_normal_chars(commit.slug@)
                    &&& store_idx(old(self)@.stores, commit.wiki_id) is Some
                    &&& old(self)@.live_idx(commit.wiki_id, commit.slug@) is None
                    &&& pid == old(self)@.pages.len() + 1
                    &&& rid == old(self)@.revisions.len() + 1
                    &&& final(self)@ == old(self)@.spec_create(
                        commit.wiki_id,
                        commit.slug@,
                        commit.message@,
                        commit.user_id,
                        commit.username@,
                        content@,
                        title@,
                        match alt_title {
                            Some(s) => Some(s@),
                            None => None,
                        },
                    )
                },
                Err(e) => {
                    &&& final(self)@ == old(self)@
                    &&& match e {
                        Error::SlugNotNormal => !is_normal_chars(commit.slug@),
                        Error::WikiNotFound => is_normal_chars(commit.slug@) && store_idx(
                            old(self)@.stores,
                            commit.wiki_id,
                        ) is None,
                        Error::PageExists => is_normal_chars(commit.slug@) && store_idx(
                            old(self)@.stores,
                            commit.wiki_id,
                        ) is Some && old(self)@.live_idx(commit.wiki_id, commit.slug@) is Some,
                        _ => false,
                    }
                },
            },
    {
        if let Err(e) = check_normal(commit.slug.as_str()) {
            return Err(e);
        }
        let k = match self.find_store(commit.wiki_id) {
            Some(k) => k,
            None => {
                return Err(Error::WikiNotFound);
            },
        };
        if let Some(_) = self.find_live(commit.wiki_id, commit.slug.as_str()) {
            return Err(Error::PageExists);
        }
        let ghost oldv = self@;
        let pid = (self.pages.len() as u64) + 1;
        let rid = (self.revisions.len() as u64) + 1;
        let msg = commit_data(commit.user_id, ChangeType::Create, pid, commit.wiki_id);
        let info = CommitInfo { username: clone_string(&commit.username), message: msg };
        proof {
            assert(oldv.stores[k as int] == (StoreEntryV {
                wiki_id: self.stores@[k as int].wiki_id,
                store: self.stores@[k as int].store@,
            }));
        }
        let entry = &mut self.stores[k];
        let h = match entry.store.commit(commit.slug.as_str(), content, &info) {
            Ok(h) => h,
            Err(e) => {
                return Err(e);
            },
        };
        let page = Page {
            page_id: pid,
            wiki_id: commit.wiki_id,
            slug: clone_string(&commit.slug),
            title: title.to_owned(),
            alt_title: match alt_title {
                Some(s) => Some(s.to_owned()),
                None => None,
            },
            tags: Vec::new(),
            created_at: pid,
            deleted_at: None,
        };
        self.pages.push(page);
        let rev = Revision {
            revision_id: rid,
            page_id: pid,
            user_id: commit.user_id,
            message: clone_string(&commit.message),
            git_commit: h,
            change_type: ChangeType::Create,
            created_at: rid,
        };
        self.revisions.push(rev);
        proof {
            let newv = self@;
            let target = oldv.spec_create(
                commit.wiki_id,
                commit.slug@,
                commit.message@,
                commit.user_id,
                commit.username@,
                content@,
                title@,
                match alt_title {
                    Some(s) => Some(s@),
                    None => None,
                },
            );
            assert forall|j: int| 0 <= j < newv.pages.len()
                implies #[trigger] newv.pages[j] == target.pages[j] by {
                assert(newv.pages[j] == self.pages@[j]@);
                if j < oldv.pages.len() {
                    assert(oldv.pages[j] == self.pages@[j]@);
                } else {
                    assert(self.pages@[j]@.tags =~= Seq::<Seq<char>>::empty());
                }
            }
            assert(newv.pages =~= target.pages);
            assert forall|j: int| 0 <= j < newv.revisions.len()
                implies #[trigger] newv.revisions[j] == target.revisions[j] by {
                assert(newv.revisions[j] == self.revisions@[j]@);
                if j < oldv.revisions.len() {
                    assert(oldv.revisions[j] == self.revisions@[j]@);
                }
            }
            assert(newv.revisions =~= target.revisions);
            assert(newv.tag_history =~= target.tag_history) by {
                assert forall|j: int| 0 <= j < newv.tag_history.len()
                    implies #[trigger] newv.tag_history[j] == oldv.tag_history[j] by {
                    assert(newv.tag_history[j] == self.tag_history@[j]@);
                }
            }
            lemma_first_where_bounds(oldv.stores, |e: StoreEntryV| e.wiki_id == commit.wiki_id);
            assert forall|j: int| 0 <= j < newv.stores.len()
                implies #[trigger] newv.stores[j] == target.stores[j] by {
                assert(newv.stores[j] == (StoreEntryV {
                    wiki_id: self.stores@[j].wiki_id,
                    store: self.stores@[j].store@,
                }));
                if j != k {
                    assert(oldv.stores[j] == (StoreEntryV {
                        wiki_id: self.stores@[j].wiki_id,
                        store: self.stores@[j].store@,
                    }));
                } else {
                    assert(oldv.stores[k as int].wiki_id == commit.wiki_id);
                }
            }
            assert(newv.stores =~= target.stores);
            assert(newv == target);
            lemma_first_where_bounds(
                oldv.pages,
                |p: PageV| p.wiki_id == commit.wiki_id && p.slug == commit.slug@
                    && p.deleted_at is None,
            );
            let oldst = oldv.stores[k as int].store;
            lemma_old_head_wf(oldv, k as int);
            lemma_tree_set(oldst.head_tree(), commit.slug@, content@);
            assert(newv.stores[k as int].store.head_tree() == tree_set(
                oldst.head_tree(),
                commit.slug@,
                content@,
            ));
            assert forall|j: int|
                0 <= j < oldv.pages.len() && (#[trigger] oldv.pages[j]).deleted_at is None
                    && oldv.pages[j].wiki_id == oldv.stores[k as int].wiki_id
                implies tree_get(
                    newv.stores[k as int].store.head_tree(),
                    oldv.pages[j].slug,
                ) == tree_get(oldst.head_tree(), oldv.pages[j].slug) by {
                assert(oldv.pages[j].slug != commit.slug@);
                assert(tree_get(
                    tree_set(oldst.head_tree(), commit.slug@, content@),
                    oldv.pages[j].slug,
                ) == tree_get(oldst.head_tree(), oldv.pages[j].slug));
            }
            lemma_wf_after_revision(oldv, newv, k as int, oldv.pages.len() as int);
        }
        Ok((pid, rid))
    }

    /// Soft-deletes the live page for the commit's `(wiki_id, slug)`:
    /// marks the row deleted, removes the blob in the store, and records a
    /// `Delete` revision. Fails with `PageNotFound` when no live page
    /// occupies the slug (or the store holds no blob for it); failures leave
    /// the state unchanged.
    pub fn remove(&mut self, commit: &PageCommit) -> (r: Result<u64, Error>)
        requires
            old(self)@.wf(),
            old(self)@.can_mutate(),
        ensures
            final(self)@.wf(),
            match r {
                Ok(rid) => {
                    &&& is_normal_chars(commit.slug@)
                    &&& old(self)@.live_idx(commit.wiki_id, commit.slug@) is Some
                    &&& rid == old(self)@.revisions.len() + 1
                    &&& final(self)@ == old(self)@.spec_remove(
                        old(self)@.live_idx(commit.wiki_id, commit.slug@)->Some_0,
                        commit.message@,
                        commit.user_id,
                        commit.username@,
                    )
                },
                Err(e) => {
                    &&& final(self)@ == old(self)@
                    &&& match e {
                        Error::SlugNotNormal => !is_normal_chars(commit.slug@),
                        Error::PageNotFound => is_normal_chars(commit.slug@) && old(
                            self,
                        )@.live_idx(commit.wiki_id, commit.slug@) is None,
                        _ => false,
                    }
                },
            },
    {
        if let Err(e) = check_normal(commit.slug.as_str()) {
            return Err(e);
        }
        let pi = match self.find_live(commit.wiki_id, commit.slug.as_str()) {
            Some(pi) => pi,
            None => {
                return Err(Error::PageNotFound);
            },
        };
        let ghost oldv = self@;
        proof {
            lemma_first_where_bounds(
                oldv.pages,
                |p: PageV| p.wiki_id == commit.wiki_id && p.slug == commit.slug@
                    && p.deleted_at is None,
            );
            assert(oldv.pages[pi as int] == self.pages@[pi as int]@);
        }
        let k = match self.find_store(commit.wiki_id) {
            Some(k) => k,
            None => {
                // Unreachable: a live page's wiki has a store, by
                // well-formedness.
                proof {
                    assert(false);
                }
                return Err(Error::WikiNotFound);
            },
        };
        let rid = (self.revisions.len() as u64) + 1;
        let page_id = self.pages[pi].page_id;
        let msg = commit_data(commit.user_id, ChangeType::Delete, page_id, commit.wiki_id);
        let info = CommitInfo { username: clone_string(&commit.username), message: msg };
        proof {
            lemma_first_where_bounds(oldv.stores, |e: StoreEntryV| e.wiki_id == commit.wiki_id);
            assert(oldv.stores[k as int] == (StoreEntryV {
                wiki_id: self.stores@[k as int].wiki_id,
                store: self.stores@[k as int].store@,
            }));
        }
        let entry = &mut self.stores[k];
        let h = match entry.store.remove(commit.slug.as_str(), &info) {
            Ok(Some(h)) => h,
            Ok(None) => {
                // Unreachable: a live page's blob exists at its wiki's store
                // head, by well-formedness.
                proof {
                    assert(live_blob_ok(oldv.pages, oldv.stores, pi as int));
                    assert(false);
                }
                return Err(Error::PageNotFound);
            },
            Err(e) => {
                return Err(e);
            },
        };
        let p = &mut self.pages[pi];
        p.deleted_at = Some(rid);
        let rev = Revision {
            revision_id: rid,
            page_id,
            user_id: commit.user_id,
            message: clone_string(&commit.message),
            git_commit: h,
            change_type: ChangeType::Delete,
            created_at: rid,
        };
        self.revisions.push(rev);
        proof {
            let newv = self@;
            let target = oldv.spec_remove(
                pi as int,
                commit.message@,
                commit.user_id,
                commit.username@,
            );
            assert forall|j: int| 0 <= j < newv.pages.len()
                implies #[trigger] newv.pages[j] == target.pages[j] by {
                assert(newv.pages[j] == self.pages@[j]@);
                if j != pi {
                    assert(oldv.pages[j] == self.pages@[j]@);
                }
            }
            assert(newv.pages =~= target.pages);
            assert forall|j: int| 0 <= j < newv.revisions.len()
                implies #[trigger] newv.revisions[j] == target.revisions[j] by {
                assert(newv.revisions[j] == self.revisions@[j]@);
                if j < oldv.revisions.len() {
                    assert(oldv.revisions[j] == self.revisions@[j]@);
                }
            }
            assert(newv.revisions =~= target.revisions);
            assert(newv.tag_history =~= target.tag_history) by {
                assert forall|j: int| 0 <= j < newv.tag_history.len()
                    implies #[trigger] newv.tag_history[j] == oldv.tag_history[j] by {
                    assert(newv.tag_history[j] == self.tag_history@[j]@);
                }
            }
            assert forall|j: int| 0 <= j < newv.stores.len()
                implies #[trigger] newv.stores[j] == target.stores[j] by {
                assert(newv.stores[j] == (StoreEntryV {
                    wiki_id: self.stores@[j].wiki_id,
                    store: self.stores@[j].store@,
                }));
                if j != k {
                    assert(oldv.stores[j] == (StoreEntryV {
                        wiki_id: self.stores@[j].wiki_id,
                        store: self.stores@[j].store@,
                    }));
                }
            }
            assert(newv.stores =~= target.stores);
            assert(newv == target);
            let oldst = oldv.stores[k as int].store;
            lemma_old_head_wf(oldv, k as int);
            lemma_tree_remove(oldst.head_tree(), oldv.pages[pi as int].slug);
            assert(newv.stores[k as int].store.head_tree() == tree_remove(
                oldst.head_tree(),
                oldv.pages[pi as int].slug,
            ));
            assert forall|j: int|
                0 <= j < oldv.pages.len() && j != pi && (
                #[trigger] oldv.pages[j]).deleted_at is None && oldv.pages[j].wiki_id
                    == oldv.stores[k as int].wiki_id
                implies tree_get(
                    newv.stores[k as int].store.head_tree(),
                    oldv.pages[j].slug,
                ) == tree_get(oldst.head_tree(), oldv.pages[j].slug) by {
                assert(oldv.pages[pi as int].deleted_at is None);
                assert(oldv.pages[j].wiki_id == oldv.pages[pi as int].wiki_id);
                if oldv.pages[j].slug == oldv.pages[pi as int].slug {
                    assert(false);
                }
                assert(tree_get(
                    tree_remove(oldst.head_tree(), oldv.pages[pi as int].slug),
                    oldv.pages[j].slug,
                ) == tree_get(oldst.head_tree(), oldv.pages[j].slug));
            }
            lemma_wf_after_revision(oldv, newv, k as int, pi as int);
        }
        Ok(rid)
    }

    /// Commits a change to the live page for the commit's `(wiki_id, slug)`:
    /// updates any supplied metadata fields and records a `Modify` revision;
    /// the store commit writes `content` when supplied and is an empty
    /// commit otherwise. Fails with `PageNotFound` when no live page
    /// occupies the slug; failures leave the state unchanged.
    pub fn commit(
        &mut self,
        commit: &PageCommit,
        content: Option<&[u8]>,
        title: Option<&str>,
        alt_title: Option<Option<&str>>,
    ) -> (r: Result<u64, Error>)
        requires
            old(self)@.wf(),
            old(self)@.can_mutate(),
        ensures
            final(self)@.wf(),
            match r {
                Ok(rid) => {
                    &&& is_normal_chars(commit.slug@)
                    &&& old(self)@.live_idx(commit.wiki_id, commit.slug@) is Some
                    &&& rid == old(self)@.revisions.len() + 1
                    &&& final(self)@ == old(self)@.spec_commit_op(
                        old(self)@.live_idx(commit.wiki_id, commit.slug@)->Some_0,
                        commit.message@,
                        commit.user_id,
                        commit.username@,
                        match content {
                            Some(c) => Some(c@),
                            None => None,
                        },
                        match title {
                            Some(t) => Some(t@),
                            None => None,
                        },
                        match alt_title {
                            Some(Some(a)) => Some(Some(a@)),
                            Some(None) => Some(None),
                            None => None,
                        },
                    )
                },
                Err(e) => {
                    &&& final(self)@ == old(self)@
                    &&& match e {
                        Error::SlugNotNormal => !is_normal_chars(commit.slug@),
                        Error::PageNotFound => is_normal_chars(commit.slug@) && old(
                            self,
                        )@.live_idx(commit.wiki_id, commit.slug@) is None,
                        _ => false,
                    }
                },
            },
    {
        if let Err(e) = check_normal(commit.slug.as_str()) {
            return Err(e);
        }
        let pi = match self.find_live(commit.wiki_id, commit.slug.as_str()) {
            Some(pi) => pi,
            None => {
                return Err(Error::PageNotFound);
            },
        };
        let ghost oldv = self@;
        proof {
            lemma_first_where_bounds(
                oldv.pages,
                |p: PageV| p.wiki_id == commit.wiki_id && p.slug == commit.slug@
                    && p.deleted_at is None,
            );
            assert(oldv.pages[pi as int] == self.pages@[pi as int]@);
        }
        let k = match self.find_store(commit.wiki_id) {
            Some(k) => k,
            None => {
                // Unreachable: a live page's wiki has a store, by
                // well-formedness.
                proof {
                    assert(false);
                }
                return Err(Error::WikiNotFound);
            },
        };
        let rid = (self.revisions.len() as u64) + 1;
        let page_ident = self.pages[pi].page_id;
        let msg = commit_data(commit.user_id, ChangeType::Modify, page_ident, commit.wiki_id);
        let info = CommitInfo { username: clone_string(&commit.username), message: msg };
        proof {
            lemma_first_where_bounds(oldv.stores, |e: StoreEntryV| e.wiki_id == commit.wiki_id);
            assert(oldv.stores[k as int] == (StoreEntryV {
                wiki_id: self.stores@[k as int].wiki_id,
                store: self.stores@[k as int].store@,
            }));
        }
        let entry = &mut self.stores[k];
        let h = match content {
            Some(c) => {
                match entry.store.commit(commit.slug.as_str(), c, &info) {
                    Ok(h) => h,
                    Err(e) => {
                        return Err(e);
                    },
                }
            },
            None => entry.store.empty_commit(&info),
        };
        let p = &mut self.pages[pi];
        if let Some(t) = title {
            p.title = t.to_owned();
        }
        match alt_title {
            Some(Some(a)) => {
                p.alt_title = Some(a.to_owned());
            },
            Some(None) => {
                p.alt_title = None;
            },
            None => {},
        }
        let rev = Revision {
            revision_id: rid,
            page_id: page_ident,
            user_id: commit.user_id,
            message: clone_string(&commit.message),
            git_commit: h,
            change_type: ChangeType::Modify,
            created_at: rid,
        };
        self.revisions.push(rev);
        proof {
            let newv = self@;
            let target = oldv.spec_commit_op(
                pi as int,
                commit.message@,
                commit.user_id,
                commit.username@,
                match content {
                    Some(c) => Some(c@),
                    None => None,
                },
                match title {
                    Some(t) => Some(t@),
                    None => None,
                },
                match alt_title {
                    Some(Some(a)) => Some(Some(a@)),
                    Some(None) => Some(None),
                    None => None,
                },
            );
            assert forall|j: int| 0 <= j < newv.pages.len()
                implies #[trigger] newv.pages[j] == target.pages[j] by {
                assert(newv.pages[j] == self.pages@[j]@);
                if j != pi {
                    assert(oldv.pages[j] == self.pages@[j]@);
                }
            }
            assert(newv.pages =~= target.pages);
            assert forall|j: int| 0 <= j < newv.revisions.len()
                implies #[trigger] newv.revisions[j] == target.revisions[j] by {
                assert(newv.revisions[j] == self.revisions@[j]@);
                if j < oldv.revisions.len() {
                    assert(oldv.revisions[j] == self.revisions@[j]@);
                }
            }
            assert(newv.revisions =~= target.revisions);
            assert(newv.tag_history =~= target.tag_history) by {
                assert forall|j: int| 0 <= j < newv.tag_history.len()
                    implies #[trigger] newv.tag_history[j] == oldv.tag_history[j] by {
                    assert(newv.tag_history[j] == self.tag_history@[j]@);
                }
            }
            assert forall|j: int| 0 <= j < newv.stores.len()
                implies #[trigger] newv.stores[j] == target.stores[j] by {
                assert(newv.stores[j] == (StoreEntryV {
                    wiki_id: self.stores@[j].wiki_id,
                    store: self.stores@[j].store@,
                }));
                if j != k {
                    assert(oldv.stores[j] == (StoreEntryV {
                        wiki_id: self.stores@[j].wiki_id,
                        store: self.stores@[j].store@,
                    }));
                }
            }
            assert(newv.stores =~= target.stores);
            assert(newv == target);
            let oldst = oldv.stores[k as int].store;
            lemma_old_head_wf(oldv, k as int);
            assert(live_blob_ok(oldv.pages, oldv.stores, pi as int));
            match content {
                Some(c) => {
                    lemma_tree_set(oldst.head_tree(), oldv.pages[pi as int].slug, c@);
                    assert(newv.stores[k as int].store.head_tree() == tree_set(
                        oldst.head_tree(),
                        oldv.pages[pi as int].slug,
                        c@,
                    ));
                },
                None => {
                    assert(newv.stores[k as int].store.head_tree() == oldst.head_tree());
                },
            }
            assert forall|j: int|
                0 <= j < oldv.pages.len() && j != pi && (
                #[trigger] oldv.pages[j]).deleted_at is None && oldv.pages[j].wiki_id
                    == oldv.stores[k as int].wiki_id
                implies tree_get(
                    newv.stores[k as int].store.head_tree(),
                    oldv.pages[j].slug,
                ) == tree_get(oldst.head_tree(), oldv.pages[j].slug) by {
                match content {
                    Some(c) => {
                        assert(oldv.pages[pi as int].deleted_at is None);
                        assert(oldv.pages[j].wiki_id == oldv.pages[pi as int].wiki_id);
                        if oldv.pages[j].slug == oldv.pages[pi as int].slug {
                            assert(false);
                        }
                        assert(tree_get(
                            tree_set(oldst.head_tree(), oldv.pages[pi as int].slug, c@),
                            oldv.pages[j].slug,
                        ) == tree_get(oldst.head_tree(), oldv.pages[j].slug));
                    },
                    None => {},
                }
            }
            lemma_wf_after_revision(oldv, newv, k as int, pi as int);
        }
        Ok(rid)
    }

    /// Renames the live page at `old_slug` to `new_slug`: updates the
    /// page's slug, moves the blob in the store, and records a `Rename`
    /// revision. Fails with `PageNotFound` when no live page occupies
    /// `old_slug` (or its blob is missing) and `PageExists` when a live page
    /// or blob already occupies `new_slug`; failures leave the state
    /// unchanged.
    pub fn rename(
        &mut self,
        wiki_id: u64,
        old_slug: &str,
        new_slug: &str,
        message: &str,
        user_id: u64,
        username: &str,
    ) -> (r: Result<u64, Error>)
        requires
            old(self)@.wf(),
            old(self)@.can_mutate(),
        ensures
            final(self)@.wf(),
            match r {
                Ok(rid) => {
                    &&& is_normal_chars(old_slug@) && is_normal_chars(new_slug@)
                    &&& old(self)@.live_idx(wiki_id, old_slug@) is Some
                    &&& old(self)@.live_idx(wiki_id, new_slug@) is None
                    &&& rid == old(self)@.revisions.len() + 1
                    &&& final(self)@ == old(self)@.spec_rename_op(
                        old(self)@.live_idx(wiki_id, old_slug@)->Some_0,
                        new_slug@,
                        message@,
                        user_id,
                        username@,
                    )
                },
                Err(e) => {
                    &&& final(self)@ == old(self)@
                    &&& match e {
                        Error::SlugNotNormal => !is_normal_chars(old_slug@) || !is_normal_chars(
                            new_slug@,
                        ),
                        Error::PageNotFound => is_normal_chars(old_slug@) && is_normal_chars(
                            new_slug@,
                        ) && old(self)@.live_idx(wiki_id, old_slug@) is None,
                        Error::PageExists => is_normal_chars(old_slug@) && is_normal_chars(
                            new_slug@,
                        ) && old(self)@.live_idx(wiki_id, old_slug@) is Some && (old(
                            self,
                        )@.live_idx(wiki_id, new_slug@) is Some || old(self)@.stores[
                            store_idx(old(self)@.stores, wiki_id)->Some_0
                        ].store.current_page(new_slug@) is Some),
                        _ => false,
                    }
                },
            },
    {
        if let Err(e) = check_normal(old_slug) {
            return Err(e);
        }
        if let Err(e) = check_normal(new_slug) {
            return Err(e);
        }
        let pi = match self.find_live(wiki_id, old_slug) {
            Some(pi) => pi,
            None => {
                return Err(Error::PageNotFound);
            },
        };
        if let Some(_) = self.find_live(wiki_id, new_slug) {
            return Err(Error::PageExists);
        }
        let ghost oldv = self@;
        proof {
            lemma_first_where_bounds(
                oldv.pages,
                |p: PageV| p.wiki_id == wiki_id && p.slug == old_slug@ && p.deleted_at is None,
            );
            assert(oldv.pages[pi as int] == self.pages@[pi as int]@);
        }
        let k = match self.find_store(wiki_id) {
            Some(k) => k,
            None => {
                // Unreachable: a live page's wiki has a store, by
                // well-formedness.
                proof {
                    assert(false);
                }
                return Err(Error::WikiNotFound);
            },
        };
        let rid = (self.revisions.len() as u64) + 1;
        let page_ident = self.pages[pi].page_id;
        let msg = commit_data(user_id, ChangeType::Rename, page_ident, wiki_id);
        let info = CommitInfo { username: username.to_owned(), message: msg };
        proof {
            lemma_first_where_bounds(oldv.stores, |e: StoreEntryV| e.wiki_id == wiki_id);
            assert(oldv.stores[k as int] == (StoreEntryV {
                wiki_id: self.stores@[k as int].wiki_id,
                store: self.stores@[k as int].store@,
            }));
        }
        let entry = &mut self.stores[k];
        let h = match entry.store.rename(old_slug, new_slug, &info) {
            Ok(h) => h,
            Err(e) => {
                // Only a blob already at the new slug can fail here: the
                // slugs were checked normal, and the live page's blob exists
                // at the old slug by well-formedness.
                proof {
                    assert(live_blob_ok(oldv.pages, oldv.stores, pi as int));
                    assert forall|j: int| 0 <= j < self@.stores.len()
                        implies #[trigger] self@.stores[j] == oldv.stores[j] by {
                        assert(self@.stores[j] == (StoreEntryV {
                            wiki_id: self.stores@[j].wiki_id,
                            store: self.stores@[j].store@,
                        }));
                    }
                    assert(self@.stores =~= oldv.stores);
                    assert(self@.pages =~= oldv.pages);
                    assert(self@.revisions =~= oldv.revisions);
                    assert(self@.tag_history =~= oldv.tag_history);
                    assert(self@ == oldv);
                }
                return Err(e);
            },
        };
        let p = &mut self.pages[pi];
        p.slug = new_slug.to_owned();
        let rev = Revision {
            revision_id: rid,
            page_id: page_ident,
            user_id,
            message: message.to_owned(),
            git_commit: h,
            change_type: ChangeType::Rename,
            created_at: rid,
        };
        self.revisions.push(rev);
        proof {
            let newv = self@;
            let target = oldv.spec_rename_op(pi as int, new_slug@, message@, user_id, username@);
            assert forall|j: int| 0 <= j < newv.pages.len()
                implies #[trigger] newv.pages[j] == target.pages[j] by {
                assert(newv.pages[j] == self.pages@[j]@);
                if j != pi {
                    assert(oldv.pages[j] == self.pages@[j]@);
                }
            }
            assert(newv.pages =~= target.pages);
            assert forall|j: int| 0 <= j < newv.revisions.len()
                implies #[trigger] newv.revisions[j] == target.revisions[j] by {
                assert(newv.revisions[j] == self.revisions@[j]@);
                if j < oldv.revisions.len() {
                    assert(oldv.revisions[j] == self.revisions@[j]@);
                }
            }
            assert(newv.revisions =~= target.revisions);
            assert(newv.tag_history =~= target.tag_history) by {
                assert forall|j: int| 0 <= j < newv.tag_history.len()
                    implies #[trigger] newv.tag_history[j] == oldv.tag_history[j] by {
                    assert(newv.tag_history[j] == self.tag_history@[j]@);
                }
            }
            assert forall|j: int| 0 <= j < newv.stores.len()
                implies #[trigger] newv.stores[j] == target.stores[j] by {
                assert(newv.stores[j] == (StoreEntryV {
                    wiki_id: self.stores@[j].wiki_id,
                    store: self.stores@[j].store@,
                }));
                if j != k {
                    assert(oldv.stores[j] == (StoreEntryV {
                        wiki_id: self.stores@[j].wiki_id,
                        store: self.stores@[j].store@,
                    }));
                }
            }
            assert(newv.stores =~= target.stores);
            assert(newv == target);
            lemma_first_where_bounds(
                oldv.pages,
                |p: PageV| p.wiki_id == wiki_id && p.slug == new_slug@ && p.deleted_at is None,
            );
            let oldst = oldv.stores[k as int].store;
            lemma_old_head_wf(oldv, k as int);
            let ghost moved_content = oldst.current_page(oldv.pages[pi as int].slug)->Some_0;
            lemma_tree_remove(oldst.head_tree(), oldv.pages[pi as int].slug);
            lemma_tree_set(
                tree_remove(oldst.head_tree(), oldv.pages[pi as int].slug),
                new_slug@,
                moved_content,
            );
            assert(newv.stores[k as int].store.head_tree() == tree_set(
                tree_remove(oldst.head_tree(), oldv.pages[pi as int].slug),
                new_slug@,
                moved_content,
            ));
            assert forall|j: int|
                0 <= j < oldv.pages.len() && j != pi && (
                #[trigger] oldv.pages[j]).deleted_at is None && oldv.pages[j].wiki_id
                    == oldv.stores[k as int].wiki_id
                implies tree_get(
                    newv.stores[k as int].store.head_tree(),
                    oldv.pages[j].slug,
                ) == tree_get(oldst.head_tree(), oldv.pages[j].slug) by {
                assert(oldv.pages[pi as int].deleted_at is None);
                assert(oldv.pages[j].wiki_id == oldv.pages[pi as int].wiki_id);
                if oldv.pages[j].slug == oldv.pages[pi as int].slug {
                    assert(false);
                }
                assert(oldv.pages[j].slug != new_slug@);
                assert(tree_get(
                    tree_set(
                        tree_remove(oldst.head_tree(), oldv.pages[pi as int].slug),
                        new_slug@,
                        moved_content,
                    ),
                    oldv.pages[j].slug,
                ) == tree_get(
                    tree_remove(oldst.head_tree(), oldv.pages[pi as int].slug),
                    oldv.pages[j].slug,
                ));
                assert(tree_get(
                    tree_remove(oldst.head_tree(), oldv.pages[pi as int].slug),
                    oldv.pages[j].slug,
                ) == tree_get(oldst.head_tree(), oldv.pages[j].slug));
            }
            lemma_wf_after_revision(oldv, newv, k as int, pi as int);
        }
        Ok(rid)
    }

    /// Replaces the tags of the live page for the commit's `(wiki_id,
    /// slug)`. The stored tags become the strictly sorted set of `new_tags`;
    /// a `Tags` revision backed by an empty store commit is recorded, and a
    /// tag-change row holds the sorted, disjoint added and removed sets.
    /// Fails with `PageNotFound` when no live page occupies the slug,
    /// leaving the state unchanged.
    pub fn tags(&mut self, commit: &PageCommit, new_tags: &Vec<String>) -> (r: Result<u64, Error>)
        requires
            old(self)@.wf(),
            old(self)@.can_mutate(),
        ensures
            final(self)@.wf(),
            match r {
                Ok(rid) => {
                    let pi = old(self)@.live_idx(commit.wiki_id, commit.slug@)->Some_0;
                    let oldp = old(self)@.pages[pi];
                    let newp = final(self)@.pages[pi];
                    let row = final(self)@.tag_history.last();
                    let k = store_idx(old(self)@.stores, commit.wiki_id)->Some_0;
                    let st = old(self)@.stores[k].store;
                    &&& old(self)@.live_idx(commit.wiki_id, commit.slug@) is Some
                    &&& rid == old(self)@.revisions.len() + 1
                    // the page's tags become the sorted set of the input
                    &&& final(self)@.pages.len() == old(self)@.pages.len()
                    &&& (forall|j: int|
                        0 <= j < old(self)@.pages.len() && j != pi
                            ==> #[trigger] final(self)@.pages[j] == old(self)@.pages[j])
                    &&& newp == (PageV { tags: newp.tags, ..oldp })
                    &&& sorted_strict(newp.tags)
                    &&& (forall|x: Seq<char>|
                        #[trigger] has_tag(newp.tags, x) <==> has_tag(new_tags.deep_view(), x))
                    // the Tags revision, backed by an empty commit
                    &&& final(self)@.revisions == old(self)@.revisions.push(
                        (RevisionV {
                            revision_id: rid,
                            page_id: oldp.page_id,
                            user_id: commit.user_id,
                            message: commit.message@,
                            git_commit: hash_chars(st.commits.len() as nat),
                            change_type: ChangeType::Tags,
                            created_at: rid,
                        }),
                    )
                    // the tag-change row: sorted disjoint difference sets
                    &&& final(self)@.tag_history.len() == old(self)@.tag_history.len() + 1
                    &&& (forall|t: int|
                        0 <= t < old(self)@.tag_history.len()
                            ==> #[trigger] final(self)@.tag_history[t] == old(
                            self,
                        )@.tag_history[t])
                    &&& row.revision_id == rid
                    &&& sorted_strict(row.added_tags) && sorted_strict(row.removed_tags)
                    &&& disjoint_tags(row.added_tags, row.removed_tags)
                    &&& (forall|x: Seq<char>|
                        #[trigger] has_tag(row.added_tags, x) <==> (has_tag(
                            new_tags.deep_view(),
                            x,
                        ) && !has_tag(oldp.tags, x)))
                    &&& (forall|x: Seq<char>|
                        #[trigger] has_tag(row.removed_tags, x) <==> (has_tag(oldp.tags, x)
                            && !has_tag(new_tags.deep_view(), x)))
                    // the store gains one empty commit
                    &&& final(self)@.stores == old(self)@.stores.update(
                        k,
                        (StoreEntryV {
                            wiki_id: commit.wiki_id,
                            store: st.with_commit(
                                commit.username@,
                                commit_msg(
                                    commit.user_id,
                                    ChangeType::Tags,
                                    oldp.page_id,
                                    commit.wiki_id,
                                ),
                                st.head_tree(),
                            ),
                        }),
                    )
                },
                Err(e) => {
                    &&& final(self)@ == old(self)@
                    &&& match e {
                        Error::PageNotFound => old(self)@.live_idx(
                            commit.wiki_id,
                            commit.slug@,
                        ) is None,
                        _ => false,
                    }
                },
            },
    {
        let pi = match self.find_live(commit.wiki_id, commit.slug.as_str()) {
            Some(pi) => pi,
            None => {
                return Err(Error::PageNotFound);
            },
        };
        let ghost oldv = self@;
        proof {
            lemma_first_where_bounds(
                oldv.pages,
                |p: PageV| p.wiki_id == commit.wiki_id && p.slug == commit.slug@
                    && p.deleted_at is None,
            );
            assert(oldv.pages[pi as int] == self.pages@[pi as int]@);
        }
        let k = match self.find_store(commit.wiki_id) {
            Some(k) => k,
            None => {
                // Unreachable: a live page's wiki has a store, by
                // well-formedness.
                proof {
                    assert(false);
                }
                return Err(Error::WikiNotFound);
            },
        };
        let rid = (self.revisions.len() as u64) + 1;
        let page_ident = self.pages[pi].page_id;
        let sorted_new = sort_unique(new_tags);
        proof {
            assert(oldv.pages[pi as int].tags == self.pages@[pi as int]@.tags);
        }
        let diff = tag_diff(&self.pages[pi].tags, &sorted_new);
        let added = diff.0;
        let removed = diff.1;
        let msg = commit_data(commit.user_id, ChangeType::Tags, page_ident, commit.wiki_id);
        let info = CommitInfo { username: clone_string(&commit.username), message: msg };
        proof {
            lemma_first_where_bounds(oldv.stores, |e: StoreEntryV| e.wiki_id == commit.wiki_id);
            assert(oldv.stores[k as int] == (StoreEntryV {
                wiki_id: self.stores@[k as int].wiki_id,
                store: self.stores@[k as int].store@,
            }));
        }
        let entry = &mut self.stores[k];
        let h = entry.store.empty_commit(&info);
        let p = &mut self.pages[pi];
        p.tags = sorted_new;
        let rev = Revision {
            revision_id: rid,
            page_id: page_ident,
            user_id: commit.user_id,
            message: clone_string(&commit.message),
            git_commit: h,
            change_type: ChangeType::Tags,
            created_at: rid,
        };
        self.revisions.push(rev);
        let row = TagChange { revision_id: rid, added_tags: added, removed_tags: removed };
        self.tag_history.push(row);
        proof {
            let newv = self@;
            assert forall|j: int| 0 <= j < newv.pages.len() && j != pi
                implies #[trigger] newv.pages[j] == oldv.pages[j] by {
                assert(newv.pages[j] == self.pages@[j]@);
                assert(oldv.pages[j] == self.pages@[j]@);
            }
            assert(newv.pages[pi as int] == self.pages@[pi as int]@);
            assert forall|j: int| 0 <= j < newv.revisions.len()
                implies #[trigger] newv.revisions[j] == (
            if j < oldv.revisions.len() {
                oldv.revisions[j]
            } else {
                RevisionV {
                    revision_id: rid,
                    page_id: oldv.pages[pi as int].page_id,
                    user_id: commit.user_id,
                    message: commit.message@,
                    git_commit: hash_chars(oldv.stores[k as int].store.commits.len() as nat),
                    change_type: ChangeType::Tags,
                    created_at: rid,
                }
            }) by {
                assert(newv.revisions[j] == self.revisions@[j]@);
                if j < oldv.revisions.len() {
                    assert(oldv.revisions[j] == self.revisions@[j]@);
                }
            }
            assert(newv.revisions =~= oldv.revisions.push(
                (RevisionV {
                    revision_id: rid,
                    page_id: oldv.pages[pi as int].page_id,
                    user_id: commit.user_id,
                    message: commit.message@,
                    git_commit: hash_chars(oldv.stores[k as int].store.commits.len() as nat),
                    change_type: ChangeType::Tags,
                    created_at: rid,
                }),
            ));
            assert forall|t: int| 0 <= t < oldv.tag_history.len()
                implies #[trigger] newv.tag_history[t] == oldv.tag_history[t] by {
                assert(newv.tag_history[t] == self.tag_history@[t]@);
                assert(oldv.tag_history[t] == self.tag_history@[t]@);
            }
            assert(newv.tag_history[oldv.tag_history.len() as int] == self.tag_history@[
                oldv.tag_history.len() as int
            ]@);
            assert forall|j: int| 0 <= j < newv.stores.len()
                implies #[trigger] newv.stores[j] == (
            if j == k {
                StoreEntryV {
                    wiki_id: commit.wiki_id,
                    store: oldv.stores[k as int].store.with_commit(
                        commit.username@,
                        commit_msg(
                            commit.user_id,
                            ChangeType::Tags,
                            oldv.pages[pi as int].page_id,
                            commit.wiki_id,
                        ),
                        oldv.stores[k as int].store.head_tree(),
                    ),
                }
            } else {
                oldv.stores[j]
            }) by {
                assert(newv.stores[j] == (StoreEntryV {
                    wiki_id: self.stores@[j].wiki_id,
                    store: self.stores@[j].store@,
                }));
                if j != k {
                    assert(oldv.stores[j] == (StoreEntryV {
                        wiki_id: self.stores@[j].wiki_id,
                        store: self.stores@[j].store@,
                    }));
                }
            }
            assert(newv.stores =~= oldv.stores.update(
                k as int,
                (StoreEntryV {
                    wiki_id: commit.wiki_id,
                    store: oldv.stores[k as int].store.with_commit(
                        commit.username@,
                        commit_msg(
                            commit.user_id,
                            ChangeType::Tags,
                            oldv.pages[pi as int].page_id,
                            commit.wiki_id,
                        ),
                        oldv.stores[k as int].store.head_tree(),
                    ),
                }),
            ));
            let oldst = oldv.stores[k as int].store;
            assert(newv.stores[k as int].store.head_tree() == oldst.head_tree());
            assert(live_blob_ok(oldv.pages, oldv.stores, pi as int));
            assert forall|j: int|
                0 <= j < oldv.pages.len() && j != pi && (
                #[trigger] oldv.pages[j]).deleted_at is None && oldv.pages[j].wiki_id
                    == oldv.stores[k as int].wiki_id
                implies tree_get(
                    newv.stores[k as int].store.head_tree(),
                    oldv.pages[j].slug,
                ) == tree_get(oldst.head_tree(), oldv.pages[j].slug) by {}
            lemma_wf_after_revision(oldv, newv, k as int, pi as int);
        }
        Ok(rid)
    }

    /// Which page a restore addresses: the given id (which must name a
    /// soft-deleted page of the wiki), or else the most recently created
    /// soft-deleted page for the slug.
    pub open spec fn spec_restore_target(
        v: ServiceV,
        wiki_id: u64,
        slug: Seq<char>,
        page_id: Option<u64>,
    ) -> Option<int> {
        match page_id {
            Some(pid) => if 1 <= pid <= v.pages.len() && v.pages[pid - 1].wiki_id == wiki_id
                && v.pages[pid - 1].deleted_at is Some {
                Some(pid - 1)
            } else {
                None
            },
            None => v.last_deleted_idx(wiki_id, slug),
        }
    }

    /// Restores a soft-deleted page under the commit's slug: writes back the
    /// content of its newest non-`Delete` revision, clears the deletion mark
    /// (moving the page to the commit's slug), and records a `Restore`
    /// revision. Fails with `PageExists` when a live page occupies the slug;
    /// `PageNotFound` when no page can be addressed or its content is not in
    /// the store; `RevisionNotFound` when the page has no non-`Delete`
    /// revision. Failures leave the state unchanged.
    pub fn restore(&mut self, commit: &PageCommit, page_id: Option<u64>) -> (r: Result<u64, Error>)
        requires
            old(self)@.wf(),
            old(self)@.can_mutate(),
        ensures
            final(self)@.wf(),
            match r {
                Ok(rid) => {
                    &&& is_normal_chars(commit.slug@)
                    &&& old(self)@.live_idx(commit.wiki_id, commit.slug@) is None
                    &&& Self::spec_restore_target(
                        old(self)@,
                        commit.wiki_id,
                        commit.slug@,
                        page_id,
                    ) is Some
                    &&& rid == old(self)@.revisions.len() + 1
                    &&& final(self)@ == old(self)@.spec_restore(
                        Self::spec_restore_target(
                            old(self)@,
                            commit.wiki_id,
                            commit.slug@,
                            page_id,
                        )->Some_0,
                        commit.slug@,
                        commit.message@,
                        commit.user_id,
                        commit.username@,
                    )
                },
                Err(e) => {
                    &&& final(self)@ == old(self)@
                    &&& match e {
                        Error::SlugNotNormal => !is_normal_chars(commit.slug@),
                        Error::PageExists => is_normal_chars(commit.slug@) && old(self)@.live_idx(
                            commit.wiki_id,
                            commit.slug@,
                        ) is Some,
                        Error::PageNotFound => is_normal_chars(commit.slug@) && old(
                            self,
                        )@.live_idx(commit.wiki_id, commit.slug@) is None && (match Self::spec_restore_target(
                            old(self)@,
                            commit.wiki_id,
                            commit.slug@,
                            page_id,
                        ) {
                            None => true,
                            Some(pi) => old(self)@.last_nondelete_rev(
                                old(self)@.pages[pi].page_id,
                            ) is Some && old(self)@.stores[
                                store_idx(old(self)@.stores, commit.wiki_id)->Some_0
                            ].store.page_at(
                                old(self)@.revisions[
                                    old(self)@.last_nondelete_rev(
                                        old(self)@.pages[pi].page_id,
                                    )->Some_0
                                ].git_commit,
                                old(self)@.pages[pi].slug,
                            ) is None,
                        }),
                        Error::RevisionNotFound => is_normal_chars(commit.slug@) && old(
                            self,
                        )@.live_idx(commit.wiki_id, commit.slug@) is None
                            && Self::spec_restore_target(
                            old(self)@,
                            commit.wiki_id,
                            commit.slug@,
                            page_id,
                        ) is Some && old(self)@.last_nondelete_rev(
                            old(self)@.pages[
                                Self::spec_restore_target(
                                    old(self)@,
                                    commit.wiki_id,
                                    commit.slug@,
                                    page_id,
                                )->Some_0
                            ].page_id,
                        ) is None,
                        _ => false,
                    }
                },
            },
    {
        if let Err(e) = check_normal(commit.slug.as_str()) {
            return Err(e);
        }
        if let Some(_) = self.find_live(commit.wiki_id, commit.slug.as_str()) {
            return Err(Error::PageExists);
        }
        let ghost oldv = self@;
        let pi: usize = match page_id {
            Some(pid) => {
                if !(pid >= 1 && pid <= self.pages.len() as u64) {
                    return Err(Error::PageNotFound);
                }
                let cand = (pid - 1) as usize;
                proof {
                    assert(oldv.pages[cand as int] == self.pages@[cand as int]@);
                }
                if !(self.pages[cand].wiki_id == commit.wiki_id
                    && self.pages[cand].deleted_at.is_some()) {
                    return Err(Error::PageNotFound);
                }
                cand
            },
            None => {
                match self.find_last_deleted(commit.wiki_id, commit.slug.as_str()) {
                    Some(pi) => pi,
                    None => {
                        return Err(Error::PageNotFound);
                    },
                }
            },
        };
        proof {
            lemma_last_where_bounds(
                oldv.pages,
                |p: PageV| p.wiki_id == commit.wiki_id && p.slug == commit.slug@
                    && p.deleted_at is Some,
            );
            assert(oldv.pages[pi as int] == self.pages@[pi as int]@);
        }
        let page_ident = self.pages[pi].page_id;
        let ri = match self.find_last_nondelete_rev(page_ident) {
            Some(ri) => ri,
            None => {
                return Err(Error::RevisionNotFound);
            },
        };
        let k = match self.find_store(commit.wiki_id) {
            Some(k) => k,
            None => {
                // Unreachable: a live page's wiki has a store, by
                // well-formedness.
                proof {
                    assert(false);
                }
                return Err(Error::WikiNotFound);
            },
        };
        proof {
            lemma_first_where_bounds(oldv.stores, |e: StoreEntryV| e.wiki_id == commit.wiki_id);
            assert(oldv.stores[k as int] == (StoreEntryV {
                wiki_id: self.stores@[k as int].wiki_id,
                store: self.stores@[k as int].store@,
            }));
            assert(oldv.revisions[ri as int] == self.revisions@[ri as int]@);
        }
        let at = self.revisions[ri].git_commit.duplicate();
        let msg = commit_data(commit.user_id, ChangeType::Restore, page_ident, commit.wiki_id);
        let info = CommitInfo { username: clone_string(&commit.username), message: msg };
        let rid = (self.revisions.len() as u64) + 1;
        let old_slug = clone_string(&self.pages[pi].slug);
        let entry = &mut self.stores[k];
        let h = match entry.store.restore(commit.slug.as_str(), old_slug.as_str(), &at, &info) {
            Ok(h) => h,
            Err(e) => {
                proof {
                    assert forall|j: int| 0 <= j < self@.stores.len()
                        implies #[trigger] self@.stores[j] == oldv.stores[j] by {
                        assert(self@.stores[j] == (StoreEntryV {
                            wiki_id: self.stores@[j].wiki_id,
                            store: self.stores@[j].store@,
                        }));
                    }
                    assert(self@.stores =~= oldv.stores);
                    assert(self@.pages =~= oldv.pages);
                    assert(self@.revisions =~= oldv.revisions);
                    assert(self@.tag_history =~= oldv.tag_history);
                    assert(self@ == oldv);
                }
                return Err(Error::PageNotFound);
            },
        };
        let p = &mut self.pages[pi];
        p.slug = clone_string(&commit.slug);
        p.deleted_at = None;
        let rev = Revision {
            revision_id: rid,
            page_id: page_ident,
            user_id: commit.user_id,
            message: clone_string(&commit.message),
            git_commit: h,
            change_type: ChangeType::Restore,
            created_at: rid,
        };
        self.revisions.push(rev);
        proof {
            let newv = self@;
            let target = oldv.spec_restore(
                pi as int,
                commit.slug@,
                commit.message@,
                commit.user_id,
                commit.username@,
            );
            assert forall|j: int| 0 <= j < newv.pages.len()
                implies #[trigger] newv.pages[j] == target.pages[j] by {
                assert(newv.pages[j] == self.pages@[j]@);
                if j != pi {
                    assert(oldv.pages[j] == self.pages@[j]@);
                }
            }
            assert(newv.pages =~= target.pages);
            assert forall|j: int| 0 <= j < newv.revisions.len()
                implies #[trigger] newv.revisions[j] == target.revisions[j] by {
                assert(newv.revisions[j] == self.revisions@[j]@);
                if j < oldv.revisions.len() {
                    assert(oldv.revisions[j] == self.revisions@[j]@);
                }
            }
            assert(newv.revisions =~= target.revisions);
            assert(newv.tag_history =~= target.tag_history) by {
                assert forall|j: int| 0 <= j < newv.tag_history.len()
                    implies #[trigger] newv.tag_history[j] == oldv.tag_history[j] by {
                    assert(newv.tag_history[j] == self.tag_history@[j]@);
                }
            }
            assert forall|j: int| 0 <= j < newv.stores.len()
                implies #[trigger] newv.stores[j] == target.stores[j] by {
                assert(newv.stores[j] == (StoreEntryV {
                    wiki_id: self.stores@[j].wiki_id,
                    store: self.stores@[j].store@,
                }));
                if j != k {
                    assert(oldv.stores[j] == (StoreEntryV {
                        wiki_id: self.stores@[j].wiki_id,
                        store: self.stores@[j].store@,
                    }));
                }
            }
            assert(newv.stores =~= target.stores);
            assert(newv == target);
            lemma_first_where_bounds(
                oldv.pages,
                |p: PageV| p.wiki_id == commit.wiki_id && p.slug == commit.slug@
                    && p.deleted_at is None,
            );
            let oldst = oldv.stores[k as int].store;
            lemma_old_head_wf(oldv, k as int);
            let ghost restored_content = oldst.page_at(
                oldv.revisions[
                    oldv.last_nondelete_rev(oldv.pages[pi as int].page_id)->Some_0
                ].git_commit,
                oldv.pages[pi as int].slug,
            )->Some_0;
            lemma_tree_set(oldst.head_tree(), commit.slug@, restored_content);
            assert(newv.stores[k as int].store.head_tree() == tree_set(
                oldst.head_tree(),
                commit.slug@,
                restored_content,
            ));
            assert forall|j: int|
                0 <= j < oldv.pages.len() && j != pi && (
                #[trigger] oldv.pages[j]).deleted_at is None && oldv.pages[j].wiki_id
                    == oldv.stores[k as int].wiki_id
                implies tree_get(
                    newv.stores[k as int].store.head_tree(),
                    oldv.pages[j].slug,
                ) == tree_get(oldst.head_tree(), oldv.pages[j].slug) by {
                assert(oldv.pages[j].slug != commit.slug@);
                assert(tree_get(
                    tree_set(oldst.head_tree(), commit.slug@, restored_content),
                    oldv.pages[j].slug,
                ) == tree_get(oldst.head_tree(), oldv.pages[j].slug));
            }
            lemma_wf_after_revision(oldv, newv, k as int, pi as int);
        }
        Ok(rid)
    }

    /// The position of the newest non-`Delete` revision of page `page_id`.
    fn find_last_nondelete_rev(&self, page_id: u64) -> (r: Option<usize>)
        ensures
            match r {
                Some(k) => k < self@.revisions.len() && self@.last_nondelete_rev(page_id) == Some(
                    k as int,
                ),
                None => self@.last_nondelete_rev(page_id) is None,
            },
    {
        let mut i: usize = self.revisions.len();
        while i > 0
            invariant
                i <= self.revisions@.len(),
                self@.revisions.len() == self.revisions@.len(),
                forall|j: int|
                    i <= j < self@.revisions.len() ==> !((#[trigger] self@.revisions[j]).page_id
                        == page_id && self@.revisions[j].change_type != ChangeType::Delete),
            decreases i,
        {
            let k = i - 1;
            proof {
                assert(self@.revisions[k as int] == self.revisions@[k as int]@);
            }
            let rv = &self.revisions[k];
            let is_delete = match rv.change_type {
                ChangeType::Delete => true,
                _ => false,
            };
            if rv.page_id == page_id && !is_delete {
                proof {
                    lemma_last_where_holds(
                        self@.revisions,
                        |r: RevisionV| r.page_id == page_id && r.change_type != ChangeType::Delete,
                        k as int,
                    );
                }
                return Some(k);
            }
            i = k;
        }
        proof {
            lemma_last_where_bounds(
                self@.revisions,
                |r: RevisionV| r.page_id == page_id && r.change_type != ChangeType::Delete,
            );
        }
        None
    }

    /// The id of the live page for `(wiki_id, slug)`, if one exists.
    pub fn get_page_id(&self, wiki_id: u64, slug: &str) -> (r: Option<u64>)
        requires
            self@.wf(),
        ensures
            match r {
                Some(pid) => {
                    &&& self@.live_idx(wiki_id, slug@) is Some
                    &&& pid == self@.live_idx(wiki_id, slug@)->Some_0 + 1
                },
                None => self@.live_idx(wiki_id, slug@) is None,
            },
    {
        match self.find_live(wiki_id, slug) {
            Some(k) => {
                proof {
                    assert(self@.pages[k as int] == self.pages@[k as int]@);
                }
                Some(self.pages[k].page_id)
            },
            None => None,
        }
    }

    /// Whether a live page for `(wiki_id, slug)` exists.
    pub fn check_page(&self, wiki_id: u64, slug: &str) -> (r: bool)
        ensures
            r == (self@.live_idx(wiki_id, slug@) is Some),
    {
        match self.find_live(wiki_id, slug) {
            Some(_) => true,
            None => false,
        }
    }

    /// A copy of the live page for `(wiki_id, slug)`, if any.
    pub fn get_page(&self, wiki_id: u64, slug: &str) -> (r: Option<Page>)
        ensures
            match r {
                Some(p) => {
                    &&& self@.live_idx(wiki_id, slug@) is Some
                    &&& p@ == self@.pages[self@.live_idx(wiki_id, slug@)->Some_0]
                },
                None => self@.live_idx(wiki_id, slug@) is None,
            },
    {
        match self.find_live(wiki_id, slug) {
            Some(k) => {
                proof {
                    assert(self@.pages[k as int] == self.pages@[k as int]@);
                }
                Some(self.pages[k].duplicate())
            },
            None => None,
        }
    }

    /// The current blob of the live slug in the wiki's store.
    /// `Ok(None)` when the store holds no blob under the slug.
    pub fn get_page_contents(&self, wiki_id: u64, slug: &str) -> (r: Result<Option<Vec<u8>>, Error>)
        ensures
            match r {
                Ok(opt) => {
                    &&& store_idx(self@.stores, wiki_id) is Some
                    &&& is_normal_chars(slug@)
                    &&& {
                        let st = self@.stores[store_idx(self@.stores, wiki_id)->Some_0].store;
                        match opt {
                            Some(v) => st.current_page(slug@) == Some(v@),
                            None => st.current_page(slug@) is None,
                        }
                    }
                },
                Err(e) => match e {
                    Error::WikiNotFound => store_idx(self@.stores, wiki_id) is None,
                    Error::SlugNotNormal => store_idx(self@.stores, wiki_id) is Some
                        && !is_normal_chars(slug@),
                    _ => false,
                },
            },
    {
        let k = match self.find_store(wiki_id) {
            Some(k) => k,
            None => {
                return Err(Error::WikiNotFound);
            },
        };
        proof {
            assert(self@.stores[k as int] == (StoreEntryV {
                wiki_id: self.stores@[k as int].wiki_id,
                store: self.stores@[k as int].store@,
            }));
        }
        self.stores[k].store.get_page(slug)
    }

    /// The wiki, slug and newest revision's commit id for a page, by id.
    /// `Ok(None)` when no such page exists; `RevisionNotFound` when the page
    /// has no revision at all.
    fn get_last_hash(&self, page_id: u64) -> (r: Result<Option<(u64, String, GitHash)>, Error>)
        ensures
            match r {
                Ok(Some((w, s, h))) => {
                    &&& 1 <= page_id <= self@.pages.len()
                    &&& w == self@.pages[page_id - 1].wiki_id
                    &&& s@ == self@.pages[page_id - 1].slug
                    &&& self@.last_rev(page_id) is Some
                    &&& h@ == self@.revisions[self@.last_rev(page_id)->Some_0].git_commit
                },
                Ok(None) => !(1 <= page_id <= self@.pages.len()),
                Err(e) => e == Error::RevisionNotFound && 1 <= page_id <= self@.pages.len()
                    && self@.last_rev(page_id) is None,
            },
    {
        if !(page_id >= 1 && page_id <= self.pages.len() as u64) {
            return Ok(None);
        }
        let pi = (page_id - 1) as usize;
        proof {
            assert(self@.pages[pi as int] == self.pages@[pi as int]@);
        }
        let mut i: usize = self.revisions.len();
        while i > 0
            invariant
                i <= self.revisions@.len(),
                self@.revisions.len() == self.revisions@.len(),
                self@.pages.len() == self.pages@.len(),
                pi < self.pages@.len(),
                pi as int == page_id - 1,
                forall|j: int|
                    i <= j < self@.revisions.len() ==> (#[trigger] self@.revisions[j]).page_id
                        != page_id,
            decreases i,
        {
            let k = i - 1;
            proof {
                assert(self@.revisions[k as int] == self.revisions@[k as int]@);
            }
            if self.revisions[k].page_id == page_id {
                proof {
                    lemma_last_where_holds(
                        self@.revisions,
                        |r: RevisionV| r.page_id == page_id,
                        k as int,
                    );
                    assert(pi as int == page_id - 1);
                    assert(self@.pages[pi as int] == self.pages@[pi as int]@);
                }
                let w = self.pages[pi].wiki_id;
                let s = clone_string(&self.pages[pi].slug);
                let h = self.revisions[k].git_commit.duplicate();
                return Ok(Some((w, s, h)));
            }
            i = k;
        }
        proof {
            lemma_last_where_bounds(self@.revisions, |r: RevisionV| r.page_id == page_id);
        }
        Err(Error::RevisionNotFound)
    }

    /// The page's current contents, by page id: the blob at the page's
    /// newest revision. `Ok(None)` when no such page exists.
    pub fn get_page_contents_by_id(&self, page_id: u64) -> (r: Result<Option<Vec<u8>>, Error>)
        ensures
            match r {
                Ok(Some(v)) => {
                    &&& 1 <= page_id <= self@.pages.len()
                    &&& self@.last_rev(page_id) is Some
                    &&& store_idx(self@.stores, self@.pages[page_id - 1].wiki_id) is Some
                    &&& self@.stores[
                        store_idx(self@.stores, self@.pages[page_id - 1].wiki_id)->Some_0
                    ].store.page_at(
                        self@.revisions[self@.last_rev(page_id)->Some_0].git_commit,
                        self@.pages[page_id - 1].slug,
                    ) == Some(v@)
                },
                Ok(None) => !(1 <= page_id <= self@.pages.len()) || (self@.last_rev(
                    page_id,
                ) is Some && (match store_idx(self@.stores, self@.pages[page_id - 1].wiki_id) {
                    Some(k) => self@.stores[k].store.page_at(
                        self@.revisions[self@.last_rev(page_id)->Some_0].git_commit,
                        self@.pages[page_id - 1].slug,
                    ) is None,
                    None => false,
                })),
                Err(e) => match e {
                    Error::RevisionNotFound => 1 <= page_id <= self@.pages.len()
                        && self@.last_rev(page_id) is None,
                    Error::WikiNotFound => store_idx(
                        self@.stores,
                        self@.pages[page_id - 1].wiki_id,
                    ) is None,
                    Error::SlugNotNormal => !is_normal_chars(self@.pages[page_id - 1].slug),
                    _ => false,
                },
            },
    {
        let last = match self.get_last_hash(page_id) {
            Ok(Some(t)) => t,
            Ok(None) => {
                return Ok(None);
            },
            Err(e) => {
                return Err(e);
            },
        };
        let (w, s, h) = last;
        let k = match self.find_store(w) {
            Some(k) => k,
            None => {
                return Err(Error::WikiNotFound);
            },
        };
        proof {
            assert(self@.stores[k as int] == (StoreEntryV {
                wiki_id: self.stores@[k as int].wiki_id,
                store: self.stores@[k as int].store@,
            }));
        }
        self.stores[k].store.get_page_version(s.as_str(), &h)
    }

    /// The commit id of the revision with the given id.
    pub fn revision_commit(&self, revision_id: u64) -> (r: Result<GitHash, Error>)
        ensures
            match r {
                Ok(h) => 1 <= revision_id <= self@.revisions.len() && h@ == self@.revisions[
                    revision_id - 1
                ].git_commit,
                Err(e) => e == Error::RevisionNotFound && !(1 <= revision_id
                    <= self@.revisions.len()),
            },
    {
        if revision_id >= 1 && revision_id <= self.revisions.len() as u64 {
            let k = (revision_id - 1) as usize;
            proof {
                assert(self@.revisions[k as int] == self.revisions@[k as int]@);
            }
            Ok(self.revisions[k].git_commit.duplicate())
        } else {
            Err(Error::RevisionNotFound)
        }
    }

    /// Resolves a revision reference to a commit id.
    pub fn commit_hash(&self, rev: &RevisionRef) -> (r: Result<GitHash, Error>)
        ensures
            match r {
                Ok(h) => spec_resolve(self@, *rev) == Some(h@),
                Err(e) => e == Error::RevisionNotFound && spec_resolve(self@, *rev) is None,
            },
    {
        match rev {
            RevisionRef::Id(rid) => self.revision_commit(*rid),
            RevisionRef::Hash(h) => Ok(h.duplicate()),
        }
    }

    /// The blob under the slug as of the referenced revision or commit.
    /// `Ok(None)` when the blob is absent there (or the commit id unknown).
    pub fn get_page_version(&self, wiki_id: u64, slug: &str, rev: &RevisionRef) -> (r: Result<
        Option<Vec<u8>>,
        Error,
    >)
        ensures
            match r {
                Ok(opt) => {
                    &&& spec_resolve(self@, *rev) is Some
                    &&& store_idx(self@.stores, wiki_id) is Some
                    &&& is_normal_chars(slug@)
                    &&& {
                        let st = self@.stores[store_idx(self@.stores, wiki_id)->Some_0].store;
                        let h = spec_resolve(self@, *rev)->Some_0;
                        match opt {
                            Some(v) => st.page_at(h, slug@) == Some(v@),
                            None => st.page_at(h, slug@) is None,
                        }
                    }
                },
                Err(e) => match e {
                    Error::RevisionNotFound => spec_resolve(self@, *rev) is None,
                    Error::WikiNotFound => spec_resolve(self@, *rev) is Some && store_idx(
                        self@.stores,
                        wiki_id,
                    ) is None,
                    Error::SlugNotNormal => spec_resolve(self@, *rev) is Some && store_idx(
                        self@.stores,
                        wiki_id,
                    ) is Some && !is_normal_chars(slug@),
                    _ => false,
                },
            },
    {
        let h = match self.commit_hash(rev) {
            Ok(h) => h,
            Err(e) => {
                return Err(e);
            },
        };
        let k = match self.find_store(wiki_id) {
            Some(k) => k,
            None => {
                return Err(Error::WikiNotFound);
            },
        };
        proof {
            assert(self@.stores[k as int] == (StoreEntryV {
                wiki_id: self.stores@[k as int].wiki_id,
                store: self.stores@[k as int].store@,
            }));
        }
        self.stores[k].store.get_page_version(slug, &h)
    }

    /// The revision row with the given id, if any.
    pub fn get_revision(&self, revision_id: u64) -> (r: Option<&Revision>)
        ensures
            match r {
                Some(rev) => 1 <= revision_id <= self@.revisions.len() && rev@ == self@.revisions[
                    revision_id - 1
                ],
                None => !(1 <= revision_id <= self@.revisions.len()),
            },
    {
        if revision_id >= 1 && revision_id <= self.revisions.len() as u64 {
            let k = (revision_id - 1) as usize;
            proof {
                assert(self@.revisions[k as int] == self.revisions@[k as int]@);
            }
            Some(&self.revisions[k])
        } else {
            None
        }
    }

    /// The tag-change row recorded for the given revision, if any.
    pub fn tag_change_for(&self, revision_id: u64) -> (r: Option<&TagChange>)
        ensures
            match r {
                Some(row) => {
                    &&& first_where(
                        self@.tag_history,
                        |t: TagChangeV| t.revision_id == revision_id,
                    ) is Some
                    &&& row@ == self@.tag_history[
                        first_where(
                            self@.tag_history,
                            |t: TagChangeV| t.revision_id == revision_id,
                        )->Some_0
                    ]
                },
                None => first_where(
                    self@.tag_history,
                    |t: TagChangeV| t.revision_id == revision_id,
                ) is None,
            },
    {
        let mut i: usize = 0;
        while i < self.tag_history.len()
            invariant
                i <= self.tag_history@.len(),
                self@.tag_history.len() == self.tag_history@.len(),
                forall|j: int| 0 <= j < i ==> (#[trigger] self@.tag_history[j]).revision_id
                    != revision_id,
            decreases self.tag_history@.len() - i,
        {
            proof {
                assert(self@.tag_history[i as int] == self.tag_history@[i as int]@);
            }
            if self.tag_history[i].revision_id == revision_id {
                proof {
                    lemma_first_where_holds(
                        self@.tag_history,
                        |t: TagChangeV| t.revision_id == revision_id,
                        i as int,
                    );
                }
                return Some(&self.tag_history[i]);
            }
            i += 1;
        }
        proof {
            lemma_first_where_bounds(
                self@.tag_history,
                |t: TagChangeV| t.revision_id == revision_id,
            );
        }
        None
    }

    /// The textual diff of the slug's blob between two referenced
    /// revisions; a blob absent at a commit diffs as empty content.
    pub fn get_diff(&self, wiki_id: u64, slug: &str, first: &RevisionRef, second: &RevisionRef)
        -> (r: Result<Vec<u8>, Error>)
        ensures
            match r {
                Ok(v) => {
                    &&& spec_resolve(self@, *first) is Some
                    &&& spec_resolve(self@, *second) is Some
                    &&& store_idx(self@.stores, wiki_id) is Some
                    &&& is_normal_chars(slug@)
                    &&& {
                        let st = self@.stores[store_idx(self@.stores, wiki_id)->Some_0].store;
                        v@ == crate::difftext::unified_diff(
                            crate::store::blob_or_empty(
                                st,
                                spec_resolve(self@, *first)->Some_0,
                                slug@,
                            ),
                            crate::store::blob_or_empty(
                                st,
                                spec_resolve(self@, *second)->Some_0,
                                slug@,
                            ),
                        )
                    }
                },
                Err(e) => match e {
                    Error::RevisionNotFound => spec_resolve(self@, *first) is None
                        || spec_resolve(self@, *second) is None,
                    Error::WikiNotFound => store_idx(self@.stores, wiki_id) is None,
                    Error::SlugNotNormal => !is_normal_chars(slug@),
                    _ => false,
                },
            },
    {
        let h1 = match self.commit_hash(first) {
            Ok(h) => h,
            Err(e) => {
                return Err(e);
            },
        };
        let h2 = match self.commit_hash(second) {
            Ok(h) => h,
            Err(e) => {
                return Err(e);
            },
        };
        let k = match self.find_store(wiki_id) {
            Some(k) => k,
            None => {
                return Err(Error::WikiNotFound);
            },
        };
        proof {
            assert(self@.stores[k as int] == (StoreEntryV {
                wiki_id: self.stores@[k as int].wiki_id,
                store: self.stores@[k as int].store@,
            }));
        }
        self.stores[k].store.get_diff(slug, &h1, &h2)
    }

    /// Per-line attribution for the slug's current blob: each line carries
    /// the newest commit that changed the blob and the line's position.
    /// `Ok(None)` when the blob is absent.
    pub fn get_blame(&self, wiki_id: u64, slug: &str) -> (r: Result<
        Option<Vec<crate::store::BlameLine>>,
        Error,
    >)
        requires
            self@.wf(),
        ensures
            match r {
                Ok(opt) => {
                    &&& store_idx(self@.stores, wiki_id) is Some
                    &&& is_normal_chars(slug@)
                    &&& {
                        let st = self@.stores[store_idx(self@.stores, wiki_id)->Some_0].store;
                        match opt {
                            Some(bl) => crate::store::blame_target(st, None) is Some
                                && crate::store::blame_correct(
                                st,
                                crate::store::blame_target(st, None)->Some_0,
                                slug@,
                                bl@,
                            ),
                            None => match crate::store::blame_target(st, None) {
                                Some(j) => crate::store::tree_get(
                                    st.commits[j].tree,
                                    slug@,
                                ) is None,
                                None => true,
                            },
                        }
                    }
                },
                Err(e) => match e {
                    Error::WikiNotFound => store_idx(self@.stores, wiki_id) is None,
                    Error::SlugNotNormal => !is_normal_chars(slug@),
                    _ => false,
                },
            },
    {
        let k = match self.find_store(wiki_id) {
            Some(k) => k,
            None => {
                return Err(Error::WikiNotFound);
            },
        };
        proof {
            assert(self@.stores[k as int] == (StoreEntryV {
                wiki_id: self.stores@[k as int].wiki_id,
                store: self.stores@[k as int].store@,
            }));
        }
        self.stores[k].store.get_blame(slug, None)
    }

    /// Per-line attribution for a page's blob as of its newest revision, by
    /// page id. `Ok(None)` when no such page exists.
    pub fn get_blame_by_id(&self, page_id: u64) -> (r: Result<
        Option<Vec<crate::store::BlameLine>>,
        Error,
    >)
        requires
            self@.wf(),
        ensures
            match r {
                Ok(Some(bl)) => {
                    &&& 1 <= page_id <= self@.pages.len()
                    &&& self@.last_rev(page_id) is Some
                    &&& {
                        let w = self@.pages[page_id - 1].wiki_id;
                        let h = self@.revisions[self@.last_rev(page_id)->Some_0].git_commit;
                        &&& store_idx(self@.stores, w) is Some
                        &&& {
                            let st = self@.stores[store_idx(self@.stores, w)->Some_0].store;
                            crate::store::blame_target(st, Some(h)) is Some
                                && crate::store::blame_correct(
                                st,
                                crate::store::blame_target(st, Some(h))->Some_0,
                                self@.pages[page_id - 1].slug,
                                bl@,
                            )
                        }
                    }
                },
                Ok(None) => !(1 <= page_id <= self@.pages.len()) || (self@.last_rev(
                    page_id,
                ) is Some && (match store_idx(self@.stores, self@.pages[page_id - 1].wiki_id) {
                    Some(k) => {
                        let st = self@.stores[k].store;
                        let h = self@.revisions[self@.last_rev(page_id)->Some_0].git_commit;
                        match crate::store::blame_target(st, Some(h)) {
                            Some(j) => crate::store::tree_get(
                                st.commits[j].tree,
                                self@.pages[page_id - 1].slug,
                            ) is None,
                            None => true,
                        }
                    },
                    None => false,
                })),
                Err(e) => match e {
                    Error::RevisionNotFound => 1 <= page_id <= self@.pages.len()
                        && self@.last_rev(page_id) is None,
                    Error::WikiNotFound => store_idx(
                        self@.stores,
                        self@.pages[page_id - 1].wiki_id,
                    ) is None,
                    Error::SlugNotNormal => !is_normal_chars(self@.pages[page_id - 1].slug),
                    _ => false,
                },
            },
    {
        let last = match self.get_last_hash(page_id) {
            Ok(Some(t)) => t,
            Ok(None) => {
                return Ok(None);
            },
            Err(e) => {
                return Err(e);
            },
        };
        let (w, s, h) = last;
        let k = match self.find_store(w) {
            Some(k) => k,
            None => {
                return Err(Error::WikiNotFound);
            },
        };
        proof {
            assert(self@.stores[k as int] == (StoreEntryV {
                wiki_id: self.stores@[k as int].wiki_id,
                store: self.stores@[k as int].store@,
            }));
        }
        self.stores[k].store.get_blame(s.as_str(), Some(&h))
    }

    /// Rewrites the human-visible message of a revision; the commit id and
    /// everything else stay unchanged.
    pub fn edit_revision(&mut self, revision_id: u64, message: &str) -> (r: Result<(), Error>)
        requires
            old(self)@.wf(),
        ensures
            final(self)@.wf(),
            match r {
                Ok(()) => {
                    &&& 1 <= revision_id <= old(self)@.revisions.len()
                    &&& final(self)@.pages == old(self)@.pages
                    &&& final(self)@.tag_history == old(self)@.tag_history
                    &&& final(self)@.stores == old(self)@.stores
                    &&& final(self)@.revisions == old(self)@.revisions.update(
                        revision_id - 1,
                        (RevisionV {
                            message: message@,
                            ..old(self)@.revisions[revision_id - 1]
                        }),
                    )
                },
                Err(e) => {
                    &&& e == Error::RevisionNotFound
                    &&& !(1 <= revision_id <= old(self)@.revisions.len())
                    &&& final(self)@ == old(self)@
                },
            },
    {
        if !(revision_id >= 1 && revision_id <= self.revisions.len() as u64) {
            return Err(Error::RevisionNotFound);
        }
        let ghost oldv = self@;
        let k = (revision_id - 1) as usize;
        proof {
            assert(oldv.revisions[k as int] == self.revisions@[k as int]@);
        }
        let rv = &mut self.revisions[k];
        rv.message = message.to_owned();
        proof {
            let newv = self@;
            assert forall|j: int| 0 <= j < newv.revisions.len()
                implies #[trigger] newv.revisions[j] == (
            if j == k {
                RevisionV { message: message@, ..oldv.revisions[k as int] }
            } else {
                oldv.revisions[j]
            }) by {
                assert(newv.revisions[j] == self.revisions@[j]@);
                if j != k {
                    assert(oldv.revisions[j] == self.revisions@[j]@);
                }
            }
            assert(newv.revisions =~= oldv.revisions.update(
                k as int,
                (RevisionV { message: message@, ..oldv.revisions[k as int] }),
            ));
            assert(newv.pages =~= oldv.pages);
            assert(newv.tag_history =~= oldv.tag_history);
            assert forall|j: int| 0 <= j < newv.stores.len()
                implies #[trigger] newv.stores[j] == oldv.stores[j] by {
                assert(newv.stores[j] == (StoreEntryV {
                    wiki_id: self.stores@[j].wiki_id,
                    store: self.stores@[j].store@,
                }));
            }
            assert(newv.stores =~= oldv.stores);
            assert forall|i: int| 0 <= i < newv.revisions.len()
                implies #[trigger] rev_commit_ok(newv.pages, newv.revisions, newv.stores, i) by {
                assert(rev_commit_ok(oldv.pages, oldv.revisions, oldv.stores, i));
                assert(newv.revisions[i].page_id == oldv.revisions[i].page_id);
                assert(newv.revisions[i].git_commit == oldv.revisions[i].git_commit);
            }
            assert forall|t: int| 0 <= t < newv.tag_history.len()
                implies 1 <= (#[trigger] newv.tag_history[t]).revision_id <= newv.revisions.len()
                    && newv.revisions[newv.tag_history[t].revision_id - 1].change_type
                    == ChangeType::Tags by {
                assert(newv.tag_history[t] == oldv.tag_history[t]);
                let rid = oldv.tag_history[t].revision_id;
                assert(newv.revisions[rid - 1].change_type == oldv.revisions[rid - 1].change_type);
            }
            assert forall|i: int|
                0 <= i < newv.revisions.len() && (#[trigger] newv.revisions[i]).change_type
                    == ChangeType::Tags implies exists|t: int|
                0 <= t < newv.tag_history.len() && (#[trigger] newv.tag_history[t]).revision_id
                    == i + 1 by {
                assert(oldv.revisions[i].change_type == ChangeType::Tags);
                let t = choose|t: int|
                    0 <= t < oldv.tag_history.len() && (
                    #[trigger] oldv.tag_history[t]).revision_id == i + 1;
                assert(newv.tag_history[t] == oldv.tag_history[t]);
            }
        }
        Ok(())
    }

    /// Updates the domain used in the author lines of a wiki's future
    /// commits. Idempotent; fails with `WikiNotFound` for an unregistered
    /// wiki, leaving the state unchanged.
    pub fn set_domain(&mut self, wiki_id: u64, new_domain: &str) -> (r: Result<(), Error>)
        requires
            old(self)@.wf(),
        ensures
            final(self)@.wf(),
            match r {
                Ok(()) => {
                    &&& store_idx(old(self)@.stores, wiki_id) is Some
                    &&& final(self)@.pages == old(self)@.pages
                    &&& final(self)@.revisions == old(self)@.revisions
                    &&& final(self)@.tag_history == old(self)@.tag_history
                    &&& final(self)@.stores.len() == old(self)@.stores.len()
                    &&& {
                        let k = store_idx(old(self)@.stores, wiki_id)->Some_0;
                        &&& (forall|j: int|
                            0 <= j < old(self)@.stores.len() && j != k
                                ==> #[trigger] final(self)@.stores[j] == old(self)@.stores[j])
                        &&& final(self)@.stores[k].wiki_id == wiki_id
                        &&& final(self)@.stores[k].store.domain == new_domain@
                        &&& final(self)@.stores[k].store.commits == old(
                            self,
                        )@.stores[k].store.commits
                    }
                },
                Err(e) => {
                    &&& e == Error::WikiNotFound
                    &&& store_idx(old(self)@.stores, wiki_id) is None
                    &&& final(self)@ == old(self)@
                },
            },
    {
        let k = match self.find_store(wiki_id) {
            Some(k) => k,
            None => {
                return Err(Error::WikiNotFound);
            },
        };
        let ghost oldv = self@;
        proof {
            lemma_first_where_bounds(oldv.stores, |e: StoreEntryV| e.wiki_id == wiki_id);
            assert(oldv.stores[k as int] == (StoreEntryV {
                wiki_id: self.stores@[k as int].wiki_id,
                store: self.stores@[k as int].store@,
            }));
        }
        let entry = &mut self.stores[k];
        entry.store.set_domain(new_domain);
        proof {
            let newv = self@;
            assert forall|j: int| 0 <= j < newv.stores.len() && j != k
                implies #[trigger] newv.stores[j] == oldv.stores[j] by {
                assert(newv.stores[j] == (StoreEntryV {
                    wiki_id: self.stores@[j].wiki_id,
                    store: self.stores@[j].store@,
                }));
            }
            assert(newv.stores[k as int] == (StoreEntryV {
                wiki_id: self.stores@[k as int].wiki_id,
                store: self.stores@[k as int].store@,
            }));
            assert(newv.pages =~= oldv.pages);
            assert(newv.revisions =~= oldv.revisions);
            assert(newv.tag_history =~= oldv.tag_history);
            assert forall|w: u64| true implies #[trigger] store_idx(newv.stores, w) == store_idx(
                oldv.stores,
                w,
            ) by {
                assert forall|j: int| 0 <= j < oldv.stores.len()
                    implies ((#[trigger] oldv.stores[j]).wiki_id == w) == ((
                    #[trigger] newv.stores[j]).wiki_id == w) by {
                    if j != k {
                        assert(newv.stores[j] == oldv.stores[j]);
                    }
                }
                lemma_first_where_pointwise(
                    newv.stores,
                    oldv.stores,
                    |e: StoreEntryV| e.wiki_id == w,
                );
            }
            assert forall|i: int| 0 <= i < newv.revisions.len()
                implies #[trigger] rev_commit_ok(newv.pages, newv.revisions, newv.stores, i) by {
                assert(rev_commit_ok(oldv.pages, oldv.revisions, oldv.stores, i));
                let w = oldv.pages[oldv.revisions[i].page_id - 1].wiki_id;
                let kw = store_idx(oldv.stores, w)->Some_0;
                lemma_first_where_bounds(oldv.stores, |e: StoreEntryV| e.wiki_id == w);
                if kw != k {
                    assert(newv.stores[kw] == oldv.stores[kw]);
                } else {
                    assert(newv.stores[kw].store.commits == oldv.stores[kw].store.commits);
                }
            }
            assert forall|i: int| 0 <= i < newv.pages.len()
                implies store_idx(newv.stores, (#[trigger] newv.pages[i]).wiki_id) is Some by {
                assert(store_idx(oldv.stores, oldv.pages[i].wiki_id) is Some);
            }
            assert forall|k1: int, k2: int| 0 <= k1 < k2 < newv.stores.len()
                implies (#[trigger] newv.stores[k1]).wiki_id != (
                #[trigger] newv.stores[k2]).wiki_id by {
                assert(newv.stores[k1].wiki_id == oldv.stores[k1].wiki_id) by {
                    if k1 != k {
                        assert(newv.stores[k1] == oldv.stores[k1]);
                    }
                }
                assert(newv.stores[k2].wiki_id == oldv.stores[k2].wiki_id) by {
                    if k2 != k {
                        assert(newv.stores[k2] == oldv.stores[k2]);
                    }
                }
            }
            assert forall|j: int| 0 <= j < newv.stores.len()
                implies (#[trigger] newv.stores[j]).store.wf() by {
                if j != k {
                    assert(newv.stores[j] == oldv.stores[j]);
                } else {
                    assert(newv.stores[j].store.commits == oldv.stores[j].store.commits);
                }
            }
            assert forall|i: int|
                0 <= i < newv.pages.len() && (#[trigger] newv.pages[i]).deleted_at is None
                implies live_blob_ok(newv.pages, newv.stores, i) by {
                assert(newv.pages[i] == oldv.pages[i]);
                assert(live_blob_ok(oldv.pages, oldv.stores, i));
                let w = oldv.pages[i].wiki_id;
                lemma_first_where_bounds(oldv.stores, |e: StoreEntryV| e.wiki_id == w);
                let kw = store_idx(oldv.stores, w)->Some_0;
                assert(store_idx(newv.stores, w) == Some(kw));
                if kw != k {
                    assert(newv.stores[kw] == oldv.stores[kw]);
                } else {
                    assert(newv.stores[kw].store.commits == oldv.stores[kw].store.commits);
                    assert(newv.stores[kw].store.head_tree() == oldv.stores[
                        kw
                    ].store.head_tree());
                }
            }
        }
        Ok(())
    }

    /// A copy of the page with the given id, live or deleted, if any.
    pub fn get_page_by_id(&self, page_id: u64) -> (r: Option<Page>)
        ensures
            match r {
                Some(p) => 1 <= page_id <= self@.pages.len() && p@ == self@.pages[page_id - 1],
                None => !(1 <= page_id <= self@.pages.len()),
            },
    {
        if page_id >= 1 && page_id <= self.pages.len() as u64 {
            let k = (page_id - 1) as usize;
            proof {
                assert(self@.pages[k as int] == self.pages@[k as int]@);
            }
            Some(self.pages[k].duplicate())
        } else {
            None
        }
    }
}

} // verus!
