//! The per-wiki revision store.
//!
//! The store keeps a linear history of commits; each commit carries a
//! well-formed commit id derived from its position, an author line, a message
//! and a full tree of blobs keyed by slug. Every slug crossing this boundary
//! must be in normal form. Commits are immutable: operations only append, so
//! any previously returned commit id keeps denoting the same tree forever.

use vstd::prelude::*;

use crate::error::Error;
use crate::githash::{GitHash, hash_chars, is_git_hash, lemma_hash_chars_wf,
    lemma_hash_chars_injective};
use crate::slug::{check_normal, is_normal_chars};
use crate::text::str_eq;

verus! {

/// Who makes a commit and why, as recorded in the history.
pub struct CommitInfo {
    /// The acting user's name, placed in the author line.
    pub username: String,
    /// The commit message.
    pub message: String,
}

/// A named blob of one tree.
pub struct Blob {
    /// The page slug the blob is stored under.
    pub slug: String,
    /// The page content.
    pub content: Vec<u8>,
}

impl View for Blob {
    type V = (Seq<char>, Seq<u8>);

    open spec fn view(&self) -> (Seq<char>, Seq<u8>) {
        (self.slug@, self.content@)
    }
}

/// One commit of a store's history.
pub struct Commit {
    /// The commit id, `hash_chars` of this commit's position.
    pub hash: GitHash,
    /// `"<username> <noreply@<domain>>"`.
    pub author: String,
    /// The commit message.
    pub message: String,
    /// The full tree as of this commit.
    pub tree: Vec<Blob>,
}

/// The mathematical shape of a commit.
pub ghost struct CommitV {
    /// The commit id.
    pub hash: Seq<char>,
    /// The author line.
    pub author: Seq<char>,
    /// The commit message.
    pub message: Seq<char>,
    /// The tree: slug/content pairs with pairwise distinct slugs.
    pub tree: Seq<(Seq<char>, Seq<u8>)>,
}

impl View for Commit {
    type V = CommitV;

    open spec fn view(&self) -> CommitV {
        CommitV {
            hash: self.hash@,
            author: self.author@,
            message: self.message@,
            tree: self.tree@.map_values(|b: Blob| b@),
        }
    }
}

/// A content-addressed history of page blobs for one wiki.
pub struct RevisionStore {
    /// The domain used in author lines of future commits.
    domain: String,
    /// The linear history, oldest first.
    commits: Vec<Commit>,
}

/// The mathematical shape of a store.
pub ghost struct StoreV {
    /// The domain used in author lines.
    pub domain: Seq<char>,
    /// The history, oldest first.
    pub commits: Seq<CommitV>,
}

impl View for RevisionStore {
    type V = StoreV;

    closed spec fn view(&self) -> StoreV {
        StoreV { domain: self.domain@, commits: self.commits@.map_values(|c: Commit| c@) }
    }
}

/// Slugs of a tree are pairwise distinct.
pub open spec fn tree_wf(t: Seq<(Seq<char>, Seq<u8>)>) -> bool {
    forall|i: int, j: int| 0 <= i < j < t.len() ==> (#[trigger] t[i]).0 != (#[trigger] t[j]).0
}

/// The position of the first entry for `slug`, if any.
pub open spec fn tree_idx(t: Seq<(Seq<char>, Seq<u8>)>, slug: Seq<char>) -> Option<int>
    decreases t.len(),
{
    if t.len() == 0 {
        None
    } else if t[0].0 == slug {
        Some(0int)
    } else {
        match tree_idx(t.drop_first(), slug) {
            Some(j) => Some(j + 1),
            None => None,
        }
    }
}

/// The content stored under `slug`, if any.
pub open spec fn tree_get(t: Seq<(Seq<char>, Seq<u8>)>, slug: Seq<char>) -> Option<Seq<u8>> {
    match tree_idx(t, slug) {
        Some(i) => Some(t[i].1),
        None => None,
    }
}

/// The tree with `slug` bound to `content` (replacing or appending).
pub open spec fn tree_set(
    t: Seq<(Seq<char>, Seq<u8>)>,
    slug: Seq<char>,
    content: Seq<u8>,
) -> Seq<(Seq<char>, Seq<u8>)> {
    match tree_idx(t, slug) {
        Some(i) => t.update(i, (slug, content)),
        None => t.push((slug, content)),
    }
}

/// The tree without the entry for `slug` (unchanged when absent).
pub open spec fn tree_remove(t: Seq<(Seq<char>, Seq<u8>)>, slug: Seq<char>) -> Seq<
    (Seq<char>, Seq<u8>),
> {
    match tree_idx(t, slug) {
        Some(i) => t.remove(i),
        None => t,
    }
}

/// Where `tree_idx` points and what `None` means.
pub proof fn lemma_tree_idx_bounds(t: Seq<(Seq<char>, Seq<u8>)>, slug: Seq<char>)
    ensures
        match tree_idx(t, slug) {
            Some(i) => 0 <= i < t.len() && t[i].0 == slug,
            None => forall|j: int| 0 <= j < t.len() ==> (#[trigger] t[j]).0 != slug,
        },
    decreases t.len(),
{
    if t.len() > 0 && t[0].0 != slug {
        lemma_tree_idx_bounds(t.drop_first(), slug);
        match tree_idx(t.drop_first(), slug) {
            Some(j) => {
                assert(t.drop_first()[j] == t[j + 1]);
            },
            None => {
                assert forall|j: int| 0 <= j < t.len() implies (#[trigger] t[j]).0 != slug by {
                    if j > 0 {
                        assert(t[j] == t.drop_first()[j - 1]);
                    }
                }
            },
        }
    }
}

/// The first match is what `tree_idx` returns.
pub proof fn lemma_tree_idx_first(t: Seq<(Seq<char>, Seq<u8>)>, slug: Seq<char>, k: int)
    requires
        0 <= k < t.len(),
        t[k].0 == slug,
        forall|j: int| 0 <= j < k ==> (#[trigger] t[j]).0 != slug,
    ensures
        tree_idx(t, slug) == Some(k),
    decreases t.len(),
{
    if k > 0 {
        assert forall|j: int| 0 <= j < k - 1 implies (#[trigger] t.drop_first()[j]).0 != slug by {
            assert(t.drop_first()[j] == t[j + 1]);
        }
        assert(t.drop_first()[k - 1] == t[k]);
        lemma_tree_idx_first(t.drop_first(), slug, k - 1);
    }
}

/// `tree_set` binds `slug` and leaves every other slug alone; it keeps the
/// tree well formed.
pub proof fn lemma_tree_set(t: Seq<(Seq<char>, Seq<u8>)>, slug: Seq<char>, content: Seq<u8>)
    requires
        tree_wf(t),
    ensures
        tree_wf(tree_set(t, slug, content)),
        tree_get(tree_set(t, slug, content), slug) == Some(content),
        forall|other: Seq<char>|
            other != slug ==> #[trigger] tree_get(tree_set(t, slug, content), other) == tree_get(
                t,
                other,
            ),
{
    lemma_tree_idx_bounds(t, slug);
    let t2 = tree_set(t, slug, content);
    match tree_idx(t, slug) {
        Some(i) => {
            assert(t2 == t.update(i, (slug, content)));
            assert(tree_wf(t2)) by {
                assert forall|a: int, b: int| 0 <= a < b < t2.len()
                    implies (#[trigger] t2[a]).0 != (#[trigger] t2[b]).0 by {
                    if a != i && b != i {
                        assert(t2[a] == t[a] && t2[b] == t[b]);
                    } else if a == i {
                        assert(t2[b] == t[b] && t[b].0 != t[i].0);
                    } else {
                        assert(t2[a] == t[a] && t[a].0 != t[i].0);
                    }
                }
            }
            assert forall|j: int| 0 <= j < i implies (#[trigger] t2[j]).0 != slug by {
                assert(t2[j] == t[j]);
                if t[j].0 == slug {
                    lemma_tree_idx_first(t, slug, j);
                }
            }
            lemma_tree_idx_first(t2, slug, i);
            assert(tree_get(t2, slug) == Some(content));
            assert forall|other: Seq<char>| other != slug
                implies #[trigger] tree_get(t2, other) == tree_get(t, other) by {
                lemma_tree_idx_bounds(t, other);
                lemma_tree_idx_bounds(t2, other);
                match tree_idx(t, other) {
                    Some(k) => {
                        assert(k != i);
                        assert(t2[k] == t[k]);
                        assert forall|j: int| 0 <= j < k implies (#[trigger] t2[j]).0 != other by {
                            if j != i {
                                assert(t2[j] == t[j]);
                                if t[j].0 == other {
                                    lemma_tree_idx_first(t, other, j);
                                }
                            }
                        }
                        lemma_tree_idx_first(t2, other, k);
                    },
                    None => {
                        assert forall|j: int| 0 <= j < t2.len()
                            implies (#[trigger] t2[j]).0 != other by {
                            if j != i {
                                assert(t2[j] == t[j]);
                            }
                        }
                        lemma_tree_idx_bounds(t2, other);
                        if tree_idx(t2, other) is Some {
                            let k = tree_idx(t2, other)->Some_0;
                            assert(t2[k].0 == other);
                        }
                    },
                }
            }
        },
        None => {
            assert(t2 == t.push((slug, content)));
            assert(tree_wf(t2)) by {
                assert forall|a: int, b: int| 0 <= a < b < t2.len()
                    implies (#[trigger] t2[a]).0 != (#[trigger] t2[b]).0 by {
                    if b < t.len() {
                        assert(t2[a] == t[a] && t2[b] == t[b]);
                    } else {
                        assert(t2[a] == t[a] && t2[b] == (slug, content));
                    }
                }
            }
            assert forall|j: int| 0 <= j < t.len() implies (#[trigger] t2[j]).0 != slug by {
                assert(t2[j] == t[j]);
            }
            assert(t2[t.len() as int].0 == slug);
            lemma_tree_idx_first(t2, slug, t.len() as int);
            assert(tree_get(t2, slug) == Some(content));
            assert forall|other: Seq<char>| other != slug
                implies #[trigger] tree_get(t2, other) == tree_get(t, other) by {
                lemma_tree_idx_bounds(t, other);
                lemma_tree_idx_bounds(t2, other);
                match tree_idx(t, other) {
                    Some(k) => {
                        assert(t2[k] == t[k]);
                        assert forall|j: int| 0 <= j < k implies (#[trigger] t2[j]).0 != other by {
                            assert(t2[j] == t[j]);
                            if t[j].0 == other {
                                lemma_tree_idx_first(t, other, j);
                            }
                        }
                        lemma_tree_idx_first(t2, other, k);
                    },
                    None => {
                        if tree_idx(t2, other) is Some {
                            let k = tree_idx(t2, other)->Some_0;
                            assert(t2[k].0 == other);
                            assert(k < t.len());
                        }
                    },
                }
            }
        },
    }
}

/// `tree_remove` unbinds `slug` and leaves every other slug alone; it keeps
/// the tree well formed.
pub proof fn lemma_tree_remove(t: Seq<(Seq<char>, Seq<u8>)>, slug: Seq<char>)
    requires
        tree_wf(t),
    ensures
        tree_wf(tree_remove(t, slug)),
        tree_get(tree_remove(t, slug), slug) is None,
        forall|other: Seq<char>|
            other != slug ==> #[trigger] tree_get(tree_remove(t, slug), other) == tree_get(
                t,
                other,
            ),
{
    lemma_tree_idx_bounds(t, slug);
    let t2 = tree_remove(t, slug);
    match tree_idx(t, slug) {
        Some(i) => {
            assert(t2 == t.remove(i));
            assert forall|j: int| 0 <= j < t2.len() implies #[trigger] t2[j] == (
            if j < i {
                t[j]
            } else {
                t[j + 1]
            }) by {}
            assert(tree_wf(t2));
            assert forall|j: int| 0 <= j < t2.len() implies (#[trigger] t2[j]).0 != slug by {
                if j < i {
                    if t[j].0 == slug {
                        lemma_tree_idx_first(t, slug, j);
                    }
                } else {
                    assert(t[j + 1].0 != t[i].0);
                }
            }
            lemma_tree_idx_bounds(t2, slug);
            if tree_idx(t2, slug) is Some {
                let k = tree_idx(t2, slug)->Some_0;
                assert(t2[k].0 == slug);
            }
            assert forall|other: Seq<char>| other != slug
                implies #[trigger] tree_get(t2, other) == tree_get(t, other) by {
                lemma_tree_idx_bounds(t, other);
                lemma_tree_idx_bounds(t2, other);
                match tree_idx(t, other) {
                    Some(k) => {
                        assert(k != i);
                        let k2 = if k < i {
                            k
                        } else {
                            k - 1
                        };
                        assert(t2[k2] == t[k]);
                        assert forall|j: int| 0 <= j < k2 implies (#[trigger] t2[j]).0 != other by {
                            let jt = if j < i {
                                j
                            } else {
                                j + 1
                            };
                            assert(t2[j] == t[jt]);
                            if t[jt].0 == other {
                                lemma_tree_idx_first(t, other, jt);
                            }
                        }
                        lemma_tree_idx_first(t2, other, k2);
                    },
                    None => {
                        if tree_idx(t2, other) is Some {
                            let k = tree_idx(t2, other)->Some_0;
                            assert(t2[k].0 == other);
                        }
                    },
                }
            }
        },
        None => {},
    }
}

/// The position of the first commit with id `h`, if any.
pub open spec fn find_idx(commits: Seq<CommitV>, h: Seq<char>) -> Option<int>
    decreases commits.len(),
{
    if commits.len() == 0 {
        None
    } else if commits[0].hash == h {
        Some(0int)
    } else {
        match find_idx(commits.drop_first(), h) {
            Some(j) => Some(j + 1),
            None => None,
        }
    }
}

/// Where `find_idx` points and what `None` means.
pub proof fn lemma_find_idx_bounds(commits: Seq<CommitV>, h: Seq<char>)
    ensures
        match find_idx(commits, h) {
            Some(i) => 0 <= i < commits.len() && commits[i].hash == h && forall|j: int|
                0 <= j < i ==> (#[trigger] commits[j]).hash != h,
            None => forall|j: int| 0 <= j < commits.len() ==> (#[trigger] commits[j]).hash != h,
        },
    decreases commits.len(),
{
    if commits.len() > 0 && commits[0].hash != h {
        lemma_find_idx_bounds(commits.drop_first(), h);
        match find_idx(commits.drop_first(), h) {
            Some(j) => {
                assert(commits.drop_first()[j] == commits[j + 1]);
                assert forall|i: int| 0 <= i < j + 1 implies (#[trigger] commits[i]).hash != h by {
                    if i > 0 {
                        assert(commits[i] == commits.drop_first()[i - 1]);
                    }
                }
            },
            None => {
                assert forall|j: int| 0 <= j < commits.len()
                    implies (#[trigger] commits[j]).hash != h by {
                    if j > 0 {
                        assert(commits[j] == commits.drop_first()[j - 1]);
                    }
                }
            },
        }
    }
}

/// The first match is what `find_idx` returns.
pub proof fn lemma_find_idx_first(commits: Seq<CommitV>, h: Seq<char>, k: int)
    requires
        0 <= k < commits.len(),
        commits[k].hash == h,
        forall|j: int| 0 <= j < k ==> (#[trigger] commits[j]).hash != h,
    ensures
        find_idx(commits, h) == Some(k),
    decreases commits.len(),
{
    if k > 0 {
        assert forall|j: int| 0 <= j < k - 1
            implies (#[trigger] commits.drop_first()[j]).hash != h by {
            assert(commits.drop_first()[j] == commits[j + 1]);
        }
        assert(commits.drop_first()[k - 1] == commits[k]);
        lemma_find_idx_first(commits.drop_first(), h, k - 1);
    }
}

/// Appending commits never changes where an already-present id points.
pub proof fn lemma_find_idx_extend(c1: Seq<CommitV>, c2: Seq<CommitV>, h: Seq<char>)
    requires
        c1.len() <= c2.len(),
        forall|i: int| 0 <= i < c1.len() ==> #[trigger] c2[i] == c1[i],
        find_idx(c1, h) is Some,
    ensures
        find_idx(c2, h) == find_idx(c1, h),
    decreases c1.len(),
{
    lemma_find_idx_bounds(c1, h);
    let k = find_idx(c1, h)->Some_0;
    assert forall|j: int| 0 <= j < k implies (#[trigger] c2[j]).hash != h by {
        assert(c2[j] == c1[j]);
    }
    assert(c2[k] == c1[k]);
    lemma_find_idx_first(c2, h, k);
}

/// The author line recorded for a commit: `"<username> <noreply@<domain>>"`.
pub open spec fn author_line(username: Seq<char>, domain: Seq<char>) -> Seq<char> {
    username + " <noreply@"@ + domain + ">"@
}

impl StoreV {
    /// Well-formed store: every commit id is derived from its position and
    /// every tree has pairwise distinct slugs.
    pub open spec fn wf(self) -> bool {
        &&& self.commits.len() <= 0x1_0000_0000_0000_0000
        &&& forall|i: int|
            0 <= i < self.commits.len() ==> (#[trigger] self.commits[i]).hash == hash_chars(
                i as nat,
            )
        &&& forall|i: int| 0 <= i < self.commits.len() ==> tree_wf((#[trigger] self.commits[i]).tree)
    }

    /// Room for one more commit.
    pub open spec fn can_commit(self) -> bool {
        self.commits.len() < 0x1_0000_0000_0000_0000
    }

    /// The tree of the newest commit (empty before the first commit).
    pub open spec fn head_tree(self) -> Seq<(Seq<char>, Seq<u8>)> {
        if self.commits.len() > 0 {
            self.commits.last().tree
        } else {
            seq![]
        }
    }

    /// The blob under `slug` as of commit `h`, if both exist.
    pub open spec fn page_at(self, h: Seq<char>, slug: Seq<char>) -> Option<Seq<u8>> {
        match find_idx(self.commits, h) {
            Some(i) => tree_get(self.commits[i].tree, slug),
            None => None,
        }
    }

    /// The blob currently under `slug`, if any.
    pub open spec fn current_page(self, slug: Seq<char>) -> Option<Seq<u8>> {
        tree_get(self.head_tree(), slug)
    }

    /// The store after one more commit by `username` with `message` whose
    /// tree is `tree`.
    pub open spec fn with_commit(self, username: Seq<char>, message: Seq<char>, tree: Seq<(Seq<char>, Seq<u8>)>) -> StoreV {
        StoreV {
            domain: self.domain,
            commits: self.commits.push(
                (CommitV {
                    hash: hash_chars(self.commits.len() as nat),
                    author: author_line(username, self.domain),
                    message: message,
                    tree: tree,
                }),
            ),
        }
    }

    /// In a well-formed store the id generated for position `k` is found at
    /// position `k`.
    pub proof fn lemma_find_own_hash(self, k: int)
        requires
            self.wf(),
            0 <= k < self.commits.len(),
        ensures
            find_idx(self.commits, hash_chars(k as nat)) == Some(k),
    {
        assert forall|j: int| 0 <= j < k
            implies (#[trigger] self.commits[j]).hash != hash_chars(k as nat) by {
            if self.commits[j].hash == hash_chars(k as nat) {
                lemma_hash_chars_injective(j as nat, k as nat);
            }
        }
        lemma_find_idx_first(self.commits, hash_chars(k as nat), k);
    }

    /// What a commit id denoted, it keeps denoting after further commits.
    pub proof fn lemma_page_at_stable(self, later: StoreV, h: Seq<char>, slug: Seq<char>)
        requires
            self.commits.len() <= later.commits.len(),
            forall|i: int| 0 <= i < self.commits.len() ==> #[trigger] later.commits[i] == self.commits[i],
            find_idx(self.commits, h) is Some,
        ensures
            later.page_at(h, slug) == self.page_at(h, slug),
    {
        lemma_find_idx_bounds(self.commits, h);
        lemma_find_idx_extend(self.commits, later.commits, h);
        let k = find_idx(self.commits, h)->Some_0;
        assert(later.commits[k] == self.commits[k]);
    }
}

/// The view of an executable tree.
pub open spec fn tree_view(t: Seq<Blob>) -> Seq<(Seq<char>, Seq<u8>)> {
    t.map_values(|b: Blob| b@)
}

/// Copies a byte vector.
pub fn clone_bytes(v: &Vec<u8>) -> (r: Vec<u8>)
    ensures
        r@ == v@,
{
    let mut out: Vec<u8> = Vec::new();
    let mut i: usize = 0;
    while i < v.len()
        invariant
            i <= v@.len(),
            out@ =~= v@.subrange(0, i as int),
        decreases v@.len() - i,
    {
        out.push(v[i]);
        i += 1;
    }
    proof {
        assert(v@.subrange(0, v@.len() as int) =~= v@);
    }
    out
}

/// Copies a tree.
fn clone_tree(t: &Vec<Blob>) -> (r: Vec<Blob>)
    ensures
        tree_view(r@) == tree_view(t@),
{
    let mut out: Vec<Blob> = Vec::new();
    let mut i: usize = 0;
    while i < t.len()
        invariant
            i <= t@.len(),
            out@.len() == i,
            forall|j: int| 0 <= j < i ==> #[trigger] out@[j]@ == t@[j]@,
        decreases t@.len() - i,
    {
        let b = Blob { slug: t[i].slug.clone(), content: clone_bytes(&t[i].content) };
        out.push(b);
        i += 1;
    }
    proof {
        assert forall|j: int| 0 <= j < t@.len()
            implies tree_view(out@)[j] == tree_view(t@)[j] by {
            assert(out@[j]@ == t@[j]@);
        }
        assert(tree_view(out@) =~= tree_view(t@));
    }
    out
}

/// Finds the entry for `slug` in an executable tree.
fn tree_find(t: &Vec<Blob>, slug: &str) -> (r: Option<usize>)
    ensures
        match r {
            Some(k) => k < t@.len() && tree_idx(tree_view(t@), slug@) == Some(k as int),
            None => tree_idx(tree_view(t@), slug@) is None,
        },
{
    let mut i: usize = 0;
    while i < t.len()
        invariant
            i <= t@.len(),
            forall|j: int| 0 <= j < i ==> (#[trigger] tree_view(t@)[j]).0 != slug@,
        decreases t@.len() - i,
    {
        if str_eq(t[i].slug.as_str(), slug) {
            proof {
                assert(tree_view(t@)[i as int].0 == slug@);
                lemma_tree_idx_first(tree_view(t@), slug@, i as int);
            }
            return Some(i);
        }
        proof {
            assert(tree_view(t@)[i as int].0 == t@[i as int]@.0);
        }
        i += 1;
    }
    proof {
        lemma_tree_idx_bounds(tree_view(t@), slug@);
        if tree_idx(tree_view(t@), slug@) is Some {
            let k = tree_idx(tree_view(t@), slug@)->Some_0;
            assert((tree_view(t@)[k]).0 == slug@);
        }
    }
    None
}

impl RevisionStore {
    /// Creates an empty store for the given domain.
    pub fn new(domain: String) -> (s: Self)
        ensures
            s@.domain == domain@,
            s@.commits =~= Seq::<CommitV>::empty(),
            s@.wf(),
    {
        let s = RevisionStore { domain, commits: Vec::new() };
        proof {
            assert(s@.commits =~= Seq::<CommitV>::empty());
        }
        s
    }

    /// Appends a commit with the given tree; the id is derived from the
    /// commit's position.
    fn push_commit(&mut self, username: &str, message: String, tree: Vec<Blob>) -> (r: GitHash)
        requires
            old(self)@.wf(),
            old(self)@.can_commit(),
            tree_wf(tree_view(tree@)),
        ensures
            final(self)@ == old(self)@.with_commit(username@, message@, tree_view(tree@)),
            final(self)@.wf(),
            r@ == hash_chars(old(self)@.commits.len() as nat),
    {
        let n = self.commits.len();
        let hash = GitHash::of_index(n as u64);
        let mut author = username.to_owned();
        author.append(" <noreply@");
        author.append(self.domain.as_str());
        author.append(">");
        let c = Commit { hash, author, message, tree };
        self.commits.push(c);
        proof {
            let oldv = old(self)@;
            let newv = self@;
            assert(newv.commits =~= oldv.commits.push(
                (CommitV {
                    hash: hash_chars(oldv.commits.len() as nat),
                    author: author_line(username@, oldv.domain),
                    message: message@,
                    tree: tree_view(tree@),
                }),
            ));
            lemma_hash_chars_wf(oldv.commits.len() as nat);
            assert forall|i: int| 0 <= i < newv.commits.len()
                implies (#[trigger] newv.commits[i]).hash == hash_chars(i as nat) by {
                if i < oldv.commits.len() {
                    assert(newv.commits[i] == oldv.commits[i]);
                }
            }
            assert forall|i: int| 0 <= i < newv.commits.len()
                implies tree_wf((#[trigger] newv.commits[i]).tree) by {
                if i < oldv.commits.len() {
                    assert(newv.commits[i] == oldv.commits[i]);
                }
            }
        }
        GitHash::of_index(n as u64)
    }

    /// Creates the first, empty commit of a fresh store.
    pub fn initial_commit(&mut self) -> (r: GitHash)
        requires
            old(self)@.wf(),
            old(self)@.commits.len() == 0,
        ensures
            final(self)@ == old(self)@.with_commit("DEEPWELL"@, "Initial commit"@, Seq::empty()),
            final(self)@.wf(),
            r@ == hash_chars(0),
    {
        let tree: Vec<Blob> = Vec::new();
        proof {
            assert(tree_view(tree@) =~= Seq::<(Seq<char>, Seq<u8>)>::empty());
        }
        let message = "Initial commit".to_owned();
        let r = self.push_commit("DEEPWELL", message, tree);
        proof {
            assert(tree_view(Seq::<Blob>::empty()) =~= Seq::<(Seq<char>, Seq<u8>)>::empty());
        }
        r
    }

    /// Writes `content` under `slug` (creating or overwriting) and commits.
    /// Fails with `SlugNotNormal` exactly when `slug` is not normal, leaving
    /// the store unchanged.
    pub fn commit(&mut self, slug: &str, content: &[u8], info: &CommitInfo) -> (r: Result<
        GitHash,
        Error,
    >)
        requires
            old(self)@.wf(),
            old(self)@.can_commit(),
        ensures
            final(self)@.wf(),
            match r {
                Ok(h) => {
                    &&& is_normal_chars(slug@)
                    &&& final(self)@ == old(self)@.with_commit(
                        info.username@,
                        info.message@,
                        tree_set(old(self)@.head_tree(), slug@, content@),
                    )
                    &&& h@ == hash_chars(old(self)@.commits.len() as nat)
                },
                Err(e) => {
                    &&& e == Error::SlugNotNormal
                    &&& !is_normal_chars(slug@)
                    &&& final(self)@ == old(self)@
                },
            },
    {
        if let Err(e) = check_normal(slug) {
            return Err(e);
        }
        proof {
            let oldv = self@;
            if oldv.commits.len() > 0 {
                assert(oldv.commits[oldv.commits.len() - 1] == oldv.commits.last());
                assert(tree_wf(oldv.head_tree()));
            }
            lemma_tree_set(oldv.head_tree(), slug@, content@);
        }
        let tree = self.new_head_set(slug, content);
        let message = clone_string(&info.message);
        let h = self.push_commit(info.username.as_str(), message, tree);
        Ok(h)
    }

    /// Commits with no tree change; used for tag-only revisions.
    pub fn empty_commit(&mut self, info: &CommitInfo) -> (r: GitHash)
        requires
            old(self)@.wf(),
            old(self)@.can_commit(),
        ensures
            final(self)@.wf(),
            final(self)@ == old(self)@.with_commit(
                info.username@,
                info.message@,
                old(self)@.head_tree(),
            ),
            r@ == hash_chars(old(self)@.commits.len() as nat),
    {
        proof {
            let oldv = self@;
            if oldv.commits.len() > 0 {
                assert(oldv.commits[oldv.commits.len() - 1] == oldv.commits.last());
                assert(tree_wf(oldv.head_tree()));
            }
        }
        let tree = self.clone_head();
        let message = clone_string(&info.message);
        self.push_commit(info.username.as_str(), message, tree)
    }

    /// A copy of the head tree.
    fn clone_head(&self) -> (r: Vec<Blob>)
        ensures
            tree_view(r@) == self@.head_tree(),
    {
        if self.commits.len() == 0 {
            let empty: Vec<Blob> = Vec::new();
            proof {
                assert(tree_view(empty@) =~= self@.head_tree());
            }
            empty
        } else {
            let t = clone_tree(&self.commits[self.commits.len() - 1].tree);
            proof {
                assert(self@.commits[self@.commits.len() - 1] == self@.commits.last());
            }
            t
        }
    }

    /// A copy of the head tree with `slug` bound to `content`.
    fn new_head_set(&self, slug: &str, content: &[u8]) -> (r: Vec<Blob>)
        ensures
            tree_view(r@) == tree_set(self@.head_tree(), slug@, content@),
    {
        let tree = self.clone_head();
        let owned = vstd::slice::slice_to_vec(content);
        tree_set_exec(tree, slug, owned)
    }

    /// Finds the commit with the given id.
    fn find_commit(&self, h: &GitHash) -> (r: Option<usize>)
        ensures
            match r {
                Some(k) => k < self@.commits.len() && find_idx(self@.commits, h@) == Some(k as int),
                None => find_idx(self@.commits, h@) is None,
            },
    {
        let mut i: usize = 0;
        while i < self.commits.len()
            invariant
                i <= self@.commits.len(),
                self@.commits.len() == self.commits@.len(),
                forall|j: int| 0 <= j < i ==> (#[trigger] self@.commits[j]).hash != h@,
            decreases self@.commits.len() - i,
        {
            proof {
                assert(self@.commits[i as int] == self.commits@[i as int]@);
            }
            if self.commits[i].hash.eq_hash(h) {
                proof {
                    lemma_find_idx_first(self@.commits, h@, i as int);
                }
                return Some(i);
            }
            i += 1;
        }
        proof {
            lemma_find_idx_bounds(self@.commits, h@);
            if find_idx(self@.commits, h@) is Some {
                let k = find_idx(self@.commits, h@)->Some_0;
                assert(self@.commits[k].hash == h@);
            }
        }
        None
    }

    /// The current blob under `slug`, or `None` if the page does not exist.
    /// Fails with `SlugNotNormal` exactly when `slug` is not normal.
    pub fn get_page(&self, slug: &str) -> (r: Result<Option<Vec<u8>>, Error>)
        ensures
            match r {
                Ok(opt) => {
                    &&& is_normal_chars(slug@)
                    &&& match opt {
                        Some(v) => self@.current_page(slug@) == Some(v@),
                        None => self@.current_page(slug@) is None,
                    }
                },
                Err(e) => e == Error::SlugNotNormal && !is_normal_chars(slug@),
            },
    {
        if let Err(e) = check_normal(slug) {
            return Err(e);
        }
        if self.commits.len() == 0 {
            proof {
                assert(self@.current_page(slug@) is None);
            }
            return Ok(None);
        }
        let tree = &self.commits[self.commits.len() - 1].tree;
        proof {
            assert(self@.commits[self@.commits.len() - 1] == self@.commits.last());
            assert(tree_view(tree@) == self@.head_tree());
        }
        match tree_find(tree, slug) {
            Some(k) => {
                proof {
                    assert(tree_view(tree@)[k as int] == tree@[k as int]@);
                }
                Ok(Some(clone_bytes(&tree[k].content)))
            },
            None => Ok(None),
        }
    }

    /// The blob under `slug` as of commit `hash`, or `None` if absent there
    /// (or if the commit id is unknown).
    pub fn get_page_version(&self, slug: &str, hash: &GitHash) -> (r: Result<
        Option<Vec<u8>>,
        Error,
    >)
        ensures
            match r {
                Ok(opt) => {
                    &&& is_normal_chars(slug@)
                    &&& match opt {
                        Some(v) => self@.page_at(hash@, slug@) == Some(v@),
                        None => self@.page_at(hash@, slug@) is None,
                    }
                },
                Err(e) => e == Error::SlugNotNormal && !is_normal_chars(slug@),
            },
    {
        if let Err(e) = check_normal(slug) {
            return Err(e);
        }
        match self.find_commit(hash) {
            Some(k) => {
                let tree = &self.commits[k].tree;
                proof {
                    assert(self@.commits[k as int] == self.commits@[k as int]@);
                    assert(tree_view(tree@) == self@.commits[k as int].tree);
                }
                match tree_find(tree, slug) {
                    Some(j) => {
                        proof {
                            assert(tree_view(tree@)[j as int] == tree@[j as int]@);
                        }
                        Ok(Some(clone_bytes(&tree[j].content)))
                    },
                    None => Ok(None),
                }
            },
            None => Ok(None),
        }
    }

    /// Moves the blob from `old_slug` to `new_slug` and commits. Fails with
    /// `PageNotFound` when `old_slug` is absent and `PageExists` when
    /// `new_slug` is already present; failures leave the store unchanged.
    pub fn rename(&mut self, old_slug: &str, new_slug: &str, info: &CommitInfo) -> (r: Result<
        GitHash,
        Error,
    >)
        requires
            old(self)@.wf(),
            old(self)@.can_commit(),
        ensures
            final(self)@.wf(),
            match r {
                Ok(h) => {
                    &&& is_normal_chars(old_slug@) && is_normal_chars(new_slug@)
                    &&& old(self)@.current_page(old_slug@) is Some
                    &&& old(self)@.current_page(new_slug@) is None
                    &&& final(self)@ == old(self)@.with_commit(
                        info.username@,
                        info.message@,
                        tree_set(
                            tree_remove(old(self)@.head_tree(), old_slug@),
                            new_slug@,
                            old(self)@.current_page(old_slug@)->Some_0,
                        ),
                    )
                    &&& h@ == hash_chars(old(self)@.commits.len() as nat)
                },
                Err(e) => {
                    &&& final(self)@ == old(self)@
                    &&& match e {
                        Error::SlugNotNormal => !is_normal_chars(old_slug@) || !is_normal_chars(
                            new_slug@,
                        ),
                        Error::PageNotFound => is_normal_chars(old_slug@) && is_normal_chars(
                            new_slug@,
                        ) && old(self)@.current_page(old_slug@) is None,
                        Error::PageExists => is_normal_chars(old_slug@) && is_normal_chars(
                            new_slug@,
                        ) && old(self)@.current_page(old_slug@) is Some && old(
                            self,
                        )@.current_page(new_slug@) is Some,
                        _ => false,
                    }
                },
            },
    {
        if let Err(e) = check_normal(old_slug) {
            return Err(e);
        }
        if let Err(e) = check_normal(new_slug) {
            return Err(e);
        }
        proof {
            let oldv = self@;
            if oldv.commits.len() > 0 {
                assert(oldv.commits[oldv.commits.len() - 1] == oldv.commits.last());
                assert(tree_wf(oldv.head_tree()));
            }
            lemma_tree_idx_bounds(oldv.head_tree(), old_slug@);
            lemma_tree_idx_bounds(oldv.head_tree(), new_slug@);
            lemma_tree_remove(oldv.head_tree(), old_slug@);
            lemma_tree_set(
                tree_remove(oldv.head_tree(), old_slug@),
                new_slug@,
                oldv.current_page(old_slug@)->Some_0,
            );
        }
        let head = self.clone_head();
        let content = match tree_find(&head, old_slug) {
            Some(k) => {
                proof {
                    assert(tree_view(head@)[k as int] == head@[k as int]@);
                }
                clone_bytes(&head[k].content)
            },
            None => {
                return Err(Error::PageNotFound);
            },
        };
        if let Some(_) = tree_find(&head, new_slug) {
            return Err(Error::PageExists);
        }
        let removed = tree_remove_exec(head, old_slug);
        let tree = tree_set_exec(removed, new_slug, content);
        let message = clone_string(&info.message);
        let h = self.push_commit(info.username.as_str(), message, tree);
        Ok(h)
    }

    /// Deletes the blob under `slug` and commits; returns `Ok(None)` without
    /// committing when the blob is absent.
    pub fn remove(&mut self, slug: &str, info: &CommitInfo) -> (r: Result<Option<GitHash>, Error>)
        requires
            old(self)@.wf(),
            old(self)@.can_commit(),
        ensures
            final(self)@.wf(),
            match r {
                Ok(Some(h)) => {
                    &&& is_normal_chars(slug@)
                    &&& old(self)@.current_page(slug@) is Some
                    &&& final(self)@ == old(self)@.with_commit(
                        info.username@,
                        info.message@,
                        tree_remove(old(self)@.head_tree(), slug@),
                    )
                    &&& h@ == hash_chars(old(self)@.commits.len() as nat)
                },
                Ok(None) => {
                    &&& is_normal_chars(slug@)
                    &&& old(self)@.current_page(slug@) is None
                    &&& final(self)@ == old(self)@
                },
                Err(e) => {
                    &&& e == Error::SlugNotNormal
                    &&& !is_normal_chars(slug@)
                    &&& final(self)@ == old(self)@
                },
            },
    {
        if let Err(e) = check_normal(slug) {
            return Err(e);
        }
        proof {
            let oldv = self@;
            if oldv.commits.len() > 0 {
                assert(oldv.commits[oldv.commits.len() - 1] == oldv.commits.last());
                assert(tree_wf(oldv.head_tree()));
            }
            lemma_tree_idx_bounds(oldv.head_tree(), slug@);
            lemma_tree_remove(oldv.head_tree(), slug@);
        }
        let head = self.clone_head();
        if let None = tree_find(&head, slug) {
            return Ok(None);
        }
        let tree = tree_remove_exec(head, slug);
        let message = clone_string(&info.message);
        let h = self.push_commit(info.username.as_str(), message, tree);
        Ok(Some(h))
    }

    /// Copies the blob that existed under `old_slug` at commit `at` to
    /// `new_slug` and commits. Fails with `PageNotFound` when no such blob
    /// exists, leaving the store unchanged.
    pub fn restore(&mut self, new_slug: &str, old_slug: &str, at: &GitHash, info: &CommitInfo) -> (r:
        Result<GitHash, Error>)
        requires
            old(self)@.wf(),
            old(self)@.can_commit(),
        ensures
            final(self)@.wf(),
            match r {
                Ok(h) => {
                    &&& is_normal_chars(old_slug@) && is_normal_chars(new_slug@)
                    &&& old(self)@.page_at(at@, old_slug@) is Some
                    &&& final(self)@ == old(self)@.with_commit(
                        info.username@,
                        info.message@,
                        tree_set(
                            old(self)@.head_tree(),
                            new_slug@,
                            old(self)@.page_at(at@, old_slug@)->Some_0,
                        ),
                    )
                    &&& h@ == hash_chars(old(self)@.commits.len() as nat)
                },
                Err(e) => {
                    &&& final(self)@ == old(self)@
                    &&& match e {
                        Error::SlugNotNormal => !is_normal_chars(old_slug@) || !is_normal_chars(
                            new_slug@,
                        ),
                        Error::PageNotFound => is_normal_chars(old_slug@) && is_normal_chars(
                            new_slug@,
                        ) && old(self)@.page_at(at@, old_slug@) is None,
                        _ => false,
                    }
                },
            },
    {
        if let Err(e) = check_normal(old_slug) {
            return Err(e);
        }
        if let Err(e) = check_normal(new_slug) {
            return Err(e);
        }
        let content = match self.get_page_version(old_slug, at) {
            Ok(Some(v)) => v,
            _ => {
                return Err(Error::PageNotFound);
            },
        };
        proof {
            let oldv = self@;
            if oldv.commits.len() > 0 {
                assert(oldv.commits[oldv.commits.len() - 1] == oldv.commits.last());
                assert(tree_wf(oldv.head_tree()));
            }
            lemma_tree_set(oldv.head_tree(), new_slug@, content@);
        }
        let head = self.clone_head();
        let tree = tree_set_exec(head, new_slug, content);
        let message = clone_string(&info.message);
        let h = self.push_commit(info.username.as_str(), message, tree);
        Ok(h)
    }

    /// The textual diff of the blob under `slug` between two commits; a blob
    /// absent at a commit diffs as empty content.
    pub fn get_diff(&self, slug: &str, first: &GitHash, second: &GitHash) -> (r: Result<
        Vec<u8>,
        Error,
    >)
        ensures
            match r {
                Ok(v) => is_normal_chars(slug@) && v@ == crate::difftext::unified_diff(
                    blob_or_empty(self@, first@, slug@),
                    blob_or_empty(self@, second@, slug@),
                ),
                Err(e) => e == Error::SlugNotNormal && !is_normal_chars(slug@),
            },
    {
        let olds = match self.get_page_version(slug, first) {
            Ok(Some(v)) => v,
            Ok(None) => Vec::new(),
            Err(e) => {
                return Err(e);
            },
        };
        let news = match self.get_page_version(slug, second) {
            Ok(Some(v)) => v,
            Ok(None) => Vec::new(),
            Err(e) => {
                return Err(e);
            },
        };
        proof {
            assert(olds@ == blob_or_empty(self@, first@, slug@));
            assert(news@ == blob_or_empty(self@, second@, slug@));
        }
        Ok(crate::difftext::diff_bytes(&olds, &news))
    }

    /// Per-line attribution for the blob under `slug` as of `hash` (or the
    /// head commit when `hash` is `None`). Every line is attributed to the
    /// newest commit at or before that point that changed the blob, with its
    /// position in the source. `Ok(None)` when the blob (or commit) is
    /// absent.
    pub fn get_blame(&self, slug: &str, hash: Option<&GitHash>) -> (r: Result<
        Option<Vec<BlameLine>>,
        Error,
    >)
        requires
            self@.wf(),
        ensures
            match r {
                Ok(Some(bl)) => {
                    &&& is_normal_chars(slug@)
                    &&& blame_target(self@, match hash {
                        Some(h) => Some(h@),
                        None => None,
                    }) is Some
                    &&& blame_correct(self@, blame_target(self@, match hash {
                        Some(h) => Some(h@),
                        None => None,
                    })->Some_0, slug@, bl@)
                },
                Ok(None) => {
                    &&& is_normal_chars(slug@)
                    &&& match blame_target(self@, match hash {
                        Some(h) => Some(h@),
                        None => None,
                    }) {
                        Some(j) => tree_get(self@.commits[j].tree, slug@) is None,
                        None => true,
                    }
                },
                Err(e) => e == Error::SlugNotNormal && !is_normal_chars(slug@),
            },
    {
        if let Err(e) = check_normal(slug) {
            return Err(e);
        }
        let j: usize = match hash {
            Some(h) => {
                match self.find_commit(h) {
                    Some(j) => j,
                    None => {
                        return Ok(None);
                    },
                }
            },
            None => {
                if self.commits.len() == 0 {
                    return Ok(None);
                }
                self.commits.len() - 1
            },
        };
        proof {
            assert(self@.commits[j as int] == self.commits@[j as int]@);
        }
        let content = match tree_find(&self.commits[j].tree, slug) {
            Some(t) => {
                proof {
                    assert(tree_view(self.commits@[j as int].tree@)[t as int]
                        == self.commits@[j as int].tree@[t as int]@);
                }
                clone_bytes(&self.commits[j].tree[t].content)
            },
            None => {
                return Ok(None);
            },
        };
        let lc = self.find_last_change(j, slug);
        let lines = crate::difftext::split_lines_exec(&content);
        let mut out: Vec<BlameLine> = Vec::new();
        let mut i: usize = 0;
        proof {
            assert(self@.commits[lc as int] == self.commits@[lc as int]@);
        }
        while i < lines.len()
            invariant
                i <= lines@.len(),
                lc < self@.commits.len(),
                self@.commits.len() == self.commits@.len(),
                self@.commits[lc as int] == self.commits@[lc as int]@,
                out@.len() == i,
                forall|t: int|
                    0 <= t < i ==> (#[trigger] out@[t]).hash@ == self@.commits[lc as int].hash
                        && out@[t].author@ == self@.commits[lc as int].author && out@[t].line == t,
            decreases lines@.len() - i,
        {
            let line = BlameLine {
                hash: self.commits[lc].hash.duplicate(),
                author: clone_string(&self.commits[lc].author),
                line: i,
            };
            out.push(line);
            i += 1;
        }
        proof {
            assert(lines.deep_view().len() == lines@.len());
        }
        Ok(Some(out))
    }

    /// The newest commit at or before `j` that changed the blob under
    /// `slug`.
    fn find_last_change(&self, j: usize, slug: &str) -> (lc: usize)
        requires
            j < self@.commits.len(),
        ensures
            lc as int == last_change(self@.commits, j as int, slug@),
            lc <= j,
    {
        let mut lc: usize = j;
        while lc > 0
            invariant
                lc <= j < self@.commits.len(),
                self@.commits.len() == self.commits@.len(),
                last_change(self@.commits, j as int, slug@) == last_change(
                    self@.commits,
                    lc as int,
                    slug@,
                ),
            decreases lc,
        {
            proof {
                assert(self@.commits[lc as int] == self.commits@[lc as int]@);
                assert(self@.commits[lc - 1] == self.commits@[lc - 1]@);
            }
            let same = trees_agree(&self.commits[lc].tree, &self.commits[lc - 1].tree, slug);
            if !same {
                return lc;
            }
            lc -= 1;
        }
        lc
    }

    /// Updates the domain used in author lines of future commits.
    pub fn set_domain(&mut self, new_domain: &str)
        ensures
            final(self)@.domain == new_domain@,
            final(self)@.commits == old(self)@.commits,
    {
        self.domain = new_domain.to_owned();
    }
}

/// The tree with `slug` bound to `content` (replacing or appending).
fn tree_set_exec(tree: Vec<Blob>, slug: &str, content: Vec<u8>) -> (r: Vec<Blob>)
    ensures
        tree_view(r@) == tree_set(tree_view(tree@), slug@, content@),
{
    let mut t = tree;
    let ghost orig = t@;
    let entry = Blob { slug: slug.to_owned(), content };
    match tree_find(&t, slug) {
        Some(k) => {
            t.set(k, entry);
            proof {
                assert(tree_view(t@) =~= tree_set(tree_view(orig), slug@, content@));
            }
        },
        None => {
            t.push(entry);
            proof {
                assert(tree_view(t@) =~= tree_set(tree_view(orig), slug@, content@));
            }
        },
    }
    t
}

/// The tree without the entry for `slug` (unchanged when absent).
fn tree_remove_exec(tree: Vec<Blob>, slug: &str) -> (r: Vec<Blob>)
    ensures
        tree_view(r@) == tree_remove(tree_view(tree@), slug@),
{
    let mut t = tree;
    let ghost orig = t@;
    match tree_find(&t, slug) {
        Some(k) => {
            t.remove(k);
            proof {
                assert(tree_view(t@) =~= tree_remove(tree_view(orig), slug@));
            }
        },
        None => {},
    }
    t
}

/// One line's attribution in a blame: the commit that last changed the
/// blob, its author line, and the line's position in the source.
pub struct BlameLine {
    /// The commit id the line is attributed to.
    pub hash: GitHash,
    /// That commit's author line.
    pub author: String,
    /// The line's position in the source.
    pub line: usize,
}

/// The commit a blame request addresses: the commit with the given id, or
/// the head commit when none is given.
pub open spec fn blame_target(st: StoreV, h: Option<Seq<char>>) -> Option<int> {
    match h {
        Some(hh) => find_idx(st.commits, hh),
        None => if st.commits.len() > 0 {
            Some(st.commits.len() - 1)
        } else {
            None
        },
    }
}

/// The newest position at or before `j` where the blob under `slug`
/// changed (the first commit counts as a change).
pub open spec fn last_change(commits: Seq<CommitV>, j: int, slug: Seq<char>) -> int
    decreases j,
{
    if j <= 0 {
        0
    } else if tree_get(commits[j].tree, slug) != tree_get(commits[j - 1].tree, slug) {
        j
    } else {
        last_change(commits, j - 1, slug)
    }
}

/// A correct blame for the blob under `slug` as of commit `j`: one entry
/// per line, each attributed to the newest commit at or before `j` that
/// changed the blob, carrying its author line and the line's position.
pub open spec fn blame_correct(st: StoreV, j: int, slug: Seq<char>, bl: Seq<BlameLine>) -> bool {
    let lc = last_change(st.commits, j, slug);
    &&& tree_get(st.commits[j].tree, slug) is Some
    &&& bl.len() == crate::difftext::split_lines(tree_get(st.commits[j].tree, slug)->Some_0).len()
    &&& forall|i: int|
        0 <= i < bl.len() ==> (#[trigger] bl[i]).hash@ == st.commits[lc].hash && bl[i].author@
            == st.commits[lc].author && bl[i].line == i
}

/// The blob a commit id resolves to under a slug, or empty content.
pub open spec fn blob_or_empty(st: StoreV, h: Seq<char>, slug: Seq<char>) -> Seq<u8> {
    match st.page_at(h, slug) {
        Some(c) => c,
        None => seq![],
    }
}

/// Whether two trees bind `slug` to the same content (or both not at all).
fn trees_agree(a: &Vec<Blob>, b: &Vec<Blob>, slug: &str) -> (r: bool)
    ensures
        r == (tree_get(tree_view(a@), slug@) == tree_get(tree_view(b@), slug@)),
{
    let ia = tree_find(a, slug);
    let ib = tree_find(b, slug);
    match (ia, ib) {
        (Some(x), Some(y)) => {
            proof {
                assert(tree_view(a@)[x as int] == a@[x as int]@);
                assert(tree_view(b@)[y as int] == b@[y as int]@);
            }
            crate::difftext::bytes_eq(&a[x].content, &b[y].content)
        },
        (None, None) => true,
        _ => false,
    }
}

/// Copies a string.
pub fn clone_string(s: &String) -> (r: String)
    ensures
        r == s,
{
    s.clone()
}

} // verus!
