//! The catalog's laws, stated and proved once against the contracts.
//!
//! Each law here holds of every well-formed service state, or of every run
//! of the operations it names. The well-formedness predicate is established
//! by the constructor and preserved by every operation, so these statements
//! hold after any sequence of operations.

use vstd::prelude::*;

use crate::githash::{is_git_hash, hash_chars};
use crate::page::{ServiceV, ChangeType, PageV, RevisionV, StoreEntryV, store_idx, rev_commit_ok};
use crate::store::{StoreV, find_idx, tree_set, tree_remove, tree_wf, tree_get,
    lemma_tree_set, lemma_tree_remove};
use crate::tags::{sorted_strict, disjoint_tags};
use crate::text::{lemma_first_where_bounds, lemma_first_where_holds, lemma_first_where_pointwise,
    lemma_last_where_holds};

verus! {

/// For every `(wiki_id, slug)` at most one page row is live: two live rows
/// that agree on wiki and slug are the same row.
pub proof fn lemma_live_slug_unique(v: ServiceV, i: int, j: int)
    requires
        v.wf(),
        0 <= i < v.pages.len(),
        0 <= j < v.pages.len(),
        v.pages[i].deleted_at is None,
        v.pages[j].deleted_at is None,
        v.pages[i].wiki_id == v.pages[j].wiki_id,
        v.pages[i].slug == v.pages[j].slug,
    ensures
        i == j,
{
}

/// Every revision row's commit id is 40 lowercase hex characters, and names
/// a commit that exists in its page's wiki's store.
pub proof fn lemma_revision_commit_well_formed(v: ServiceV, i: int)
    requires
        v.wf(),
        0 <= i < v.revisions.len(),
    ensures
        is_git_hash(v.revisions[i].git_commit),
        v.revisions[i].git_commit.len() == 40,
        rev_commit_ok(v.pages, v.revisions, v.stores, i),
{
}

/// A tag-change row exists exactly for `Tags` revisions: revision `i` has
/// change type `Tags` if and only if some tag-change row names it.
pub proof fn lemma_tag_history_iff(v: ServiceV, i: int)
    requires
        v.wf(),
        0 <= i < v.revisions.len(),
    ensures
        (v.revisions[i].change_type == ChangeType::Tags) <==> (exists|t: int|
            0 <= t < v.tag_history.len() && (#[trigger] v.tag_history[t]).revision_id == i + 1),
{
    if exists|t: int|
        0 <= t < v.tag_history.len() && (#[trigger] v.tag_history[t]).revision_id == i + 1 {
        let t = choose|t: int|
            0 <= t < v.tag_history.len() && (#[trigger] v.tag_history[t]).revision_id == i + 1;
        assert(v.revisions[v.tag_history[t].revision_id - 1].change_type == ChangeType::Tags);
    }
}

/// Every page row's tags are strictly sorted ascending, after any sequence
/// of operations.
pub proof fn lemma_page_tags_sorted(v: ServiceV, i: int)
    requires
        v.wf(),
        0 <= i < v.pages.len(),
    ensures
        sorted_strict(v.pages[i].tags),
{
}

/// Every tag-change row's added and removed lists are strictly sorted and
/// disjoint.
pub proof fn lemma_tag_change_sorted_disjoint(v: ServiceV, t: int)
    requires
        v.wf(),
        0 <= t < v.tag_history.len(),
    ensures
        sorted_strict(v.tag_history[t].added_tags),
        sorted_strict(v.tag_history[t].removed_tags),
        disjoint_tags(v.tag_history[t].added_tags, v.tag_history[t].removed_tags),
{
}

/// What a commit id denoted, it keeps denoting: one further commit never
/// changes the blob any existing commit id resolves to, under any slug.
pub proof fn lemma_version_stable(
    st: StoreV,
    username: Seq<char>,
    message: Seq<char>,
    tree: Seq<(Seq<char>, Seq<u8>)>,
    h: Seq<char>,
    slug: Seq<char>,
)
    requires
        find_idx(st.commits, h) is Some,
    ensures
        st.with_commit(username, message, tree).page_at(h, slug) == st.page_at(h, slug),
{
    let st2 = st.with_commit(username, message, tree);
    assert forall|i: int| 0 <= i < st.commits.len()
        implies #[trigger] st2.commits[i] == st.commits[i] by {}
    st.lemma_page_at_stable(st2, h, slug);
}

/// The content supplied when a page is created is exactly what the new
/// revision's commit id resolves to, at that page's slug.
pub proof fn lemma_created_content(
    v: ServiceV,
    wiki_id: u64,
    slug: Seq<char>,
    message: Seq<char>,
    user_id: u64,
    username: Seq<char>,
    content: Seq<u8>,
    title: Seq<char>,
    alt_title: Option<Seq<char>>,
)
    requires
        v.wf(),
        v.can_mutate(),
        store_idx(v.stores, wiki_id) is Some,
    ensures
        ({
            let v2 = v.spec_create(
                wiki_id,
                slug,
                message,
                user_id,
                username,
                content,
                title,
                alt_title,
            );
            let k = store_idx(v.stores, wiki_id)->Some_0;
            v2.stores[k].store.page_at(v2.revisions.last().git_commit, slug) == Some(content)
        }),
{
    let k = store_idx(v.stores, wiki_id)->Some_0;
    lemma_first_where_bounds(v.stores, |e: StoreEntryV| e.wiki_id == wiki_id);
    let st = v.stores[k].store;
    let v2 = v.spec_create(wiki_id, slug, message, user_id, username, content, title, alt_title);
    let st2 = v2.stores[k].store;
    let c = st.commits.len() as int;
    lemma_head_tree_wf(st);
    lemma_tree_set(st.head_tree(), slug, content);
    lemma_with_commit_wf(
        st,
        username,
        crate::page::commit_msg(user_id, ChangeType::Create, (v.pages.len() + 1) as u64, wiki_id),
        tree_set(st.head_tree(), slug, content),
    );
    st2.lemma_find_own_hash(c);
    assert(st2.commits[c].tree == tree_set(st.head_tree(), slug, content));
    assert(tree_get(tree_set(st.head_tree(), slug, content), slug) == Some(content));
}

/// The content supplied when a page is modified is exactly what the new
/// revision's commit id resolves to, at that page's slug.
pub proof fn lemma_modified_content(
    v: ServiceV,
    pi: int,
    message: Seq<char>,
    user_id: u64,
    username: Seq<char>,
    content: Seq<u8>,
    title: Option<Seq<char>>,
    alt_title: Option<Option<Seq<char>>>,
)
    requires
        v.wf(),
        v.can_mutate(),
        0 <= pi < v.pages.len(),
    ensures
        ({
            let v2 = v.spec_commit_op(
                pi,
                message,
                user_id,
                username,
                Some(content),
                title,
                alt_title,
            );
            let k = store_idx(v.stores, v.pages[pi].wiki_id)->Some_0;
            v2.stores[k].store.page_at(v2.revisions.last().git_commit, v.pages[pi].slug) == Some(
                content,
            )
        }),
{
    let w = v.pages[pi].wiki_id;
    assert(store_idx(v.stores, w) is Some);
    let k = store_idx(v.stores, w)->Some_0;
    lemma_first_where_bounds(v.stores, |e: StoreEntryV| e.wiki_id == w);
    let st = v.stores[k].store;
    let slug = v.pages[pi].slug;
    let v2 = v.spec_commit_op(pi, message, user_id, username, Some(content), title, alt_title);
    let st2 = v2.stores[k].store;
    let c = st.commits.len() as int;
    lemma_head_tree_wf(st);
    lemma_tree_set(st.head_tree(), slug, content);
    lemma_with_commit_wf(
        st,
        username,
        crate::page::commit_msg(user_id, ChangeType::Modify, v.pages[pi].page_id, w),
        tree_set(st.head_tree(), slug, content),
    );
    st2.lemma_find_own_hash(c);
    assert(st2.commits[c].tree == tree_set(st.head_tree(), slug, content));
    assert(tree_get(tree_set(st.head_tree(), slug, content), slug) == Some(content));
}

/// A store stays well formed after one commit with a well-formed tree.
pub proof fn lemma_with_commit_wf(
    st: StoreV,
    username: Seq<char>,
    message: Seq<char>,
    tree: Seq<(Seq<char>, Seq<u8>)>,
)
    requires
        st.wf(),
        st.can_commit(),
        tree_wf(tree),
    ensures
        st.with_commit(username, message, tree).wf(),
{
    let st2 = st.with_commit(username, message, tree);
    crate::githash::lemma_hash_chars_wf(st.commits.len() as nat);
    assert forall|i: int| 0 <= i < st2.commits.len()
        implies (#[trigger] st2.commits[i]).hash == hash_chars(i as nat) by {
        if i < st.commits.len() {
            assert(st2.commits[i] == st.commits[i]);
        }
    }
    assert forall|i: int| 0 <= i < st2.commits.len()
        implies tree_wf((#[trigger] st2.commits[i]).tree) by {
        if i < st.commits.len() {
            assert(st2.commits[i] == st.commits[i]);
        }
    }
}

/// The head tree of a well-formed store is well formed.
pub proof fn lemma_head_tree_wf(st: StoreV)
    requires
        st.wf(),
    ensures
        tree_wf(st.head_tree()),
{
    if st.commits.len() > 0 {
        assert(st.commits[st.commits.len() - 1] == st.commits.last());
        assert(tree_wf(st.commits[st.commits.len() - 1].tree));
    }
}

/// The round trip: creating a page with some content, removing it, and
/// restoring it under the same slug makes the page live again with exactly
/// that content. The remove addresses the created page, the restore
/// addresses the removed page and reads back the `Create` revision's
/// commit, and the restored page's current content is the created content.
pub proof fn lemma_create_remove_restore_roundtrip(
    v: ServiceV,
    wiki_id: u64,
    slug: Seq<char>,
    content: Seq<u8>,
    title: Seq<char>,
    alt_title: Option<Seq<char>>,
    m1: Seq<char>,
    u1: u64,
    n1: Seq<char>,
    m2: Seq<char>,
    u2: u64,
    n2: Seq<char>,
    m3: Seq<char>,
    u3: u64,
    n3: Seq<char>,
)
    requires
        v.wf(),
        v.can_mutate(),
        store_idx(v.stores, wiki_id) is Some,
        v.live_idx(wiki_id, slug) is None,
        v.stores[store_idx(v.stores, wiki_id)->Some_0].store.commits.len() + 2
            <= 0x1_0000_0000_0000_0000,
    ensures
        ({
            let pi = v.pages.len() as int;
            let k = store_idx(v.stores, wiki_id)->Some_0;
            let v1 = v.spec_create(wiki_id, slug, m1, u1, n1, content, title, alt_title);
            let v2 = v1.spec_remove(pi, m2, u2, n2);
            let v3 = v2.spec_restore(pi, slug, m3, u3, n3);
            &&& v1.live_idx(wiki_id, slug) == Some(pi)
            &&& v2.last_deleted_idx(wiki_id, slug) == Some(pi)
            &&& v2.last_nondelete_rev(v2.pages[pi].page_id) == Some(v.revisions.len() as int)
            &&& v3.live_idx(wiki_id, slug) == Some(pi)
            &&& v3.stores[k].store.current_page(slug) == Some(content)
        }),
{
    let pi = v.pages.len() as int;
    let k = store_idx(v.stores, wiki_id)->Some_0;
    lemma_first_where_bounds(v.stores, |e: StoreEntryV| e.wiki_id == wiki_id);
    lemma_first_where_bounds(
        v.pages,
        |p: PageV| p.wiki_id == wiki_id && p.slug == slug && p.deleted_at is None,
    );
    let st = v.stores[k].store;
    let c = st.commits.len() as int;
    let big_p = (v.pages.len() + 1) as u64;
    let cap_r = v.revisions.len() as int;
    let v1 = v.spec_create(wiki_id, slug, m1, u1, n1, content, title, alt_title);
    let t1 = tree_set(st.head_tree(), slug, content);
    let st1 = v1.stores[k].store;
    lemma_head_tree_wf(st);
    lemma_tree_set(st.head_tree(), slug, content);
    lemma_with_commit_wf(
        st,
        n1,
        crate::page::commit_msg(u1, ChangeType::Create, big_p, wiki_id),
        t1,
    );
    // the created page is the live page for the slug
    assert(v1.pages[pi] == (PageV {
        page_id: big_p,
        wiki_id,
        slug,
        title,
        alt_title,
        tags: Seq::empty(),
        created_at: big_p,
        deleted_at: None,
    }));
    assert forall|j: int| 0 <= j < pi
        implies !((#[trigger] v1.pages[j]).wiki_id == wiki_id && v1.pages[j].slug == slug
            && v1.pages[j].deleted_at is None) by {
        assert(v1.pages[j] == v.pages[j]);
    }
    lemma_first_where_holds(
        v1.pages,
        |p: PageV| p.wiki_id == wiki_id && p.slug == slug && p.deleted_at is None,
        pi,
    );
    assert(v1.live_idx(wiki_id, slug) == Some(pi));
    // the store lookup still lands on k after the create commit
    assert forall|j: int| 0 <= j < v.stores.len()
        implies ((#[trigger] v.stores[j]).wiki_id == wiki_id) == ((
        #[trigger] v1.stores[j]).wiki_id == wiki_id) by {
        if j != k {
            assert(v1.stores[j] == v.stores[j]);
        }
    }
    lemma_first_where_pointwise(v1.stores, v.stores, |e: StoreEntryV| e.wiki_id == wiki_id);
    assert(store_idx(v1.stores, wiki_id) == Some(k));
    // remove
    let v2 = v1.spec_remove(pi, m2, u2, n2);
    let rid2 = (v1.revisions.len() + 1) as u64;
    let st2 = v2.stores[k].store;
    assert(st1.head_tree() == t1);
    lemma_tree_remove(t1, slug);
    lemma_with_commit_wf(
        st1,
        n2,
        crate::page::commit_msg(u2, ChangeType::Delete, big_p, wiki_id),
        tree_remove(t1, slug),
    );
    // the removed page is the newest deleted page for the slug
    assert(v2.pages[pi] == (PageV { deleted_at: Some(rid2), ..v1.pages[pi] }));
    assert(v2.pages.len() == pi + 1);
    lemma_last_where_holds(
        v2.pages,
        |p: PageV| p.wiki_id == wiki_id && p.slug == slug && p.deleted_at is Some,
        pi,
    );
    assert(v2.last_deleted_idx(wiki_id, slug) == Some(pi));
    // the newest non-delete revision of the page is the create revision
    assert(v2.revisions.len() == cap_r + 2);
    assert(v2.revisions[cap_r] == v1.revisions[cap_r]);
    assert(v1.revisions[cap_r] == v1.revisions.last());
    assert(v2.revisions[cap_r].page_id == big_p);
    assert(v2.revisions[cap_r].change_type == ChangeType::Create);
    assert(v2.revisions[cap_r + 1].change_type == ChangeType::Delete);
    assert(v2.pages[pi].page_id == big_p);
    assert forall|j: int| cap_r < j < v2.revisions.len()
        implies !((#[trigger] v2.revisions[j]).page_id == big_p && v2.revisions[j].change_type
            != ChangeType::Delete) by {}
    lemma_last_where_holds(
        v2.revisions,
        |r: RevisionV| r.page_id == big_p && r.change_type != ChangeType::Delete,
        cap_r,
    );
    assert(v2.last_nondelete_rev(big_p) == Some(cap_r));
    // the create revision's commit still resolves to the created content
    let at = v2.revisions[cap_r].git_commit;
    assert(at == hash_chars(c as nat));
    st2.lemma_find_own_hash(c);
    assert(st2.commits[c] == st1.commits[c]);
    assert(st1.commits[c].tree == t1);
    assert(st2.page_at(at, slug) == tree_get(t1, slug));
    assert(tree_get(t1, slug) == Some(content));
    // restore
    assert forall|j: int| 0 <= j < v1.stores.len()
        implies ((#[trigger] v1.stores[j]).wiki_id == wiki_id) == ((
        #[trigger] v2.stores[j]).wiki_id == wiki_id) by {
        if j != k {
            assert(v2.stores[j] == v1.stores[j]);
        }
    }
    lemma_first_where_pointwise(v2.stores, v1.stores, |e: StoreEntryV| e.wiki_id == wiki_id);
    assert(store_idx(v2.stores, wiki_id) == Some(k));
    assert(v2.pages[pi].wiki_id == wiki_id);
    assert(v2.pages[pi].slug == slug);
    let v3 = v2.spec_restore(pi, slug, m3, u3, n3);
    let st3 = v3.stores[k].store;
    assert(st3 == st2.with_commit(
        n3,
        crate::page::commit_msg(u3, ChangeType::Restore, big_p, wiki_id),
        tree_set(st2.head_tree(), slug, content),
    ));
    // the restored page is live under the slug
    assert(v3.pages[pi] == (PageV { slug, deleted_at: None, ..v2.pages[pi] }));
    assert forall|j: int| 0 <= j < pi
        implies !((#[trigger] v3.pages[j]).wiki_id == wiki_id && v3.pages[j].slug == slug
            && v3.pages[j].deleted_at is None) by {
        assert(v3.pages[j] == v2.pages[j]);
        assert(v2.pages[j] == v1.pages[j]);
        assert(v1.pages[j] == v.pages[j]);
    }
    lemma_first_where_holds(
        v3.pages,
        |p: PageV| p.wiki_id == wiki_id && p.slug == slug && p.deleted_at is None,
        pi,
    );
    assert(v3.live_idx(wiki_id, slug) == Some(pi));
    // and its current content is the created content
    lemma_head_tree_wf(st2);
    lemma_tree_set(st2.head_tree(), slug, content);
    assert(st3.head_tree() == tree_set(st2.head_tree(), slug, content));
    assert(st3.current_page(slug) == Some(content));
}

} // verus!
