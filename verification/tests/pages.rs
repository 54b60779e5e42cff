//! Page lifecycle scenarios: create, modify, diff, delete, restore, rename,
//! and historical reads.

use deepwell::{Error, PageCommit, RevisionRef, Server};

fn commit_for(wiki_id: u64, slug: &str, message: &str) -> PageCommit {
    PageCommit {
        wiki_id,
        slug: slug.to_string(),
        message: message.to_string(),
        user_id: 1,
        username: "unknown".to_string(),
    }
}

fn server_with_wiki() -> (Server, u64) {
    let mut server = Server::new(Vec::new());
    server
        .create_user("unknown", "unknown@example.com", "defaultpasswordhere2")
        .expect("Unable to create user");
    let wiki_id = server
        .create_wiki("Test", "test", "example.org")
        .expect("Unable to create wiki");
    (server, wiki_id)
}

#[test]
fn create_modify_diff() {
    let (mut server, wiki_id) = server_with_wiki();
    let commit = commit_for(wiki_id, "tale-1", "new page");
    let (_pid, rev1) = server
        .pages
        .create(&commit, b"hello\n", "Tale", None)
        .expect("Unable to create page");

    let commit = commit_for(wiki_id, "tale-1", "expand");
    let rev2 = server
        .pages
        .commit(&commit, Some(b"hello world\n"), None, None)
        .expect("Unable to edit page");

    let diff = server
        .pages
        .get_diff(
            wiki_id,
            "tale-1",
            &RevisionRef::Id(rev1),
            &RevisionRef::Id(rev2),
        )
        .expect("Unable to diff");
    let text = String::from_utf8(diff).expect("Diff not UTF-8");
    assert!(text.contains("hello\n"));
    assert!(text.contains("hello world\n"));
    // One removed line and one added line: a single changed line.
    assert_eq!(text.matches('-').count(), 1);
    assert_eq!(text.matches('+').count(), 1);
    assert_eq!(text, "-hello\n+hello world\n");
}

#[test]
fn version_reads_are_byte_identical() {
    let (mut server, wiki_id) = server_with_wiki();
    let commit = commit_for(wiki_id, "tale-1", "new page");
    let (_pid, rev1) = server
        .pages
        .create(&commit, b"first body\n", "Tale", None)
        .expect("Unable to create page");
    let commit = commit_for(wiki_id, "tale-1", "rewrite");
    let rev2 = server
        .pages
        .commit(&commit, Some(b"second body\n"), None, None)
        .expect("Unable to edit page");

    // Each revision's commit id resolves to the content supplied then.
    let v1 = server
        .pages
        .get_page_version(wiki_id, "tale-1", &RevisionRef::Id(rev1))
        .expect("Unable to read version")
        .expect("Version absent");
    assert_eq!(v1, b"first body\n");
    let v2 = server
        .pages
        .get_page_version(wiki_id, "tale-1", &RevisionRef::Id(rev2))
        .expect("Unable to read version")
        .expect("Version absent");
    assert_eq!(v2, b"second body\n");

    // The same reads work through the raw commit id.
    let rev = server.pages.get_revision(rev1).expect("No revision row");
    let h = rev.git_commit().duplicate();
    let v1_again = server
        .pages
        .get_page_version(wiki_id, "tale-1", &RevisionRef::Hash(h))
        .expect("Unable to read version")
        .expect("Version absent");
    assert_eq!(v1_again, b"first body\n");
}

#[test]
fn revision_commit_ids_are_lowercase_hex() {
    let (mut server, wiki_id) = server_with_wiki();
    let commit = commit_for(wiki_id, "tale-1", "new page");
    let (_pid, rev1) = server
        .pages
        .create(&commit, b"body\n", "Tale", None)
        .expect("Unable to create page");
    let rev = server.pages.get_revision(rev1).expect("No revision row");
    let hash = rev.git_commit().as_str();
    assert_eq!(hash.len(), 40);
    for c in hash.chars() {
        assert!(c.is_ascii_hexdigit());
        assert!(!c.is_ascii_uppercase());
    }
}

#[test]
fn delete_and_restore() {
    let (mut server, wiki_id) = server_with_wiki();
    let content: &[u8] = b"precious content\n";
    let commit = commit_for(wiki_id, "keep-me", "new page");
    server
        .pages
        .create(&commit, content, "Keeper", None)
        .expect("Unable to create page");

    let commit = commit_for(wiki_id, "keep-me", "away with it");
    server.pages.remove(&commit).expect("Unable to remove page");

    // A second remove finds nothing.
    let commit = commit_for(wiki_id, "keep-me", "again");
    let err = server
        .pages
        .remove(&commit)
        .expect_err("Removed a deleted page");
    assert_eq!(err, Error::PageNotFound);

    // Restore brings the content back.
    let commit = commit_for(wiki_id, "keep-me", "bring it back");
    server
        .pages
        .restore(&commit, None)
        .expect("Unable to restore page");
    let back = server
        .pages
        .get_page_contents(wiki_id, "keep-me")
        .expect("Unable to read contents")
        .expect("No contents after restore");
    assert_eq!(back, content);
    let page = server
        .pages
        .get_page(wiki_id, "keep-me")
        .expect("Page not live after restore");
    assert!(page.is_live());

    // Restoring a live page fails.
    let commit = commit_for(wiki_id, "keep-me", "once more");
    let err = server
        .pages
        .restore(&commit, None)
        .expect_err("Restored a live page");
    assert_eq!(err, Error::PageExists);
}

#[test]
fn rename_uniqueness() {
    let (mut server, wiki_id) = server_with_wiki();
    let commit = commit_for(wiki_id, "a", "new page");
    server
        .pages
        .create(&commit, b"a content\n", "A", None)
        .expect("Unable to create page");
    let commit = commit_for(wiki_id, "b", "new page");
    server
        .pages
        .create(&commit, b"b content\n", "B", None)
        .expect("Unable to create page");

    let err = server
        .pages
        .rename(wiki_id, "a", "b", "collide", 1, "unknown")
        .expect_err("Renamed over an existing page");
    assert_eq!(err, Error::PageExists);

    server
        .pages
        .rename(wiki_id, "a", "c", "move", 1, "unknown")
        .expect("Unable to rename page");
    assert!(server.pages.get_page(wiki_id, "a").is_none());
    let page = server.pages.get_page(wiki_id, "c").expect("No page at c");
    assert_eq!(page.slug(), "c");
    let moved = server
        .pages
        .get_page_contents(wiki_id, "c")
        .expect("Unable to read contents")
        .expect("No contents after rename");
    assert_eq!(moved, b"a content\n");
}

#[test]
fn create_rejects_duplicates_and_bad_slugs() {
    let (mut server, wiki_id) = server_with_wiki();
    let commit = commit_for(wiki_id, "dup", "new page");
    server
        .pages
        .create(&commit, b"x\n", "Dup", None)
        .expect("Unable to create page");
    let err = server
        .pages
        .create(&commit, b"y\n", "Dup", None)
        .expect_err("Created a duplicate page");
    assert_eq!(err, Error::PageExists);

    let commit = commit_for(wiki_id, "Not Normal!", "bad slug");
    let err = server
        .pages
        .create(&commit, b"z\n", "Bad", None)
        .expect_err("Accepted a non-normal slug");
    assert_eq!(err, Error::SlugNotNormal);

    let commit = commit_for(777, "fresh", "no wiki");
    let err = server
        .pages
        .create(&commit, b"z\n", "Lost", None)
        .expect_err("Accepted an unknown wiki");
    assert_eq!(err, Error::WikiNotFound);
}

#[test]
fn same_slug_on_two_wikis() {
    let mut server = Server::new(Vec::new());
    server
        .create_user("unknown", "unknown@example.com", "defaultpasswordhere2")
        .expect("Unable to create user");
    let wiki_a = server
        .create_wiki("A", "alpha", "alpha.example.org")
        .expect("Unable to create wiki");
    let wiki_b = server
        .create_wiki("B", "beta", "beta.example.org")
        .expect("Unable to create wiki");

    // The live-slug uniqueness constraint is per wiki: the same slug can be
    // live on two different wikis at once.
    let commit = commit_for(wiki_a, "shared", "on a");
    server
        .pages
        .create(&commit, b"alpha body\n", "On A", None)
        .expect("Unable to create page on first wiki");
    let commit = commit_for(wiki_b, "shared", "on b");
    server
        .pages
        .create(&commit, b"beta body\n", "On B", None)
        .expect("Unable to create page on second wiki");

    let a = server
        .pages
        .get_page_contents(wiki_a, "shared")
        .expect("Unable to read")
        .expect("No contents");
    let b = server
        .pages
        .get_page_contents(wiki_b, "shared")
        .expect("Unable to read")
        .expect("No contents");
    assert_eq!(a, b"alpha body\n");
    assert_eq!(b, b"beta body\n");

    // But a second live page under the same slug on the same wiki is
    // rejected.
    let commit = commit_for(wiki_a, "shared", "again");
    let err = server
        .pages
        .create(&commit, b"again\n", "Again", None)
        .expect_err("Created a duplicate live slug");
    assert_eq!(err, Error::PageExists);
}

#[test]
fn metadata_edits_and_revision_messages() {
    let (mut server, wiki_id) = server_with_wiki();
    let commit = commit_for(wiki_id, "meta", "new page");
    let (pid, _rev1) = server
        .pages
        .create(&commit, b"m\n", "Old Title", Some("Alt"))
        .expect("Unable to create page");

    let commit = commit_for(wiki_id, "meta", "retitle");
    let rev2 = server
        .pages
        .commit(&commit, None, Some("New Title"), Some(None))
        .expect("Unable to edit metadata");
    let page = server.pages.get_page_by_id(pid).expect("No page by id");
    assert_eq!(page.title(), "New Title");
    assert!(page.alt_title().is_none());

    server
        .pages
        .edit_revision(rev2, "better message")
        .expect("Unable to edit revision");
    let rev = server.pages.get_revision(rev2).expect("No revision row");
    assert_eq!(rev.message(), "better message");
    let err = server
        .pages
        .edit_revision(999, "nope")
        .expect_err("Edited a missing revision");
    assert_eq!(err, Error::RevisionNotFound);
}

#[test]
fn diff_of_identical_versions_is_empty() {
    let (mut server, wiki_id) = server_with_wiki();
    let commit = commit_for(wiki_id, "tale-1", "new page");
    let (_pid, rev1) = server
        .pages
        .create(&commit, b"same\n", "Tale", None)
        .expect("Unable to create page");
    let diff = server
        .pages
        .get_diff(
            wiki_id,
            "tale-1",
            &RevisionRef::Id(rev1),
            &RevisionRef::Id(rev1),
        )
        .expect("Unable to diff");
    assert!(diff.is_empty());
    let err = server
        .pages
        .get_diff(
            wiki_id,
            "tale-1",
            &RevisionRef::Id(rev1),
            &RevisionRef::Id(99),
        )
        .expect_err("Diffed a missing revision");
    assert_eq!(err, Error::RevisionNotFound);
}

#[test]
fn unknown_version_reads_are_none() {
    let (mut server, wiki_id) = server_with_wiki();
    let commit = commit_for(wiki_id, "tale-1", "new page");
    server
        .pages
        .create(&commit, b"x\n", "Tale", None)
        .expect("Unable to create page");
    let bogus = deepwell::GitHash::of_index(999_999);
    let read = server
        .pages
        .get_page_version(wiki_id, "tale-1", &RevisionRef::Hash(bogus))
        .expect("Unable to read version");
    assert!(read.is_none());
}

#[test]
fn domain_change_reaches_future_author_lines() {
    let (mut server, wiki_id) = server_with_wiki();
    let commit = commit_for(wiki_id, "one", "new page");
    server
        .pages
        .create(&commit, b"line\n", "One", None)
        .expect("Unable to create page");
    server
        .set_wiki_domain(wiki_id, "changed.org")
        .expect("Unable to change domain");
    let commit = commit_for(wiki_id, "two", "new page");
    server
        .pages
        .create(&commit, b"line\n", "Two", None)
        .expect("Unable to create page");
    let blame = server
        .pages
        .get_blame(wiki_id, "two")
        .expect("Unable to get blame")
        .expect("No blame");
    assert_eq!(blame[0].author, "unknown <noreply@changed.org>");
    // The earlier page's commit keeps the author line it was made with.
    let blame = server
        .pages
        .get_blame(wiki_id, "one")
        .expect("Unable to get blame")
        .expect("No blame");
    assert_eq!(blame[0].author, "unknown <noreply@example.org>");
}

#[test]
fn error_descriptions() {
    assert_eq!(Error::PageNotFound.description(), "page not found");
    assert_eq!(Error::AuthenticationFailed.description(), "authentication failed");
    assert_eq!(
        Error::NewPasswordInvalid("password too long".to_string()).description(),
        "new password invalid",
    );
}

#[test]
fn blame_lines() {
    let (mut server, wiki_id) = server_with_wiki();
    let commit = commit_for(wiki_id, "story", "new page");
    server
        .pages
        .create(&commit, b"one\ntwo\nthree\n", "Story", None)
        .expect("Unable to create page");
    let blame = server
        .pages
        .get_blame(wiki_id, "story")
        .expect("Unable to get blame")
        .expect("No blame for live page");
    assert_eq!(blame.len(), 3);
    for (i, line) in blame.iter().enumerate() {
        assert_eq!(line.line, i);
        assert_eq!(line.author, "unknown <noreply@example.org>");
        assert_eq!(line.hash.as_str().len(), 40);
    }
    assert!(server
        .pages
        .get_blame(wiki_id, "missing")
        .expect("Unable to get blame")
        .is_none());
}
