//! The wiki catalog and the user manager.

use deepwell::{Error, Server, UserManager, WikiService};

#[test]
fn wiki_catalog() {
    let mut wikis = WikiService::new();
    let id = wikis
        .create("Test Wiki", "Test Wiki!", "example.org")
        .expect("Unable to create wiki");
    assert_eq!(id, 1);
    let w = wikis.get_by_id(1).expect("No wiki by id");
    // The slug was normalized on creation.
    assert_eq!(w.slug(), "test-wiki");
    assert_eq!(w.domain(), "example.org");
    assert_eq!(w.name(), "Test Wiki");

    // Slug and domain collisions are rejected.
    let err = wikis
        .create("Other", "test-wiki", "other.org")
        .expect_err("Accepted a slug collision");
    assert_eq!(err, Error::WikiExists);
    let err = wikis
        .create("Other", "other", "example.org")
        .expect_err("Accepted a domain collision");
    assert_eq!(err, Error::WikiExists);
    let err = wikis
        .create("Other", "!!!", "third.org")
        .expect_err("Accepted an empty slug");
    assert_eq!(err, Error::SlugNotNormal);

    // Lookup by slug, edit of name and domain.
    let w = wikis.get_by_slug("test-wiki").expect("No wiki by slug");
    assert_eq!(w.id(), 1);
    wikis
        .edit(1, Some("Renamed"), Some("renamed.org"))
        .expect("Unable to edit wiki");
    let w = wikis.get_by_id(1).expect("No wiki by id");
    assert_eq!(w.name(), "Renamed");
    assert_eq!(w.domain(), "renamed.org");
    let err = wikis.edit(2, Some("x"), None).expect_err("Edited a missing wiki");
    assert_eq!(err, Error::WikiNotFound);
}

#[test]
fn server_wiki_verbs() {
    let mut server = Server::new(Vec::new());
    let id = server
        .create_wiki("Test", "Test", "EXAMPLE.org")
        .expect("Unable to create wiki");
    // The domain is lowercased before storage.
    let w = server.get_wiki(id).expect("No wiki");
    assert_eq!(w.domain(), "example.org");
    assert_eq!(server.get_wiki_id("Test").expect("No wiki id"), id);
    assert_eq!(server.get_wiki_id("test").expect("No wiki id"), id);
    let err = server.get_wiki_id("absent").expect_err("Found a missing wiki");
    assert_eq!(err, Error::WikiNotFound);

    server.rename_wiki(id, "Renamed").expect("Unable to rename");
    assert_eq!(server.get_wiki(id).expect("No wiki").name(), "Renamed");
    server
        .set_wiki_domain(id, "newdomain.org")
        .expect("Unable to set domain");
    assert_eq!(server.get_wiki(id).expect("No wiki").domain(), "newdomain.org");
}

#[test]
fn server_create_user_error_precedence() {
    let mut server = Server::new(deepwell::password::build_blacklist("password\n"));
    // The password policy is checked first, even when the username is also
    // bad; nothing is written either way.
    let err = server
        .create_user("x", "a@b.c", "short")
        .expect_err("Accepted a short password");
    assert_eq!(
        err,
        Error::NewPasswordInvalid("password must be at least 8 characters".to_string()),
    );
    // With a fine password, the username check reports.
    let err = server
        .create_user("x", "a@b.c", "blackmoonhowls")
        .expect_err("Accepted a short username");
    assert!(matches!(err, Error::UserInvalid(_)));
    assert!(server.users.get_by_id(1).is_none());
}

#[test]
fn server_create_wiki_collisions() {
    let mut server = Server::new(Vec::new());
    server
        .create_wiki("A", "alpha", "alpha.org")
        .expect("Unable to create wiki");
    let err = server
        .create_wiki("B", "alpha", "beta.org")
        .expect_err("Accepted a slug collision");
    assert_eq!(err, Error::WikiExists);
    // Domains collide after lowercasing.
    let err = server
        .create_wiki("B", "beta", "ALPHA.org")
        .expect_err("Accepted a domain collision");
    assert_eq!(err, Error::WikiExists);
    let err = server
        .set_wiki_domain(99, "x.org")
        .expect_err("Accepted a missing wiki");
    assert_eq!(err, Error::WikiNotFound);
}

#[test]
fn user_manager() {
    let mut users = UserManager::new();
    let id = users
        .create("squirrelbird", "  Jenny@Example.NET ")
        .expect("Unable to create user");
    assert_eq!(id, 1);
    let u = users.get_by_id(1).expect("No user by id");
    assert_eq!(u.name(), "squirrelbird");
    // The email was trimmed and lowercased.
    assert_eq!(u.email(), "jenny@example.net");
    assert!(u.is_active());
    assert!(!u.is_verified());
    assert!(!u.is_bot());

    // Username constraints.
    let err = users.create("x", "a@b.c").expect_err("Accepted a short username");
    assert!(matches!(err, Error::UserInvalid(_)));
    let err = users.create("bad name", "a@b.c").expect_err("Accepted a spaced username");
    assert!(matches!(err, Error::UserInvalid(_)));
    let err = users
        .create("squirrelbird", "other@example.net")
        .expect_err("Accepted a duplicate name");
    assert!(matches!(err, Error::UserInvalid(_)));
    let err = users
        .create("otherbird", "jenny@example.net")
        .expect_err("Accepted a duplicate email");
    assert!(matches!(err, Error::UserInvalid(_)));

    // Lookup by name, profile edits, flags, soft delete and undelete.
    let u = users.get_by_name("squirrelbird").expect("No user by name");
    assert_eq!(u.id(), 1);
    users
        .edit(1, Some("authors/jenny"), Some("https://example.net"), None, None, None)
        .expect("Unable to edit user");
    let u = users.get_by_id(1).expect("No user by id");
    assert_eq!(u.author_page(), "authors/jenny");
    assert_eq!(u.website(), "https://example.net");
    assert_eq!(u.about(), "");
    users.mark_verified(1).expect("Unable to verify");
    assert!(users.get_by_id(1).expect("No user").is_verified());
    users.soft_delete(1).expect("Unable to delete");
    let u = users.get_by_id(1).expect("No user");
    assert!(!u.is_active());
    assert!(u.deleted_at().is_some());
    users.undelete(1).expect("Unable to undelete");
    assert!(users.get_by_id(1).expect("No user").is_active());
    let err = users.soft_delete(99).expect_err("Deleted a missing user");
    assert_eq!(err, Error::UserNotFound);
}
