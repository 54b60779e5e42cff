//! Tag accumulation across several retag operations, and the shape of the
//! recorded tag changes.

use deepwell::{PageCommit, Server};

fn commit_for(wiki_id: u64, user_id: u64, username: &str, message: &str) -> PageCommit {
    PageCommit {
        wiki_id,
        slug: "scp-xxxx".to_string(),
        message: message.to_string(),
        user_id,
        username: username.to_string(),
    }
}

#[test]
fn tags() {
    let mut server = Server::new(Vec::new());

    let user_1 = server
        .create_user("unknown", "unknown@example.com", "defaultpasswordhere2")
        .expect("Unable to create user");

    let user_2 = server
        .create_user("squirrelbird", "jenny@example.net", "blackmoonhowls")
        .expect("Unable to create user");

    let wiki_id = server
        .create_wiki("Test", "test", "example.org")
        .expect("Unable to create wiki");

    let commit = commit_for(wiki_id, user_1, "unknown", "New article!");
    let (_page_id, _revision_id) = server
        .pages
        .create(
            &commit,
            b"**Item #:** SCP-XXXX\n\n**Object Class:** Keter\n",
            "SCP-XXXX",
            Some("The Monster Behind the Door"),
        )
        .expect("Unable to create page");

    let commit = commit_for(wiki_id, user_1, "unknown", "has image");
    server
        .pages
        .tags(&commit, &vec!["_image".to_string()])
        .expect("Unable to set page tags");

    let commit = commit_for(wiki_id, user_2, "squirrelbird", "initial tagging");
    server
        .pages
        .tags(
            &commit,
            &vec![
                "scp".to_string(),
                "keter".to_string(),
                "_image".to_string(),
                "ontokinetic".to_string(),
                "artifact".to_string(),
            ],
        )
        .expect("Unable to set page tags");

    let commit = commit_for(wiki_id, user_1, "unknown", "good image");
    server
        .pages
        .tags(
            &commit,
            &vec![
                "scp".to_string(),
                "keter".to_string(),
                "artifact".to_string(),
                "ontokinetic".to_string(),
                "_cc".to_string(),
            ],
        )
        .expect("Unable to set page tags");

    let commit = commit_for(wiki_id, user_2, "squirrelbird", "goi tags");
    server
        .pages
        .tags(
            &commit,
            &vec![
                "scp".to_string(),
                "keter".to_string(),
                "artifact".to_string(),
                "ontokinetic".to_string(),
                "_cc".to_string(),
                "chaos-insurgency".to_string(),
                "ethics-committee".to_string(),
            ],
        )
        .expect("Unable to set page tags");

    let page = server
        .pages
        .get_page(wiki_id, "scp-xxxx")
        .expect("No page found");

    let actual_tags = page
        .tags()
        .iter()
        .map(|tag| tag.as_str())
        .collect::<Vec<&str>>();

    let expected_tags = [
        "_cc",
        "artifact",
        "chaos-insurgency",
        "ethics-committee",
        "keter",
        "ontokinetic",
        "scp",
    ];

    assert_eq!(&actual_tags, &expected_tags);
}

#[test]
fn tag_change_rows() {
    let mut server = Server::new(Vec::new());
    let user = server
        .create_user("unknown", "unknown@example.com", "defaultpasswordhere2")
        .expect("Unable to create user");
    let wiki_id = server
        .create_wiki("Test", "test", "example.org")
        .expect("Unable to create wiki");
    let commit = commit_for(wiki_id, user, "unknown", "New article!");
    server
        .pages
        .create(&commit, b"content\n", "SCP-XXXX", None)
        .expect("Unable to create page");

    let commit = commit_for(wiki_id, user, "unknown", "first tags");
    let rid1 = server
        .pages
        .tags(&commit, &vec!["b".to_string(), "a".to_string()])
        .expect("Unable to set page tags");
    let row = server
        .pages
        .tag_change_for(rid1)
        .expect("No tag change row");
    let added: Vec<&str> = row.added_tags().iter().map(|t| t.as_str()).collect();
    let removed: Vec<&str> = row.removed_tags().iter().map(|t| t.as_str()).collect();
    assert_eq!(added, ["a", "b"]);
    assert!(removed.is_empty());

    let commit = commit_for(wiki_id, user, "unknown", "swap tags");
    let rid2 = server
        .pages
        .tags(&commit, &vec!["b".to_string(), "c".to_string()])
        .expect("Unable to set page tags");
    let row = server
        .pages
        .tag_change_for(rid2)
        .expect("No tag change row");
    let added: Vec<&str> = row.added_tags().iter().map(|t| t.as_str()).collect();
    let removed: Vec<&str> = row.removed_tags().iter().map(|t| t.as_str()).collect();
    // Added and removed are sorted and disjoint.
    assert_eq!(added, ["c"]);
    assert_eq!(removed, ["a"]);

    // A non-tag revision has no tag-change row.
    let commit = commit_for(wiki_id, user, "unknown", "edit");
    let rid3 = server
        .pages
        .commit(&commit, Some(b"new content\n"), None, None)
        .expect("Unable to edit page");
    assert!(server.pages.tag_change_for(rid3).is_none());
}
