//! Slug normalization, rendering, ordering, and tag differences.

use deepwell::slug::{check_normal, is_normal, normalize};
use deepwell::tags::{contains_str, sort_unique, tag_diff};
use deepwell::text::{str_lt, u64_to_string};
use deepwell::{Error, GitHash};

#[test]
fn slug_normal_form() {
    assert!(is_normal("scp-xxxx"));
    assert!(is_normal("component:theme"));
    assert!(!is_normal(""));
    assert!(!is_normal("-leading"));
    assert!(!is_normal("trailing-"));
    assert!(!is_normal("Upper"));
    assert!(!is_normal("with space"));
    // Normal form is a fixed point of normalization: runs are collapsed,
    // so consecutive dashes are not normal.
    assert!(!is_normal("a--b"));
    assert_eq!(normalize("a--b"), "a-b");
    assert!(check_normal("scp-xxxx").is_ok());
    assert_eq!(check_normal("With Space").unwrap_err(), Error::SlugNotNormal);
}

#[test]
fn slug_normalization() {
    assert_eq!(normalize("Test Wiki!"), "test-wiki");
    assert_eq!(normalize("scp-xxxx"), "scp-xxxx");
    assert_eq!(normalize("SCP  XXXX"), "scp-xxxx");
    assert_eq!(normalize("--dashes--"), "dashes");
    assert_eq!(normalize("Category: Page"), "category:-page");
    assert_eq!(normalize("!!!"), "");
    // Normalizing an already-normal slug changes nothing.
    assert_eq!(normalize("component:theme"), "component:theme");
}

#[test]
fn rendering_and_ordering() {
    assert_eq!(u64_to_string(0), "0");
    assert_eq!(u64_to_string(90217), "90217");
    let h = GitHash::of_index(255);
    assert_eq!(h.as_str(), "00000000000000000000000000000000000000ff");
    let h0 = GitHash::of_index(0);
    assert_eq!(h0.as_str().len(), 40);
    assert!(h0.as_str().chars().all(|c| c == '0'));

    assert!(str_lt("_cc", "artifact"));
    assert!(str_lt("artifact", "keter"));
    assert!(!str_lt("keter", "keter"));
    assert!(!str_lt("scp", "keter"));
}

#[test]
fn tag_sets() {
    let unsorted = vec![
        "keter".to_string(),
        "_cc".to_string(),
        "scp".to_string(),
        "keter".to_string(),
    ];
    let sorted = sort_unique(&unsorted);
    let view: Vec<&str> = sorted.iter().map(|s| s.as_str()).collect();
    assert_eq!(view, ["_cc", "keter", "scp"]);
    assert!(contains_str(&sorted, "keter"));
    assert!(!contains_str(&sorted, "euclid"));

    let current = vec!["_cc".to_string(), "keter".to_string(), "scp".to_string()];
    let incoming = vec!["euclid".to_string(), "keter".to_string(), "scp".to_string()];
    let (added, removed) = tag_diff(&current, &incoming);
    let added: Vec<&str> = added.iter().map(|s| s.as_str()).collect();
    let removed: Vec<&str> = removed.iter().map(|s| s.as_str()).collect();
    assert_eq!(added, ["euclid"]);
    assert_eq!(removed, ["_cc"]);
}
