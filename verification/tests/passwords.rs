//! The password policy, the blacklist parser, and the check path.

use deepwell::password::build_blacklist;
use deepwell::{Error, Password, PasswordManager};

fn blacklist() -> Vec<String> {
    build_blacklist("password\n  letmein  \n\n123456\n")
}

#[test]
fn policy_rejections() {
    let manager = PasswordManager::new(blacklist());

    let err = manager.verify_password("short").expect_err("Accepted a short password");
    assert_eq!(
        err,
        Error::NewPasswordInvalid("password must be at least 8 characters".to_string()),
    );

    let long = "a".repeat(10000);
    let err = manager.verify_password(&long).expect_err("Accepted an overlong password");
    assert_eq!(err, Error::NewPasswordInvalid("password too long".to_string()));

    let err = manager.verify_password("password").expect_err("Accepted a blacklisted password");
    assert_eq!(err, Error::NewPasswordInvalid("password is too common".to_string()));

    manager.verify_password("blackmoonhowls").expect("Rejected a fine password");
}

#[test]
fn blacklist_parsing() {
    let list = build_blacklist(" alpha \nbeta\n\n\n  \ngamma");
    let entries: Vec<&str> = list.iter().map(|s| s.as_str()).collect();
    assert_eq!(entries, ["alpha", "beta", "gamma"]);
    // Whitespace-only text yields nothing.
    assert!(build_blacklist("  \n \n").is_empty());
    // Trimmed entries match exactly.
    let manager = PasswordManager::new(blacklist());
    let err = manager.verify_password("letmein1").err();
    assert!(err.is_none() || err != Some(Error::NewPasswordInvalid("password is too common".to_string())));
}

#[test]
fn set_and_check() {
    let mut manager = PasswordManager::new(blacklist());
    let err = manager.set(7, "password").expect_err("Set a blacklisted password");
    assert_eq!(err, Error::NewPasswordInvalid("password is too common".to_string()));

    manager.set(7, "blackmoonhowls").expect("Unable to set password");
    manager.check(7, "blackmoonhowls").expect("Rejected the right password");
    let err = manager.check(7, "wrong-password").expect_err("Accepted a wrong password");
    assert_eq!(err, Error::AuthenticationFailed);
    let err = manager.check(8, "blackmoonhowls").expect_err("Accepted an absent record");
    assert_eq!(err, Error::AuthenticationFailed);
}

#[test]
fn stored_record_shape() {
    let rec = Password::new(3, vec![1, 2, 3], vec![4, 5], 15, 8, 1);
    assert_eq!(rec.hash(), &vec![1, 2, 3]);
    assert_eq!(rec.salt(), &vec![4, 5]);
    assert_eq!(rec.logn(), 15);
    assert_eq!(rec.param_r(), 8);
    assert_eq!(rec.param_p(), 1);
}
