//! The session lifecycle: token checks before and after login, session
//! inspection, and double logout.

use deepwell::{Error, IpNet, Server};

fn localhost_v6() -> IpNet {
    IpNet::V6 { hi: 0, lo: 1, prefix: 0 }
}

#[test]
fn session_manager() {
    let mut server = Server::new(Vec::new());

    // Setup
    let user_id = server
        .create_user("squirrelbird", "jenny@example.net", "blackmoonhowls")
        .expect("Unable to create user");

    // Invalid checks
    server
        .check_token(user_id, "invalidtoken")
        .expect_err("Invalid token was accepted");

    server
        .create_session(user_id, "letmein", localhost_v6())
        .expect_err("Invalid password was accepted");

    let session = server.get_session(user_id);
    assert!(session.is_none());

    // Create session
    let token = server
        .create_session(user_id, "blackmoonhowls", localhost_v6())
        .expect("Failed to create session");

    server
        .check_token(user_id, &token)
        .expect("Token wasn't valid");

    let session = server.get_session(user_id).expect("No active session");

    assert_eq!(session.user_id(), user_id);
    assert_eq!(session.token(), &token);
    assert_eq!(session.ip_address(), localhost_v6());

    // End session
    let deleted = server.end_session(user_id);
    assert_eq!(deleted, true);

    // Invalid checks
    let session = server.get_session(user_id);
    assert!(session.is_none());

    server
        .check_token(user_id, "invalidtoken")
        .expect_err("Invalid token was accepted");

    server
        .check_token(user_id, &token)
        .expect_err("Invalid token was accepted");

    let deleted = server.end_session(user_id);
    assert_eq!(deleted, false);
}

#[test]
fn token_shape() {
    let mut server = Server::new(Vec::new());
    let user_id = server
        .create_user("squirrelbird", "jenny@example.net", "blackmoonhowls")
        .expect("Unable to create user");
    let token = server
        .create_session(user_id, "blackmoonhowls", localhost_v6())
        .expect("Failed to create session");
    assert_eq!(token.chars().count(), 64);
    for c in token.chars() {
        assert!(c.is_ascii_alphanumeric() || c == '-' || c == '_');
    }
    // Re-login overwrites the session: a fresh token replaces the old one,
    // which stops validating.
    let again = server
        .create_session(user_id, "blackmoonhowls", localhost_v6())
        .expect("Failed to log in again");
    assert_ne!(again, token);
    server
        .check_token(user_id, &again)
        .expect("Fresh token wasn't valid");
    server
        .check_token(user_id, &token)
        .expect_err("Replaced token was accepted");
    let session = server.get_session(user_id).expect("No active session");
    assert_eq!(session.token(), &again);
}

#[test]
fn auth_failure_is_uniform() {
    let mut server = Server::new(Vec::new());
    let user_id = server
        .create_user("squirrelbird", "jenny@example.net", "blackmoonhowls")
        .expect("Unable to create user");
    // Unknown user and wrong password fail with the same error.
    let e1 = server
        .create_session(9999, "blackmoonhowls", localhost_v6())
        .expect_err("Unknown user was accepted");
    let e2 = server
        .create_session(user_id, "wrong-password", localhost_v6())
        .expect_err("Wrong password was accepted");
    assert_eq!(e1, Error::AuthenticationFailed);
    assert_eq!(e2, Error::AuthenticationFailed);
}
