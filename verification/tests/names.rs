use openab_pty::{close_code, Error, Generation, SessionName};

#[test]
fn session_name_accepts_allowlist() {
    for ok in ["a", "my-session", "s0", &"x".repeat(32)] {
        assert!(SessionName::parse(ok).is_ok(), "should accept {ok:?}");
    }
}

#[test]
fn session_name_rejects_everything_else() {
    for bad in [
        "",
        &"x".repeat(33),
        "Upper",
        "under_score",
        "dot.dot",
        "sp ace",
        "../escape",
        "sess/../../etc",
        "unicode\u{00e9}",
    ] {
        assert!(SessionName::parse(bad).is_err(), "should reject {bad:?}");
    }
}

#[test]
fn every_error_says_what_it_means() {
    let name = || SessionName::parse("s").unwrap();
    for (error, message) in [
        (
            SessionName::parse("BAD NAME").unwrap_err(),
            "invalid session name \"BAD NAME\": expected [a-z0-9-]{1,32}",
        ),
        (Error::NotFound(name()), "no such session: s"),
        (Error::AlreadyExists(name()), "session already exists: s"),
        (
            Error::CapacityExceeded { limit: 3 },
            "session capacity exceeded (limit 3)",
        ),
        (Error::Unauthorized, "unauthorized"),
        (
            Error::SessionDead(name()),
            "session s is dead; restart-in-place required",
        ),
        (Error::Config("x".into()), "config error: x"),
        (Error::Io(std::io::Error::other("disk")), "io error: disk"),
        (Error::Other("anything".into()), "anything"),
    ] {
        assert_eq!(error.to_string(), message);
    }
    assert_eq!(
        SessionName::parse("a\n\"").unwrap_err().to_string(),
        "invalid session name \"a\\n\\\"\": expected [a-z0-9-]{1,32}"
    );
}

#[test]
fn names_and_generations_print_as_themselves() {
    let name = SessionName::parse("my-session").unwrap();
    assert_eq!(name.as_str(), "my-session");
    assert_eq!(name.to_string(), "my-session");
    assert_eq!(name, name.clone());
    assert_eq!(Generation(18446744073709551615).to_string(), "18446744073709551615");
    assert_eq!(Generation::default(), Generation(0));
}

#[test]
fn close_codes_are_the_documented_ones() {
    assert_eq!(
        [
            close_code::TTL_EXPIRED,
            close_code::TAKEOVER,
            close_code::RENEWED,
            close_code::SESSION_ENDED,
            close_code::SLOW_CLIENT,
            close_code::RUNTIME_REPLACED,
            close_code::CAPACITY,
            close_code::ADMIN_KILL,
            close_code::INTERNAL_ERROR,
        ],
        [4001, 4002, 4003, 4004, 4005, 4006, 4007, 4008, 4009]
    );
}
