use openab_pty::config::{validate_projection, KillDomainRequirement, PtyConfig};
use openab_pty::clock::SECOND;
use openab_pty::Error;

const HASH: &str = "sha256:0123456789abcdef0123456789abcdef0123456789abcdef0123456789abcdef";

fn valid() -> String {
    format!(
        r#"[pty]
enabled = true
listen = "0.0.0.0:8090"
tls_terminated_upstream = true
command = "/bin/bash"
max_sessions = 4
absolute_session_ttl = "12h"
scrollback_kib = 1024
scrollback_replay = false
admin_credential_hash = "{HASH}"
"#
    )
}

fn validate(text: &str) -> Result<PtyConfig, Error> {
    validate_projection(text, &Vec::new())
}

#[test]
fn accepts_materialized_projection_and_applies_admission_formula() {
    let config = validate(&valid()).unwrap();
    assert_eq!(config.required_memory_kib().unwrap(), 24 * 1024);
    assert_eq!(
        config.kill_domain_requirement,
        KillDomainRequirement::Tier1Allowed
    );
}

#[test]
fn rejects_secret_table_cloud_references_and_broker_sections() {
    for poisoned in [
        format!("[secrets.refs]\nx = \"aws-sm://x\"\n{}", valid()),
        valid().replace("/bin/bash", "aws-sm://openab/pty#command"),
        format!("[discord]\nbot_token = \"x\"\n{}", valid()),
    ] {
        assert!(validate(&poisoned).is_err(), "must fail closed: {poisoned}");
    }
}

#[test]
fn rejects_both_verifier_poisoning_cases() {
    let interpolation = valid().replace(HASH, "${secrets.pty_admin_hash}");
    assert!(
        validate(&interpolation).is_err(),
        "secrets interpolation must fail"
    );
    let env_interpolation = valid().replace(HASH, "${PTY_ADMIN_HASH}");
    assert!(
        validate(&env_interpolation).is_err(),
        "verifier env interpolation must fail"
    );
    let malformed = valid().replace(HASH, "sha256:not-a-verifier");
    assert!(validate(&malformed).is_err(), "malformed verifier must fail");
    let empty = valid().replace(HASH, "");
    assert!(validate(&empty).is_err(), "empty verifier must fail");
}

#[test]
fn rejects_oversubscribed_memory_and_disk() {
    let memory = format!("{}container_memory_request_kib = 1\n", valid());
    assert!(validate(&memory).is_err());
    let disk = format!("{}volume_capacity_kib = 1\n", valid());
    assert!(validate(&disk).is_err());
}

#[test]
fn accepts_explicit_tier_two_requirement() {
    let config = validate(&format!("{}kill_domain_tier = \"tier2-required\"\n", valid())).unwrap();
    assert_eq!(
        config.kill_domain_requirement,
        KillDomainRequirement::Tier2Required
    );
}

#[test]
fn a_requirement_reads_back_from_its_setting() {
    for requirement in [
        KillDomainRequirement::Tier1Allowed,
        KillDomainRequirement::Tier2Required,
    ] {
        let setting = format!(
            "{}kill_domain_tier = \"{}\"\n",
            valid(),
            requirement.as_config_value()
        );
        assert_eq!(
            validate(&setting).unwrap().kill_domain_requirement,
            requirement
        );
    }
}

#[test]
fn a_projection_keeps_what_it_says() {
    let config = validate(&valid()).unwrap();
    assert!(config.enabled);
    assert_eq!(config.listen, "0.0.0.0:8090");
    assert_eq!(config.command, "/bin/bash");
    assert_eq!(config.max_sessions, 4);
    assert_eq!(config.absolute_session_ttl, 12 * 60 * 60 * SECOND);
    assert_eq!(config.scrollback_kib, 1024);
    assert!(!config.scrollback_replay);
    assert_eq!(config.admin_credential_hash, HASH);
}

#[test]
fn a_variable_is_read_from_the_environment_but_never_for_the_verifier() {
    let text = valid().replace("/bin/bash", "${SHELL_PATH}");
    let env = vec![("SHELL_PATH".to_string(), "/bin/zsh".to_string())];
    assert_eq!(validate_projection(&text, &env).unwrap().command, "/bin/zsh");
    assert!(validate(&text).is_err(), "an unset variable must fail closed");
    let env = vec![("PTY_ADMIN_HASH".to_string(), HASH.to_string())];
    let poisoned = valid().replace(HASH, "${PTY_ADMIN_HASH}");
    assert!(validate_projection(&poisoned, &env).is_err());
}

#[test]
fn unknown_keys_and_bad_toml_are_refused() {
    assert!(validate(&format!("{}surprise = 1\n", valid())).is_err());
    let error = validate("not = [valid").unwrap_err().to_string();
    assert!(
        error.starts_with("config error: invalid TOML projection: "),
        "{error}"
    );
    assert_ne!(
        error,
        validate("not valid").unwrap_err().to_string(),
        "the parser's own complaint is passed on"
    );
    assert!(validate("").is_err());
}

#[test]
fn durations_are_read_with_their_units() {
    for (written, seconds) in [("90s", 90), ("15m", 15 * 60), ("2h", 2 * 60 * 60)] {
        let text = valid().replace("\"12h\"", &format!("\"{written}\""));
        assert_eq!(
            validate(&text).unwrap().absolute_session_ttl,
            seconds * SECOND,
            "{written}"
        );
    }
    for bad in ["0s", "h", "12", "-1h", "1.5h", "1y", "99999999999999999999h"] {
        let text = valid().replace("\"12h\"", &format!("\"{bad}\""));
        assert!(validate(&text).is_err(), "{bad}");
    }
}

#[test]
fn the_admission_formula_counts_every_buffer() {
    let text = format!(
        "{}replay_queue_kib = 3\noutbound_backlog_kib = 5\nfixed_session_overhead_kib = 7\nruntime_baseline_kib = 11\n",
        valid()
    );
    let config = validate(&text).unwrap();
    assert_eq!(config.per_session_memory_kib().unwrap(), 1024 + 3 + 5 + 7);
    assert_eq!(
        config.required_memory_kib().unwrap(),
        11 + 4 * (1024 + 3 + 5 + 7)
    );
}

fn projection(command: &str, verifier: &str, max_sessions: usize) -> String {
    format!(
        r#"[pty]
enabled = true
listen = "127.0.0.1:0"
tls_terminated_upstream = true
command = "{command}"
max_sessions = {max_sessions}
absolute_session_ttl = "12h"
scrollback_kib = 1024
scrollback_replay = false
admin_credential_hash = "{verifier}"
"#
    )
}

#[test]
fn validate_projection_accepts_a_delivered_projection() {
    assert!(validate(&projection("/bin/sh", HASH, 4)).is_ok());
}

#[test]
fn validate_projection_rejects_a_poisoned_projection() {
    let base = projection("/bin/sh", HASH, 4);
    let cases = [
        (
            "secrets-interpolation",
            base.replace(HASH, "${secrets.pty_admin_hash}"),
        ),
        (
            "malformed-hash",
            base.replace(HASH, "sha256:not-a-verifier"),
        ),
        (
            "secrets-table",
            format!("[secrets.refs]\nx = \"y\"\n{base}"),
        ),
        (
            "broker-section",
            format!("[discord]\nbot_token = \"x\"\n{base}"),
        ),
        (
            "cloud-reference",
            base.replace("/bin/sh", "aws-sm://openab/pty#command"),
        ),
        ("empty-hash", base.replace(HASH, "")),
    ];
    for (name, contents) in cases {
        assert!(validate(&contents).is_err(), "{name} must be rejected");
    }
}
