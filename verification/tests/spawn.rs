use openab_pty::killdomain::KillDomainTier;
use openab_pty::spawn::{child_env, spawn_refusal, DEFAULT_TERM, SPAWN_REFUSAL};

#[test]
fn child_env_is_an_allowlist_and_drops_every_credential_shaped_variable() {
    let source = [
        ("TERM", "screen"),
        ("PATH", "/usr/bin"),
        ("HOME", "/workspace"),
        ("USER", "pty"),
        ("SHELL", "/bin/sh"),
        ("LANG", "en_US.UTF-8"),
        ("LC_ALL", "en_US.UTF-8"),
        ("OPENAB_ACP_AUTH_KEY", "leak"),
        ("DISCORD_BOT_TOKEN", "leak"),
        ("AWS_SECRET_ACCESS_KEY", "leak"),
        ("AWS_CONTAINER_CREDENTIALS_RELATIVE_URI", "leak"),
        ("OPENAB_PTY_ADMIN", "leak"),
        ("SSH_AUTH_SOCK", "leak"),
    ]
    .map(|(k, v)| (k.to_string(), v.to_string()));

    let env = child_env(source.to_vec(), "/workspace", None);
    let keys: Vec<&str> = env.iter().map(|(key, _)| key.as_str()).collect();
    assert_eq!(
        keys,
        vec!["HOME", "LANG", "LC_ALL", "PATH", "SHELL", "TERM", "USER"]
    );
    assert!(
        !env.iter().any(|(_, value)| value == "leak"),
        "no credential-shaped variable may reach the child: {env:?}"
    );
}

#[test]
fn child_env_supplies_term_and_home_when_absent() {
    let env = child_env(
        vec![("PATH".to_string(), "/bin".to_string())],
        "/workspace",
        None,
    );
    assert!(env.contains(&("TERM".to_string(), DEFAULT_TERM.to_string())));
    assert!(env.contains(&("HOME".to_string(), "/workspace".to_string())));
}

#[test]
fn an_inherited_terminal_wins_and_the_least_of_two_settings_stays() {
    let env = child_env(
        vec![
            ("PATH".to_string(), "/second".to_string()),
            ("PATH".to_string(), "/first".to_string()),
            ("TERM".to_string(), "screen".to_string()),
        ],
        "/workspace",
        Some("vt100"),
    );
    assert_eq!(
        env,
        vec![
            ("PATH".to_string(), "/first".to_string()),
            ("TERM".to_string(), "screen".to_string()),
            ("HOME".to_string(), "/workspace".to_string()),
        ]
    );
    let env = child_env(Vec::new(), "/workspace", Some("vt100"));
    assert_eq!(env[0], ("TERM".to_string(), "vt100".to_string()));
}

#[test]
fn a_spawner_without_a_hook_refuses_tier_2_only() {
    assert!(spawn_refusal(KillDomainTier::Tier2GuaranteedCgroup));
    assert!(!spawn_refusal(KillDomainTier::Tier1BestEffortProcessGroup));
    assert!(SPAWN_REFUSAL.starts_with("tier 2 containment requires"));
}
