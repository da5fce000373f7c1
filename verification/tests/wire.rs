use openab_pty::bearer::{
    admin_credential, subprotocol_token, ws_bearer_token, MAX_ATTACH_TOKEN_BYTES,
};
use openab_pty::admin_auth::MAX_ADMIN_CREDENTIAL_BYTES;
use openab_pty::json::JsonValue;
use openab_pty::outbound::ControlEvent;
use openab_pty::session::WindowSize;
use openab_pty::wire::{
    control_frame, control_from, parse_client_control, pong_frame, ClientControl, FrameReject,
    CONTROL_SCHEMA_VERSION, MAX_CONTROL_FRAME_BYTES,
};
use serde_json::Value;

#[test]
fn bearer_comes_from_authorization_or_the_browser_subprotocol_only() {
    assert_eq!(
        ws_bearer_token(Some("Bearer abc123"), None).as_deref(),
        Some("abc123")
    );
    assert_eq!(
        ws_bearer_token(None, Some("openab.bearer.abc123, openab.pty.v1")).as_deref(),
        Some("abc123")
    );
    // Authorization wins when both are present, as on `/acp`.
    assert_eq!(
        ws_bearer_token(
            Some("Bearer from-header"),
            Some("openab.bearer.from-subprotocol")
        )
        .as_deref(),
        Some("from-header")
    );
    // An unrelated subprotocol offer is not a credential.
    assert_eq!(ws_bearer_token(None, Some("openab.pty.v1")), None);
    assert_eq!(ws_bearer_token(None, None), None);
}

#[test]
fn admin_credential_is_header_only_and_bounded() {
    assert!(admin_credential(Some("Bearer secret")).is_some());
    assert!(admin_credential(Some("Bearer ")).is_none());
    assert!(admin_credential(Some("Basic secret")).is_none());
    let long = format!("Bearer {}", "a".repeat(MAX_ADMIN_CREDENTIAL_BYTES + 1));
    assert!(admin_credential(Some(&long)).is_none());
    assert!(admin_credential(None).is_none());
    let credential = admin_credential(Some("Bearer secret")).unwrap();
    assert_eq!(credential.as_bytes(), b"secret");
}

#[test]
fn origin_is_never_consulted_for_authorization() {
    // The bearer sources are the only inputs there are.
    assert_eq!(
        ws_bearer_token(Some("Bearer abc"), None).as_deref(),
        Some("abc")
    );
}

#[test]
fn the_offered_token_is_what_follows_its_prefix() {
    let longest = format!("openab.bearer.{}", "a".repeat(MAX_ATTACH_TOKEN_BYTES));
    assert_eq!(
        subprotocol_token(Some(&longest)).map(|token| token.len()),
        Some(MAX_ATTACH_TOKEN_BYTES)
    );
    assert_eq!(subprotocol_token(Some("openab.bearer.")).as_deref(), Some(""));
    assert_eq!(subprotocol_token(Some("openab.bearer")), None);
    assert_eq!(subprotocol_token(Some("  openab.bearer.t ,x")).as_deref(), Some("t"));
}

#[test]
fn control_frames_are_a_strict_allowlist() {
    assert_eq!(
        parse_client_control(r#"{"v":1,"type":"resize","rows":40,"cols":120}"#),
        Ok(ClientControl::Resize(
            WindowSize::validated(40, 120).unwrap()
        ))
    );
    assert_eq!(
        parse_client_control(r#"{"v":1,"type":"ping"}"#),
        Ok(ClientControl::Ping)
    );
    assert_eq!(
        parse_client_control(r#"{"v":1,"type":"detach"}"#),
        Ok(ClientControl::Detach)
    );

    assert_eq!(
        parse_client_control(r#"{"type":"ping"}"#),
        Err(FrameReject::Version)
    );
    assert_eq!(
        parse_client_control(r#"{"v":2,"type":"ping"}"#),
        Err(FrameReject::Version)
    );
    assert_eq!(
        parse_client_control(r#"{"v":1,"type":"exec","cmd":"sh"}"#),
        Err(FrameReject::UnknownType)
    );
    assert_eq!(parse_client_control("not json"), Err(FrameReject::NotJson));
    assert_eq!(parse_client_control("[1,2,3]"), Err(FrameReject::NotJson));
    for bad in [
        r#"{"v":1,"type":"resize","rows":0,"cols":80}"#,
        r#"{"v":1,"type":"resize","rows":40,"cols":100000}"#,
        r#"{"v":1,"type":"resize","rows":-1,"cols":80}"#,
        r#"{"v":1,"type":"resize","rows":"40","cols":"80"}"#,
        r#"{"v":1,"type":"resize"}"#,
    ] {
        assert_eq!(
            parse_client_control(bad),
            Err(FrameReject::ResizeBounds),
            "must reject {bad}"
        );
    }
    let oversize = format!(
        r#"{{"v":1,"type":"ping","pad":"{}"}}"#,
        "x".repeat(MAX_CONTROL_FRAME_BYTES)
    );
    assert_eq!(parse_client_control(&oversize), Err(FrameReject::Oversize));
}

#[test]
fn a_parsed_document_decides_the_control() {
    let text = |text: &str| JsonValue::Text(text.to_string());
    let object = |fields: Vec<(&str, JsonValue)>| {
        Some(JsonValue::Object(
            fields
                .into_iter()
                .map(|(key, value)| (key.to_string(), value))
                .collect(),
        ))
    };
    assert_eq!(control_from(&None), Err(FrameReject::NotJson));
    assert_eq!(
        control_from(&Some(JsonValue::Boolean(true))),
        Err(FrameReject::NotJson)
    );
    assert_eq!(
        control_from(&object(vec![
            ("v", JsonValue::Number(Some(1))),
            ("type", text("ping")),
        ])),
        Ok(ClientControl::Ping)
    );
    assert_eq!(
        control_from(&object(vec![
            ("v", JsonValue::Number(None)),
            ("type", text("ping")),
        ])),
        Err(FrameReject::Version)
    );
    assert_eq!(
        control_from(&object(vec![("v", JsonValue::Number(Some(1)))])),
        Err(FrameReject::UnknownType)
    );
}

#[test]
fn server_control_frames_are_versioned() {
    let notice = control_frame(
        &ControlEvent::AttachNotice {
            ephemeral_workspace: true,
            teardown_best_effort: true,
            externalise_with: "git push",
        },
        Some(42),
    );
    let value: Value = serde_json::from_str(&notice).unwrap();
    assert_eq!(value["v"], Value::from(CONTROL_SCHEMA_VERSION));
    assert_eq!(value["type"], Value::from("attach-notice"));
    // Ephemerality is stated in the product surface, not left to discovery.
    assert_eq!(value["ephemeral_workspace"], Value::from(true));
    assert_eq!(value["teardown_best_effort"], Value::from(true));
    assert_eq!(value["stream_offset"], Value::from(42));

    let ttl = control_frame(
        &ControlEvent::TtlWarning {
            seconds_remaining: 30,
            absolute: true,
        },
        None,
    );
    let value: Value = serde_json::from_str(&ttl).unwrap();
    assert_eq!(value["type"], Value::from("ttl-warning"));
    assert_eq!(value["v"], Value::from(CONTROL_SCHEMA_VERSION));
    assert_eq!(value["seconds_remaining"], Value::from(30));
    assert!(value.get("stream_offset").is_none());

    let pong: Value = serde_json::from_str(&pong_frame()).unwrap();
    assert_eq!(pong["type"], Value::from("pong"));
    assert_eq!(pong["v"], Value::from(CONTROL_SCHEMA_VERSION));
}

#[test]
fn a_gap_and_a_full_volume_are_told_with_their_numbers() {
    let gap = control_frame(&ControlEvent::Gap { bytes_dropped: 9 }, None);
    let value: Value = serde_json::from_str(&gap).unwrap();
    assert_eq!(value["type"], Value::from("gap"));
    assert_eq!(value["dropped_bytes"], Value::from(9));

    let full = control_frame(
        &ControlEvent::WorkspaceVolumeFull {
            used_kib: 5,
            budget_kib: 4,
        },
        None,
    );
    let value: Value = serde_json::from_str(&full).unwrap();
    assert_eq!(value["type"], Value::from("workspace-volume-full"));
    assert_eq!(value["used_kib"], Value::from(5));
    assert_eq!(value["budget_kib"], Value::from(4));
}
