//! The wire contract of an attached connection: control frames in both directions.
//!
//! Binary frames are PTY bytes; text frames are JSON objects that carry the schema
//! version. Client frames are a strict allowlist with no fallthrough.
use crate::json::{
    is_reserved, json_document, json_text, json_tree, lemma_member_trees, member_trees, read_json,
    reads_back, scalar_trees, write_json, JsonScalar, JsonTree, JsonValue,
};
use crate::outbound::{ControlEvent, ControlModel};
use crate::session::{size_in_bounds, WindowSize};
use crate::table::unique_keys;
use crate::text::{find_entry, lemma_find_entry_prefix, same_text};
use vstd::prelude::*;
use vstd::utf8::encode_utf8;

verus! {

/// Control-schema version carried on every text frame in both directions. A frame
/// without it, or with a different value, is rejected rather than guessed.
pub const CONTROL_SCHEMA_VERSION: u64 = 1;

/// Max PTY-bytes (binary) frame accepted from a client.
pub const MAX_INPUT_FRAME_BYTES: usize = 64 * 1024;

/// Max control (text) frame accepted from a client.
pub const MAX_CONTROL_FRAME_BYTES: usize = 4 * 1024;

/// Malformed control frames tolerated before the connection is dropped.
pub const MAX_MALFORMED_FRAMES: u32 = 3;

/// A parsed, allowlisted client control frame. Anything not in this enum is
/// rejected: the parser has no fallthrough.
#[derive(Clone, Copy, Debug, PartialEq, Eq, Structural)]
pub enum ClientControl {
    Resize(WindowSize),
    /// Application-level keepalive for clients behind proxies that eat pings.
    Ping,
    Detach,
}

/// Why a client frame was refused. Every variant increments the abuse metric.
#[derive(Clone, Copy, Debug, PartialEq, Eq, Structural)]
pub enum FrameReject {
    Oversize,
    NotJson,
    /// Missing or unsupported `v`.
    Version,
    /// `type` absent or outside the allowlist.
    UnknownType,
    /// `resize` outside `1..=1000`, or non-integer.
    ResizeBounds,
}

/// The whole number under a name.
pub open spec fn number_at(members: Seq<(Seq<char>, JsonTree)>, name: Seq<char>) -> Option<u64> {
    match find_entry(members, name) {
        Some(JsonTree::Number(n)) => n,
        _ => None,
    }
}

/// The text under a name.
pub open spec fn text_at(members: Seq<(Seq<char>, JsonTree)>, name: Seq<char>) -> Option<
    Seq<char>,
> {
    match find_entry(members, name) {
        Some(JsonTree::Text(text)) => Some(text),
        _ => None,
    }
}

/// The control frame that an object spells, or why it is refused.
pub open spec fn control_in(members: Seq<(Seq<char>, JsonTree)>) -> Result<
    ClientControl,
    FrameReject,
> {
    let kind = text_at(members, "type"@);
    if number_at(members, "v"@) != Some(CONTROL_SCHEMA_VERSION) {
        Err(FrameReject::Version)
    } else if kind == Some("resize"@) {
        match (number_at(members, "rows"@), number_at(members, "cols"@)) {
            (Some(rows), Some(cols)) => if size_in_bounds(rows as int, cols as int) {
                Ok(ClientControl::Resize(WindowSize { rows: rows as u16, cols: cols as u16 }))
            } else {
                Err(FrameReject::ResizeBounds)
            },
            _ => Err(FrameReject::ResizeBounds),
        }
    } else if kind == Some("ping"@) {
        Ok(ClientControl::Ping)
    } else if kind == Some("detach"@) {
        Ok(ClientControl::Detach)
    } else {
        Err(FrameReject::UnknownType)
    }
}

/// The control frame that a document spells, or why it is refused.
pub open spec fn control_of(document: Option<JsonTree>) -> Result<ClientControl, FrameReject> {
    match document {
        Some(JsonTree::Object(members)) => control_in(members),
        _ => Err(FrameReject::NotJson),
    }
}

/// The member under a name.
fn member<'a>(members: &'a Vec<(String, JsonValue)>, name: &str) -> (found: Option<&'a JsonValue>)
    ensures
        match found {
            Some(value) => find_entry(member_trees(members@), name@) == Some(json_tree(*value)),
            None => find_entry(member_trees(members@), name@) is None,
        },
{
    let ghost all = member_trees(members@);
    let mut i: usize = 0;
    proof {
        lemma_member_trees(members@);
        assert(all.take(0) =~= Seq::empty());
        assert(find_entry(all.take(0), name@) is None);
    }
    while i < members.len()
        invariant
            0 <= i <= members@.len(),
            all == member_trees(members@),
            all.len() == members@.len(),
            forall|k: int|
                0 <= k < members@.len() ==> #[trigger] all[k] == (
                    members@[k].0@,
                    json_tree(members@[k].1),
                ),
            find_entry(all.take(i as int), name@) is None,
        decreases members@.len() - i,
    {
        assert(all.take(i + 1).drop_last() =~= all.take(i as int));
        assert(all.take(i + 1).last() == all[i as int]);
        if same_text(members[i].0.as_str(), name) {
            proof {
                assert(find_entry(all.take(i + 1), name@) == Some(json_tree(members@[i as int].1)));
                lemma_find_entry_prefix(all, name@, i + 1);
            }
            return Some(&members[i].1);
        }
        i += 1;
    }
    assert(all.take(i as int) =~= all);
    None
}

fn member_number(members: &Vec<(String, JsonValue)>, name: &str) -> (n: Option<u64>)
    ensures
        n == number_at(member_trees(members@), name@),
{
    match member(members, name) {
        Some(JsonValue::Number(n)) => *n,
        _ => None,
    }
}

/// The control frame that a parsed document spells, or why it is refused.
pub fn control_from(document: &Option<JsonValue>) -> (result: Result<ClientControl, FrameReject>)
    ensures
        result == control_of(
            match *document {
                Some(value) => Some(json_tree(value)),
                None => None,
            },
        ),
{
    let members = match document {
        Some(JsonValue::Object(members)) => members,
        _ => return Err(FrameReject::NotJson),
    };
    if member_number(members, "v") != Some(CONTROL_SCHEMA_VERSION) {
        return Err(FrameReject::Version);
    }
    let kind = match member(members, "type") {
        Some(JsonValue::Text(kind)) => kind.as_str(),
        _ => return Err(FrameReject::UnknownType),
    };
    if same_text(kind, "resize") {
        return match (member_number(members, "rows"), member_number(members, "cols")) {
            (Some(rows), Some(cols)) => if rows >= 1 && rows <= 1000 && cols >= 1 && cols <= 1000 {
                Ok(ClientControl::Resize(WindowSize { rows: rows as u16, cols: cols as u16 }))
            } else {
                Err(FrameReject::ResizeBounds)
            },
            _ => Err(FrameReject::ResizeBounds),
        };
    }
    if same_text(kind, "ping") {
        return Ok(ClientControl::Ping);
    }
    if same_text(kind, "detach") {
        return Ok(ClientControl::Detach);
    }
    Err(FrameReject::UnknownType)
}

/// Strict allowlist parser for client-to-server text frames.
pub fn parse_client_control(text: &str) -> (result: Result<ClientControl, FrameReject>)
    ensures
        result == if encode_utf8(text@).len() > MAX_CONTROL_FRAME_BYTES {
            Err(FrameReject::Oversize)
        } else {
            control_of(json_document(text@))
        },
{
    if text.as_bytes().len() > MAX_CONTROL_FRAME_BYTES {
        return Err(FrameReject::Oversize);
    }
    control_from(&read_json(text))
}

/// The kind of a control frame on the wire.
pub open spec fn frame_kind(event: ControlModel) -> Seq<char> {
    match event {
        ControlModel::AttachNotice { .. } => "attach-notice"@,
        ControlModel::Gap { .. } => "gap"@,
        ControlModel::TtlWarning { .. } => "ttl-warning"@,
        ControlModel::WorkspaceVolumeFull { .. } => "workspace-volume-full"@,
    }
}

/// What a control frame says on the wire, besides its kind and the version.
pub open spec fn frame_body(event: ControlModel) -> Seq<(Seq<char>, JsonTree)> {
    match event {
        ControlModel::AttachNotice {
            ephemeral_workspace,
            teardown_best_effort,
            externalise_with,
        } => seq![
            ("ephemeral_workspace"@, JsonTree::Boolean(ephemeral_workspace)),
            ("teardown_best_effort"@, JsonTree::Boolean(teardown_best_effort)),
            ("externalise_with"@, JsonTree::Text(externalise_with)),
        ],
        ControlModel::Gap { bytes_dropped } => seq![
            ("dropped_bytes"@, JsonTree::Number(Some(bytes_dropped))),
        ],
        ControlModel::TtlWarning { seconds_remaining, absolute } => seq![
            ("seconds_remaining"@, JsonTree::Number(Some(seconds_remaining))),
            ("absolute"@, JsonTree::Boolean(absolute)),
        ],
        ControlModel::WorkspaceVolumeFull { used_kib, budget_kib } => seq![
            ("used_kib"@, JsonTree::Number(Some(used_kib))),
            ("budget_kib"@, JsonTree::Number(Some(budget_kib))),
        ],
    }
}

/// All that a control frame says on the wire.
pub open spec fn frame_members(event: ControlModel, stream_offset: Option<u64>) -> Seq<
    (Seq<char>, JsonTree),
> {
    let head = seq![
        ("type"@, JsonTree::Text(frame_kind(event))),
        ("v"@, JsonTree::Number(Some(CONTROL_SCHEMA_VERSION))),
    ] + frame_body(event);
    match stream_offset {
        Some(offset) => head.push(("stream_offset"@, JsonTree::Number(Some(offset)))),
        None => head,
    }
}

/// Render a server-to-client control frame: the session's event plus the schema
/// version, and the attach frame's stream offset, which belongs to the wire
/// contract rather than to session state.
pub fn control_frame(event: &ControlEvent, stream_offset: Option<u64>) -> (text: String)
    ensures
        text@ == json_text(frame_members(event@, stream_offset)),
        reads_back(text@, frame_members(event@, stream_offset)),
{
    let mut members: Vec<(String, JsonScalar)> = Vec::new();
    let kind = match event {
        ControlEvent::AttachNotice { .. } => "attach-notice",
        ControlEvent::Gap { .. } => "gap",
        ControlEvent::TtlWarning { .. } => "ttl-warning",
        ControlEvent::WorkspaceVolumeFull { .. } => "workspace-volume-full",
    };
    members.push(("type".to_owned(), JsonScalar::Text(kind.to_owned())));
    members.push(("v".to_owned(), JsonScalar::Number(CONTROL_SCHEMA_VERSION)));
    match event {
        ControlEvent::AttachNotice {
            ephemeral_workspace,
            teardown_best_effort,
            externalise_with,
        } => {
            members.push(
                ("ephemeral_workspace".to_owned(), JsonScalar::Boolean(*ephemeral_workspace)),
            );
            members.push(
                ("teardown_best_effort".to_owned(), JsonScalar::Boolean(*teardown_best_effort)),
            );
            let text: &str = *externalise_with;
            members.push(("externalise_with".to_owned(), JsonScalar::Text(text.to_owned())));
        },
        ControlEvent::Gap { bytes_dropped } => {
            members.push(("dropped_bytes".to_owned(), JsonScalar::Number(*bytes_dropped)));
        },
        ControlEvent::TtlWarning { seconds_remaining, absolute } => {
            members.push(
                ("seconds_remaining".to_owned(), JsonScalar::Number(*seconds_remaining)),
            );
            members.push(("absolute".to_owned(), JsonScalar::Boolean(*absolute)));
        },
        ControlEvent::WorkspaceVolumeFull { used_kib, budget_kib } => {
            members.push(("used_kib".to_owned(), JsonScalar::Number(*used_kib)));
            members.push(("budget_kib".to_owned(), JsonScalar::Number(*budget_kib)));
        },
    }
    if let Some(offset) = stream_offset {
        members.push(("stream_offset".to_owned(), JsonScalar::Number(offset)));
    }
    proof {
        assert(scalar_trees(members@) =~= frame_members(event@, stream_offset));
        lemma_frame_names_are_distinct(event@, stream_offset);
        lemma_frame_names_are_free(event@, stream_offset);
        assert forall|i: int| 0 <= i < members@.len() implies !is_reserved(
            (#[trigger] members@[i]).0@,
        ) by {
            assert(scalar_trees(members@)[i].0 == members@[i].0@);
        }
    }
    write_json(members)
}

/// No control frame says two things under one name.
proof fn lemma_frame_names_are_distinct(event: ControlModel, stream_offset: Option<u64>)
    ensures
        unique_keys(frame_members(event, stream_offset)),
{
    reveal_strlit("type");
    reveal_strlit("v");
    reveal_strlit("ephemeral_workspace");
    reveal_strlit("teardown_best_effort");
    reveal_strlit("externalise_with");
    reveal_strlit("dropped_bytes");
    reveal_strlit("seconds_remaining");
    reveal_strlit("absolute");
    reveal_strlit("used_kib");
    reveal_strlit("budget_kib");
    reveal_strlit("stream_offset");
    assert("type"@.len() == 4);
    assert("v"@.len() == 1);
    assert("ephemeral_workspace"@.len() == 19);
    assert("teardown_best_effort"@.len() == 20);
    assert("externalise_with"@.len() == 16);
    assert("dropped_bytes"@.len() == 13 && "dropped_bytes"@[0] == 'd');
    assert("seconds_remaining"@.len() == 17);
    assert("absolute"@.len() == 8 && "absolute"@[0] == 'a');
    assert("used_kib"@.len() == 8);
    assert("budget_kib"@.len() == 10);
    assert("stream_offset"@.len() == 13 && "stream_offset"@[0] == 's');
}

/// No control frame uses a name that has a meaning of its own to the writer.
proof fn lemma_frame_names_are_free(event: ControlModel, stream_offset: Option<u64>)
    ensures
        forall|i: int|
            0 <= i < frame_members(event, stream_offset).len() ==> !is_reserved(
                (#[trigger] frame_members(event, stream_offset)[i]).0,
            ),
{
    reveal_strlit("$serde_json::private::RawValue");
    reveal_strlit("$serde_json::private::Number");
    reveal_strlit("type");
    reveal_strlit("v");
    reveal_strlit("ephemeral_workspace");
    reveal_strlit("teardown_best_effort");
    reveal_strlit("externalise_with");
    reveal_strlit("dropped_bytes");
    reveal_strlit("seconds_remaining");
    reveal_strlit("absolute");
    reveal_strlit("used_kib");
    reveal_strlit("budget_kib");
    reveal_strlit("stream_offset");
    assert("$serde_json::private::RawValue"@.len() == 30);
    assert("$serde_json::private::Number"@.len() == 28);
    assert forall|i: int| 0 <= i < frame_members(event, stream_offset).len() implies !is_reserved(
        (#[trigger] frame_members(event, stream_offset)[i]).0,
    ) by {
        assert(frame_members(event, stream_offset)[i].0.len() <= 20);
    }
}

/// Every control frame names its kind and carries the schema version.
pub proof fn law_control_frames_are_versioned(
    text: Seq<char>,
    event: ControlModel,
    stream_offset: Option<u64>,
)
    requires
        reads_back(text, frame_members(event, stream_offset)),
    ensures
        ({
            &&& json_document(text) matches Some(JsonTree::Object(members))
            &&& number_at(members, "v"@) == Some(CONTROL_SCHEMA_VERSION)
            &&& text_at(members, "type"@) == Some(frame_kind(event))
            &&& stream_offset is Some ==> number_at(members, "stream_offset"@) == stream_offset
        }),
{
    let members = frame_members(event, stream_offset);
    lemma_frame_names_are_distinct(event, stream_offset);
    crate::table::lemma_unique_find(members, "v"@);
    crate::table::lemma_unique_find(members, "type"@);
    crate::table::lemma_unique_find(members, "stream_offset"@);
    assert(members[0].0 == "type"@);
    assert(members[1].0 == "v"@);
    if let Some(offset) = stream_offset {
        assert(members[members.len() - 1].0 == "stream_offset"@);
    }
}

/// The answer to an application-level keepalive.
pub open spec fn pong_members() -> Seq<(Seq<char>, JsonTree)> {
    seq![
        ("type"@, JsonTree::Text("pong"@)),
        ("v"@, JsonTree::Number(Some(CONTROL_SCHEMA_VERSION))),
    ]
}

/// Render the answer to an application-level keepalive.
pub fn pong_frame() -> (text: String)
    ensures
        text@ == json_text(pong_members()),
        reads_back(text@, pong_members()),
{
    let mut members: Vec<(String, JsonScalar)> = Vec::new();
    members.push(("type".to_owned(), JsonScalar::Text("pong".to_owned())));
    members.push(("v".to_owned(), JsonScalar::Number(CONTROL_SCHEMA_VERSION)));
    proof {
        assert(scalar_trees(members@) =~= pong_members());
        reveal_strlit("type");
        reveal_strlit("v");
        reveal_strlit("$serde_json::private::RawValue");
        reveal_strlit("$serde_json::private::Number");
        assert("type"@.len() == 4);
        assert("v"@.len() == 1);
        assert("$serde_json::private::RawValue"@.len() == 30);
        assert("$serde_json::private::Number"@.len() == 28);
    }
    write_json(members)
}

/// A frame that says nothing of its version, or names another, is refused whatever
/// else it says; and whatever is accepted is one of the three allowed frames.
pub proof fn law_client_frames_are_an_allowlist(members: Seq<(Seq<char>, JsonTree)>)
    ensures
        number_at(members, "v"@) != Some(CONTROL_SCHEMA_VERSION) ==> control_in(members) == Err::<
            ClientControl,
            _,
        >(FrameReject::Version),
        control_in(members) is Ok ==> {
            let kind = text_at(members, "type"@);
            kind == Some("resize"@) || kind == Some("ping"@) || kind == Some("detach"@)
        },
        match control_in(members) {
            Ok(ClientControl::Resize(size)) => size_in_bounds(size.rows as int, size.cols as int),
            _ => true,
        },
{
}

/// A client may ask for three things, and for each under one condition only: it names the
/// schema version, and a size lies between one and a thousand rows and columns. What it
/// asks for is what it gets.
pub proof fn law_client_frames_mean_what_they_say(
    members: Seq<(Seq<char>, JsonTree)>,
    size: WindowSize,
)
    ensures
        ({
            let versioned = find_entry(members, "v"@) == Some(JsonTree::Number(Some(1u64)));
            let kind = find_entry(members, "type"@);
            let rows = find_entry(members, "rows"@);
            let cols = find_entry(members, "cols"@);
            let read = control_in(members);
            &&& read == Ok::<ClientControl, FrameReject>(ClientControl::Ping) <==> versioned
                && kind == Some(JsonTree::Text("ping"@))
            &&& read == Ok::<ClientControl, FrameReject>(ClientControl::Detach) <==> versioned
                && kind == Some(JsonTree::Text("detach"@))
            &&& read == Ok::<ClientControl, FrameReject>(ClientControl::Resize(size)) <==> {
                &&& versioned
                &&& kind == Some(JsonTree::Text("resize"@))
                &&& rows == Some(JsonTree::Number(Some(size.rows as u64)))
                &&& cols == Some(JsonTree::Number(Some(size.cols as u64)))
                &&& 1 <= size.rows <= 1000
                &&& 1 <= size.cols <= 1000
            }
            &&& read == Err::<ClientControl, FrameReject>(FrameReject::Version) <==> !versioned
            &&& read == Err::<ClientControl, FrameReject>(FrameReject::UnknownType) <==> {
                &&& versioned
                &&& kind != Some(JsonTree::Text("ping"@))
                &&& kind != Some(JsonTree::Text("detach"@))
                &&& kind != Some(JsonTree::Text("resize"@))
            }
        }),
{
    reveal_strlit("ping");
    reveal_strlit("detach");
    reveal_strlit("resize");
    assert("ping"@.len() == 4);
    assert("detach"@.len() == 6);
    assert("detach"@[0] == 'd');
    assert("resize"@[0] == 'r');
}

/// What a control frame is about can be read from it under its own name.
pub proof fn law_control_frames_say_what_they_are_about(
    event: ControlModel,
    stream_offset: Option<u64>,
)
    ensures
        ({
            let members = frame_members(event, stream_offset);
            &&& find_entry(members, "v"@) == Some(JsonTree::Number(Some(1u64)))
            &&& match event {
                ControlModel::AttachNotice {
                    ephemeral_workspace,
                    teardown_best_effort,
                    externalise_with,
                } => {
                    &&& find_entry(members, "type"@) == Some(JsonTree::Text("attach-notice"@))
                    &&& find_entry(members, "ephemeral_workspace"@) == Some(
                        JsonTree::Boolean(ephemeral_workspace),
                    )
                    &&& find_entry(members, "teardown_best_effort"@) == Some(
                        JsonTree::Boolean(teardown_best_effort),
                    )
                    &&& find_entry(members, "externalise_with"@) == Some(
                        JsonTree::Text(externalise_with),
                    )
                },
                ControlModel::Gap { bytes_dropped } => {
                    &&& find_entry(members, "type"@) == Some(JsonTree::Text("gap"@))
                    &&& find_entry(members, "dropped_bytes"@) == Some(
                        JsonTree::Number(Some(bytes_dropped)),
                    )
                },
                ControlModel::TtlWarning { seconds_remaining, absolute } => {
                    &&& find_entry(members, "type"@) == Some(JsonTree::Text("ttl-warning"@))
                    &&& find_entry(members, "seconds_remaining"@) == Some(
                        JsonTree::Number(Some(seconds_remaining)),
                    )
                    &&& find_entry(members, "absolute"@) == Some(JsonTree::Boolean(absolute))
                },
                ControlModel::WorkspaceVolumeFull { used_kib, budget_kib } => {
                    &&& find_entry(members, "type"@) == Some(
                        JsonTree::Text("workspace-volume-full"@),
                    )
                    &&& find_entry(members, "used_kib"@) == Some(JsonTree::Number(Some(used_kib)))
                    &&& find_entry(members, "budget_kib"@) == Some(
                        JsonTree::Number(Some(budget_kib)),
                    )
                },
            }
            &&& match stream_offset {
                Some(offset) => find_entry(members, "stream_offset"@) == Some(
                    JsonTree::Number(Some(offset)),
                ),
                None => find_entry(members, "stream_offset"@) is None,
            }
        }),
{
    let members = frame_members(event, stream_offset);
    lemma_frame_names_are_distinct(event, stream_offset);
    crate::table::lemma_unique_find(members, "v"@);
    crate::table::lemma_unique_find(members, "type"@);
    crate::table::lemma_unique_find(members, "stream_offset"@);
    crate::table::lemma_unique_find(members, "ephemeral_workspace"@);
    crate::table::lemma_unique_find(members, "teardown_best_effort"@);
    crate::table::lemma_unique_find(members, "externalise_with"@);
    crate::table::lemma_unique_find(members, "dropped_bytes"@);
    crate::table::lemma_unique_find(members, "seconds_remaining"@);
    crate::table::lemma_unique_find(members, "absolute"@);
    crate::table::lemma_unique_find(members, "used_kib"@);
    crate::table::lemma_unique_find(members, "budget_kib"@);
    assert(members[0].0 == "type"@);
    assert(members[1].0 == "v"@);
    match event {
        ControlModel::AttachNotice { .. } => {
            assert(members[2].0 == "ephemeral_workspace"@);
            assert(members[3].0 == "teardown_best_effort"@);
            assert(members[4].0 == "externalise_with"@);
        },
        ControlModel::Gap { .. } => {
            assert(members[2].0 == "dropped_bytes"@);
        },
        ControlModel::TtlWarning { .. } => {
            assert(members[2].0 == "seconds_remaining"@);
            assert(members[3].0 == "absolute"@);
        },
        ControlModel::WorkspaceVolumeFull { .. } => {
            assert(members[2].0 == "used_kib"@);
            assert(members[3].0 == "budget_kib"@);
        },
    }
    match stream_offset {
        Some(_) => {
            assert(members[members.len() - 1].0 == "stream_offset"@);
        },
        None => {
            lemma_frame_names_are_distinct(event, Some(0));
            let longer = frame_members(event, Some(0));
            assert(longer[longer.len() - 1].0 == "stream_offset"@);
            assert forall|i: int| 0 <= i < members.len() implies (#[trigger] members[i]).0
                != "stream_offset"@ by {
                assert(longer[i] == members[i]);
            }
        },
    }
}

} // verus!
