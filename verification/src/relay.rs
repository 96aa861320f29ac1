//! The launch-monitor relay: reading its messages, which of them carry a
//! shot, and when the client reconnects.
use vstd::prelude::*;
use crate::text::same_text;

verus! {

/// The parts of a relay message that decide whether it carries a shot.
#[derive(Clone, Debug)]
pub struct RelayMessage {
    /// `event.kind`, when the message has an event whose kind is a string.
    pub event_kind: Option<String>,
    /// `event.event.type`, when the event wraps an inner event whose type
    /// is a string.
    pub inner_type: Option<String>,
    /// Whether the inner event holds a `shot` object.
    pub has_shot: bool,
    /// The message's `timestamp`, when it is a string.
    pub timestamp: Option<String>,
}

/// Whether an optional text is present and equal to `lit`.
pub open spec fn names(o: Option<String>, lit: Seq<char>) -> bool {
    o matches Some(k) && k@ == lit
}

/// Whether a message is a launch monitor's shot result.
pub open spec fn is_shot_result(m: RelayMessage) -> bool {
    &&& names(m.event_kind, "launch_monitor"@)
    &&& names(m.inner_type, "shot_result"@)
    &&& m.has_shot
}

/// The timestamp to give the shot of a message, empty when the message
/// carries none.
pub open spec fn stamp_text(m: RelayMessage) -> Seq<char> {
    match m.timestamp {
        Some(t) => t@,
        None => seq![],
    }
}

fn optional_is(o: &Option<String>, lit: &str) -> (r: bool)
    ensures
        r == names(*o, lit@),
{
    match o {
        Some(k) => same_text(k.as_str(), lit),
        None => false,
    }
}

/// The timestamp for the shot that a relay message carries: `Some` exactly
/// for a launch monitor's shot result that holds a shot; every other event,
/// such as actor status telemetry, gives `None`.
pub fn shot_timestamp(m: &RelayMessage) -> (r: Option<String>)
    ensures
        r is Some <==> is_shot_result(*m),
        r matches Some(t) ==> t@ == stamp_text(*m),
{
    if !optional_is(&m.event_kind, "launch_monitor") {
        return None;
    }
    if !optional_is(&m.inner_type, "shot_result") {
        return None;
    }
    if !m.has_shot {
        return None;
    }
    match &m.timestamp {
        Some(t) => Some(t.clone()),
        None => Some(String::new()),
    }
}

/// A parsed JSON document of `serde_json`.
#[verifier::external_type_specification]
#[verifier::external_body]
pub struct ExJsonValue(serde_json::Value);

/// A JSON value as far as relay messages are read: an object maps each of
/// its keys to the value stored there, a string is its text, and every other
/// value (null, a boolean, a number, an array) is `Other`.
pub enum JsonTree {
    Object(Map<Seq<char>, JsonTree>),
    Text(Seq<char>),
    Other,
}

/// What a `serde_json::Value` holds, as a `JsonTree`: its objects' keys and
/// members, and its strings' text.
pub uninterp spec fn json_tree(v: serde_json::Value) -> JsonTree;

/// The document `serde_json::from_str::<serde_json::Value>` reads from a
/// text, `None` where the text is not JSON. It depends on the text alone.
pub uninterp spec fn json_document(text: Seq<char>) -> Option<JsonTree>;

/// `serde_json::from_str::<serde_json::Value>`: the parsed document, `None`
/// where the text is not JSON.
#[verifier::external_body]
fn parse_json(text: &str) -> (r: Option<serde_json::Value>)
    ensures
        match r {
            Some(v) => json_document(text@) == Some(json_tree(v)),
            None => json_document(text@) is None,
        },
{
    serde_json::from_str::<serde_json::Value>(text).ok()
}

/// The member stored at `key` of a JSON value: present only where the value
/// is an object with that key.
pub open spec fn member(t: Option<JsonTree>, key: Seq<char>) -> Option<JsonTree> {
    match t {
        Some(JsonTree::Object(m)) => if m.contains_key(key) {
            Some(m[key])
        } else {
            None
        },
        _ => None,
    }
}

/// The text of a JSON value, present only where it is a string.
pub open spec fn text_in(t: Option<JsonTree>) -> Option<Seq<char>> {
    match t {
        Some(JsonTree::Text(s)) => Some(s),
        _ => None,
    }
}

/// `serde_json::Value::get` with a string key: for an object, its member
/// at the key if it has one; `None` for a missing key and for a value that
/// is not an object.
#[verifier::external_body]
fn json_member<'a>(v: &'a serde_json::Value, key: &str) -> (r: Option<&'a serde_json::Value>)
    ensures
        match r {
            Some(m) => member(Some(json_tree(*v)), key@) == Some(json_tree(*m)),
            None => member(Some(json_tree(*v)), key@) is None,
        },
{
    v.get(key)
}

/// `serde_json::Value::as_str`: the text of a JSON string, `None` for any
/// other value.
#[verifier::external_body]
fn json_str<'a>(v: &'a serde_json::Value) -> (r: Option<&'a str>)
    ensures
        match r {
            Some(t) => json_tree(*v) == JsonTree::Text(t@),
            None => !(json_tree(*v) is Text),
        },
{
    v.as_str()
}

/// `serde_json::Value`'s `clone`: an equal document.
#[verifier::external_body]
fn json_clone(v: &serde_json::Value) -> (r: serde_json::Value)
    ensures
        json_tree(r) == json_tree(*v),
{
    v.clone()
}

/// The view of an optional text.
pub open spec fn text_view(o: Option<String>) -> Option<Seq<char>> {
    match o {
        Some(s) => Some(s@),
        None => None,
    }
}

/// A relay message's `event`.
pub open spec fn event_of(doc: JsonTree) -> Option<JsonTree> {
    member(Some(doc), "event"@)
}

/// The event that a relay message's `event` wraps, `event.event`.
pub open spec fn inner_event_of(doc: JsonTree) -> Option<JsonTree> {
    member(event_of(doc), "event"@)
}

/// The shot of a relay message, `event.event.shot`.
pub open spec fn shot_of(doc: JsonTree) -> Option<JsonTree> {
    member(inner_event_of(doc), "shot"@)
}

/// Whether `m` holds what the relay message `doc` says: its `event.kind`,
/// `event.event.type` and `timestamp` where each is a string, and whether
/// `event.event` holds a `shot`.
pub open spec fn reads_message(doc: JsonTree, m: RelayMessage) -> bool {
    &&& text_view(m.event_kind) == text_in(member(event_of(doc), "kind"@))
    &&& text_view(m.inner_type) == text_in(member(inner_event_of(doc), "type"@))
    &&& m.has_shot == shot_of(doc) is Some
    &&& text_view(m.timestamp) == text_in(member(Some(doc), "timestamp"@))
}

/// The text of the string at `key` of an object, if there is one.
fn member_text(v: Option<&serde_json::Value>, key: &str) -> (r: Option<String>)
    ensures
        text_view(r) == text_in(
            member(
                match v {
                    Some(o) => Some(json_tree(*o)),
                    None => None,
                },
                key@,
            ),
        ),
{
    match v {
        Some(o) => match json_member(o, key) {
            Some(m) => match json_str(m) {
                Some(t) => Some(t.to_owned()),
                None => None,
            },
            None => None,
        },
        None => None,
    }
}

/// Reads a parsed relay message: its `event.kind`, `event.event.type`,
/// `timestamp` and whether it holds a shot, with the shot
/// (`event.event.shot`) itself where there is one.
pub fn relay_message_of(v: &serde_json::Value) -> (r: (RelayMessage, Option<serde_json::Value>))
    ensures
        reads_message(json_tree(*v), r.0),
        match r.1 {
            Some(s) => shot_of(json_tree(*v)) == Some(json_tree(s)),
            None => shot_of(json_tree(*v)) is None,
        },
{
    let event = json_member(v, "event");
    let inner = match event {
        Some(e) => json_member(e, "event"),
        None => None,
    };
    let shot = match inner {
        Some(i) => match json_member(i, "shot") {
            Some(s) => Some(json_clone(s)),
            None => None,
        },
        None => None,
    };
    let m = RelayMessage {
        event_kind: member_text(event, "kind"),
        inner_type: member_text(inner, "type"),
        has_shot: shot.is_some(),
        timestamp: member_text(Some(v), "timestamp"),
    };
    (m, shot)
}

/// Reads a relay message from its text: `None` exactly when the text is
/// not JSON; otherwise what `relay_message_of` reads from the document.
pub fn read_relay_message(text: &str) -> (r: Option<(RelayMessage, Option<serde_json::Value>)>)
    ensures
        match r {
            Some((m, shot)) => json_document(text@) matches Some(doc) && reads_message(doc, m)
                && match shot {
                Some(s) => shot_of(doc) == Some(json_tree(s)),
                None => shot_of(doc) is None,
            },
            None => json_document(text@) is None,
        },
{
    match parse_json(text) {
        Some(v) => Some(relay_message_of(&v)),
        None => None,
    }
}

/// The shot a relay message text carries, with its timestamp: `Some`
/// exactly for JSON text whose message is a launch monitor's shot result
/// holding a shot (see `shot_timestamp`); every other message, and any text
/// that is not JSON, gives `None`.
pub fn relay_shot(text: &str) -> (r: Option<(RelayMessage, String, serde_json::Value)>)
    ensures
        r is Some <==> (json_document(text@) matches Some(doc) && {
            &&& text_in(member(event_of(doc), "kind"@)) == Some("launch_monitor"@)
            &&& text_in(member(inner_event_of(doc), "type"@)) == Some("shot_result"@)
            &&& shot_of(doc) is Some
        }),
        r matches Some((m, t, s)) ==> json_document(text@) matches Some(doc) && reads_message(
            doc,
            m,
        ) && is_shot_result(m) && t@ == stamp_text(m) && shot_of(doc) == Some(json_tree(s)),
{
    let (m, shot) = match read_relay_message(text) {
        Some(x) => x,
        None => return None,
    };
    let t = match shot_timestamp(&m) {
        Some(t) => t,
        None => return None,
    };
    match shot {
        Some(s) => Some((m, t, s)),
        None => None,
    }
}

/// The seconds the relay client waits before it connects again.
pub const RELAY_RETRY_SECONDS: u32 = 2;

/// What happened to the relay client.
#[derive(Clone, Copy, PartialEq, Eq, Debug, Structural)]
pub enum RelayEvent {
    /// Connecting to the relay failed.
    ConnectFailed,
    /// The connection is open.
    Connected,
    /// Sending the start handshake failed.
    HandshakeFailed,
    /// The start handshake was sent.
    HandshakeSent,
    /// A text frame was read and its shot, if any, handed on.
    TextFrame,
    /// A frame of another kind was read.
    OtherFrame,
    /// The relay closed the connection.
    Closed,
    /// Reading from the connection failed.
    ReadFailed,
    /// Nobody takes shots any more: the display has exited.
    ReceiverGone,
}

/// What the relay client does next.
#[derive(Clone, Copy, PartialEq, Eq, Debug, Structural)]
pub enum RelayAction {
    /// Send the start handshake, without which the relay sends no events.
    SendHandshake,
    /// Read the next frame.
    ReadNext,
    /// Wait, then connect again.
    WaitThenConnect { seconds: u32 },
    /// End the client.
    Stop,
}

/// The relay client's next step: after a connection it sends the start
/// handshake, then reads frames one after another; after any failure
/// (connecting, the handshake, reading) or when the relay closes, it waits
/// `RELAY_RETRY_SECONDS` and connects again; it stops only when nobody
/// takes shots any more.
pub fn relay_step(e: RelayEvent) -> (a: RelayAction)
    ensures
        e is ConnectFailed || e is HandshakeFailed || e is Closed || e is ReadFailed ==> a
            == (RelayAction::WaitThenConnect { seconds: RELAY_RETRY_SECONDS }),
        e is Connected ==> a is SendHandshake,
        e is HandshakeSent || e is TextFrame || e is OtherFrame ==> a is ReadNext,
        e is ReceiverGone ==> a is Stop,
        a is Stop <==> e is ReceiverGone,
{
    match e {
        RelayEvent::Connected => RelayAction::SendHandshake,
        RelayEvent::HandshakeSent | RelayEvent::TextFrame | RelayEvent::OtherFrame => {
            RelayAction::ReadNext
        },
        RelayEvent::ReceiverGone => RelayAction::Stop,
        _ => RelayAction::WaitThenConnect { seconds: RELAY_RETRY_SECONDS },
    }
}

} // verus!
