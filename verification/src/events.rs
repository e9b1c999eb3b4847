//! The host's events: unwrapping their envelopes and telling timer events
//! apart.

use vstd::prelude::*;

use crate::text::str_eq;
use crate::ui::state::{
    json_member, member, JsonObject, JsonScalar,
    APP_DATA_RECV_TIMEOUT_EVENT, HIDE_APP_DATA_STATUS_EVENT, HIDE_STATUS_EVENT,
    HIDE_UPLOAD_STATUS_EVENT, HS_PING_EVENT, HS_REGISTER_RETRY_EVENT, UPLOAD_ACK_TIMEOUT_EVENT,
    UPLOAD_HEADER_TIMEOUT_EVENT,
};

verus! {

/// The text an envelope wraps under `key`, or the raw event text when the
/// envelope has no such text member (or is no object).
pub open spec fn unwrapped(envelope: JsonObject, key: Seq<char>, raw: Seq<char>) -> Seq<char> {
    match json_member(envelope.entries@, key) {
        JsonScalar::Text(s) => s@,
        _ => raw,
    }
}

/// Unwraps an event envelope: a timer event arrives as
/// `{"kind":..,"payload":"..",..}` (key `payload`), an interconnect message
/// as `{"payloadText":"..",..}` (key `payloadText`).
pub fn unwrap_envelope(envelope: &JsonObject, key: &str, raw: &str) -> (s: String)
    ensures
        s@ == unwrapped(*envelope, key@, raw@),
{
    match member(envelope, key) {
        Some(JsonScalar::Text(t)) => t.clone(),
        _ => raw.to_string(),
    }
}

/// A message wrapped in an envelope is handled as the message itself: when
/// the envelope's `payloadText` is the message's text, and the message (an
/// object `inner` parsed from that text) has no `payloadText` text of its
/// own, unwrapping the envelope and unwrapping the bare message give the
/// same text, so the same message is parsed and dispatched.
pub proof fn law_wrapped_message_same_as_inner(
    envelope: JsonObject,
    envelope_text: Seq<char>,
    inner: JsonObject,
    inner_text: Seq<char>,
)
    requires
        json_member(envelope.entries@, "payloadText"@) matches JsonScalar::Text(t) && t@ == inner_text,
        !(json_member(inner.entries@, "payloadText"@) is Text),
    ensures
        unwrapped(envelope, "payloadText"@, envelope_text) == inner_text,
        unwrapped(inner, "payloadText"@, inner_text) == inner_text,
{
}

/// What a timer event is for.
#[derive(Debug, Clone, Copy, PartialEq, Eq, Structural)]
pub enum TimerEvent {
    HideStatus,
    HideAppDataStatus,
    HideUploadStatus,
    UploadAckTimeout,
    UploadHeaderTimeout,
    AppDataRecvTimeout,
    /// A handshake step (registration retry or ping).
    Handshake,
    Unknown,
}

/// The timer event a payload names.
pub open spec fn timer_event(p: Seq<char>) -> TimerEvent {
    if p == HIDE_STATUS_EVENT@ {
        TimerEvent::HideStatus
    } else if p == HIDE_APP_DATA_STATUS_EVENT@ {
        TimerEvent::HideAppDataStatus
    } else if p == HIDE_UPLOAD_STATUS_EVENT@ {
        TimerEvent::HideUploadStatus
    } else if p == UPLOAD_ACK_TIMEOUT_EVENT@ {
        TimerEvent::UploadAckTimeout
    } else if p == UPLOAD_HEADER_TIMEOUT_EVENT@ {
        TimerEvent::UploadHeaderTimeout
    } else if p == APP_DATA_RECV_TIMEOUT_EVENT@ {
        TimerEvent::AppDataRecvTimeout
    } else if p == HS_REGISTER_RETRY_EVENT@ || p == HS_PING_EVENT@ {
        TimerEvent::Handshake
    } else {
        TimerEvent::Unknown
    }
}

/// Tells a timer event (its unwrapped payload) apart.
pub fn timer_event_kind(payload: &str) -> (e: TimerEvent)
    ensures
        e == timer_event(payload@),
{
    if str_eq(payload, HIDE_STATUS_EVENT) {
        TimerEvent::HideStatus
    } else if str_eq(payload, HIDE_APP_DATA_STATUS_EVENT) {
        TimerEvent::HideAppDataStatus
    } else if str_eq(payload, HIDE_UPLOAD_STATUS_EVENT) {
        TimerEvent::HideUploadStatus
    } else if str_eq(payload, UPLOAD_ACK_TIMEOUT_EVENT) {
        TimerEvent::UploadAckTimeout
    } else if str_eq(payload, UPLOAD_HEADER_TIMEOUT_EVENT) {
        TimerEvent::UploadHeaderTimeout
    } else if str_eq(payload, APP_DATA_RECV_TIMEOUT_EVENT) {
        TimerEvent::AppDataRecvTimeout
    } else if str_eq(payload, HS_REGISTER_RETRY_EVENT) || str_eq(payload, HS_PING_EVENT) {
        TimerEvent::Handshake
    } else {
        TimerEvent::Unknown
    }
}

} // verus!
