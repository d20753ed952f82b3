//! Decisions of a client session: what each event of the raw feed, the
//! consonance feed and the client's own stream leads to.
//!
//! A session forwards raw serial data (base64-encoded) and consonance events
//! to its client until a feed closes or the client leaves. The WebSocket
//! server keeps going past a lagged feed; the dashboard's feed stops there.

use vstd::prelude::*;
use base64::Engine;

verus! {

/// The standard base64 encoding (RFC 4648 alphabet, with `=` padding) of `data`.
pub uninterp spec fn base64_standard(data: Seq<u8>) -> Seq<char>;

/// Length of a padded base64 encoding of `n` bytes.
pub open spec fn base64_len(n: int) -> int {
    4 * ((n + 2) / 3)
}

/// `base64::engine::general_purpose::STANDARD.encode`: the padded standard
/// base64 encoding of the bytes, four characters for every three bytes or
/// part of three. It panics when that length overflows `usize`.
#[verifier::external_body]
fn encode_base64(data: &[u8]) -> (encoded: String)
    requires
        base64_len(data@.len() as int) <= usize::MAX,
    ensures
        encoded@ == base64_standard(data@),
        encoded@.len() == base64_len(data@.len() as int),
{
    base64::engine::general_purpose::STANDARD.encode(data)
}

/// Whether `len` bytes can be base64-encoded without the encoded length
/// overflowing `usize`.
pub fn base64_encodable(len: usize) -> (ok: bool)
    ensures
        ok == (base64_len(len as int) <= usize::MAX),
{
    let chunks: usize = len / 3 + if len % 3 > 0 {
        1
    } else {
        0
    };
    assert((len + 2) / 3 == chunks);
    chunks <= usize::MAX / 4
}

/// An event of a broadcast feed.
#[derive(Debug, Clone, PartialEq, Eq)]
pub enum FeedEvent<T> {
    /// An item arrived.
    Item(T),
    /// The receiver fell behind and this many items were dropped.
    Lagged(u64),
    /// The feed closed.
    Closed,
}

/// An event of the client's own stream.
#[derive(Debug, Clone, PartialEq, Eq)]
pub enum ClientEvent {
    /// A text frame.
    Text(String),
    /// A close frame.
    Close,
    /// The stream ended.
    End,
    /// Any other frame, or a receive error.
    Other,
}

/// What the session does next.
#[derive(Debug, Clone, PartialEq, Eq)]
pub enum SessionAction {
    /// Send serial output, base64-encoded, to the client.
    SendOutput(String),
    /// Send the consonance event that arrived to the client.
    SendEvent,
    /// Log that the feed dropped this many items, and go on.
    WarnLagged(u64),
    /// Go on waiting.
    Continue,
    /// End the session.
    Stop,
}

/// The session's answer to an event of the raw serial feed. With
/// `tolerate_lag`, a lagged feed is logged and the session goes on;
/// otherwise it ends the session, as a closed feed does.
pub fn output_action(event: FeedEvent<Vec<u8>>, tolerate_lag: bool) -> (action: SessionAction)
    requires
        event matches FeedEvent::Item(d) ==> base64_len(d@.len() as int) <= usize::MAX,
    ensures
        match event {
            FeedEvent::Item(d) => action matches SessionAction::SendOutput(s) && s@ == base64_standard(d@),
            FeedEvent::Lagged(n) => action == (if tolerate_lag {
                SessionAction::WarnLagged(n)
            } else {
                SessionAction::Stop
            }),
            FeedEvent::Closed => action == SessionAction::Stop,
        },
{
    match event {
        FeedEvent::Item(d) => SessionAction::SendOutput(encode_base64(d.as_slice())),
        FeedEvent::Lagged(n) => if tolerate_lag {
            SessionAction::WarnLagged(n)
        } else {
            SessionAction::Stop
        },
        FeedEvent::Closed => SessionAction::Stop,
    }
}

/// The session's answer to an event of the consonance feed (whose item is
/// forwarded as it came).
pub fn consonance_action(event: FeedEvent<()>, tolerate_lag: bool) -> (action: SessionAction)
    ensures
        match event {
            FeedEvent::Item(_) => action == SessionAction::SendEvent,
            FeedEvent::Lagged(n) => action == (if tolerate_lag {
                SessionAction::WarnLagged(n)
            } else {
                SessionAction::Stop
            }),
            FeedEvent::Closed => action == SessionAction::Stop,
        },
{
    match event {
        FeedEvent::Item(_) => SessionAction::SendEvent,
        FeedEvent::Lagged(n) => if tolerate_lag {
            SessionAction::WarnLagged(n)
        } else {
            SessionAction::Stop
        },
        FeedEvent::Closed => SessionAction::Stop,
    }
}

/// The session's answer to the client: it ends when the client closes or
/// its stream ends, and ignores everything else.
pub fn client_action(event: &ClientEvent) -> (action: SessionAction)
    ensures
        action == (match event {
            ClientEvent::Close | ClientEvent::End => SessionAction::Stop,
            _ => SessionAction::Continue,
        }),
{
    match event {
        ClientEvent::Close | ClientEvent::End => SessionAction::Stop,
        _ => SessionAction::Continue,
    }
}

} // verus!
