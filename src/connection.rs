//! The decisions of a relay's accept loop and of each viewer's connection.
use vstd::prelude::*;

verus! {

/// What the accept loop of a relay observes.
#[derive(Clone, Copy, Debug, PartialEq, Eq, Structural)]
pub enum ListenerEvent {
    /// The relay's shutdown switch fired.
    Shutdown,
    /// A viewer connected.
    Accepted,
    /// Accepting failed; such a failure is taken as passing.
    AcceptFailed,
}

/// What the accept loop does next.
#[derive(Clone, Copy, Debug, PartialEq, Eq, Structural)]
pub enum ListenerAction {
    /// Leave the loop and stop the decoder.
    Stop,
    /// Hand the connection to a handler of its own, and go on accepting.
    Serve,
    /// Go on accepting.
    Continue,
}

/// The accept loop's reaction to `ev`.
pub fn listener_step(ev: ListenerEvent) -> (r: ListenerAction)
    ensures
        r == (match ev {
            ListenerEvent::Shutdown => ListenerAction::Stop,
            ListenerEvent::Accepted => ListenerAction::Serve,
            ListenerEvent::AcceptFailed => ListenerAction::Continue,
        }),
{
    match ev {
        ListenerEvent::Shutdown => ListenerAction::Stop,
        ListenerEvent::Accepted => ListenerAction::Serve,
        ListenerEvent::AcceptFailed => ListenerAction::Continue,
    }
}

/// The phase of one viewer's connection.
#[derive(Clone, Copy, Debug, PartialEq, Eq, Structural)]
pub enum ConnState {
    Handshaking,
    Streaming,
    Closed,
}

/// What a viewer's connection observes.
#[derive(Clone, Copy, Debug, PartialEq, Eq, Structural)]
pub enum ConnEvent {
    /// The handshake completed.
    HandshakeDone,
    /// The handshake failed.
    HandshakeFailed,
    /// A chunk is ready on the subscription.
    ChunkReady,
    /// The subscription lost chunks.
    Lagged,
    /// Writing to the viewer failed.
    WriteFailed,
    /// The viewer asked to close.
    ViewerClosed,
    /// Reading from the viewer failed.
    ViewerError,
    /// The viewer sent some other frame (a ping, say).
    ViewerFrame,
    /// The relay was stopped.
    RelayStopped,
}

/// What the connection does on an event.
#[derive(Clone, Copy, Debug, PartialEq, Eq, Structural)]
pub enum ConnAction {
    /// Nothing.
    Idle,
    /// Start the two halves: forwarding chunks and reading the viewer's frames.
    BeginStreaming,
    /// Write the ready chunk to the viewer as one binary message.
    Write,
    /// Drop the subscription and the socket; nothing more is written.
    Release,
}

/// The connection's next phase and action, from phase `s` on event `e`.
pub open spec fn conn_next(s: ConnState, e: ConnEvent) -> (ConnState, ConnAction) {
    match s {
        ConnState::Handshaking => match e {
            ConnEvent::HandshakeDone => (ConnState::Streaming, ConnAction::BeginStreaming),
            ConnEvent::HandshakeFailed | ConnEvent::RelayStopped => (ConnState::Closed, ConnAction::Release),
            _ => (ConnState::Handshaking, ConnAction::Idle),
        },
        ConnState::Streaming => match e {
            ConnEvent::ChunkReady => (ConnState::Streaming, ConnAction::Write),
            ConnEvent::ViewerFrame => (ConnState::Streaming, ConnAction::Idle),
            ConnEvent::Lagged | ConnEvent::WriteFailed | ConnEvent::ViewerClosed
            | ConnEvent::ViewerError | ConnEvent::RelayStopped => (ConnState::Closed, ConnAction::Release),
            _ => (ConnState::Streaming, ConnAction::Idle),
        },
        ConnState::Closed => (ConnState::Closed, ConnAction::Idle),
    }
}

/// One step of a viewer's connection. Either half ending closes the whole
/// connection; a closed connection stays closed and writes nothing.
pub fn conn_step(s: ConnState, e: ConnEvent) -> (r: (ConnState, ConnAction))
    ensures
        r == conn_next(s, e),
        s == ConnState::Closed ==> r == (ConnState::Closed, ConnAction::Idle),
        r.1 == ConnAction::Write ==> s == ConnState::Streaming && r.0 == ConnState::Streaming,
        r.0 == ConnState::Streaming ==> s != ConnState::Closed,
{
    match s {
        ConnState::Handshaking => match e {
            ConnEvent::HandshakeDone => (ConnState::Streaming, ConnAction::BeginStreaming),
            ConnEvent::HandshakeFailed | ConnEvent::RelayStopped => (ConnState::Closed, ConnAction::Release),
            _ => (ConnState::Handshaking, ConnAction::Idle),
        },
        ConnState::Streaming => match e {
            ConnEvent::ChunkReady => (ConnState::Streaming, ConnAction::Write),
            ConnEvent::ViewerFrame => (ConnState::Streaming, ConnAction::Idle),
            ConnEvent::Lagged | ConnEvent::WriteFailed | ConnEvent::ViewerClosed
            | ConnEvent::ViewerError | ConnEvent::RelayStopped => (ConnState::Closed, ConnAction::Release),
            _ => (ConnState::Streaming, ConnAction::Idle),
        },
        ConnState::Closed => (ConnState::Closed, ConnAction::Idle),
    }
}

/// The sub-protocol token that the player asks for, as bytes ("jsmpeg").
pub open spec fn player_token() -> Seq<u8> {
    seq![106u8, 115u8, 109u8, 112u8, 101u8, 103u8]
}

/// Whether `hay` holds `needle` as a contiguous part.
pub open spec fn holds_part(hay: Seq<u8>, needle: Seq<u8>) -> bool {
    exists|i: int|
        0 <= i && i + needle.len() <= hay.len() && #[trigger] hay.subrange(i, i + needle.len())
            == needle
}

/// Whether the offered sub-protocol header value names the player's token,
/// in which case the handshake answers with that token.
pub fn offers_player_protocol(offered: &[u8]) -> (r: bool)
    ensures
        r == holds_part(offered@, player_token()),
{
    let token: [u8; 6] = [106u8, 115u8, 109u8, 112u8, 101u8, 103u8];
    assert(token@ =~= player_token());
    if offered.len() < 6 {
        assert forall|i: int|
            0 <= i && i + 6 <= offered@.len() implies #[trigger] offered@.subrange(i, i + 6)
            != player_token() by {}
        return false;
    }
    let n: usize = offered.len();
    let last: usize = n - 6;
    let mut i: usize = 0;
    while i <= last
        invariant
            n == offered@.len(),
            last + 6 == n,
            i <= last + 1,
            token@ == player_token(),
            forall|k: int| 0 <= k < i ==> #[trigger] offered@.subrange(k, k + 6) != player_token(),
        decreases last + 1 - i,
    {
        let mut j: usize = 0;
        while j < 6
            invariant
                i <= last,
                n == offered@.len(),
                last + 6 == n,
                j <= 6,
                token@ == player_token(),
                forall|m: int| 0 <= m < j ==> offered@[i + m] == token@[m],
            ensures
                j <= 6,
                forall|m: int| 0 <= m < j ==> offered@[i + m] == token@[m],
                j < 6 ==> offered@[i + j] != token@[j as int],
            decreases 6 - j,
        {
            if offered[i + j] != token[j] {
                break;
            }
            j = j + 1;
        }
        if j == 6 {
            assert(offered@.subrange(i as int, i + 6) =~= player_token());
            return true;
        }
        assert(offered@.subrange(i as int, i + 6)[j as int] != player_token()[j as int]);
        i = i + 1;
    }
    false
}

} // verus!
