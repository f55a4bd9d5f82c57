//! Session-level decisions of the ingest server.
//!
//! A WebTransport session is addressed by its request path: the third
//! non-empty `/`-separated segment names the asset. A path with fewer
//! segments is rejected outright rather than patched over with a substitute
//! identifier. The connection's request loop is a small state machine that
//! accepts at most a configured number of WebTransport sessions per
//! connection; the datagram path echoes each datagram back, verbatim or
//! behind a fixed prefix depending on the deployment variant.

use vstd::prelude::*;

use crate::text::push_bytes;

verus! {

/// Rejection of a session request path.
#[derive(Clone, Copy, Debug, PartialEq, Eq, Structural)]
pub enum PathError {
    /// The raw path is not a valid percent-encoded string.
    InvalidEncoding,
    /// The decoded path has fewer than three non-empty segments, so it names
    /// no asset.
    TooFewSegments,
}

/// First position at or after `i` that holds a `/`, or the end of `s`.
pub open spec fn spec_seg_end(s: Seq<char>, i: int) -> int
    decreases s.len() - i,
    when 0 <= i <= s.len()
{
    if i >= s.len() || s[i] == '/' {
        i
    } else {
        spec_seg_end(s, i + 1)
    }
}

/// The segment boundary stays within the string.
pub proof fn lemma_seg_end_bounds(s: Seq<char>, i: int)
    requires
        0 <= i <= s.len(),
    ensures
        i <= spec_seg_end(s, i) <= s.len(),
    decreases s.len() - i,
{
    if i < s.len() && s[i] != '/' {
        lemma_seg_end_bounds(s, i + 1);
    }
}

/// The non-empty `/`-separated segments of `s` from position `i` on, in
/// order.
pub open spec fn spec_segments_from(s: Seq<char>, i: int) -> Seq<Seq<char>>
    decreases s.len() - i,
    when 0 <= i <= s.len()
    via spec_segments_from_decreases
{
    if i >= s.len() {
        Seq::empty()
    } else if s[i] == '/' {
        spec_segments_from(s, i + 1)
    } else {
        seq![s.subrange(i, spec_seg_end(s, i))] + spec_segments_from(s, spec_seg_end(s, i))
    }
}

#[via_fn]
proof fn spec_segments_from_decreases(s: Seq<char>, i: int) {
    if 0 <= i <= s.len() {
        lemma_seg_end_bounds(s, i);
        if i < s.len() && s[i] != '/' {
            lemma_seg_end_bounds(s, i + 1);
            assert(spec_seg_end(s, i) == spec_seg_end(s, i + 1));
        }
    }
}

/// The asset named by a session path: its third non-empty segment, where the
/// path has one.
pub open spec fn spec_asset_id(path: Seq<char>) -> Option<Seq<char>> {
    let segs = spec_segments_from(path, 0);
    if segs.len() >= 3 {
        Some(segs[2])
    } else {
        None
    }
}

/// Extract the asset identifier from a decoded session path: the third
/// non-empty `/`-separated segment. A path with fewer than three such
/// segments is rejected with an explicit error.
pub fn get_asset_id(path: &str) -> (r: Result<String, PathError>)
    ensures
        match spec_asset_id(path@) {
            Some(a) => r matches Ok(s) && s@ == a,
            None => r == Err::<String, PathError>(PathError::TooFewSegments),
        },
{
    let n = path.unicode_len();
    let mut i: usize = 0;
    let mut count: usize = 0;
    let ghost mut done: Seq<Seq<char>> = Seq::empty();
    while i < n
        invariant
            n == path@.len(),
            0 <= i <= n,
            count == done.len(),
            count <= 2,
            spec_segments_from(path@, 0) == done + spec_segments_from(path@, i as int),
        decreases n - i,
    {
        let c = path.get_char(i);
        if c == '/' {
            i = i + 1;
        } else {
            let start = i;
            while i < n && path.get_char(i) != '/'
                invariant
                    n == path@.len(),
                    start <= i <= n,
                    spec_seg_end(path@, start as int) == spec_seg_end(path@, i as int),
                decreases n - i,
            {
                i = i + 1;
            }
            proof {
                assert(spec_seg_end(path@, i as int) == i as int);
                assert(spec_segments_from(path@, start as int) == seq![
                    path@.subrange(start as int, i as int),
                ] + spec_segments_from(path@, i as int));
            }
            if count == 2 {
                let seg = path.substring_char(start, i);
                proof {
                    assert(spec_segments_from(path@, 0)[2] == path@.subrange(
                        start as int,
                        i as int,
                    ));
                }
                return Ok(seg.to_owned());
            }
            proof {
                done = done + seq![path@.subrange(start as int, i as int)];
            }
            count = count + 1;
        }
    }
    proof {
        assert(spec_segments_from(path@, i as int) =~= Seq::<Seq<char>>::empty());
        assert(spec_segments_from(path@, 0) =~= done);
    }
    Err(PathError::TooFewSegments)
}

/// What percent-decoding yields on a path, where the decoded bytes form
/// valid text; decoding is a function of the input characters alone.
pub uninterp spec fn url_decoded(s: Seq<char>) -> Option<Seq<char>>;

/// Relies on urlencoding::decode: the result depends only on the input
/// characters, and a string holding no `%` is returned unchanged.
#[verifier::external_body]
fn url_decode(s: &str) -> (r: Option<String>)
    ensures
        match r {
            Some(d) => url_decoded(s@) == Some(d@) && (!s@.contains('%') ==> d@ == s@),
            None => url_decoded(s@) is None && s@.contains('%'),
        },
{
    match urlencoding::decode(s) {
        Ok(c) => Some(c.into_owned()),
        Err(_) => None,
    }
}

/// Resolve a raw (still percent-encoded) session path to its asset
/// identifier: decode it, then take the third non-empty segment of the
/// decoded path. Undecodable paths and paths with too few segments are
/// rejected, each with its own error. A path holding no `%` decodes to
/// itself, so on such a path the result is exactly [`get_asset_id`]'s.
pub fn resolve_session_asset(raw_path: &str) -> (r: Result<String, PathError>)
    ensures
        match url_decoded(raw_path@) {
            None => r == Err::<String, PathError>(PathError::InvalidEncoding),
            Some(d) => match spec_asset_id(d) {
                Some(a) => r matches Ok(s) && s@ == a,
                None => r == Err::<String, PathError>(PathError::TooFewSegments),
            },
        },
        !raw_path@.contains('%') ==> match spec_asset_id(raw_path@) {
            Some(a) => r matches Ok(s) && s@ == a,
            None => r == Err::<String, PathError>(PathError::TooFewSegments),
        },
{
    match url_decode(raw_path) {
        None => Err(PathError::InvalidEncoding),
        Some(decoded) => get_asset_id(decoded.as_str()),
    }
}

/// One observation of a connection's request loop.
#[derive(Clone, Copy, Debug, PartialEq, Eq, Structural)]
pub enum ConnEvent {
    /// A request arrived; the flags say whether it is a CONNECT request and
    /// whether it carries the WebTransport protocol extension.
    Request { is_connect: bool, is_webtransport: bool },
    /// The peer signalled that no more requests will come.
    NoMoreRequests,
    /// A stream-scoped error: only the one request is lost.
    StreamError,
    /// A connection-scoped error: the whole connection is lost.
    ConnectionError,
}

/// What the request loop does next.
#[derive(Clone, Copy, Debug, PartialEq, Eq, Structural)]
pub enum ConnAction {
    /// Upgrade this request into a WebTransport session.
    AcceptSession,
    /// Keep accepting requests without acting on this event.
    Ignore,
    /// Leave the request loop.
    Stop,
}

/// Request-loop state of one connection: how many sessions it has accepted,
/// against its configured cap.
#[derive(Clone, Copy, Debug, PartialEq, Eq, Structural)]
pub struct ConnState {
    pub sessions_accepted: u32,
    pub max_sessions: u32,
}

impl ConnState {
    /// The session count never passes the cap.
    pub open spec fn wf(&self) -> bool {
        self.sessions_accepted <= self.max_sessions
    }

    /// Fresh state for a connection that may accept up to `max_sessions`
    /// concurrent WebTransport sessions.
    pub fn new(max_sessions: u32) -> (s: ConnState)
        ensures
            s == (ConnState { sessions_accepted: 0, max_sessions }),
            s.wf(),
    {
        ConnState { sessions_accepted: 0, max_sessions }
    }
}

/// The request loop's transition function: a CONNECT request carrying the
/// WebTransport extension is upgraded while the session cap allows it and
/// ignored beyond the cap; any other request is ignored; a stream-scoped
/// error only skips that request; the end of requests and connection-scoped
/// errors stop the loop.
pub open spec fn spec_connection_step(s: ConnState, e: ConnEvent) -> (ConnState, ConnAction) {
    match e {
        ConnEvent::Request { is_connect, is_webtransport } => {
            if is_connect && is_webtransport && s.sessions_accepted < s.max_sessions {
                (
                    ConnState {
                        sessions_accepted: (s.sessions_accepted + 1) as u32,
                        max_sessions: s.max_sessions,
                    },
                    ConnAction::AcceptSession,
                )
            } else {
                (s, ConnAction::Ignore)
            }
        },
        ConnEvent::NoMoreRequests => (s, ConnAction::Stop),
        ConnEvent::StreamError => (s, ConnAction::Ignore),
        ConnEvent::ConnectionError => (s, ConnAction::Stop),
    }
}

/// Advance the request loop by one observed event and say what to do next.
pub fn connection_step(state: &mut ConnState, event: &ConnEvent) -> (a: ConnAction)
    ensures
        *final(state) == spec_connection_step(*old(state), *event).0,
        a == spec_connection_step(*old(state), *event).1,
{
    match *event {
        ConnEvent::Request { is_connect, is_webtransport } => {
            if is_connect && is_webtransport && state.sessions_accepted < state.max_sessions {
                state.sessions_accepted = state.sessions_accepted + 1;
                ConnAction::AcceptSession
            } else {
                ConnAction::Ignore
            }
        },
        ConnEvent::NoMoreRequests => ConnAction::Stop,
        ConnEvent::StreamError => ConnAction::Ignore,
        ConnEvent::ConnectionError => ConnAction::Stop,
    }
}

/// Every step keeps the session count within the cap: the configured limit
/// of concurrent WebTransport sessions per connection is an invariant of the
/// request loop.
pub proof fn lemma_connection_step_preserves_cap(s: ConnState, e: ConnEvent)
    requires
        s.wf(),
    ensures
        spec_connection_step(s, e).0.wf(),
        spec_connection_step(s, e).0.max_sessions == s.max_sessions,
{
}

/// A session is accepted only while the count is below the cap.
pub proof fn lemma_connection_step_respects_cap(s: ConnState, e: ConnEvent)
    requires
        s.wf(),
        s.sessions_accepted == s.max_sessions,
    ensures
        spec_connection_step(s, e).1 != ConnAction::AcceptSession,
{
}

/// How the datagram path answers: with the datagram itself, or with the
/// datagram behind a fixed acknowledgment prefix.
#[derive(Clone, Copy, Debug, PartialEq, Eq, Structural)]
pub enum EchoMode {
    Verbatim,
    Prefixed,
}

/// The fixed prefix of the prefixed echo variant: the bytes of `ack:`.
pub open spec fn spec_echo_prefix() -> Seq<u8> {
    seq![0x61u8, 0x63u8, 0x6bu8, 0x3au8]
}

/// The echo answer to a datagram in the given mode.
pub open spec fn spec_echo_response(d: Seq<u8>, mode: EchoMode) -> Seq<u8> {
    match mode {
        EchoMode::Verbatim => d,
        EchoMode::Prefixed => spec_echo_prefix() + d,
    }
}

/// Build the echo answer to one datagram.
pub fn echo_response(datagram: &[u8], mode: EchoMode) -> (r: Vec<u8>)
    ensures
        r@ == spec_echo_response(datagram@, mode),
{
    let mut r = Vec::<u8>::new();
    match mode {
        EchoMode::Verbatim => {},
        EchoMode::Prefixed => {
            r.push(0x61);
            r.push(0x63);
            r.push(0x6b);
            r.push(0x3a);
            proof {
                assert(r@ =~= spec_echo_prefix());
            }
        },
    }
    push_bytes(&mut r, datagram);
    proof {
        assert(r@ =~= spec_echo_response(datagram@, mode));
    }
    r
}

/// Whatever the mode, the echo answer carries the datagram whole: the
/// datagram's bytes are a suffix of the answer (the entire answer in the
/// verbatim variant).
pub proof fn lemma_echo_carries_datagram(d: Seq<u8>, mode: EchoMode)
    ensures
        spec_echo_response(d, mode).len() >= d.len(),
        spec_echo_response(d, mode).subrange(
            spec_echo_response(d, mode).len() - d.len(),
            spec_echo_response(d, mode).len() as int,
        ) == d,
{
    let r = spec_echo_response(d, mode);
    assert(r.subrange(r.len() - d.len(), r.len() as int) =~= d);
}

/// The ALPN identifiers the server offers during the TLS handshake: HTTP/3
/// and its draft versions 32 down to 29, most recent first.
pub open spec fn spec_alpn_protocols() -> Seq<Seq<u8>> {
    seq![
        seq![0x68u8, 0x33u8],
        seq![0x68u8, 0x33u8, 0x2du8, 0x33u8, 0x32u8],
        seq![0x68u8, 0x33u8, 0x2du8, 0x33u8, 0x31u8],
        seq![0x68u8, 0x33u8, 0x2du8, 0x33u8, 0x30u8],
        seq![0x68u8, 0x33u8, 0x2du8, 0x32u8, 0x39u8],
    ]
}

/// The ALPN protocol list, as bytes ready for a TLS configuration: `h3` and
/// `h3-32` through `h3-29`.
pub fn alpn_protocols() -> (r: Vec<Vec<u8>>)
    ensures
        r.deep_view() == spec_alpn_protocols(),
{
    let mut r = Vec::<Vec<u8>>::new();
    let mut p0 = Vec::<u8>::new();
    p0.push(0x68);
    p0.push(0x33);
    r.push(p0);
    let mut p1 = Vec::<u8>::new();
    p1.push(0x68);
    p1.push(0x33);
    p1.push(0x2d);
    p1.push(0x33);
    p1.push(0x32);
    r.push(p1);
    let mut p2 = Vec::<u8>::new();
    p2.push(0x68);
    p2.push(0x33);
    p2.push(0x2d);
    p2.push(0x33);
    p2.push(0x31);
    r.push(p2);
    let mut p3 = Vec::<u8>::new();
    p3.push(0x68);
    p3.push(0x33);
    p3.push(0x2d);
    p3.push(0x33);
    p3.push(0x30);
    r.push(p3);
    let mut p4 = Vec::<u8>::new();
    p4.push(0x68);
    p4.push(0x33);
    p4.push(0x2d);
    p4.push(0x32);
    p4.push(0x39);
    r.push(p4);
    proof {
        assert(r.deep_view() =~~= spec_alpn_protocols());
    }
    r
}

} // verus!
