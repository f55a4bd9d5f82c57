use majiix_backend::session::alpn_protocols;
use majiix_backend::session::connection_step;
use majiix_backend::session::echo_response;
use majiix_backend::session::get_asset_id;
use majiix_backend::session::resolve_session_asset;
use majiix_backend::session::ConnAction;
use majiix_backend::session::ConnEvent;
use majiix_backend::session::ConnState;
use majiix_backend::session::EchoMode;
use majiix_backend::session::PathError;

#[test]
fn asset_is_third_nonempty_segment() {
    assert_eq!(get_asset_id("/live/room42/cam1").unwrap(), "cam1");
    assert_eq!(get_asset_id("/rooms/12/alice/extra").unwrap(), "alice");
    assert_eq!(get_asset_id("a/b/c").unwrap(), "c");
    assert_eq!(get_asset_id("//a///b//c//").unwrap(), "c");
}

#[test]
fn short_path_is_rejected() {
    assert_eq!(get_asset_id("/live"), Err(PathError::TooFewSegments));
    assert_eq!(get_asset_id("/live/room42"), Err(PathError::TooFewSegments));
    assert_eq!(get_asset_id(""), Err(PathError::TooFewSegments));
    assert_eq!(get_asset_id("///"), Err(PathError::TooFewSegments));
}

#[test]
fn resolve_decodes_percent_escapes() {
    // %31 is the digit 1: an identity decoder would yield "cam%31" here.
    assert_eq!(
        resolve_session_asset("/live/room42/cam%31").unwrap(),
        "cam1"
    );
    assert_eq!(resolve_session_asset("/live/room42/cam1").unwrap(), "cam1");
}

#[test]
fn resolve_rejects_undecodable_paths() {
    // %ff is not valid UTF-8 once decoded.
    assert_eq!(
        resolve_session_asset("/live/room42/cam%ff"),
        Err(PathError::InvalidEncoding)
    );
}

#[test]
fn resolve_rejects_short_decoded_paths() {
    assert_eq!(
        resolve_session_asset("/live%2Fonly"),
        Err(PathError::TooFewSegments)
    );
}

#[test]
fn connect_with_webtransport_upgrades_until_the_cap() {
    let mut s = ConnState::new(1);
    let connect = ConnEvent::Request { is_connect: true, is_webtransport: true };
    assert_eq!(connection_step(&mut s, &connect), ConnAction::AcceptSession);
    assert_eq!(s.sessions_accepted, 1);
    // The single-session cap: a second upgrade request is ignored.
    assert_eq!(connection_step(&mut s, &connect), ConnAction::Ignore);
    assert_eq!(s.sessions_accepted, 1);
}

#[test]
fn other_requests_are_observed_and_ignored() {
    let mut s = ConnState::new(1);
    let plain = ConnEvent::Request { is_connect: false, is_webtransport: false };
    let connect_only = ConnEvent::Request { is_connect: true, is_webtransport: false };
    assert_eq!(connection_step(&mut s, &plain), ConnAction::Ignore);
    assert_eq!(connection_step(&mut s, &connect_only), ConnAction::Ignore);
    assert_eq!(s.sessions_accepted, 0);
}

#[test]
fn errors_and_end_of_requests() {
    let mut s = ConnState::new(1);
    assert_eq!(connection_step(&mut s, &ConnEvent::StreamError), ConnAction::Ignore);
    assert_eq!(connection_step(&mut s, &ConnEvent::NoMoreRequests), ConnAction::Stop);
    assert_eq!(connection_step(&mut s, &ConnEvent::ConnectionError), ConnAction::Stop);
}

#[test]
fn echo_verbatim_returns_the_datagram() {
    assert_eq!(echo_response(b"ping", EchoMode::Verbatim), b"ping".to_vec());
}

#[test]
fn echo_prefixed_keeps_the_datagram_as_suffix() {
    let r = echo_response(b"ping", EchoMode::Prefixed);
    assert_eq!(r, b"ack:ping".to_vec());
    assert!(r.ends_with(b"ping"));
}

#[test]
fn alpn_list_is_h3_and_drafts() {
    let alpn = alpn_protocols();
    let expected: Vec<Vec<u8>> = vec![
        b"h3".to_vec(),
        b"h3-32".to_vec(),
        b"h3-31".to_vec(),
        b"h3-30".to_vec(),
        b"h3-29".to_vec(),
    ];
    assert_eq!(alpn, expected);
}
