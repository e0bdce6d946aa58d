use mutiny_core::node::{
    connect_peer_outcome, connect_peer_request, parse_peer_info, split_peer_info, ConnectError,
    PeerInfoError,
};

#[test]
fn split_of_pubkey_and_address() {
    let pub_key = "0218845781f631c48f1c9709e23092067d06837f30aa0cd0544ac887fe91ddd166";
    let addr = "127.0.0.1:4000";
    let (peer_pubkey, peer_addr) = split_peer_info(&format!("{}@{addr}", pub_key)).unwrap();
    assert_eq!(pub_key, peer_pubkey);
    assert_eq!(addr, peer_addr);
}

#[test]
fn split_edge_cases() {
    assert_eq!(split_peer_info("a@b"), Ok(("a".to_string(), "b".to_string())));
    assert_eq!(split_peer_info("@"), Ok((String::new(), String::new())));
    assert_eq!(split_peer_info("a@"), Ok(("a".to_string(), String::new())));
    assert_eq!(split_peer_info("@b"), Ok((String::new(), "b".to_string())));
    assert_eq!(split_peer_info("a@b@c"), Ok(("a".to_string(), "b".to_string())));
    assert_eq!(split_peer_info("é@ü:1"), Ok(("é".to_string(), "ü:1".to_string())));
    assert_eq!(split_peer_info("no separator"), Err(PeerInfoError::Format));
    assert_eq!(split_peer_info(""), Err(PeerInfoError::Format));
}

#[test]
fn peer_info_from_its_parts() {
    assert_eq!(parse_peer_info(Some(1u8), Some("addr")), Ok((1u8, "addr")));
    assert_eq!(parse_peer_info(None::<u8>, Some("addr")), Err(PeerInfoError::Pubkey));
    assert_eq!(parse_peer_info(Some(1u8), None::<&str>), Err(PeerInfoError::Address));
    assert_eq!(parse_peer_info(None::<u8>, None::<&str>), Err(PeerInfoError::Address));
}

#[test]
fn connect_request() {
    assert_eq!(connect_peer_request(""), Err(ConnectError::MissingInfo));
    assert_eq!(connect_peer_request("abc"), Err(ConnectError::Invalid(PeerInfoError::Format)));
    assert_eq!(connect_peer_request("k@h:1"), Ok(("k".to_string(), "h:1".to_string())));
    assert_eq!(connect_peer_outcome(true), Ok(()));
    assert_eq!(connect_peer_outcome(false), Err(ConnectError::Unreachable));
}

#[test]
fn errors_in_words() {
    assert_eq!(
        PeerInfoError::Format.message(),
        "ERROR: incorrectly formatted peer info. Should be formatted as: `pubkey@host:port`"
    );
    assert_eq!(
        PeerInfoError::Address.message(),
        "ERROR: couldn't parse pubkey@host:port into a socket address"
    );
    assert_eq!(PeerInfoError::Pubkey.message(), "ERROR: unable to parse given pubkey for node");
    assert_eq!(ConnectError::MissingInfo.message(), "connectpeer requires peer connection info");
    assert_eq!(
        ConnectError::Invalid(PeerInfoError::Pubkey).message(),
        "ERROR: unable to parse given pubkey for node"
    );
    assert_eq!(ConnectError::Unreachable.message(), "could not connect to peer");
}
