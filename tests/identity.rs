use atrius_core::{
    choose_path, ConnectionPath, DiscoveryConfig, PeerAdvertisement, RelayHint, SocketAddress,
    TimeSpan, Timestamp, UserAuthToken,
};

fn ulid() -> u128 {
    ulid::Ulid::new().0
}

fn now() -> Timestamp {
    let t = chrono::Utc::now();
    Timestamp { secs: t.timestamp(), nanos: t.timestamp_subsec_nanos() }
}

fn secs(n: u64) -> TimeSpan {
    TimeSpan { secs: n, nanos: 0 }
}

#[test]
fn auth_token_validity() {
    let now = now();
    let token = UserAuthToken {
        user_id: ulid(),
        issued_at: now,
        expires_at: Timestamp { secs: now.secs + 60, nanos: now.nanos },
        token: vec![1, 2, 3],
    };
    assert!(token.is_valid(now).is_ok());
    assert!(token.is_valid(Timestamp { secs: now.secs + 61, nanos: now.nanos }).is_err());
}

#[test]
fn choose_p2p_if_available() {
    let advert = PeerAdvertisement {
        device_id: ulid(),
        user_id: ulid(),
        session_id: ulid(),
        addresses: vec![SocketAddress::V4 { ip: u32::from_be_bytes([10, 0, 0, 2]), port: 7777 }],
        relays: vec![RelayHint { relay_id: ulid(), url: "wss://relay.example.com".into() }],
        advertised_at: now(),
    };
    let cfg = DiscoveryConfig { prefer_p2p: true, relay_timeout: secs(5), max_advert_age: secs(60) };
    let path = choose_path(&advert, &cfg).unwrap();
    assert!(matches!(path.chosen, Some(ConnectionPath::PeerToPeer(_))));
}

#[test]
fn fall_back_to_relay() {
    let advert = PeerAdvertisement {
        device_id: ulid(),
        user_id: ulid(),
        session_id: ulid(),
        addresses: vec![],
        relays: vec![RelayHint { relay_id: ulid(), url: "wss://relay.example.com".into() }],
        advertised_at: now(),
    };
    let cfg = DiscoveryConfig { prefer_p2p: true, relay_timeout: secs(5), max_advert_age: secs(60) };
    let path = choose_path(&advert, &cfg).unwrap();
    assert!(matches!(path.chosen, Some(ConnectionPath::Relay { .. })));
}
