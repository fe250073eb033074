use cachybridge::config::{
    default_config_path, ensure_private, generate_pairing_psk, generate_peer_id, loaded_config,
    pairing_token_psk, pairing_token_text, parse_psk, parse_restore_token, peer_id_of,
    validate_display_name, validate_restore_token, BridgeConfig, ConfigError, FileRead, PeerConfig,
    RelativePlacement, RestoreTokenUpdate, RestoreTokenUpdates, UnvalidatedPeer, CONFIG_VERSION,
    MAX_RESTORE_TOKEN_BYTES,
};
use cachybridge::endpoint::{endpoint_from_text, Endpoint};

fn at(text: &str) -> Endpoint {
    endpoint_from_text(text).unwrap()
}

fn keyed_peer(id: &str, name: &str, psk: [u8; 32]) -> PeerConfig {
    match PeerConfig::new(
        id.to_owned(),
        name.to_owned(),
        at("192.168.2.10:45231"),
        at("192.168.2.24:45231"),
        RelativePlacement::Left,
        psk,
    ) {
        Ok(peer) => peer,
        Err(error) => panic!("{error:?}"),
    }
}

fn peer() -> PeerConfig {
    keyed_peer("0123456789abcdef0123456789abcdef", "Left iMac", [7_u8; 32])
}

fn parsed(text: &str) -> BridgeConfig {
    match BridgeConfig::parse(text) {
        Ok(config) => config,
        Err(error) => panic!("{error:?}"),
    }
}

fn rejected(text: &str) -> ConfigError {
    match BridgeConfig::parse(text) {
        Ok(_) => panic!("accepted {text:?}"),
        Err(error) => error,
    }
}

#[test]
fn config_round_trip_preserves_secret_without_rendering_it_in_peer_debug() {
    let mut peer = peer();
    peer.persistent_permissions = true;
    peer.replace_capture_restore_token(Some("capture token value".to_owned())).unwrap();
    peer.replace_remote_restore_token(Some("remote token value".to_owned())).unwrap();
    let config = BridgeConfig {
        schema_version: CONFIG_VERSION,
        local_name: "Primary iMac".to_owned(),
        peers: vec![peer],
    };
    let parsed = parsed(&config.render().unwrap());
    assert!(parsed == config);
    let debug = parsed.peers[0].redacted();
    assert!(debug.contains("<redacted>"));
    assert!(!debug.contains("7, 7"));
    assert!(!debug.contains("capture token value"));
    assert!(!debug.contains("remote token value"));
}

#[test]
fn rejects_invalid_topology_and_unknown_fields() {
    assert!(PeerConfig::new(
        "bad".to_owned(),
        "peer".to_owned(),
        at("192.168.2.10:1"),
        at("192.168.2.24:1"),
        RelativePlacement::Above,
        [1; 32],
    )
    .is_err());
    assert!(BridgeConfig::parse("schema_version=4\n\n[[peer]]\nunknown=x\n").is_err());
}

#[test]
fn re_pairing_a_controlled_endpoint_replaces_the_stale_key() {
    let first = peer();
    let replacement =
        keyed_peer("fedcba9876543210fedcba9876543210", "Re-paired left iMac", [8; 32]);
    let mut config = BridgeConfig::default();
    config.add_peer(first).unwrap();
    config.add_peer(replacement.clone()).unwrap();
    assert!(config.peers == vec![replacement]);
}

#[test]
fn per_peer_persistent_permission_and_opaque_restore_tokens_round_trip() {
    let text = "schema_version=4\n\
        local_name=Primary iMac\n\n\
        [[peer]]\n\
        id=0123456789abcdef0123456789abcdef\n\
        name=Left iMac\n\
        host_endpoint=192.168.2.10:45231\n\
        client_endpoint=192.168.2.24:45231\n\
        placement=left\n\
        persistent_permissions=true\n\
        psk=0707070707070707070707070707070707070707070707070707070707070707\n\
        capture_restore_token=63617074757265\n\
        remote_restore_token=72656d6f7465\n";
    let config = parsed(text);
    assert_eq!(config.local_name, "Primary iMac");
    assert!(config.peers[0].persistent_permissions);
    assert_eq!(config.peers[0].capture_restore_token(), Some("capture"));
    assert_eq!(config.peers[0].remote_restore_token(), Some("remote"));
    assert!(parsed(&config.render().unwrap()) == config);
}

#[test]
fn rejects_invalid_local_name_and_restore_token() {
    let config = BridgeConfig {
        local_name: "contains/slash".to_owned(),
        ..BridgeConfig::default()
    };
    assert!(config.validate().is_err());
    let mut peer = match PeerConfig::new(
        "0123456789abcdef0123456789abcdef".to_owned(),
        "peer".to_owned(),
        at("192.168.2.10:1"),
        at("192.168.2.24:1"),
        RelativePlacement::Right,
        [1; 32],
    ) {
        Ok(peer) => peer,
        Err(error) => panic!("{error:?}"),
    };
    assert!(peer.replace_capture_restore_token(Some("bad\ntoken".to_owned())).is_err());
}

#[test]
fn portal_token_updates_are_targeted_and_can_explicitly_clear() {
    let mut first = peer();
    first.replace_capture_restore_token(Some("old-capture".to_owned())).unwrap();
    first.replace_remote_restore_token(Some("old-remote".to_owned())).unwrap();
    let second = match PeerConfig::new(
        "fedcba9876543210fedcba9876543210".to_owned(),
        "Other iMac".to_owned(),
        at("192.168.2.30:45231"),
        at("192.168.2.31:45231"),
        RelativePlacement::Right,
        [3; 32],
    ) {
        Ok(peer) => peer,
        Err(error) => panic!("{error:?}"),
    };
    let mut config = BridgeConfig {
        schema_version: CONFIG_VERSION,
        local_name: "Primary iMac".to_owned(),
        peers: vec![first, second],
    };
    config
        .apply_restore_token_updates(
            "0123456789abcdef0123456789abcdef",
            RestoreTokenUpdates::both(None, Some("new-remote".to_owned())),
        )
        .unwrap();
    assert_eq!(config.peers[0].capture_restore_token(), None);
    assert_eq!(config.peers[0].remote_restore_token(), Some("new-remote"));
    assert_eq!(config.peers[1].capture_restore_token(), None);
    assert!(
        config.peer("does-not-exist")
            == Err(ConfigError::PeerNotFound("does-not-exist".to_owned()))
    );
    let updates = RestoreTokenUpdates::remote(Some("do-not-log-me".to_owned()));
    assert!(!updates.redacted().contains("do-not-log-me"));
}

#[test]
fn an_update_of_one_token_leaves_the_other() {
    let mut config = BridgeConfig::default();
    config.add_peer(peer()).unwrap();
    let id = "0123456789abcdef0123456789abcdef";
    config
        .apply_restore_token_updates(id, RestoreTokenUpdates::capture(Some("c".to_owned())))
        .unwrap();
    config
        .apply_restore_token_updates(id, RestoreTokenUpdates::remote(Some("r".to_owned())))
        .unwrap();
    assert_eq!(config.peers[0].capture_restore_token(), Some("c"));
    assert_eq!(config.peers[0].remote_restore_token(), Some("r"));
    assert!(config
        .apply_restore_token_updates(id, RestoreTokenUpdates::capture(Some("\n".to_owned())))
        .is_err());
    assert_eq!(config.peers[0].capture_restore_token(), Some("c"));
    assert_eq!(
        config.apply_restore_token_updates("absent", RestoreTokenUpdates::capture(None)),
        Err(ConfigError::PeerNotFound("absent".to_owned()))
    );
    assert_eq!(RestoreTokenUpdate::Unchanged.redacted(), "Unchanged");
}

#[test]
fn a_default_configuration_renders_exactly() {
    let config = BridgeConfig::default();
    assert_eq!(config.render().unwrap(), "schema_version=4\nlocal_name=This computer\n");
    let mut with_peer = config.clone();
    with_peer.add_peer(peer()).unwrap();
    assert_eq!(
        with_peer.render().unwrap(),
        "schema_version=4\nlocal_name=This computer\n\n[[peer]]\n\
         id=0123456789abcdef0123456789abcdef\nname=Left iMac\n\
         host_endpoint=192.168.2.10:45231\nclient_endpoint=192.168.2.24:45231\n\
         placement=left\npersistent_permissions=false\n\
         psk=0707070707070707070707070707070707070707070707070707070707070707\n"
    );
}

#[test]
fn parse_reports_the_line_and_the_reason() {
    assert_eq!(rejected(""), ConfigError::MissingField("schema_version"));
    assert_eq!(rejected("schema_version=3\n"), ConfigError::UnsupportedVersion(3));
    match rejected("schema_version=4\nnonsense\n") {
        ConfigError::Parse { line, .. } => assert_eq!(line, 2),
        other => panic!("{other:?}"),
    }
    match rejected("schema_version=4\n[[peer]]\nid=a\n") {
        ConfigError::MissingField(_) => {}
        other => panic!("{other:?}"),
    }
    let config = parsed("schema_version=4\n# a comment\n\n");
    assert!(config == BridgeConfig::default());
}

#[test]
fn two_peers_cannot_share_an_identifier() {
    let mut other = peer();
    other.client_endpoint = at("192.168.2.99:45231");
    let config = BridgeConfig {
        peers: vec![peer(), other],
        ..BridgeConfig::default()
    };
    assert_eq!(
        config.validate(),
        Err(ConfigError::DuplicatePeerId("0123456789abcdef0123456789abcdef".to_owned()))
    );
}

#[test]
fn a_placement_can_be_changed_by_identifier() {
    let mut config = BridgeConfig::default();
    config.add_peer(peer()).unwrap();
    config
        .set_peer_placement("0123456789abcdef0123456789abcdef", RelativePlacement::Below)
        .unwrap();
    assert_eq!(config.peers[0].placement, RelativePlacement::Below);
    assert_eq!(
        config.set_peer_placement("x", RelativePlacement::Left),
        Err(ConfigError::PeerNotFound("x".to_owned()))
    );
    for (word, placement) in [
        ("left", RelativePlacement::Left),
        ("right", RelativePlacement::Right),
        ("above", RelativePlacement::Above),
        ("below", RelativePlacement::Below),
    ] {
        assert_eq!(RelativePlacement::parse(word), Ok(placement));
        assert_eq!(placement.as_str(), word);
    }
    assert!(RelativePlacement::parse("Left").is_err());
}

#[test]
fn keys_and_tokens_read_back_from_hexadecimal() {
    assert_eq!(parse_psk(&"0a".repeat(32)), Ok([10; 32]));
    assert!(parse_psk("0a").is_err());
    assert_eq!(parse_restore_token("63617074757265", 3), Ok("capture".to_owned()));
    match parse_restore_token("zz", 3) {
        Err(ConfigError::Parse { line, .. }) => assert_eq!(line, 3),
        other => panic!("{other:?}"),
    }
    assert!(validate_restore_token(Some("fine")).is_ok());
    assert!(validate_restore_token(Some("")).is_err());
    assert!(validate_restore_token(Some(&"x".repeat(MAX_RESTORE_TOKEN_BYTES + 1))).is_err());
    assert!(validate_restore_token(None).is_ok());
    assert!(validate_display_name("name", "").is_err());
    assert!(validate_display_name("name", "Left iMac").is_ok());
}

#[test]
fn pairing_tokens_round_trip_and_stay_private() {
    let text = pairing_token_text(&[9; 32]);
    assert_eq!(text, format!("{}\n", "09".repeat(32)));
    assert_eq!(pairing_token_psk(&text, 0o600), Ok([9; 32]));
    assert_eq!(pairing_token_psk(&text, 0o640), Err(ConfigError::InsecurePermissions));
    assert_eq!(ensure_private(0o100600), Ok(()));
    assert_eq!(ensure_private(0o100604), Err(ConfigError::InsecurePermissions));
}

#[test]
fn generated_identifiers_are_thirty_two_hexadecimal_digits() {
    assert_eq!(peer_id_of(&[0xab; 16]), "ab".repeat(16));
    let id = generate_peer_id();
    assert_eq!(id.len(), 32);
    assert!(id.chars().all(|c| c.is_ascii_hexdigit()));
    assert_ne!(id, generate_peer_id());
    assert_ne!(generate_pairing_psk(), generate_pairing_psk());
}

#[test]
fn the_configuration_lives_under_the_configuration_home() {
    assert_eq!(
        default_config_path(Some(b"/etc/xdg".to_vec()), Some(b"/home/u".to_vec())).unwrap(),
        b"/etc/xdg/cachybridge/config.v4".to_vec()
    );
    assert_eq!(
        default_config_path(None, Some(b"/home/u".to_vec())).unwrap(),
        b"/home/u/.config/cachybridge/config.v4".to_vec()
    );
    assert!(default_config_path(None, None).is_err());
}

#[test]
fn a_missing_file_gives_the_default_configuration() {
    assert!(loaded_config(FileRead::Missing) == Ok(BridgeConfig::default()));
    assert!(
        loaded_config(FileRead::Failed("denied".to_owned()))
            == Err(ConfigError::Io("denied".to_owned()))
    );
    let text = "schema_version=4\n".to_owned();
    assert!(
        loaded_config(FileRead::Found { text: text.clone(), mode: 0o644 })
            == Err(ConfigError::InsecurePermissions)
    );
    assert!(
        loaded_config(FileRead::Found { text, mode: 0o600 }) == Ok(BridgeConfig::default())
    );
}

#[test]
fn a_draft_names_the_first_field_it_lacks() {
    let mut draft = UnvalidatedPeer::new();
    draft.set("id", "0123456789abcdef0123456789abcdef", 1).unwrap();
    assert!(draft.set("id", "again", 2).is_err());
    match draft.finish() {
        Err(ConfigError::MissingField(field)) => assert_eq!(field, "peer.name"),
        Err(other) => panic!("{other:?}"),
        Ok(_) => panic!("a draft without a name was accepted"),
    }
}

#[test]
fn errors_read_as_sentences() {
    assert_eq!(
        ConfigError::UnsupportedVersion(3).message(),
        "unsupported config schema version 3"
    );
    assert_eq!(
        ConfigError::PeerNotFound("x".to_owned()).message(),
        "no configured peer with id x"
    );
}

#[test]
fn a_peer_is_logged_without_its_secrets() {
    let mut peer = peer();
    peer.name = "Left \"Desk\"".to_owned();
    let shown = peer.redacted();
    assert!(shown.starts_with(
        "PeerConfig { id: \"0123456789abcdef0123456789abcdef\", name: \"Left \\\"Desk\\\"\", "
    ));
    assert!(shown.contains(", placement: Left, persistent_permissions: false, "));
    assert!(shown.ends_with(
        ", psk: \"<redacted>\", capture_restore_token: None, remote_restore_token: None }"
    ));
    peer.replace_capture_restore_token(Some("hidden".to_owned())).unwrap();
    assert!(peer.redacted().contains("capture_restore_token: Some(\"<redacted>\"), "));
    assert!(!peer.redacted().contains("hidden"));
}
