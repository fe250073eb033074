use cachybridge::config::RelativePlacement;
use cachybridge::endpoint::{endpoint_from_text, IpAddress};
use cachybridge::pairing::{
    base32_symbol, base32_value, checked_endpoint, code_from_bits, decode_fields, decode_grant,
    decode_request, encode_fields, encode_grant, encode_request, generate_code, normalize_code,
    parse_bool, parse_placement, parse_port, require, value, PairGrant, PairRequest, PairingError,
    CODE_SYMBOLS,
};

fn grant() -> PairGrant {
    PairGrant {
        peer_id: "a".repeat(32),
        psk: [7; 32],
        client_name: "Client iMac".into(),
        client_service_port: 45_231,
        placement: RelativePlacement::Left,
        persistent_permissions: true,
    }
}

fn request() -> PairRequest {
    PairRequest {
        host_name: "Primary iMac".into(),
        host_service_port: 45_231,
        placement: RelativePlacement::Above,
        persistent_permissions: false,
    }
}

fn text_fields(pairs: &[(&str, &str)]) -> Vec<(String, String)> {
    pairs.iter().map(|(key, value)| (key.to_string(), value.to_string())).collect()
}

#[test]
fn pairing_codes_normalize_case_and_grouping() {
    let code = generate_code();
    assert_eq!(
        normalize_code(&code).unwrap(),
        normalize_code(&code.to_lowercase()).unwrap()
    );
}

#[test]
fn generated_code_round_trips() {
    let code = generate_code();
    assert_eq!(normalize_code(&code).unwrap().len(), CODE_SYMBOLS);
}

#[test]
fn grant_round_trips_without_leaking_into_debug() {
    let grant = grant();
    let decoded = match decode_grant(&encode_grant(&grant).unwrap()) {
        Ok(decoded) => decoded,
        Err(error) => panic!("{error:?}"),
    };
    assert!(decoded == grant);
}

#[test]
fn codes_spell_five_bits_at_a_time() {
    assert_eq!(code_from_bits(0), "AAAAA");
    assert_eq!(code_from_bits(0x01ff_ffff), "99999");
    assert_eq!(code_from_bits((1 << 20) | (8 << 15) | (13 << 10) | (24 << 5) | 31), "BJP29");
    assert_eq!(code_from_bits(1 << 25), "AAAAA");
    assert_ne!(code_from_bits(1), code_from_bits(2));
    for bits in 0..32_u8 {
        assert_eq!(base32_value(base32_symbol(bits)), Ok(bits));
    }
}

#[test]
fn normalizing_strips_grouping_and_is_idempotent() {
    assert_eq!(normalize_code("ab-c 23"), Ok("ABC23".to_owned()));
    assert_eq!(normalize_code("ABC23"), Ok("ABC23".to_owned()));
    assert_eq!(normalize_code("ABC2"), Err(PairingError::InvalidCode));
    assert_eq!(normalize_code("ABC234"), Err(PairingError::InvalidCode));
    assert_eq!(normalize_code("ABC20"), Err(PairingError::InvalidCode));
    assert_eq!(normalize_code("ABCIO"), Err(PairingError::InvalidCode));
    assert_eq!(normalize_code("ABC2\u{c9}"), Err(PairingError::InvalidCode));
}

#[test]
fn a_request_has_its_exact_text() {
    let bytes = encode_request(&request()).unwrap();
    assert_eq!(
        String::from_utf8(bytes.clone()).unwrap(),
        "CachyBridgePair/1\nkind=request\nhost_name=Primary iMac\nhost_service_port=45231\n\
         placement=above\npersistent_permissions=false\n"
    );
    assert_eq!(decode_request(&bytes), Ok(request()));
    assert_eq!(request().label(), "Primary iMac:45231");
}

#[test]
fn a_grant_has_its_exact_text() {
    let bytes = encode_grant(&grant()).unwrap();
    assert_eq!(
        String::from_utf8(bytes).unwrap(),
        format!(
            "CachyBridgePair/1\nkind=grant\npeer_id={}\npsk={}\nclient_name=Client iMac\n\
             client_service_port=45231\nplacement=left\npersistent_permissions=true\n",
            "a".repeat(32),
            "07".repeat(32)
        )
    );
}

#[test]
fn messages_are_not_confused_with_one_another() {
    let request = encode_request(&request()).unwrap();
    match decode_grant(&request) {
        Err(error) => {
            assert_eq!(error, PairingError::InvalidMessage("unexpected message kind"));
        }
        Ok(_) => panic!("a request was read as a grant"),
    }
    let grant = encode_grant(&grant()).unwrap();
    assert_eq!(
        decode_request(&grant),
        Err(PairingError::InvalidMessage("unexpected message kind"))
    );
}

#[test]
fn malformed_fields_name_their_fault() {
    assert_eq!(decode_fields(&[0xff]), Err(PairingError::InvalidMessage("not UTF-8")));
    assert_eq!(
        decode_fields(b"CachyBridgePair/2\n"),
        Err(PairingError::InvalidMessage("unsupported version"))
    );
    assert_eq!(
        decode_fields(b"CachyBridgePair/1\nnothing\n"),
        Err(PairingError::InvalidMessage("missing separator"))
    );
    for text in ["CachyBridgePair/1\n=v\n", "CachyBridgePair/1\nk=\n", "CachyBridgePair/1\nk=v\nk=w\n"] {
        assert_eq!(
            decode_fields(text.as_bytes()),
            Err(PairingError::InvalidMessage("invalid or duplicate field"))
        );
    }
    let fields = text_fields(&[("kind", "request")]);
    assert_eq!(encode_fields(&fields).unwrap(), b"CachyBridgePair/1\nkind=request\n".to_vec());
    assert_eq!(
        encode_fields(&text_fields(&[("kind", "a=b")])),
        Err(PairingError::InvalidMessage("field contains a separator"))
    );
    assert_eq!(
        encode_fields(&text_fields(&[("kind", &"x".repeat(1_024))])),
        Err(PairingError::MessageTooLarge)
    );
    assert_eq!(value(&fields, "kind"), Ok("request"));
    assert_eq!(
        value(&fields, "psk"),
        Err(PairingError::InvalidMessage("missing required field"))
    );
    assert_eq!(require(&fields, "kind", "request"), Ok(()));
}

#[test]
fn values_are_parsed_strictly() {
    assert_eq!(parse_port("45231"), Ok(45_231));
    assert_eq!(parse_port("0"), Err(PairingError::InvalidPort));
    assert_eq!(parse_port("65536"), Err(PairingError::InvalidMessage("invalid port")));
    assert_eq!(parse_bool("true"), Ok(true));
    assert_eq!(parse_bool("True"), Err(PairingError::InvalidMessage("invalid boolean")));
    assert_eq!(parse_placement("below"), Ok(RelativePlacement::Below));
    assert_eq!(
        parse_placement("beside"),
        Err(PairingError::InvalidMessage("invalid placement"))
    );
}

#[test]
fn endpoints_need_an_address_and_a_port() {
    assert_eq!(
        checked_endpoint(IpAddress::V4([192, 168, 2, 24]), 9),
        Ok(endpoint_from_text("192.168.2.24:9").unwrap())
    );
    assert_eq!(
        checked_endpoint(IpAddress::V4([0; 4]), 9),
        Err(PairingError::UnspecifiedAddress)
    );
    assert_eq!(
        checked_endpoint(IpAddress::V6([0; 8]), 0),
        Err(PairingError::UnspecifiedAddress)
    );
    assert_eq!(
        checked_endpoint(IpAddress::V4([1, 2, 3, 4]), 0),
        Err(PairingError::InvalidPort)
    );
}
