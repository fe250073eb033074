use cachybridge::discovery::{
    decode_advertisement, encode_advertisement, merge_clients, parse_mdns_output, parse_mdns_text,
    DiscoveredClient, DiscoveryError,
};
use cachybridge::endpoint::endpoint_from_text;

fn client(endpoint: &str, name: &str) -> DiscoveredClient {
    DiscoveredClient {
        endpoint: endpoint_from_text(endpoint).unwrap(),
        name: name.into(),
    }
}

#[test]
fn discovery_payload_never_contains_pairing_secrets() {
    let payload = encode_advertisement(45_232, "Client iMac").unwrap();
    assert_eq!(
        decode_advertisement(&payload),
        Some((45_232, "Client iMac".into()))
    );
    assert!(!String::from_utf8(payload).unwrap().contains("PSK"));
}

#[test]
fn parses_avahi_machine_readable_records() {
    let output = b"=;wlan0;IPv4;CachyBridge\\032Client;_cachybridge._tcp;local;client.local;192.168.2.24;45232;\n";
    assert_eq!(
        parse_mdns_output(output),
        vec![client("192.168.2.24:45232", "CachyBridge Client")]
    );
}

#[test]
fn an_advertisement_has_its_exact_text() {
    assert_eq!(
        encode_advertisement(45_232, "Client iMac").unwrap(),
        b"CachyBridgeDiscovery/1\t45232\tClient iMac".to_vec()
    );
    for (port, name) in [(0, "Client"), (1, ""), (1, "a\tb"), (1, "a\nb"), (1, "a\rb")] {
        assert_eq!(encode_advertisement(port, name), Err(DiscoveryError::InvalidAdvertisement));
    }
    assert!(encode_advertisement(1, &"x".repeat(80)).is_ok());
    assert!(encode_advertisement(1, &"x".repeat(81)).is_err());
}

#[test]
fn foreign_packets_are_ignored() {
    for packet in [
        "CachyBridgeDiscovery/2\t45232\tClient",
        "CachyBridgeDiscovery/1\t0\tClient",
        "CachyBridgeDiscovery/1\t65536\tClient",
        "CachyBridgeDiscovery/1\t45232",
        "CachyBridgeDiscovery/1\t45232\t",
        "CachyBridgeDiscovery/1\t45232\tClient\textra",
    ] {
        assert_eq!(decode_advertisement(packet.as_bytes()), None);
    }
    assert_eq!(decode_advertisement(&[0xff, 0xfe]), None);
}

#[test]
fn unusable_service_records_are_skipped() {
    let listing = "+;wlan0;IPv4;a;_cachybridge._tcp;local;h;192.168.2.1;1;\n\
        =;wlan0;IPv4;a;_other._tcp;local;h;192.168.2.1;1;\n\
        =;lo;IPv4;a;_cachybridge._tcp;local;h;127.0.0.1;1;\n\
        =;wlan0;IPv6;a;_cachybridge._tcp;local;h;fe80::1;1;\n\
        =;wlan0;IPv4;a;_cachybridge._tcp;local;h;192.168.2.1;0;\n\
        =;wlan0;IPv6;b\\032c\\032d;_cachybridge._tcp;local;h;2001:db8::7;77;\"k\"\n";
    assert_eq!(parse_mdns_text(listing), vec![client("[2001:db8::7]:77", "b c d")]);
}

#[test]
fn undecodable_bytes_in_a_listing_are_replaced() {
    let mut listing = b"=;w;IPv4;a".to_vec();
    listing.push(0xff);
    listing.extend_from_slice(b"b;_cachybridge._tcp;local;h;192.168.2.1;5;\n");
    assert_eq!(parse_mdns_output(&listing), vec![client("192.168.2.1:5", "a\u{fffd}b")]);
}

#[test]
fn later_answers_replace_earlier_ones_and_are_sorted() {
    assert_eq!(
        merge_clients(vec![
            client("192.168.2.9:1", "nine"),
            client("192.168.2.2:1", "old"),
            client("192.168.2.2:1", "new"),
        ]),
        vec![client("192.168.2.2:1", "new"), client("192.168.2.9:1", "nine")]
    );
}
