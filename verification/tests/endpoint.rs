use cachybridge::endpoint::{
    comes_before, endpoint_from_text, parse_ip, push_endpoint, Endpoint, IpAddress,
};

fn written(endpoint: &Endpoint) -> String {
    let mut text = String::new();
    push_endpoint(&mut text, endpoint);
    text
}

fn ip(text: &str) -> Option<IpAddress> {
    let chars: Vec<char> = text.chars().collect();
    parse_ip(&chars)
}

#[test]
fn canonical_endpoints_are_written_as_they_were_read() {
    for text in [
        "0.0.0.0:0",
        "192.168.2.24:45231",
        "255.255.255.255:65535",
        "[::]:1",
        "[::1]:45231",
        "[2001:db8::1]:80",
        "[2001:db8:0:1:1:1:1:1]:80",
        "[fe80::1%3]:80",
        "[1:0:0:2::3]:9",
        "[::ffff:192.168.1.1]:7",
    ] {
        let endpoint = endpoint_from_text(text).unwrap();
        assert_eq!(written(&endpoint), text);
        assert_eq!(endpoint_from_text(&written(&endpoint)), Some(endpoint));
    }
}

#[test]
fn only_well_formed_endpoints_are_read() {
    for text in [
        "",
        "1.2.3.4",
        "1.2.3:4",
        "1.2.3.4:65536",
        "1.2.3.4:+1",
        "01.2.3.4:5",
        "1.2.3.256:5",
        "::1:80",
        "[::1]",
        "[1:2:3:4:5:6:7]:8",
        "[1:2:3:4:5:6:7:8:9]:8",
        "[1::2::3]:8",
        "[12345::]:8",
        "[::1%x]:8",
    ] {
        assert_eq!(endpoint_from_text(text), None, "{text}");
    }
    for (text, canonical) in [
        ("[1:2:3:4:5:6:1.2.3.4]:8", "[1:2:3:4:5:6:102:304]:8"),
        ("[::FFFF]:8", "[::ffff]:8"),
        ("1.2.3.4:005", "1.2.3.4:5"),
        ("[0:0:0:0:0:0:0:1]:9", "[::1]:9"),
        ("[1:0:0:2:0:0:0:3]:9", "[1:0:0:2::3]:9"),
    ] {
        assert_eq!(written(&endpoint_from_text(text).unwrap()), canonical);
    }
}

#[test]
fn addresses_are_classified() {
    assert_eq!(ip("10.0.0.1"), Some(IpAddress::V4([10, 0, 0, 1])));
    assert_eq!(ip("::1"), Some(IpAddress::V6([0, 0, 0, 0, 0, 0, 0, 1])));
    assert_eq!(ip("10.0.0"), None);
    let at = |text: &str| endpoint_from_text(text).unwrap();
    assert!(at("127.9.9.9:1").ip().is_loopback());
    assert!(at("[::1]:1").ip().is_loopback());
    assert!(!at("[::2]:1").ip().is_loopback());
    assert!(at("0.0.0.0:1").ip().is_unspecified());
    assert!(at("[fe80::1]:1").ip().is_v6_link_local());
    assert!(at("[febf::1]:1").ip().is_v6_link_local());
    assert!(!at("[fec0::1]:1").ip().is_v6_link_local());
    assert_eq!(at("1.2.3.4:1").ip().with_port(9), at("1.2.3.4:9"));
    assert_eq!(at("[::1%4]:1").ip().with_port(9), at("[::1]:9"));
    assert!(at("[::1]:1").same(&at("[0:0::1]:1")));
    assert!(!at("[::1]:1").same(&at("[::1]:2")));
}

#[test]
fn endpoints_are_ordered_by_family_then_address_then_port() {
    let ascending = ["1.2.3.4:5", "1.2.3.4:6", "1.2.4.0:1", "[::1]:1", "[::1]:2", "[1::]:0"];
    for (i, a) in ascending.iter().enumerate() {
        for (j, b) in ascending.iter().enumerate() {
            assert_eq!(
                comes_before(&endpoint_from_text(a).unwrap(), &endpoint_from_text(b).unwrap()),
                i < j
            );
        }
    }
}

#[test]
fn flow_information_tells_endpoints_apart_but_is_not_written() {
    let plain = endpoint_from_text("[fe80::1%3]:9").unwrap();
    let marked = match plain {
        Endpoint::V6 { segments, scope_id, port, .. } => {
            Endpoint::V6 { segments, flowinfo: 7, scope_id, port }
        }
        Endpoint::V4 { .. } => unreachable!(),
    };
    assert!(!plain.same(&marked));
    assert!(comes_before(&plain, &marked));
    assert_eq!(written(&marked), "[fe80::1%3]:9");
}
