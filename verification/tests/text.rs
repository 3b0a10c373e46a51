use custom_tcp::endpoint::{read_port, Endpoint};
use custom_tcp::rendezvous::RendezvousMessage;
use custom_tcp::text::{push_decimal, read_number};

fn spelled(n: u16) -> Vec<u8> {
    let mut out = Vec::new();
    push_decimal(&mut out, n);
    out
}

#[test]
fn decimal_has_no_leading_zeros() {
    assert_eq!(spelled(0), b"0");
    assert_eq!(spelled(7), b"7");
    assert_eq!(spelled(10), b"10");
    assert_eq!(spelled(99), b"99");
    assert_eq!(spelled(100), b"100");
    assert_eq!(spelled(1005), b"1005");
    assert_eq!(spelled(9000), b"9000");
    assert_eq!(spelled(10000), b"10000");
    assert_eq!(spelled(65535), b"65535");
}

#[test]
fn decimal_is_appended() {
    let mut out = b"port ".to_vec();
    push_decimal(&mut out, 5000);
    assert_eq!(out, b"port 5000");
}

#[test]
fn decimal_agrees_with_the_standard_spelling() {
    for n in 0..=u16::MAX {
        assert_eq!(spelled(n), n.to_string().into_bytes());
    }
}

#[test]
fn number_is_read_up_to_the_first_other_byte() {
    assert_eq!(read_number(b"123:", 0, 255), Some((123, 3)));
    assert_eq!(read_number(b"ab42", 2, 255), Some((42, 4)));
    assert_eq!(read_number(b"007", 0, 255), Some((7, 3)));
    assert_eq!(read_number(b"255", 0, 255), Some((255, 3)));
}

#[test]
fn number_needs_a_digit_and_must_fit() {
    assert_eq!(read_number(b"", 0, 255), None);
    assert_eq!(read_number(b"x1", 0, 255), None);
    assert_eq!(read_number(b"12", 2, 255), None);
    assert_eq!(read_number(b"256", 0, 255), None);
    assert_eq!(read_number(b"65536", 0, 65535), None);
    assert_eq!(read_number(b"99999999999999999999", 0, 65535), None);
}

#[test]
fn nothing_is_read_behind_the_end() {
    assert_eq!(read_number(b"12", 3, 255), None);
    assert_eq!(read_port(b"12", 7), None);
    assert_eq!(Endpoint::parse_at(b"1.2.3.4:5", 10), None);
}

#[test]
fn port_may_have_leading_zeros() {
    assert_eq!(read_port(b"65535", 0), Some((65535, 5)));
    assert_eq!(read_port(b"00000000000000000080", 0), Some((80, 20)));
    assert_eq!(read_port(b"0", 0), Some((0, 1)));
}

#[test]
fn endpoint_is_spelled_with_dots_and_colon() {
    assert_eq!(Endpoint::new([10, 0, 0, 5], 5000).to_text(), b"10.0.0.5:5000");
    assert_eq!(Endpoint::new([0, 0, 0, 0], 0).to_text(), b"0.0.0.0:0");
    assert_eq!(
        Endpoint::new([255, 255, 255, 255], 65535).to_text(),
        b"255.255.255.255:65535"
    );
}

#[test]
fn endpoint_is_read_back() {
    assert_eq!(
        Endpoint::parse(b"10.0.0.5:5000"),
        Some(Endpoint { ip: [10, 0, 0, 5], port: 5000 })
    );
    assert_eq!(
        Endpoint::parse(b"255.255.255.255:65535"),
        Some(Endpoint { ip: [255, 255, 255, 255], port: 65535 })
    );
    assert_eq!(Endpoint::parse(b"0.0.0.0:0"), Some(Endpoint { ip: [0, 0, 0, 0], port: 0 }));
    assert_eq!(
        Endpoint::parse(b"192.168.1.20:080"),
        Some(Endpoint { ip: [192, 168, 1, 20], port: 80 })
    );
}

#[test]
fn endpoint_text_round_trip() {
    for endpoint in [
        Endpoint::new([10, 0, 0, 9], 9000),
        Endpoint::new([1, 22, 133, 0], 1),
        Endpoint::new([127, 0, 0, 1], 65535),
        Endpoint::new([9, 99, 100, 255], 10),
    ] {
        assert_eq!(Endpoint::parse(&endpoint.to_text()), Some(endpoint));
    }
}

#[test]
fn endpoint_reading_is_strict_about_octets_and_lenient_about_port_zeros() {
    let good = Some(Endpoint { ip: [10, 0, 0, 5], port: 5000 });
    let cases: [(&str, Option<Endpoint>); 14] = [
        ("10.0.0.5:5000", good),
        ("10.0.0.5:05000", good),
        ("010.0.0.5:5000", None),
        ("10.0.0.5", None),
        ("10.0.0:5000", None),
        ("10.0.0.5.6:5000", None),
        ("256.0.0.5:5000", None),
        ("10.0.0.5:65536", None),
        ("10.0.0.5:", None),
        (":5000", None),
        ("10..0.5:5000", None),
        ("10.0.0.5:5000 ", None),
        (" 10.0.0.5:5000", None),
        ("1000.0.0.5:1", None),
    ];
    for (text, expected) in cases {
        assert_eq!(Endpoint::parse(text.as_bytes()), expected);
    }
}

#[test]
fn endpoint_reading_rejects_malformed_text() {
    assert_eq!(Endpoint::parse(b""), None);
    assert_eq!(Endpoint::parse(b"10.0.0.5"), None);
    assert_eq!(Endpoint::parse(b"10.0.0.5:"), None);
    assert_eq!(Endpoint::parse(b"10.0.0.256:1"), None);
    assert_eq!(Endpoint::parse(b"10.0.0.05:1"), None);
    assert_eq!(Endpoint::parse(b"10.0.0.5:65536"), None);
    assert_eq!(Endpoint::parse(b"10.0.0.5:5000x"), None);
    assert_eq!(Endpoint::parse(b"10.0.0.5::5000"), None);
    assert_eq!(Endpoint::parse(b"10,0,0,5:5000"), None);
    assert_eq!(Endpoint::parse(&[0xff, 0xfe]), None);
}

#[test]
fn endpoint_is_read_inside_a_buffer() {
    assert_eq!(
        Endpoint::parse_at(b"xx10.0.0.5:5000;", 2),
        Some((Endpoint { ip: [10, 0, 0, 5], port: 5000 }, 15))
    );
    assert_eq!(Endpoint::parse_at(b"xx10.0.0.5:5000;", 1), None);
}

#[test]
fn endpoints_compare_by_address_and_port() {
    let a = Endpoint::new([10, 0, 0, 5], 5000);
    assert!(a.equals(&Endpoint::new([10, 0, 0, 5], 5000)));
    assert!(!a.equals(&Endpoint::new([10, 0, 0, 5], 5001)));
    assert!(!a.equals(&Endpoint::new([10, 0, 0, 6], 5000)));
    assert!(!a.equals(&Endpoint::new([11, 0, 0, 5], 5000)));
}

#[test]
fn message_is_spelled_with_two_colons() {
    let message = RendezvousMessage { port: 9000, endpoint: Endpoint::new([10, 0, 0, 5], 5000) };
    assert_eq!(message.to_bytes(), b"9000::10.0.0.5:5000");
}

#[test]
fn message_is_read_back() {
    assert_eq!(
        RendezvousMessage::parse(b"9000::10.0.0.5:5000"),
        Some(RendezvousMessage { port: 9000, endpoint: Endpoint::new([10, 0, 0, 5], 5000) })
    );
    let message = RendezvousMessage { port: 0, endpoint: Endpoint::new([0, 0, 0, 0], 65535) };
    assert_eq!(RendezvousMessage::parse(&message.to_bytes()), Some(message));
}

#[test]
fn message_reading_rejects_malformed_text() {
    assert_eq!(RendezvousMessage::parse(b""), None);
    assert_eq!(RendezvousMessage::parse(b"9000"), None);
    assert_eq!(RendezvousMessage::parse(b"9000:"), None);
    assert_eq!(RendezvousMessage::parse(b"9000::"), None);
    assert_eq!(RendezvousMessage::parse(b"9000:10.0.0.5:5000"), None);
    assert_eq!(RendezvousMessage::parse(b"9000:::10.0.0.5:5000"), None);
    assert_eq!(RendezvousMessage::parse(b"::10.0.0.5:5000"), None);
    assert_eq!(RendezvousMessage::parse(b"70000::10.0.0.5:5000"), None);
    assert_eq!(RendezvousMessage::parse(b"9000::10.0.0.5"), None);
    assert_eq!(RendezvousMessage::parse(b"9000::10.0.0.5:5000\n"), None);
    assert_eq!(RendezvousMessage::parse(b"10.0.0.9:9000::10.0.0.5:5000"), None);
}
