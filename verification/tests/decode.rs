use quote_feed::record::DecodeError;
use quote_feed::record::LinkPayload;
use quote_feed::record::PacketDataWithTime;
use quote_feed::record::PacketOrdering;
use quote_feed::record::QuotePacket;
use quote_feed::times::normalize_capture_time;
use quote_feed::times::TimeOfDay;
use quote_feed::line::format_line;

fn bid_price(i: usize) -> Vec<u8> {
    format!("0010{}", i).into_bytes()
}

fn bid_qty(i: usize) -> Vec<u8> {
    format!("000020{}", i).into_bytes()
}

fn ask_price(i: usize) -> Vec<u8> {
    format!("0030{}", i).into_bytes()
}

fn ask_qty(i: usize) -> Vec<u8> {
    format!("000040{}", i).into_bytes()
}

/// A full 256-byte quote payload behind a 42-byte frame prefix, with
/// deterministic digit strings in every field.
fn build_payload(ident: &[u8], issue: &[u8], accept: &[u8]) -> Vec<u8> {
    assert_eq!(ident.len(), 5);
    assert_eq!(issue.len(), 12);
    assert_eq!(accept.len(), 8);
    let mut p = vec![0u8; 42];
    p.extend_from_slice(ident);
    p.extend_from_slice(issue);
    p.extend_from_slice(&[b'0'; 12]);
    for i in 0..5 {
        p.extend_from_slice(&bid_price(i));
        p.extend_from_slice(&bid_qty(i));
    }
    p.extend_from_slice(&[b'0'; 7]);
    for i in 0..5 {
        p.extend_from_slice(&ask_price(i));
        p.extend_from_slice(&ask_qty(i));
    }
    p.extend_from_slice(&[b'0'; 50]);
    p.extend_from_slice(accept);
    assert_eq!(p.len(), 256);
    p
}

fn capture_time() -> TimeOfDay {
    normalize_capture_time(0, 123456).unwrap()
}

fn decode(payload: Vec<u8>) -> Result<QuotePacket, DecodeError> {
    QuotePacket::try_from(PacketDataWithTime {
        data: LinkPayload::Ether(payload),
        packet_timestamp: capture_time(),
        ordering: PacketOrdering::Default,
    })
}

#[test]
fn valid_payload_fields_match_offsets() {
    let p = build_payload(b"B6034", b"KR4301F62551", b"09300050");
    let q = decode(p.clone()).unwrap();
    assert_eq!(q.issue_code, p[47..59].to_vec());
    assert_eq!(q.issue_code, b"KR4301F62551".to_vec());
    for i in 0..5 {
        assert_eq!(q.bid_prices[i], bid_price(i));
        assert_eq!(q.bid_quantities[i], bid_qty(i));
        assert_eq!(q.ask_prices[i], ask_price(i));
        assert_eq!(q.ask_quantities[i], ask_qty(i));
    }
    assert_eq!(q.quote_accept_time.hour, 9);
    assert_eq!(q.quote_accept_time.minute, 30);
    assert_eq!(q.quote_accept_time.second, 0);
    assert_eq!(q.quote_accept_time.micro, 500000);
}

#[test]
fn marker_mismatch_yields_no_record() {
    let p = build_payload(b"XX000", b"KR4301F62551", b"09300050");
    assert_eq!(decode(p).err(), Some(DecodeError::NotQuote));
}

#[test]
fn non_ethernet_payload_rejected() {
    let r = QuotePacket::try_from(PacketDataWithTime {
        data: LinkPayload::Other,
        packet_timestamp: capture_time(),
        ordering: PacketOrdering::Default,
    });
    assert_eq!(r.err().unwrap(), DecodeError::NotEthernetFramed);
}

#[test]
fn short_payload_rejected() {
    assert_eq!(decode(vec![0u8; 40]).err(), Some(DecodeError::TooShort));
    let mut p = build_payload(b"B6034", b"KR4301F62551", b"09300050");
    p.truncate(200);
    assert_eq!(decode(p).err(), Some(DecodeError::TooShort));
}

#[test]
fn non_ascii_field_rejected() {
    let mut p = build_payload(b"B6034", b"KR4301F62551", b"09300050");
    p[50] = 0xff;
    assert_eq!(decode(p).err(), Some(DecodeError::BadText));
}

#[test]
fn non_digit_accept_time_rejected() {
    let mut p = build_payload(b"B6034", b"KR4301F62551", b"09300050");
    p[250] = b'x';
    assert_eq!(decode(p).err(), Some(DecodeError::BadAcceptTime));
}

#[test]
fn impossible_accept_time_rejected() {
    let p = build_payload(b"B6034", b"KR4301F62551", b"25300050");
    assert_eq!(decode(p).err(), Some(DecodeError::BadAcceptTime));
}

#[test]
fn round_trip_line_reproduces_fields() {
    let p = build_payload(b"B6034", b"KR4301F62551", b"09300050");
    let q = decode(p).unwrap();
    let line = format_line(&q);
    let text = String::from_utf8(line).unwrap();
    let expected = "09:00:00.123 09:30:00.500 KR4301F62551 \
        0000204@00104 0000203@00103 0000202@00102 0000201@00101 0000200@00100 \
        0000400@00300 0000401@00301 0000402@00302 0000403@00303 0000404@00304\n";
    assert_eq!(text, expected);
}

#[test]
fn accept_time_without_fraction_renders_plain() {
    let p = build_payload(b"B6034", b"KR4301F62551", b"10050700");
    let q = decode(p).unwrap();
    let text = String::from_utf8(format_line(&q)).unwrap();
    assert!(text.starts_with("09:00:00.123 10:05:07 KR4301F62551 "));
}

#[test]
fn normalize_shifts_to_target_zone() {
    let t = normalize_capture_time(0, 0).unwrap();
    assert_eq!((t.hour, t.minute, t.second, t.micro), (9, 0, 0, 0));
    // 2011-02-16 00:00:00 UTC is 09:00:00 in the target zone.
    let t = normalize_capture_time(1297814400, 999999).unwrap();
    assert_eq!((t.hour, t.minute, t.second, t.micro), (9, 0, 0, 999999));
    // Midnight wraps.
    let t = normalize_capture_time(15 * 3600, 0).unwrap();
    assert_eq!((t.hour, t.minute, t.second), (0, 0, 0));
}

#[test]
fn normalize_rejects_unrepresentable() {
    assert!(normalize_capture_time(-1, 0).is_err());
    assert!(normalize_capture_time(0, 1000000).is_err());
}

#[test]
fn comparison_follows_ordering_mode() {
    let p = build_payload(b"B6034", b"KR4301F62551", b"09300050");
    let q1 = decode(p.clone()).unwrap();
    let mut q2 = decode(p).unwrap();
    q2.packet_time.hour = 23;
    // Capture-time order: q1 earlier.
    assert!(q1.le(&q2));
    assert!(!q2.le(&q1));
    // Accept-time order: equal accept times compare equal both ways.
    let mut a1 = q1;
    let mut a2 = q2;
    a1.ordering = PacketOrdering::QuoteAcceptTime;
    a2.ordering = PacketOrdering::QuoteAcceptTime;
    assert!(a1.le(&a2));
    assert!(a2.le(&a1));
}
