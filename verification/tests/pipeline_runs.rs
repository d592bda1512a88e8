use quote_feed::pipeline::Pipeline;
use quote_feed::pipeline::PipelineError;
use quote_feed::reader::BlockReader;
use quote_feed::reader::NextBlock;
use quote_feed::record::PacketOrdering;

/// A legacy capture global header, little-endian, Ethernet link type.
fn build_header(network: u32) -> Vec<u8> {
    let mut h = Vec::new();
    h.extend_from_slice(&0xa1b2c3d4u32.to_le_bytes());
    h.extend_from_slice(&2u16.to_le_bytes());
    h.extend_from_slice(&4u16.to_le_bytes());
    h.extend_from_slice(&0i32.to_le_bytes());
    h.extend_from_slice(&0u32.to_le_bytes());
    h.extend_from_slice(&65535u32.to_le_bytes());
    h.extend_from_slice(&network.to_le_bytes());
    h
}

/// One legacy record block, little-endian.
fn build_record(ts_sec: u32, ts_usec: u32, payload: &[u8]) -> Vec<u8> {
    let mut r = Vec::new();
    r.extend_from_slice(&ts_sec.to_le_bytes());
    r.extend_from_slice(&ts_usec.to_le_bytes());
    r.extend_from_slice(&(payload.len() as u32).to_le_bytes());
    r.extend_from_slice(&(payload.len() as u32).to_le_bytes());
    r.extend_from_slice(payload);
    r
}

/// A quote payload whose accept time is the given 8 digits.
fn build_payload(ident: &[u8], accept: &[u8]) -> Vec<u8> {
    let mut p = vec![0u8; 42];
    p.extend_from_slice(ident);
    p.extend_from_slice(b"KR4301F62551");
    p.extend_from_slice(&[b'0'; 12]);
    for _ in 0..5 {
        p.extend_from_slice(b"00001");
        p.extend_from_slice(b"0000002");
    }
    p.extend_from_slice(&[b'0'; 7]);
    for _ in 0..5 {
        p.extend_from_slice(b"00003");
        p.extend_from_slice(b"0000004");
    }
    p.extend_from_slice(&[b'0'; 50]);
    p.extend_from_slice(accept);
    p
}

fn run_capture(data: &[u8], ordering: PacketOrdering, capacity: usize) -> Result<Vec<String>, PipelineError> {
    let mut pipeline = Pipeline::new(ordering, capacity);
    let mut lines: Vec<Vec<u8>> = Vec::new();
    pipeline.feed(data, &mut lines)?;
    pipeline.finish(&mut lines)?;
    Ok(lines.into_iter().map(|l| String::from_utf8(l).unwrap()).collect())
}

#[test]
fn one_record_capture_produces_one_line() {
    let mut data = build_header(1);
    data.extend_from_slice(&build_record(0, 123000, &build_payload(b"B6034", b"09300050")));
    let lines = run_capture(&data, PacketOrdering::Default, 16).unwrap();
    assert_eq!(lines.len(), 1);
    assert!(lines[0].starts_with("09:00:00.123 09:30:00.500 KR4301F62551 "));
    assert!(lines[0].ends_with("\n"));
}

#[test]
fn alien_identifier_produces_no_line() {
    let mut data = build_header(1);
    data.extend_from_slice(&build_record(0, 0, &build_payload(b"XX000", b"09300050")));
    let lines = run_capture(&data, PacketOrdering::Default, 16).unwrap();
    assert_eq!(lines.len(), 0);
}

#[test]
fn non_ethernet_link_type_produces_no_line() {
    let mut data = build_header(101);
    data.extend_from_slice(&build_record(0, 0, &build_payload(b"B6034", b"09300050")));
    let lines = run_capture(&data, PacketOrdering::Default, 16).unwrap();
    assert_eq!(lines.len(), 0);
}

#[test]
fn bounded_window_drains_then_final_drain() {
    // Capacity 2; capture times arrive as t1, t2, t3 with t3 > t1 > t2.
    let mut data = build_header(1);
    let p = build_payload(b"B6034", b"09300050");
    data.extend_from_slice(&build_record(200, 0, &p)); // t1
    data.extend_from_slice(&build_record(100, 0, &p)); // t2
    data.extend_from_slice(&build_record(300, 0, &p)); // t3
    let lines = run_capture(&data, PacketOrdering::Default, 2).unwrap();
    // The third push finds the buffer full: records 1 and 2 leave
    // first, ascending, then the final drain emits record 3.
    assert_eq!(lines.len(), 3);
    assert!(lines[0].starts_with("09:01:40.000 ")); // t2 = 100s
    assert!(lines[1].starts_with("09:03:20.000 ")); // t1 = 200s
    assert!(lines[2].starts_with("09:05:00.000 ")); // t3 = 300s
}

#[test]
fn global_sort_with_large_capacity() {
    let mut data = build_header(1);
    let p = build_payload(b"B6034", b"09300050");
    data.extend_from_slice(&build_record(200, 0, &p));
    data.extend_from_slice(&build_record(100, 0, &p));
    data.extend_from_slice(&build_record(300, 0, &p));
    let lines = run_capture(&data, PacketOrdering::Default, 100).unwrap();
    assert_eq!(lines.len(), 3);
    assert!(lines[0].starts_with("09:01:40.000 "));
    assert!(lines[1].starts_with("09:03:20.000 "));
    assert!(lines[2].starts_with("09:05:00.000 "));
}

#[test]
fn accept_time_ordering_governs_when_selected() {
    let mut data = build_header(1);
    data.extend_from_slice(&build_record(100, 0, &build_payload(b"B6034", b"12000000")));
    data.extend_from_slice(&build_record(200, 0, &build_payload(b"B6034", b"11000000")));
    let lines = run_capture(&data, PacketOrdering::QuoteAcceptTime, 16).unwrap();
    assert_eq!(lines.len(), 2);
    assert!(lines[0].contains(" 11:00:00 "));
    assert!(lines[1].contains(" 12:00:00 "));
}

#[test]
fn stable_order_for_equal_keys() {
    let mut data = build_header(1);
    // Same capture second; distinguishable by accept time.
    data.extend_from_slice(&build_record(100, 0, &build_payload(b"B6034", b"12000000")));
    data.extend_from_slice(&build_record(100, 0, &build_payload(b"B6034", b"11000000")));
    let lines = run_capture(&data, PacketOrdering::Default, 16).unwrap();
    assert_eq!(lines.len(), 2);
    // Equal controlling times keep arrival order.
    assert!(lines[0].contains(" 12:00:00 "));
    assert!(lines[1].contains(" 11:00:00 "));
}

#[test]
fn alien_magic_is_fatal() {
    let mut data = build_header(1);
    data[0] = 0x0a;
    data[1] = 0x0d;
    data[2] = 0x0d;
    data[3] = 0x0a;
    assert_eq!(
        run_capture(&data, PacketOrdering::Default, 16),
        Err(PipelineError::MalformedCapture)
    );
}

#[test]
fn truncated_record_is_fatal() {
    let mut data = build_header(1);
    let rec = build_record(0, 0, &build_payload(b"B6034", b"09300050"));
    data.extend_from_slice(&rec[..rec.len() - 10]);
    assert_eq!(
        run_capture(&data, PacketOrdering::Default, 16),
        Err(PipelineError::MalformedCapture)
    );
}

#[test]
fn overlong_timestamp_fraction_is_fatal() {
    let mut data = build_header(1);
    data.extend_from_slice(&build_record(0, 1000000, &build_payload(b"B6034", b"09300050")));
    assert_eq!(
        run_capture(&data, PacketOrdering::Default, 16),
        Err(PipelineError::BadTimestamp)
    );
}

#[test]
fn reader_asks_for_refill_on_partial_reads() {
    let mut reader = BlockReader::new();
    let header = build_header(1);
    reader.feed(&header[..10]);
    assert!(matches!(reader.next(), NextBlock::NeedMore));
    reader.feed(&header[10..]);
    match reader.next() {
        NextBlock::Header { network } => assert_eq!(network, 1),
        _ => panic!("expected the global header"),
    }
    let rec = build_record(7, 8, b"abcd");
    reader.feed(&rec[..18]);
    assert!(matches!(reader.next(), NextBlock::NeedMore));
    reader.feed(&rec[18..]);
    match reader.next() {
        NextBlock::Record { ts_sec, ts_usec, payload } => {
            assert_eq!(ts_sec, 7);
            assert_eq!(ts_usec, 8);
            assert_eq!(payload, b"abcd".to_vec());
        },
        _ => panic!("expected a record block"),
    }
    reader.close();
    assert!(matches!(reader.next(), NextBlock::Eof));
}

#[test]
fn closed_reader_with_partial_block_is_malformed() {
    let mut reader = BlockReader::new();
    let mut data = build_header(1);
    data.extend_from_slice(&[1, 2, 3]);
    reader.feed(&data);
    assert!(matches!(reader.next(), NextBlock::Header { .. }));
    reader.close();
    assert!(matches!(reader.next(), NextBlock::Malformed));
}

#[test]
fn big_endian_capture_reads_swapped_fields() {
    let mut data = Vec::new();
    data.extend_from_slice(&0xa1b2c3d4u32.to_be_bytes());
    data.extend_from_slice(&2u16.to_be_bytes());
    data.extend_from_slice(&4u16.to_be_bytes());
    data.extend_from_slice(&0i32.to_be_bytes());
    data.extend_from_slice(&0u32.to_be_bytes());
    data.extend_from_slice(&65535u32.to_be_bytes());
    data.extend_from_slice(&1u32.to_be_bytes());
    let p = build_payload(b"B6034", b"09300050");
    data.extend_from_slice(&0u32.to_be_bytes());
    data.extend_from_slice(&123000u32.to_be_bytes());
    data.extend_from_slice(&(p.len() as u32).to_be_bytes());
    data.extend_from_slice(&(p.len() as u32).to_be_bytes());
    data.extend_from_slice(&p);
    let lines = run_capture(&data, PacketOrdering::Default, 16).unwrap();
    assert_eq!(lines.len(), 1);
    assert!(lines[0].starts_with("09:00:00.123 09:30:00.500 KR4301F62551 "));
}

#[test]
fn chunked_feeding_matches_whole_feeding() {
    let mut data = build_header(1);
    let p = build_payload(b"B6034", b"09300050");
    data.extend_from_slice(&build_record(200, 0, &p));
    data.extend_from_slice(&build_record(100, 0, &p));
    let whole = run_capture(&data, PacketOrdering::Default, 16).unwrap();

    let mut pipeline = Pipeline::new(PacketOrdering::Default, 16);
    let mut lines: Vec<Vec<u8>> = Vec::new();
    for chunk in data.chunks(7) {
        pipeline.feed(chunk, &mut lines).unwrap();
    }
    pipeline.finish(&mut lines).unwrap();
    let chunked: Vec<String> =
        lines.into_iter().map(|l| String::from_utf8(l).unwrap()).collect();
    assert_eq!(whole, chunked);
}

#[test]
fn every_buffered_record_is_emitted_at_finish() {
    let mut data = build_header(1);
    let p = build_payload(b"B6034", b"09300050");
    for i in 0..7 {
        data.extend_from_slice(&build_record(100 + i, 0, &p));
    }
    // Capacity 3: two full windows drain early, the final drain must
    // emit the remaining records; nothing is lost.
    let lines = run_capture(&data, PacketOrdering::Default, 3).unwrap();
    assert_eq!(lines.len(), 7);
}

#[test]
fn modified_format_capture_is_fatal() {
    let mut data = build_header(1);
    data[0..4].copy_from_slice(&0xa1b2cd34u32.to_le_bytes());
    data.extend_from_slice(&build_record(0, 0, &build_payload(b"B6034", b"09300050")));
    assert_eq!(
        run_capture(&data, PacketOrdering::Default, 16),
        Err(PipelineError::MalformedCapture)
    );
}

#[test]
fn foreign_link_type_with_crafted_payload_is_skipped() {
    // A link type whose handler inspects the payload byte by byte:
    // the pipeline must not hand the record to it, only skip it.
    let mut data = build_header(252);
    let payload: Vec<u8> = vec![0, 32, 0, 5, 1, 2, 3, 4, 5, 0, 0, 0, 0];
    data.extend_from_slice(&build_record(0, 0, &payload));
    let lines = run_capture(&data, PacketOrdering::Default, 16).unwrap();
    assert_eq!(lines.len(), 0);
}
