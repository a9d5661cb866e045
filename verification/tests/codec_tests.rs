use telemetry_log::codec::{extract_payloads, read_be_u64, render_export, render_u64, u64_to_be_bytes};

#[test]
fn be_key_encodes_fixed_width() {
    assert_eq!(u64_to_be_bytes(0), vec![0, 0, 0, 0, 0, 0, 0, 0]);
    assert_eq!(u64_to_be_bytes(258), vec![0, 0, 0, 0, 0, 0, 1, 2]);
    assert_eq!(
        u64_to_be_bytes(u64::MAX),
        vec![255, 255, 255, 255, 255, 255, 255, 255]
    );
}

#[test]
fn be_key_decodes_back() {
    for x in [0u64, 1, 255, 256, 65535, 1 << 40, u64::MAX] {
        let b = u64_to_be_bytes(x);
        assert_eq!(read_be_u64(b.as_slice()), x);
    }
}

#[test]
fn be_key_reads_first_eight_bytes() {
    let b = vec![0, 0, 0, 0, 0, 0, 0, 7, 99, 99];
    assert_eq!(read_be_u64(b.as_slice()), 7);
}

#[test]
fn be_key_order_matches_numeric_order() {
    let mut last = u64_to_be_bytes(0);
    for x in [1u64, 2, 9, 10, 255, 256, 1000, 1 << 20, u64::MAX] {
        let cur = u64_to_be_bytes(x);
        assert!(last.as_slice() < cur.as_slice());
        last = cur;
    }
}

#[test]
fn decimal_rendering() {
    assert_eq!(render_u64(0), b"0".to_vec());
    assert_eq!(render_u64(7), b"7".to_vec());
    assert_eq!(render_u64(1234567890123), b"1234567890123".to_vec());
    assert_eq!(render_u64(u64::MAX), b"18446744073709551615".to_vec());
}

#[test]
fn export_lines_render() {
    let recs: Vec<(u64, Vec<u8>)> = vec![(1, b"a".to_vec()), (2, b"b".to_vec())];
    assert_eq!(render_export(&recs), b"1:a\n2:b\n".to_vec());
}

#[test]
fn export_line_keeps_payload_verbatim() {
    let recs: Vec<(u64, Vec<u8>)> = vec![(12, b"x:y:z".to_vec())];
    assert_eq!(render_export(&recs), b"12:x:y:z\n".to_vec());
}

#[test]
fn import_splits_lines_and_takes_after_first_colon() {
    let out = extract_payloads(b"1:a\n2:b\n");
    assert_eq!(out, vec![b"a".to_vec(), b"b".to_vec()]);
}

#[test]
fn import_keeps_later_colons() {
    let out = extract_payloads(b"7:x:y\n");
    assert_eq!(out, vec![b"x:y".to_vec()]);
}

#[test]
fn import_skips_lines_without_colon() {
    let out = extract_payloads(b"nocolon\n3:ok\n\n");
    assert_eq!(out, vec![b"ok".to_vec()]);
}

#[test]
fn import_handles_missing_final_newline() {
    let out = extract_payloads(b"1:a\n2:b");
    assert_eq!(out, vec![b"a".to_vec(), b"b".to_vec()]);
}

#[test]
fn import_of_empty_input_is_empty() {
    let out = extract_payloads(b"");
    assert!(out.is_empty());
}

#[test]
fn export_then_import_recovers_payloads() {
    let recs: Vec<(u64, Vec<u8>)> = vec![
        (1, b"a".to_vec()),
        (2, b"b".to_vec()),
        (9, b"with:colon".to_vec()),
        (10, b"".to_vec()),
    ];
    let text = render_export(&recs);
    let back = extract_payloads(text.as_slice());
    let expected: Vec<Vec<u8>> = recs.into_iter().map(|(_, p)| p).collect();
    assert_eq!(back, expected);
}
