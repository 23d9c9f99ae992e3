use resc_client::annexb::{extract_param_sets, find_start_codes, split_annexb_nals};

fn nal(start_code: &[u8], nal_type: u8, payload_tail: &[u8]) -> Vec<u8> {
    let mut v = start_code.to_vec();
    v.push((nal_type << 1) & 0xFE);
    v.push(0x01);
    v.extend_from_slice(payload_tail);
    v
}

#[test]
fn splits_mixed_3_and_4_byte_start_codes_and_recovers_types() {
    let mut buf = Vec::new();
    buf.extend(nal(&[0, 0, 0, 1], 32, &[0xAA, 0xBB]));
    buf.extend(nal(&[0, 0, 1], 33, &[0xCC]));
    buf.extend(nal(&[0, 0, 1], 34, &[0xDD, 0xEE, 0xFF]));
    buf.extend(nal(&[0, 0, 0, 1], 19, &[0x11, 0x22]));

    let nals = split_annexb_nals(&buf);
    assert_eq!(nals.iter().map(|n| n.nal_type).collect::<Vec<_>>(), vec![32, 33, 34, 19]);
}

#[test]
fn extract_param_sets_keeps_only_vps_sps_pps_in_order_and_drops_vcl() {
    let mut buf = Vec::new();
    buf.extend(nal(&[0, 0, 0, 1], 32, &[0xAA]));
    buf.extend(nal(&[0, 0, 1], 33, &[0xBB]));
    buf.extend(nal(&[0, 0, 1], 34, &[0xCC]));
    buf.extend(nal(&[0, 0, 0, 1], 19, &[0xDD, 0xDD]));

    let (crafted, types) = extract_param_sets(&buf);
    assert_eq!(types, vec![32, 33, 34]);

    let crafted_types: Vec<u8> = split_annexb_nals(&crafted).into_iter().map(|n| n.nal_type).collect();
    assert_eq!(crafted_types, vec![32, 33, 34], "crafted buffer must carry no VCL NAL");
}

#[test]
fn no_param_sets_yields_empty_crafted_buffer() {
    let mut buf = Vec::new();
    buf.extend(nal(&[0, 0, 0, 1], 19, &[0xDD]));
    let (crafted, types) = extract_param_sets(&buf);
    assert!(crafted.is_empty());
    assert!(types.is_empty());
}

#[test]
fn empty_input_yields_no_nals() {
    assert!(split_annexb_nals(&[]).is_empty());
    let (crafted, types) = extract_param_sets(&[]);
    assert!(crafted.is_empty());
    assert!(types.is_empty());
}

#[test]
fn start_codes_and_ranges_are_exact() {
    // 4-byte code, NAL [0x40, 0x01], 3-byte code, NAL [0x42].
    let buf = [0u8, 0, 0, 1, 0x40, 0x01, 0, 0, 1, 0x42];
    assert_eq!(find_start_codes(&buf), vec![1, 6]);
    let nals = split_annexb_nals(&buf);
    assert_eq!(nals.len(), 2);
    assert_eq!(nals[0].range, 4..6);
    assert_eq!(nals[1].range, 9..10);
    let (crafted, types) = extract_param_sets(&buf);
    assert_eq!(crafted, vec![0, 0, 0, 1, 0x40, 0x01, 0, 0, 0, 1, 0x42]);
    assert_eq!(types, vec![32, 33]);
}

#[test]
fn trailing_start_code_without_payload_is_dropped() {
    let buf = [0u8, 0, 1, 0x40, 0, 0, 1];
    let nals = split_annexb_nals(&buf);
    assert_eq!(nals.len(), 1);
    assert_eq!(nals[0].range, 3..4);
}

#[test]
fn extracted_buffer_resplits_to_reported_types() {
    let mut buf = Vec::new();
    buf.extend(nal(&[0, 0, 1], 1, &[0x10]));
    buf.extend(nal(&[0, 0, 0, 1], 33, &[0x42, 0x00]));
    buf.extend(nal(&[0, 0, 1], 19, &[0x55]));
    buf.extend(nal(&[0, 0, 1], 34, &[]));
    buf.extend(nal(&[0, 0, 0, 1], 32, &[0x7F, 0x00, 0x00, 0x03]));

    let (crafted, types) = extract_param_sets(&buf);
    assert_eq!(types, vec![33, 34, 32]);
    let again: Vec<u8> = split_annexb_nals(&crafted).into_iter().map(|n| n.nal_type).collect();
    assert_eq!(again, types);
}
