use emerald_legacy::console::compress_rle;
use emerald_legacy::rle::{rle_decode, rle_encode};

#[test]
fn rle_short_runs_stay_literal() {
    assert_eq!(rle_encode(&[1, 1, 1, 2]), vec![1, 1, 1, 2]);
}

#[test]
fn rle_long_runs_are_marked() {
    assert_eq!(rle_encode(&[7, 7, 7, 7, 7]), vec![0xFF, 4, 7]);
    assert_eq!(rle_encode(&[0xFF]), vec![0xFF, 0]);
    assert_eq!(rle_encode(&[0xFF, 0xFF, 0xFF, 0xFF]), vec![0xFF, 3, 0xFF]);
}

#[test]
fn rle_runs_are_cut_at_256() {
    let data = vec![9u8; 300];
    assert_eq!(rle_encode(&data), vec![0xFF, 255, 9, 0xFF, 43, 9]);
}

#[test]
fn rle_decode_inverts_encode() {
    let data: Vec<u8> = (0..2000u32).map(|i| if i % 37 < 20 { 0 } else { (i % 251) as u8 }).collect();
    let mut with_markers = data.clone();
    with_markers.extend_from_slice(&[0xFF, 0xFF, 1, 0xFF]);
    for d in [data, with_markers] {
        let enc = rle_encode(&d);
        assert_eq!(rle_decode(&enc, d.len()), d);
    }
}

#[test]
fn rle_decode_pads_and_cuts_to_expected_size() {
    assert_eq!(rle_decode(&[0xFF, 9, 4], 3), vec![4, 4, 4]);
    assert_eq!(rle_decode(&[5], 3), vec![5, 0, 0]);
}

#[test]
fn console_rle_matches_region_rle() {
    let d = vec![0u8, 0, 0, 0, 0xFF, 3, 3, 3, 3, 3, 3, 1];
    assert_eq!(compress_rle(&d), rle_encode(&d));
}
