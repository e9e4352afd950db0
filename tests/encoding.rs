use bounded_vec::{count_from_head, decode_len, encode_counted, may_append};
use parity_scale_codec::Encode;

#[test]
fn encode_counted_matches_vec_encoding() {
    let items: Vec<u32> = vec![1, 2, 3];
    let parts: Vec<Vec<u8>> = items.iter().map(|x| x.encode()).collect();
    assert_eq!(encode_counted(&parts), items.encode());
    assert_eq!(encode_counted(&Vec::new()), vec![0u8]);
}

#[test]
fn decode_len_reads_the_count_alone() {
    for k in [0usize, 1, 63, 64, 300, 16383, 16384, 70000] {
        let parts: Vec<Vec<u8>> = (0..k).map(|i| vec![(i % 256) as u8]).collect();
        let bytes = encode_counted(&parts);
        assert_eq!(decode_len(&bytes).unwrap(), k);
    }
    assert_eq!(decode_len(&[0x0c, 0xff]).unwrap(), 3);
    assert_eq!(decode_len(&[0x01, 0x01]).unwrap(), 64);
}

#[test]
fn decode_len_rejects_malformed_heads() {
    assert!(decode_len(&[]).is_err());
    assert!(decode_len(&[0x01]).is_err());
    assert!(decode_len(&[0x05, 0x00]).is_err());
    assert!(decode_len(&[0x02, 0x00, 0x00]).is_err());
    assert!(decode_len(&[0x07, 0, 0, 0, 0]).is_err());
    assert!(decode_len(&[0x03, 1, 0, 0, 0]).is_err());
}

#[test]
fn count_from_head_uses_stored_length() {
    let head = [0x0cu8, 0, 0, 0, 0];
    assert_eq!(count_from_head(None, &head).unwrap(), 0);
    assert_eq!(count_from_head(Some(13), &head).unwrap(), 3);
    let wide = [0x01u8, 0x01, 0, 0, 0];
    assert_eq!(count_from_head(Some(2), &wide).unwrap(), 64);
    assert!(count_from_head(Some(1), &wide).is_err());
    assert!(count_from_head(Some(0), &head).is_err());
}

#[test]
fn may_append_checks_the_bound() {
    let head = [0x08u8, 0, 0, 0, 0];
    assert!(may_append(3, Some(9), &head));
    assert!(!may_append(2, Some(9), &head));
    assert!(may_append(1, None, &head));
    assert!(!may_append(0, None, &head));
    assert!(!may_append(5, Some(1), &[0x01, 0, 0, 0, 0]));
}
