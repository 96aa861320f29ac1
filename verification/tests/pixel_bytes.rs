use sample_range::pixels::{bgra_to_rgba, spirv_words, uploaded_count};

#[test]
fn readback_swaps_red_and_blue() {
    let raw = [1u8, 2, 3, 4, 5, 6, 7, 8, 99];
    assert_eq!(bgra_to_rgba(&raw, 2, 1), vec![3, 2, 1, 4, 7, 6, 5, 8]);
    let back = bgra_to_rgba(&bgra_to_rgba(&raw, 2, 1), 2, 1);
    assert_eq!(back, raw[..8].to_vec());
    assert!(bgra_to_rgba(&raw, 0, 5).is_empty());
}

#[test]
fn spirv_words_little_endian() {
    let bytes = [0x03u8, 0x02, 0x23, 0x07, 0x00, 0x00, 0x01, 0x00, 0xff];
    assert_eq!(spirv_words(&bytes), vec![0x0723_0203, 0x0001_0000]);
    for chunk in bytes.chunks_exact(4).zip(spirv_words(&bytes)) {
        assert_eq!(u32::from_le_bytes([chunk.0[0], chunk.0[1], chunk.0[2], chunk.0[3]]), chunk.1);
    }
    assert!(spirv_words(&[1, 2, 3]).is_empty());
}

#[test]
fn uploaded_count_cuts_at_capacity() {
    assert_eq!(uploaded_count(10, 36, 1024), 10);
    assert_eq!(uploaded_count(100, 36, 1024), 28);
    assert_eq!(uploaded_count(0, 36, 1024), 0);
}
