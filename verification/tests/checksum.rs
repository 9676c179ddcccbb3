use api_query::my_crc::{checksum_of, checksum_of_chunks, Crc, CrcError, MyCrc};


#[test]
fn checksum_text() {
    assert_eq!(Crc(0).to_string(), "crc:0");
    assert_eq!(Crc(12345).to_string(), "crc:12345");
    assert_eq!(Crc(u64::MAX).to_string(), "crc:18446744073709551615");
}

#[test]
fn checksum_from_text() {
    assert_eq!(Crc::from_str("crc:0"), Ok(Crc(0)));
    assert_eq!(Crc::from_str("crc:12345"), Ok(Crc(12345)));
    assert_eq!(Crc::from_str("crc:+7"), Ok(Crc(7)));
    assert_eq!(Crc::from_str("crc:18446744073709551615"), Ok(Crc(u64::MAX)));
}

#[test]
fn checksum_text_without_colon() {
    assert_eq!(Crc::from_str(""), Err(CrcError::MissingColon));
    assert_eq!(Crc::from_str("crc"), Err(CrcError::MissingColon));
    assert_eq!(Crc::from_str("12345"), Err(CrcError::MissingColon));
}

#[test]
fn checksum_text_with_wrong_prefix() {
    assert_eq!(Crc::from_str(":1"), Err(CrcError::BadPrefix));
    assert_eq!(Crc::from_str("CRC:1"), Err(CrcError::BadPrefix));
    assert_eq!(Crc::from_str("crc32:1"), Err(CrcError::BadPrefix));
    assert_eq!(Crc::from_str(" crc:1"), Err(CrcError::BadPrefix));
    assert_eq!(Crc::from_str("md5:crc:1"), Err(CrcError::BadPrefix));
}

#[test]
fn checksum_text_with_wrong_number() {
    assert_eq!(Crc::from_str("crc:"), Err(CrcError::BadNumber));
    assert_eq!(Crc::from_str("crc:x"), Err(CrcError::BadNumber));
    assert_eq!(Crc::from_str("crc:-1"), Err(CrcError::BadNumber));
    assert_eq!(Crc::from_str("crc:1:2"), Err(CrcError::BadNumber));
    assert_eq!(Crc::from_str("crc:18446744073709551616"), Err(CrcError::BadNumber));
}

#[test]
fn checksum_text_round_trip() {
    for n in [0u64, 1, 10, 0xae8b14860a799888, u64::MAX] {
        assert_eq!(Crc::from_str(&Crc(n).to_string()), Ok(Crc(n)));
    }
}

#[test]
fn checksum_of_the_check_text() {
    assert_eq!(checksum_of::<crc_fast::Digest>(b"123456789"), Crc(0xae8b14860a799888));
}

#[test]
fn checksum_of_nothing() {
    let digest: crc_fast::Digest = MyCrc::new();
    assert_eq!(MyCrc::finalize(digest), Crc(0));
    assert_eq!(checksum_of::<crc_fast::Digest>(b""), Crc(0));
    assert_eq!(checksum_of_chunks::<crc_fast::Digest>(&Vec::new()), Some(Crc(0)));
}

#[test]
fn checksum_differs_with_the_bytes() {
    assert_ne!(checksum_of::<crc_fast::Digest>(b"a"), checksum_of::<crc_fast::Digest>(b"b"));
    assert_ne!(checksum_of::<crc_fast::Digest>(b"ab"), checksum_of::<crc_fast::Digest>(b"ba"));
    assert_ne!(checksum_of::<crc_fast::Digest>(b"a"), Crc(0));
}

#[test]
fn checksum_is_chunk_invariant() {
    let bytes: Vec<u8> = (0..10_000u32).map(|i| (i * 7 + i / 13) as u8).collect();
    let whole = checksum_of::<crc_fast::Digest>(&bytes);
    for size in [1usize, 2, 3, 7, 64, 1000, 9999, 10_000, 20_000] {
        let chunks: Vec<Vec<u8>> = bytes.chunks(size).map(|chunk| chunk.to_vec()).collect();
        let folded = checksum_of_chunks::<crc_fast::Digest>(&chunks);
        assert_eq!(folded, Some(whole), "chunks of {size}");
    }
    let uneven =
        vec![bytes[..1].to_vec(), Vec::new(), bytes[1..5000].to_vec(), bytes[5000..].to_vec()];
    assert_eq!(checksum_of_chunks::<crc_fast::Digest>(&uneven), Some(whole));
}

#[test]
fn digest_folds_byte_by_byte() {
    let mut digest: crc_fast::Digest = MyCrc::new();
    for byte in b"123456789" {
        digest.add(&[*byte]);
    }
    assert_eq!(MyCrc::finalize(digest), Crc(0xae8b14860a799888));
}

#[test]
fn folding_in_parts_is_folding_in_at_once() {
    let mut parts: crc_fast::Digest = MyCrc::new();
    parts.add(b"1234");
    parts.add(b"");
    parts.add(b"56789");
    let mut whole: crc_fast::Digest = MyCrc::new();
    whole.add(b"123456789");
    assert_eq!(MyCrc::finalize(parts), MyCrc::finalize(whole));
}
