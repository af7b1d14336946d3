use numeral_recognition::{decode_images, decode_labels, ByteReader, DataError, HeaderField};

fn header(words: &[u32]) -> Vec<u8> {
    let mut out = Vec::new();
    for w in words {
        out.extend_from_slice(&w.to_be_bytes());
    }
    out
}

#[test]
fn reader_reads_big_endian_words_and_bytes() {
    let bytes = vec![1u8, 2, 3, 4, 0xff, 7, 8];
    let mut r = ByteReader::new(&bytes);
    assert_eq!(r.read_u32(), Ok(0x0102_0304));
    assert_eq!(r.read_byte(), Ok(0xff));
    assert_eq!(r.read_u32(), Err(DataError::TruncatedInput));
    assert_eq!(r.read_remaining(), vec![7u8, 8]);
    assert_eq!(r.read_remaining(), Vec::<u8>::new());
    assert_eq!(r.read_byte(), Err(DataError::TruncatedInput));
}

#[test]
fn valid_label_file_gives_declared_count() {
    for count in [10000u32, 60000] {
        let mut file = header(&[2049, count]);
        let labels: Vec<u8> = (0..count).map(|i| (i % 10) as u8).collect();
        file.extend_from_slice(&labels);
        let decoded = decode_labels(&file).unwrap();
        assert_eq!(decoded.len(), count as usize);
        assert_eq!(decoded, labels);
    }
}

#[test]
fn valid_image_file_gives_count_rows_columns_bytes() {
    let mut file = header(&[2051, 10000, 28, 28]);
    let pixels: Vec<u8> = (0..10000usize * 784).map(|i| (i % 256) as u8).collect();
    file.extend_from_slice(&pixels);
    let decoded = decode_images(&file).unwrap();
    assert_eq!(decoded.len(), 10000 * 28 * 28);
    assert_eq!(decoded, pixels);
}

#[test]
fn header_without_payload_is_truncated() {
    assert_eq!(decode_labels(&header(&[2049, 60000])), Err(DataError::TruncatedInput));
    assert_eq!(decode_images(&header(&[2051, 60000, 28, 28])), Err(DataError::TruncatedInput));
}

#[test]
fn label_payload_of_wrong_length_is_rejected() {
    let mut short = header(&[2049, 10000]);
    short.extend_from_slice(&vec![1u8; 9999]);
    assert_eq!(decode_labels(&short), Err(DataError::TruncatedInput));
    let mut long = header(&[2049, 10000]);
    long.extend_from_slice(&vec![1u8; 10001]);
    assert_eq!(
        decode_labels(&long),
        Err(DataError::InvalidFormat { field: HeaderField::ItemCount, actual: 10000 })
    );
}

#[test]
fn image_payload_of_wrong_length_is_rejected() {
    let mut short = header(&[2051, 10000, 28, 28]);
    short.extend_from_slice(&vec![0u8; 10000 * 784 - 1]);
    assert_eq!(decode_images(&short), Err(DataError::TruncatedInput));
    let mut long = header(&[2051, 10000, 28, 28]);
    long.extend_from_slice(&vec![0u8; 10000 * 784 + 1]);
    assert_eq!(
        decode_images(&long),
        Err(DataError::InvalidFormat { field: HeaderField::ItemCount, actual: 10000 })
    );
}

#[test]
fn wrong_label_magic_is_invalid_format() {
    let mut file = header(&[1234, 10000]);
    file.extend_from_slice(&[1, 2, 3]);
    assert_eq!(
        decode_labels(&file),
        Err(DataError::InvalidFormat { field: HeaderField::Magic, actual: 1234 })
    );
}

#[test]
fn image_magic_in_label_file_is_invalid_format() {
    let file = header(&[2051, 10000]);
    assert_eq!(
        decode_labels(&file),
        Err(DataError::InvalidFormat { field: HeaderField::Magic, actual: 2051 })
    );
    let file = header(&[2049, 10000, 28, 28]);
    assert_eq!(
        decode_images(&file),
        Err(DataError::InvalidFormat { field: HeaderField::Magic, actual: 2049 })
    );
}

#[test]
fn label_file_truncated_in_header() {
    let full = header(&[2049, 10000]);
    assert_eq!(decode_labels(&full[..6]), Err(DataError::TruncatedInput));
    assert_eq!(decode_labels(&full[..2]), Err(DataError::TruncatedInput));
    assert_eq!(decode_labels(&[]), Err(DataError::TruncatedInput));
}

#[test]
fn image_file_truncated_in_header() {
    let full = header(&[2051, 10000, 28, 28]);
    for cut in [0usize, 3, 7, 11, 15] {
        assert_eq!(decode_images(&full[..cut]), Err(DataError::TruncatedInput));
    }
}

#[test]
fn unusual_item_count_is_invalid_format() {
    assert_eq!(
        decode_labels(&header(&[2049, 5])),
        Err(DataError::InvalidFormat { field: HeaderField::ItemCount, actual: 5 })
    );
    assert_eq!(
        decode_images(&header(&[2051, 20000, 28, 28])),
        Err(DataError::InvalidFormat { field: HeaderField::ItemCount, actual: 20000 })
    );
}

#[test]
fn wrong_image_dimensions_are_invalid_format() {
    assert_eq!(
        decode_images(&header(&[2051, 10000, 27, 28])),
        Err(DataError::InvalidFormat { field: HeaderField::Rows, actual: 27 })
    );
    assert_eq!(
        decode_images(&header(&[2051, 10000, 28, 29])),
        Err(DataError::InvalidFormat { field: HeaderField::Columns, actual: 29 })
    );
}
