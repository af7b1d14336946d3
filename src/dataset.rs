use vstd::prelude::*;
use crate::error::{DataError, HeaderField};
use crate::reader::{be_u32_at, ByteReader};

verus! {

/// Magic number that opens a label file.
pub const LABEL_MAGIC: u32 = 2049;
/// Magic number that opens an image file.
pub const IMAGE_MAGIC: u32 = 2051;
/// Rows and columns of every image.
pub const IMAGE_SIDE: u32 = 28;
/// Number of items in the evaluation set.
pub const TEST_SET_SIZE: u32 = 10000;
/// Number of items in the training set.
pub const TRAINING_SET_SIZE: u32 = 60000;

pub open spec fn valid_item_count(n: int) -> bool {
    n == TEST_SET_SIZE || n == TRAINING_SET_SIZE
}

/// What decoding a label file of bytes `s` gives.
pub open spec fn label_decoding(s: Seq<u8>) -> Result<Seq<u8>, DataError> {
    if s.len() < 4 {
        Err(DataError::TruncatedInput)
    } else if be_u32_at(s, 0) != LABEL_MAGIC {
        Err(DataError::InvalidFormat { field: HeaderField::Magic, actual: be_u32_at(s, 0) as u32 })
    } else if s.len() < 8 {
        Err(DataError::TruncatedInput)
    } else if !valid_item_count(be_u32_at(s, 4)) {
        Err(DataError::InvalidFormat { field: HeaderField::ItemCount, actual: be_u32_at(s, 4) as u32 })
    } else {
        payload_of_length(s, 8, be_u32_at(s, 4))
    }
}

/// What decoding an image file of bytes `s` gives.
pub open spec fn image_decoding(s: Seq<u8>) -> Result<Seq<u8>, DataError> {
    if s.len() < 4 {
        Err(DataError::TruncatedInput)
    } else if be_u32_at(s, 0) != IMAGE_MAGIC {
        Err(DataError::InvalidFormat { field: HeaderField::Magic, actual: be_u32_at(s, 0) as u32 })
    } else if s.len() < 8 {
        Err(DataError::TruncatedInput)
    } else if !valid_item_count(be_u32_at(s, 4)) {
        Err(DataError::InvalidFormat { field: HeaderField::ItemCount, actual: be_u32_at(s, 4) as u32 })
    } else if s.len() < 12 {
        Err(DataError::TruncatedInput)
    } else if be_u32_at(s, 8) != IMAGE_SIDE {
        Err(DataError::InvalidFormat { field: HeaderField::Rows, actual: be_u32_at(s, 8) as u32 })
    } else if s.len() < 16 {
        Err(DataError::TruncatedInput)
    } else if be_u32_at(s, 12) != IMAGE_SIDE {
        Err(DataError::InvalidFormat { field: HeaderField::Columns, actual: be_u32_at(s, 12) as u32 })
    } else {
        payload_of_length(s, 16, be_u32_at(s, 4) * IMAGE_SIDE * IMAGE_SIDE)
    }
}

/// The bytes of `s` after a header of `header_len` bytes, which must number
/// exactly `expected`: fewer is a truncated file, more contradicts the item
/// count at offset 4.
pub open spec fn payload_of_length(s: Seq<u8>, header_len: int, expected: int) -> Result<
    Seq<u8>,
    DataError,
> {
    if s.len() - header_len < expected {
        Err(DataError::TruncatedInput)
    } else if s.len() - header_len > expected {
        Err(DataError::InvalidFormat { field: HeaderField::ItemCount, actual: be_u32_at(s, 4) as u32 })
    } else {
        Ok(s.subrange(header_len, s.len() as int))
    }
}

/// A well-formed label file: a valid header followed by exactly the declared
/// number of labels.
pub open spec fn is_valid_label_file(s: Seq<u8>) -> bool {
    &&& s.len() >= 8
    &&& be_u32_at(s, 0) == LABEL_MAGIC
    &&& valid_item_count(be_u32_at(s, 4))
    &&& s.len() - 8 == be_u32_at(s, 4)
}

/// A well-formed image file: a valid header followed by exactly
/// `item count * rows * columns` pixel bytes.
pub open spec fn is_valid_image_file(s: Seq<u8>) -> bool {
    &&& s.len() >= 16
    &&& be_u32_at(s, 0) == IMAGE_MAGIC
    &&& valid_item_count(be_u32_at(s, 4))
    &&& be_u32_at(s, 8) == IMAGE_SIDE
    &&& be_u32_at(s, 12) == IMAGE_SIDE
    &&& s.len() - 16 == be_u32_at(s, 4) * be_u32_at(s, 8) * be_u32_at(s, 12)
}

pub open spec fn result_view(r: Result<Vec<u8>, DataError>) -> Result<Seq<u8>, DataError> {
    match r {
        Ok(v) => Ok(v@),
        Err(e) => Err(e),
    }
}

proof fn lemma_be_u32_shift(s: Seq<u8>, k: int, i: int)
    requires
        0 <= k,
        0 <= i,
        k <= s.len(),
    ensures
        k + i + 4 <= s.len() ==> be_u32_at(s.subrange(k, s.len() as int), i) == be_u32_at(s, k + i),
{
}

/// Checks a label file's header and returns the label bytes that follow it,
/// which must number exactly the declared item count.
pub fn decode_labels(bytes: &[u8]) -> (r: Result<Vec<u8>, DataError>)
    ensures
        result_view(r) == label_decoding(bytes@),
{
    let mut reader = ByteReader::new(bytes);
    let magic = reader.read_u32()?;
    if magic != LABEL_MAGIC {
        return Err(DataError::InvalidFormat { field: HeaderField::Magic, actual: magic });
    }
    proof { lemma_be_u32_shift(bytes@, 4, 0); }
    let count = reader.read_u32()?;
    if count != TEST_SET_SIZE && count != TRAINING_SET_SIZE {
        return Err(DataError::InvalidFormat { field: HeaderField::ItemCount, actual: count });
    }
    let left = reader.remaining_len();
    if left < count as usize {
        return Err(DataError::TruncatedInput);
    }
    if left > count as usize {
        return Err(DataError::InvalidFormat { field: HeaderField::ItemCount, actual: count });
    }
    let labels = reader.read_remaining();
    assert(labels@ =~= bytes@.subrange(8, bytes@.len() as int));
    Ok(labels)
}

/// Checks an image file's header and returns the pixel bytes that follow it,
/// which must number exactly `item count * rows * columns`.
pub fn decode_images(bytes: &[u8]) -> (r: Result<Vec<u8>, DataError>)
    ensures
        result_view(r) == image_decoding(bytes@),
{
    let mut reader = ByteReader::new(bytes);
    let magic = reader.read_u32()?;
    if magic != IMAGE_MAGIC {
        return Err(DataError::InvalidFormat { field: HeaderField::Magic, actual: magic });
    }
    proof { lemma_be_u32_shift(bytes@, 4, 0); }
    let count = reader.read_u32()?;
    if count != TEST_SET_SIZE && count != TRAINING_SET_SIZE {
        return Err(DataError::InvalidFormat { field: HeaderField::ItemCount, actual: count });
    }
    proof { lemma_be_u32_shift(bytes@, 8, 0); }
    let rows = reader.read_u32()?;
    if rows != IMAGE_SIDE {
        return Err(DataError::InvalidFormat { field: HeaderField::Rows, actual: rows });
    }
    proof { lemma_be_u32_shift(bytes@, 12, 0); }
    let columns = reader.read_u32()?;
    if columns != IMAGE_SIDE {
        return Err(DataError::InvalidFormat { field: HeaderField::Columns, actual: columns });
    }
    let expected = count as usize * (IMAGE_SIDE as usize) * (IMAGE_SIDE as usize);
    let left = reader.remaining_len();
    if left < expected {
        return Err(DataError::TruncatedInput);
    }
    if left > expected {
        return Err(DataError::InvalidFormat { field: HeaderField::ItemCount, actual: count });
    }
    let pixels = reader.read_remaining();
    assert(pixels@ =~= bytes@.subrange(16, bytes@.len() as int));
    Ok(pixels)
}

/// Decoding a well-formed label file succeeds, and gives as many labels as
/// the header declares.
pub proof fn lemma_valid_label_file_decodes(s: Seq<u8>)
    requires
        is_valid_label_file(s),
    ensures
        label_decoding(s) == Ok::<Seq<u8>, DataError>(s.subrange(8, s.len() as int)),
        label_decoding(s)->Ok_0.len() == be_u32_at(s, 4),
{
}

/// Decoding a well-formed image file succeeds, and gives
/// `item count * rows * columns` pixel bytes.
pub proof fn lemma_valid_image_file_decodes(s: Seq<u8>)
    requires
        is_valid_image_file(s),
    ensures
        image_decoding(s) == Ok::<Seq<u8>, DataError>(s.subrange(16, s.len() as int)),
        image_decoding(s)->Ok_0.len() == be_u32_at(s, 4) * be_u32_at(s, 8) * be_u32_at(s, 12),
{
}

} // verus!
