use vstd::prelude::*;

verus! {

/// A header field of a dataset file.
#[derive(Debug, Clone, Copy, PartialEq, Eq, Structural)]
pub enum HeaderField {
    /// 2049 in a label file, 2051 in an image file.
    Magic,
    /// 10000 or 60000.
    ItemCount,
    /// 28.
    Rows,
    /// 28.
    Columns,
}

/// Everything that can go wrong while decoding a dataset, pairing it into
/// examples, or ranking a score vector.
#[derive(Debug, Clone, Copy, PartialEq, Eq, Structural)]
pub enum DataError {
    /// The input ended before the bytes that were asked for.
    TruncatedInput,
    /// A header field holds a value the format does not allow; `field` says
    /// which, and so which values were expected.
    InvalidFormat { field: HeaderField, actual: u32 },
    /// The image bytes are not exactly `label count * pixels per image` long.
    DatasetSizeMismatch { label_count: usize, pixels_per_image: usize, image_byte_count: usize },
    /// The label at `index` is not a valid class.
    LabelOutOfRange { index: usize, label: u8 },
    /// More guesses were asked for than there are classes.
    InsufficientClasses { requested: usize, available: usize },
}

} // verus!
