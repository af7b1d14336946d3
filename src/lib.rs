//! Decoding of the IDX handwritten-digit dataset files, turning their bytes
//! into training examples, and reading a model's score vector as a ranked
//! classification.

pub mod error;
pub mod reader;
pub mod dataset;
pub mod pipeline;
pub mod interpret;

pub use error::{DataError, HeaderField};
pub use reader::ByteReader;
pub use dataset::{decode_images, decode_labels, IMAGE_MAGIC, IMAGE_SIDE, LABEL_MAGIC};
pub use pipeline::{build_examples, make_output_vector_from_label, Example, CLASS_COUNT, PIXELS_PER_IMAGE};
pub use interpret::{best_label, score_key, top_k_guesses, SIGN_BIT};
