use vstd::prelude::*;
use vstd::slice::{slice_subrange, slice_to_vec};
use crate::error::DataError;

verus! {

/// Number of digit classes.
pub const CLASS_COUNT: usize = 10;
/// Pixels in one 28 by 28 image.
pub const PIXELS_PER_IMAGE: usize = 784;

/// One training or evaluation pair. `pixels` holds the image's intensities
/// (0 to 255; the model's input is each divided by 255), `target` the
/// one-hot encoding of its label.
#[derive(Debug, Clone, PartialEq, Eq)]
pub struct Example {
    pub pixels: Vec<u8>,
    pub target: Vec<u8>,
}

/// The one-hot vector of `label`: `CLASS_COUNT` entries, 1 at `label`, 0 elsewhere.
pub open spec fn one_hot(label: int) -> Seq<u8> {
    Seq::new(CLASS_COUNT as nat, |j: int| if j == label { 1u8 } else { 0u8 })
}

/// The `i`-th block of `p` bytes of `bytes`.
pub open spec fn image_block(bytes: Seq<u8>, i: int, p: int) -> Seq<u8> {
    bytes.subrange(i * p, (i + 1) * p)
}

/// The one-hot target vector of a label.
pub fn make_output_vector_from_label(label: u8) -> (r: Vec<u8>)
    requires
        (label as usize) < CLASS_COUNT,
    ensures
        r@ == one_hot(label as int),
{
    let mut v: Vec<u8> = Vec::new();
    let mut j: usize = 0;
    while j < CLASS_COUNT
        invariant
            j <= CLASS_COUNT,
            v@ == one_hot(label as int).subrange(0, j as int),
        decreases CLASS_COUNT - j,
    {
        if j == label as usize {
            v.push(1);
        } else {
            v.push(0);
        }
        j = j + 1;
        assert(v@ =~= one_hot(label as int).subrange(0, j as int));
    }
    assert(v@ =~= one_hot(label as int));
    v
}

proof fn lemma_block_bounds(i: int, n: int, p: int)
    requires
        0 <= i < n,
        0 <= p,
    ensures
        0 <= i * p,
        i * p + p == (i + 1) * p,
        (i + 1) * p <= n * p,
{
    assert(i * p + p == (i + 1) * p) by (nonlinear_arith);
    assert(0 <= i * p) by (nonlinear_arith)
        requires 0 <= i, 0 <= p;
    assert((i + 1) * p <= n * p) by (nonlinear_arith)
        requires i + 1 <= n, 0 <= p;
}

/// Pairs each label with its image block, in order. Fails when the image
/// bytes are not exactly `labels.len() * pixels_per_image` long, and then on
/// the first label that is not a class.
pub fn build_examples(labels: &[u8], image_bytes: &[u8], pixels_per_image: usize) -> (r: Result<
    Vec<Example>,
    DataError,
>)
    ensures
        image_bytes@.len() != labels@.len() * pixels_per_image ==> r == Err::<Vec<Example>, DataError>(
            DataError::DatasetSizeMismatch {
                label_count: labels@.len() as usize,
                pixels_per_image,
                image_byte_count: image_bytes@.len() as usize,
            },
        ),
        image_bytes@.len() == labels@.len() * pixels_per_image ==> {
            &&& r is Err <==> exists|i: int| 0 <= i < labels@.len() && labels@[i] as int >= CLASS_COUNT
            &&& r is Err ==> exists|i: int|
                #![trigger labels@[i]]
                0 <= i < labels@.len() && labels@[i] as int >= CLASS_COUNT && (forall|j: int|
                    0 <= j < i ==> labels@[j] < CLASS_COUNT) && r->Err_0 == DataError::LabelOutOfRange {
                    index: i as usize,
                    label: labels@[i],
                }
        },
        r is Ok ==> {
            let out = r->Ok_0;
            &&& out@.len() == labels@.len()
            &&& forall|i: int|
                0 <= i < out@.len() ==> {
                    &&& (#[trigger] out@[i]).pixels@ == image_block(image_bytes@, i, pixels_per_image as int)
                    &&& out@[i].target@ == one_hot(labels@[i] as int)
                    &&& labels@[i] < CLASS_COUNT
                }
        },
{
    let n = labels.len();
    let size_matches = match n.checked_mul(pixels_per_image) {
        Some(total) => total == image_bytes.len(),
        None => false,
    };
    if !size_matches {
        return Err(
            DataError::DatasetSizeMismatch {
                label_count: n,
                pixels_per_image,
                image_byte_count: image_bytes.len(),
            },
        );
    }
    let total_len = image_bytes.len();
    let mut out: Vec<Example> = Vec::new();
    let mut i: usize = 0;
    while i < n
        invariant
            n == labels@.len(),
            image_bytes@.len() == n * pixels_per_image,
            total_len == image_bytes@.len(),
            i <= n,
            out@.len() == i,
            forall|j: int| 0 <= j < i ==> labels@[j] < CLASS_COUNT,
            forall|j: int|
                0 <= j < i ==> {
                    &&& (#[trigger] out@[j]).pixels@ == image_block(image_bytes@, j, pixels_per_image as int)
                    &&& out@[j].target@ == one_hot(labels@[j] as int)
                },
        decreases n - i,
    {
        let label = labels[i];
        if label as usize >= CLASS_COUNT {
            return Err(DataError::LabelOutOfRange { index: i, label });
        }
        proof { lemma_block_bounds(i as int, n as int, pixels_per_image as int); }
        let start = i * pixels_per_image;
        let end = start + pixels_per_image;
        let pixels = slice_to_vec(slice_subrange(image_bytes, start, end));
        let target = make_output_vector_from_label(label);
        out.push(Example { pixels, target });
        i = i + 1;
    }
    Ok(out)
}

} // verus!
