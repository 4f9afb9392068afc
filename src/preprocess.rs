use vstd::prelude::*;

verus! {

/// Images of the preprocessing pipeline are numbered: the frame is image 0,
/// the background image 1, and the result of step `i` is image `i + 2`.
pub const FRAME_IMAGE: usize = 0;
pub const BACKGROUND_IMAGE: usize = 1;

/// Side of the kernel that estimates the slowly varying residual.
pub const RESIDUAL_KERNEL: u32 = 20;
/// Side of the kernel that smooths sensor noise before thresholding.
pub const NOISE_KERNEL: u32 = 10;
/// Side of the kernel that softens the edges of the thresholded mask.
pub const EDGE_KERNEL: u32 = 5;
/// Samples at or above this intensity become foreground.
pub const FOREGROUND_LEVEL: u8 = 12;
/// Intensity of a foreground sample in the thresholded mask.
pub const FOREGROUND_VALUE: u8 = 255;

/// One pixel operation of the preprocessing pipeline, reading earlier images
/// by their number.
#[derive(Clone, Copy, Debug, PartialEq, Eq)]
pub enum PixelOp {
    /// Elementwise `minuend - subtrahend`, saturating at zero.
    Subtract { minuend: usize, subtrahend: usize },
    /// Normalised box filter over a `kernel` x `kernel` window.
    BoxBlur { source: usize, kernel: u32 },
    /// Samples at or above `level` become `value`, all others zero.
    Threshold { source: usize, level: u8, value: u8 },
}

/// The band-pass pipeline: remove the background, remove what a wide blur
/// keeps of the rest, smooth, threshold, and soften the mask's edges.
pub open spec fn pipeline() -> Seq<PixelOp> {
    seq![
        PixelOp::Subtract { minuend: FRAME_IMAGE, subtrahend: BACKGROUND_IMAGE },
        PixelOp::BoxBlur { source: 2, kernel: RESIDUAL_KERNEL },
        PixelOp::Subtract { minuend: 2, subtrahend: 3 },
        PixelOp::BoxBlur { source: 4, kernel: NOISE_KERNEL },
        PixelOp::Threshold { source: 5, level: FOREGROUND_LEVEL, value: FOREGROUND_VALUE },
        PixelOp::BoxBlur { source: 6, kernel: EDGE_KERNEL },
    ]
}

/// Every step reads only images that exist before it.
pub open spec fn reads_earlier(ops: Seq<PixelOp>) -> bool {
    forall|i: int| 0 <= i < ops.len() ==> match #[trigger] ops[i] {
        PixelOp::Subtract { minuend, subtrahend } => minuend < i + 2 && subtrahend < i + 2,
        PixelOp::BoxBlur { source, .. } => source < i + 2,
        PixelOp::Threshold { source, .. } => source < i + 2,
    }
}

/// What is known of an image whose samples all have one value: that value,
/// or nothing.
pub open spec fn flat_step(op: PixelOp, images: Seq<Option<int>>) -> Option<int> {
    match op {
        PixelOp::Subtract { minuend, subtrahend } => match (images[minuend as int], images[subtrahend as int]) {
            (Some(a), Some(b)) => Some(if a > b { a - b } else { 0 }),
            _ => None,
        },
        // A blur of an all-zero image is all zero, whatever the border;
        // of another flat image the border may show.
        PixelOp::BoxBlur { source, .. } => match images[source as int] {
            Some(v) if v == 0 => Some(0),
            _ => None,
        },
        PixelOp::Threshold { source, level, value } => match images[source as int] {
            Some(v) => Some(if v >= level { value as int } else { 0 }),
            None => None,
        },
    }
}

/// The known flat values of all images after running the first `n` steps of
/// `ops` on the images in `inputs`.
pub open spec fn run_flat(ops: Seq<PixelOp>, inputs: Seq<Option<int>>, n: int) -> Seq<Option<int>>
    decreases n,
{
    if n <= 0 {
        inputs
    } else {
        let before = run_flat(ops, inputs, n - 1);
        before.push(flat_step(ops[n - 1], before))
    }
}

/// The steps that turn a grayscale frame and the grayscale background into
/// the foreground mask, which is the last image.
pub fn preprocessing_plan() -> (r: Vec<PixelOp>)
    ensures
        r@ == pipeline(),
        reads_earlier(r@),
{
    let mut ops: Vec<PixelOp> = Vec::new();
    ops.push(PixelOp::Subtract { minuend: FRAME_IMAGE, subtrahend: BACKGROUND_IMAGE });
    ops.push(PixelOp::BoxBlur { source: 2, kernel: RESIDUAL_KERNEL });
    ops.push(PixelOp::Subtract { minuend: 2, subtrahend: 3 });
    ops.push(PixelOp::BoxBlur { source: 4, kernel: NOISE_KERNEL });
    ops.push(PixelOp::Threshold { source: 5, level: FOREGROUND_LEVEL, value: FOREGROUND_VALUE });
    ops.push(PixelOp::BoxBlur { source: 6, kernel: EDGE_KERNEL });
    assert(ops@ =~= pipeline());
    ops
}

/// A flat frame equal to the background gives an all-zero mask.
pub proof fn lemma_flat_frame_gives_empty_mask(level: u8)
    ensures
        run_flat(pipeline(), seq![Some(level as int), Some(level as int)], 6).last() == Some(0int),
{
    let ops = pipeline();
    let inputs = seq![Some(level as int), Some(level as int)];
    assert(run_flat(ops, inputs, 0) == inputs);
    assert(inputs.len() == 2 && inputs[0] == Some(level as int) && inputs[1] == Some(level as int));
    let s1 = run_flat(ops, inputs, 1);
    assert(s1[2] == Some(0int));
    let s2 = run_flat(ops, inputs, 2);
    assert(s2[3] == Some(0int));
    let s3 = run_flat(ops, inputs, 3);
    assert(s3[4] == Some(0int));
    let s4 = run_flat(ops, inputs, 4);
    assert(s4[5] == Some(0int));
    let s5 = run_flat(ops, inputs, 5);
    assert(s5[6] == Some(0int));
    let s6 = run_flat(ops, inputs, 6);
    assert(s6[7] == Some(0int));
}

} // verus!
