//! The integer side of the segmentation models: execution-backend plans,
//! tensor-shape checks, input layout, and the mask post-processing that
//! blacks out a frame.

use vstd::prelude::*;
use crate::mask::{dilate_mask, dilated_mask, apply_mask_blackout, pixel_byte};

verus! {

/// The platform a model session is created on.
#[derive(Debug, Clone, Copy, PartialEq, Eq, Structural)]
pub enum TargetPlatform {
    Apple,
    Windows,
    Linux,
    Other,
}

/// An execution backend for a model session.
#[derive(Debug, Clone, Copy, PartialEq, Eq, Structural)]
pub enum SessionBackend {
    CoreMl,
    OpenVinoGpu,
    DirectMl,
    Cpu,
}

/// One attempt to create a session: the backend, and whether the runtime's
/// own CPU fallback is switched off for it.
#[derive(Debug, Clone, Copy, PartialEq, Eq, Structural)]
pub struct BackendAttempt {
    pub backend: SessionBackend,
    pub cpu_fallback_disabled: bool,
}

/// Why a model cannot be used or a frame cannot be filtered.
#[derive(Debug, Clone, Copy, PartialEq, Eq, Structural)]
pub enum ModelError {
    /// The model has no output tensor.
    NoOutputs,
    /// The input shape is not `(1, 3, H, W)`.
    UnexpectedInputShape,
    /// The input tensor is not of rank 4.
    NotRank4,
    /// The batch dimension is not 1.
    BatchNotOne,
    /// The channel dimension is not 3.
    ChannelsNotThree,
    /// The height or the width is not positive.
    NonPositiveSize,
    /// The frame buffer does not hold `width * height * 4` bytes.
    BufferSizeMismatch,
}

pub open spec fn attempt(backend: SessionBackend, cpu_fallback_disabled: bool) -> BackendAttempt {
    BackendAttempt { backend, cpu_fallback_disabled }
}

fn make_attempt(backend: SessionBackend, cpu_fallback_disabled: bool) -> (r: BackendAttempt)
    ensures
        r == attempt(backend, cpu_fallback_disabled),
{
    BackendAttempt { backend, cpu_fallback_disabled }
}

/// The backends the video model tries, in order, until one loads: the
/// platform's accelerator(s), then the CPU.
pub open spec fn video_model_plan(platform: TargetPlatform) -> Seq<BackendAttempt> {
    match platform {
        TargetPlatform::Apple => seq![attempt(SessionBackend::CoreMl, false), attempt(SessionBackend::Cpu, false)],
        TargetPlatform::Windows => seq![
            attempt(SessionBackend::OpenVinoGpu, false),
            attempt(SessionBackend::DirectMl, false),
            attempt(SessionBackend::Cpu, false),
        ],
        TargetPlatform::Linux => seq![attempt(SessionBackend::OpenVinoGpu, false), attempt(SessionBackend::Cpu, false)],
        TargetPlatform::Other => seq![attempt(SessionBackend::Cpu, false)],
    }
}

/// The backends the segmentation filter tries, in order: on Windows only
/// GPU backends with the CPU fallback switched off (no CPU session at all),
/// elsewhere as for the video model.
pub open spec fn segmentation_plan(platform: TargetPlatform) -> Seq<BackendAttempt> {
    match platform {
        TargetPlatform::Windows => seq![attempt(SessionBackend::OpenVinoGpu, true), attempt(SessionBackend::DirectMl, true)],
        _ => video_model_plan(platform),
    }
}

/// The ordered session backends the video model tries on `platform`.
pub fn video_model_backends(platform: TargetPlatform) -> (r: Vec<BackendAttempt>)
    ensures
        r@ == video_model_plan(platform),
{
    let mut v: Vec<BackendAttempt> = Vec::new();
    match platform {
        TargetPlatform::Apple => {
            v.push(make_attempt(SessionBackend::CoreMl, false));
        },
        TargetPlatform::Windows => {
            v.push(make_attempt(SessionBackend::OpenVinoGpu, false));
            v.push(make_attempt(SessionBackend::DirectMl, false));
        },
        TargetPlatform::Linux => {
            v.push(make_attempt(SessionBackend::OpenVinoGpu, false));
        },
        TargetPlatform::Other => {},
    }
    v.push(make_attempt(SessionBackend::Cpu, false));
    assert(v@ =~= video_model_plan(platform));
    v
}

/// The ordered session backends the segmentation filter tries on `platform`.
pub fn segmentation_backends(platform: TargetPlatform) -> (r: Vec<BackendAttempt>)
    ensures
        r@ == segmentation_plan(platform),
{
    match platform {
        TargetPlatform::Windows => {
            let mut v: Vec<BackendAttempt> = Vec::new();
            v.push(make_attempt(SessionBackend::OpenVinoGpu, true));
            v.push(make_attempt(SessionBackend::DirectMl, true));
            assert(v@ =~= segmentation_plan(platform));
            v
        },
        _ => video_model_backends(platform),
    }
}

/// What happens after one attempt of a backend plan.
#[derive(Debug, Clone, Copy, PartialEq, Eq, Structural)]
pub enum AttemptStep {
    /// The attempt at this index created the session: use it.
    Use(usize),
    /// Try the attempt at this index next.
    Try(usize),
    /// Every attempt failed.
    GiveUp,
}

/// The step after attempt `index` of a plan of `plan_len` attempts.
pub open spec fn attempt_step_spec(plan_len: int, index: int, created: bool) -> AttemptStep {
    if created {
        AttemptStep::Use(index as usize)
    } else if index + 1 < plan_len {
        AttemptStep::Try((index + 1) as usize)
    } else {
        AttemptStep::GiveUp
    }
}

/// The step after attempt `index` of a plan of `plan_len` attempts: its
/// session is used when it was created; otherwise the next attempt is tried,
/// and after the last one the plan has failed. So the first attempt that
/// creates a session wins.
pub fn attempt_step(plan_len: usize, index: usize, created: bool) -> (r: AttemptStep)
    requires
        index < plan_len,
    ensures
        r == attempt_step_spec(plan_len as int, index as int, created),
{
    if created {
        AttemptStep::Use(index)
    } else if index + 1 < plan_len {
        AttemptStep::Try(index + 1)
    } else {
        AttemptStep::GiveUp
    }
}

/// The attempt a plan ends with when attempts are tried from `index` on and
/// `created[j]` tells whether attempt `j` creates a session.
pub open spec fn plan_outcome(created: Seq<bool>, index: int) -> AttemptStep
    decreases created.len() - index,
{
    if index < 0 || index >= created.len() {
        AttemptStep::GiveUp
    } else if created[index] {
        AttemptStep::Use(index as usize)
    } else {
        plan_outcome(created, index + 1)
    }
}

/// Following `attempt_step` through a plan from its first attempt uses the
/// first attempt that creates a session, or gives up when none does: each
/// step leads to the plan's outcome, which is the first success.
pub proof fn lemma_plan_uses_first_success(created: Seq<bool>, index: int)
    requires
        0 <= index <= created.len(),
        created.len() <= usize::MAX,
    ensures
        index < created.len() ==> plan_outcome(created, index) == match attempt_step_spec(
            created.len() as int,
            index,
            created[index],
        ) {
            AttemptStep::Try(j) => plan_outcome(created, j as int),
            other => other,
        },
        plan_outcome(created, index) matches AttemptStep::Use(i) ==> index <= i < created.len() && created[i as int]
            && forall|j: int| index <= j < i ==> !created[j],
        plan_outcome(created, index) is GiveUp ==> forall|j: int| index <= j < created.len() ==> !created[j],
        !(plan_outcome(created, index) is Try),
    decreases created.len() - index,
{
    if index < created.len() && !created[index] {
        lemma_plan_uses_first_success(created, index + 1);
    }
}

/// The name of the first output of a model, which carries the mask.
pub fn first_output_name(names: &Vec<String>) -> (r: Result<String, ModelError>)
    ensures
        names@.len() == 0 ==> r == Err::<String, ModelError>(ModelError::NoOutputs),
        names@.len() > 0 ==> (r matches Ok(n) && n@ == names@[0]@),
{
    if names.len() == 0 {
        return Err(ModelError::NoOutputs);
    }
    Ok(names[0].clone())
}

/// `(height, width)` of a video model's input of shape `(1, 3, H, W)`
/// (each converted to `u32` by truncation).
pub fn video_model_input_size(shape: &Vec<i64>) -> (r: Result<(u32, u32), ModelError>)
    ensures
        (shape@.len() == 4 && shape@[0] == 1 && shape@[1] == 3) ==> r == Ok::<(u32, u32), ModelError>(
            (shape@[2] as u32, shape@[3] as u32),
        ),
        !(shape@.len() == 4 && shape@[0] == 1 && shape@[1] == 3) ==> r == Err::<(u32, u32), ModelError>(
            ModelError::UnexpectedInputShape,
        ),
{
    if shape.len() != 4 || shape[0] != 1 || shape[1] != 3 {
        return Err(ModelError::UnexpectedInputShape);
    }
    Ok((shape[2] as u32, shape[3] as u32))
}

/// `(height, width)` of a segmentation model's input of static shape
/// `(1, 3, H, W)` with positive `H` and `W`; each failed check has its own
/// error, checked in this order.
pub fn segmentation_input_size(shape: &Vec<i64>) -> (r: Result<(u32, u32), ModelError>)
    ensures
        r == (if shape@.len() != 4 {
            Err(ModelError::NotRank4)
        } else if shape@[0] != 1 {
            Err(ModelError::BatchNotOne)
        } else if shape@[1] != 3 {
            Err(ModelError::ChannelsNotThree)
        } else if shape@[2] <= 0 || shape@[3] <= 0 {
            Err(ModelError::NonPositiveSize)
        } else {
            Ok((shape@[2] as u32, shape@[3] as u32))
        }),
{
    if shape.len() != 4 {
        return Err(ModelError::NotRank4);
    }
    if shape[0] != 1 {
        return Err(ModelError::BatchNotOne);
    }
    if shape[1] != 3 {
        return Err(ModelError::ChannelsNotThree);
    }
    if shape[2] <= 0 || shape[3] <= 0 {
        return Err(ModelError::NonPositiveSize);
    }
    Ok((shape[2] as u32, shape[3] as u32))
}

/// The number of classes of a segmentation output: dimension 1 of a rank-4
/// shape (truncated to `u32`), else 2.
pub fn output_class_count(shape: &Vec<i64>) -> (r: u32)
    ensures
        r == (if shape@.len() == 4 { shape@[1] as u32 } else { 2 }),
{
    if shape.len() == 4 {
        shape[1] as u32
    } else {
        2
    }
}

/// The planar (channel-major) RGB layout of an RGBA image: channel `c` of
/// pixel `p` lands at `c * w * h + p`.
pub open spec fn planar_rgb_of(src: Seq<u8>, w: int, h: int) -> Seq<u8> {
    Seq::new((3 * w * h) as nat, |i: int| src[4 * (i % (w * h)) + i / (w * h)])
}

/// Rearranges an RGBA image of `width * height` pixels into three planes
/// R, G, B (alpha dropped).
pub fn planar_rgb(src: &[u8], width: usize, height: usize) -> (r: Vec<u8>)
    requires
        width * height * 4 <= usize::MAX,
        src.len() >= width * height * 4,
    ensures
        r@ == planar_rgb_of(src@, width as int, height as int),
{
    let n = width * height;
    let mut out: Vec<u8> = Vec::new();
    let mut ch: usize = 0;
    while ch < 3
        invariant
            n == width * height,
            n * 4 <= usize::MAX,
            src.len() >= n * 4,
            ch <= 3,
            out@.len() == ch * n,
            forall|i: int| 0 <= i < ch * n ==> #[trigger] out@[i] == src@[4 * (i % n as int) + i / n as int],
        decreases 3 - ch,
    {
        let mut p: usize = 0;
        while p < n
            invariant
                n == width * height,
                n * 4 <= usize::MAX,
                src.len() >= n * 4,
                ch < 3,
                p <= n,
                out@.len() == ch * n + p,
                forall|i: int| 0 <= i < ch * n + p ==> #[trigger] out@[i] == src@[4 * (i % n as int) + i / n as int],
            decreases n - p,
        {
            out.push(src[p * 4 + ch]);
            proof {
                let i = ch * n + p;
                assert(i == ch * n + p);
                vstd::arithmetic::div_mod::lemma_fundamental_div_mod_converse(i as int, n as int, ch as int, p as int);
            }
            p = p + 1;
        }
        assert((ch + 1) * n == ch * n + n) by (nonlinear_arith);
        ch = ch + 1;
    }
    assert(3 * width * height == 3 * n) by (nonlinear_arith)
        requires
            n == width * height,
    ;
    assert(out@ =~= planar_rgb_of(src@, width as int, height as int));
    out
}

/// The RGBA image that `fast_image_resize` makes of the `width` by `height`
/// RGBA image `src` when it resizes it to `dst_width` by `dst_height` with
/// bilinear convolution.
pub uninterp spec fn resized_rgba(src: Seq<u8>, width: u32, height: u32, dst_width: u32, dst_height: u32) -> Seq<u8>;

/// Calls `fast_image_resize` to resize an RGBA image to `dst_width` by
/// `dst_height` with bilinear convolution; `None` when the library refuses.
/// `Image::from_slice_u8` refuses a source buffer shorter than
/// `width * height * 4` (a `U8x4` pixel has alignment 1, so alignment never
/// fails), and `Resizer::resize` on two `U8x4` images without cropping has
/// no error left to return, so a long enough source always succeeds. The
/// result is named `resized_rgba` of the arguments (the library's
/// convolution arithmetic, which is not stated here, gives the same pixels
/// whichever CPU extensions it uses) and holds `dst_width * dst_height * 4`
/// bytes. Both byte counts must fit a `usize`: the library computes them
/// without an overflow check.
#[verifier::external_body]
fn resize_rgba_bilinear(src: &[u8], width: u32, height: u32, dst_width: u32, dst_height: u32) -> (r: Option<Vec<u8>>)
    requires
        width * height * 4 <= usize::MAX,
        dst_width * dst_height * 4 <= usize::MAX,
    ensures
        r matches Some(v) ==> v@ == resized_rgba(src@, width, height, dst_width, dst_height) && v@.len()
            == dst_width * dst_height * 4,
        src@.len() >= width * height * 4 ==> r is Some,
{
    let mut buf = src.to_vec();
    let src_image = match fast_image_resize::images::Image::from_slice_u8(width, height, &mut buf, fast_image_resize::PixelType::U8x4) {
        Ok(image) => image,
        Err(_) => return None,
    };
    let mut dst = fast_image_resize::images::Image::new(dst_width, dst_height, fast_image_resize::PixelType::U8x4);
    let options = fast_image_resize::ResizeOptions::new().resize_alg(fast_image_resize::ResizeAlg::Convolution(fast_image_resize::FilterType::Bilinear));
    match fast_image_resize::Resizer::new().resize(&src_image, &mut dst, Some(&options)) {
        Ok(()) => Some(dst.into_vec()),
        Err(_) => None,
    }
}

/// The model input for a frame: the frame resized to the model's size, laid
/// out as R, G and B planes. `None` when the resize fails, which it does not
/// for a frame buffer of at least `width * height * 4` bytes.
pub fn model_input_planes(rgba: &[u8], width: u32, height: u32, model_width: u32, model_height: u32) -> (r: Option<Vec<u8>>)
    requires
        width * height * 4 <= usize::MAX,
        model_width * model_height * 4 <= usize::MAX,
    ensures
        rgba@.len() >= width * height * 4 ==> r is Some,
        r matches Some(p) ==> p@ == planar_rgb_of(
            resized_rgba(rgba@, width, height, model_width, model_height),
            model_width as int,
            model_height as int,
        ),
{
    match resize_rgba_bilinear(rgba, width, height, model_width, model_height) {
        Some(resized) => {
            let planes = planar_rgb(resized.as_slice(), model_width as usize, model_height as usize);
            Some(planes)
        },
        None => None,
    }
}

/// The mask a frame is blacked out with: the dilated mask when dilation is
/// on (`iterations > 0`), else the mask itself.
pub open spec fn effective_mask(mask: Seq<u8>, w: int, h: int, kernel_size: int, iterations: nat) -> Seq<u8> {
    if iterations > 0 {
        dilated_mask(mask, w, h, kernel_size, iterations)
    } else {
        mask
    }
}

/// Finishes a segmented frame: dilates the binary `mask` (when
/// `iterations > 0`) and blacks out every pixel whose cell is then set.
/// A frame buffer of the wrong size is refused and left untouched.
pub fn blackout_segmented(
    rgba: &mut [u8],
    mask: &[u8],
    width: usize,
    height: usize,
    kernel_size: usize,
    iterations: usize,
) -> (r: Result<(), ModelError>)
    requires
        width * height * 4 <= usize::MAX,
        mask.len() == width * height,
        width + kernel_size / 2 <= usize::MAX,
        height + kernel_size / 2 <= usize::MAX,
    ensures
        old(rgba).len() != width * height * 4 ==> r == Err::<(), ModelError>(ModelError::BufferSizeMismatch)
            && final(rgba)@ == old(rgba)@,
        old(rgba).len() == width * height * 4 ==> r is Ok && final(rgba).len() == old(rgba).len() && forall|
            p: int,
            c: int,
        |
            0 <= p < width * height && 0 <= c < 4 ==> #[trigger] pixel_byte(final(rgba)@, p, c) == if effective_mask(
                mask@,
                width as int,
                height as int,
                kernel_size as int,
                iterations as nat,
            )[p] == 1 {
                if c == 3 { 255u8 } else { 0u8 }
            } else {
                pixel_byte(old(rgba)@, p, c)
            },
{
    if rgba.len() != width * height * 4 {
        return Err(ModelError::BufferSizeMismatch);
    }
    if iterations > 0 {
        let dilated = dilate_mask(mask, width, height, kernel_size, iterations);
        proof {
            if !(mask@.len() == 0 || width == 0 || height == 0) {
                assert(dilated@.len() == width * height);
            } else {
                assert(width * height == 0) by (nonlinear_arith)
                    requires
                        mask@.len() == width * height,
                        mask@.len() == 0 || width == 0 || height == 0,
                ;
            }
        }
        apply_mask_blackout(rgba, dilated.as_slice(), width, height);
    } else {
        apply_mask_blackout(rgba, mask, width, height);
    }
    Ok(())
}

/// The shape of every backend plan. The video model's plan, on every
/// platform, tries the platform's accelerators first (Core ML on Apple,
/// OpenVINO GPU on Windows and Linux, then DirectML on Windows) and always
/// ends with the plain CPU, with the runtime's CPU fallback left on; the CPU
/// appears nowhere else. The segmentation plan is the same except on
/// Windows, where it holds only the two GPU backends, both with the CPU
/// fallback switched off, and no CPU attempt at all.
pub proof fn lemma_backend_plans(p: TargetPlatform)
    ensures
        video_model_plan(p).len() >= 1,
        video_model_plan(p).last() == attempt(SessionBackend::Cpu, false),
        forall|i: int|
            0 <= i < video_model_plan(p).len() ==> !(#[trigger] video_model_plan(p)[i]).cpu_fallback_disabled,
        forall|i: int|
            0 <= i < video_model_plan(p).len() - 1 ==> (#[trigger] video_model_plan(p)[i]).backend
                != SessionBackend::Cpu,
        p == TargetPlatform::Apple ==> video_model_plan(p).len() == 2 && video_model_plan(p)[0].backend
            == SessionBackend::CoreMl,
        p == TargetPlatform::Linux ==> video_model_plan(p).len() == 2 && video_model_plan(p)[0].backend
            == SessionBackend::OpenVinoGpu,
        p == TargetPlatform::Windows ==> video_model_plan(p).len() == 3 && video_model_plan(p)[0].backend
            == SessionBackend::OpenVinoGpu && video_model_plan(p)[1].backend == SessionBackend::DirectMl,
        p == TargetPlatform::Other ==> video_model_plan(p).len() == 1,
        p != TargetPlatform::Windows ==> segmentation_plan(p) == video_model_plan(p),
        p == TargetPlatform::Windows ==> segmentation_plan(p).len() == 2 && segmentation_plan(p)[0]
            == attempt(SessionBackend::OpenVinoGpu, true) && segmentation_plan(p)[1] == attempt(
            SessionBackend::DirectMl,
            true,
        ),
{
}

/// The planes hold the colour channels pixel by pixel: channel `c` (0 red,
/// 1 green, 2 blue) of pixel `p` sits at `c * width * height + p`, and the
/// alpha channel is dropped.
pub proof fn lemma_planar_layout(src: Seq<u8>, w: int, h: int, c: int, p: int)
    requires
        w > 0,
        h > 0,
        0 <= c < 3,
        0 <= p < w * h,
    ensures
        planar_rgb_of(src, w, h).len() == 3 * w * h,
        planar_rgb_of(src, w, h)[c * (w * h) + p] == src[4 * p + c],
{
    let n = w * h;
    assert(n > 0) by (nonlinear_arith)
        requires
            w > 0,
            h > 0,
            n == w * h,
    ;
    assert(3 * w * h == 3 * n) by (nonlinear_arith)
        requires
            n == w * h,
    ;
    assert(c * n + p < 3 * n) by (nonlinear_arith)
        requires
            0 <= c < 3,
            0 <= p < n,
    ;
    assert(0 <= c * n) by (nonlinear_arith)
        requires
            0 <= c,
            0 < n,
    ;
    vstd::arithmetic::div_mod::lemma_fundamental_div_mod_converse(c * n + p, n, c, p);
}

/// The mask a segmented frame is blacked out with: a cell is set exactly
/// when a set cell of the model's mask lies within
/// `iterations * (kernel_size / 2)` rows and columns of it; with no
/// iterations that is the cell itself.
pub proof fn lemma_effective_mask_window(
    mask: Seq<u8>,
    w: int,
    h: int,
    kernel_size: int,
    iterations: nat,
    y: int,
    x: int,
)
    requires
        w > 0,
        h > 0,
        kernel_size >= 0,
        mask.len() == w * h,
        0 <= y < h,
        0 <= x < w,
    ensures
        effective_mask(mask, w, h, kernel_size, iterations)[y * w + x] == 1 <==> exists|yy: int, xx: int|
            y - iterations * (kernel_size / 2) <= yy <= y + iterations * (kernel_size / 2) && 0 <= yy < h && x
                - iterations * (kernel_size / 2) <= xx <= x + iterations * (kernel_size / 2) && 0 <= xx < w
                && #[trigger] crate::mask::at(mask, w, yy, xx) == 1,
{
    crate::mask::lemma_dilated_mask_square_window(mask, w, h, kernel_size, iterations, y, x);
    if iterations == 0 {
        assert(iterations * (kernel_size / 2) == 0);
        if mask[y * w + x] == 1 {
            assert(crate::mask::at(mask, w, y, x) == 1);
        }
    }
}

} // verus!
