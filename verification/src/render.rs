//! The renderer's decisions: what to do with the surface it was handed,
//! whether to run inference, how actions reach the mask shader, and how a
//! frame read back from the GPU loses its row padding.

use vstd::prelude::*;

verus! {

/// The most actions the mask pass draws.
pub const MAX_ACTIONS: usize = 256;

/// The row pitch the GPU requires for buffer copies, in bytes.
pub const COPY_BYTES_PER_ROW_ALIGNMENT: u32 = 256;

/// The events the renderer's event loop is woken with.
#[derive(Debug, Clone, Copy, PartialEq, Eq, Structural)]
pub enum CustomAppEvent {
    /// Close the window and leave the loop.
    RequestShutdown,
}

/// What the surface handed back for the next frame.
#[derive(Debug, Clone, Copy, PartialEq, Eq, Structural)]
pub enum SurfaceStatus {
    Success,
    Suboptimal,
    Outdated,
    Timeout,
    Lost,
    Occluded,
    Validation,
}

/// What the renderer does with that surface.
#[derive(Debug, Clone, Copy, PartialEq, Eq, Structural)]
pub enum SurfaceStep {
    /// Render the frame into the texture.
    Render,
    /// Reconfigure the surface to the viewport, request a redraw, skip.
    ReconfigureAndRedraw,
    /// Request a redraw and skip this frame.
    Redraw,
    /// Skip this frame.
    Skip,
    /// Report a validation error and skip this frame.
    ReportValidation,
}

/// The step for a surface status: render a usable texture; after an
/// outdated surface reconfigure (only for a viewport with area) and redraw;
/// redraw after a timeout or a lost surface; skip when occluded; report a
/// validation error.
pub fn surface_step(status: SurfaceStatus, viewport: (u32, u32)) -> (r: SurfaceStep)
    ensures
        r == match status {
            SurfaceStatus::Success | SurfaceStatus::Suboptimal => SurfaceStep::Render,
            SurfaceStatus::Outdated => if viewport.0 > 0 && viewport.1 > 0 {
                SurfaceStep::ReconfigureAndRedraw
            } else {
                SurfaceStep::Redraw
            },
            SurfaceStatus::Timeout | SurfaceStatus::Lost => SurfaceStep::Redraw,
            SurfaceStatus::Occluded => SurfaceStep::Skip,
            SurfaceStatus::Validation => SurfaceStep::ReportValidation,
        },
{
    match status {
        SurfaceStatus::Success | SurfaceStatus::Suboptimal => SurfaceStep::Render,
        SurfaceStatus::Outdated => {
            if viewport.0 > 0 && viewport.1 > 0 {
                SurfaceStep::ReconfigureAndRedraw
            } else {
                SurfaceStep::Redraw
            }
        },
        SurfaceStatus::Timeout | SurfaceStatus::Lost => SurfaceStep::Redraw,
        SurfaceStatus::Occluded => SurfaceStep::Skip,
        SurfaceStatus::Validation => SurfaceStep::ReportValidation,
    }
}

/// True when a new frame is run through the models: no skip was requested
/// and at least one model session exists.
pub fn should_run_inference(skip_requested: bool, session_count: usize) -> (r: bool)
    ensures
        r == (!skip_requested && session_count > 0),
{
    !skip_requested && session_count > 0
}

/// True when the frame texture must be (re)created: there is none, or its
/// size differs from the frame's.
pub fn needs_new_texture(current: Option<(u32, u32)>, width: u32, height: u32) -> (r: bool)
    ensures
        r == match current {
            None => true,
            Some(size) => size.0 != width || size.1 != height,
        },
{
    match current {
        None => true,
        Some(size) => size.0 != width || size.1 != height,
    }
}

/// The sizes the compositing pass works with: the window size (800 by 600
/// where a dimension is 0) and the texture size (1280 by 720 where a
/// dimension is 0).
pub fn composite_sizes(viewport: (u32, u32), screenshot: (u32, u32)) -> (r: ((u32, u32), (u32, u32)))
    ensures
        r.0.0 == (if viewport.0 == 0 { 800 } else { viewport.0 }),
        r.0.1 == (if viewport.1 == 0 { 600 } else { viewport.1 }),
        r.1.0 == (if screenshot.0 == 0 { 1280 } else { screenshot.0 }),
        r.1.1 == (if screenshot.1 == 0 { 720 } else { screenshot.1 }),
{
    let window_w = if viewport.0 == 0 { 800 } else { viewport.0 };
    let window_h = if viewport.1 == 0 { 600 } else { viewport.1 };
    let texture_w = if screenshot.0 == 0 { 1280 } else { screenshot.0 };
    let texture_h = if screenshot.1 == 0 { 720 } else { screenshot.1 };
    ((window_w, window_h), (texture_w, texture_h))
}

/// The shader's action code for an action type: 0 (blur) becomes 1, any
/// other type (black box) becomes 2.
pub open spec fn shader_action_code(action_type: u8) -> u32 {
    if action_type == 0 { 1 } else { 2 }
}

/// The action codes written to the mask pass's storage: one slot per
/// possible action, the first actions' codes in order, 0 in unused slots.
pub fn mask_action_codes(action_types: &Vec<u8>) -> (r: Vec<u32>)
    ensures
        r@.len() == MAX_ACTIONS,
        forall|i: int|
            0 <= i < MAX_ACTIONS ==> #[trigger] r@[i] == (if i < action_types@.len() {
                shader_action_code(action_types@[i])
            } else {
                0
            }),
{
    let mut codes: Vec<u32> = vec![0u32; MAX_ACTIONS];
    let n = if action_types.len() < MAX_ACTIONS { action_types.len() } else { MAX_ACTIONS };
    let mut i: usize = 0;
    while i < n
        invariant
            n <= MAX_ACTIONS,
            n <= action_types.len(),
            n == action_types.len() || n == MAX_ACTIONS,
            i <= n,
            codes@.len() == MAX_ACTIONS,
            forall|k: int|
                0 <= k < MAX_ACTIONS ==> #[trigger] codes@[k] == (if k < i {
                    shader_action_code(action_types@[k])
                } else {
                    0
                }),
        decreases n - i,
    {
        codes[i] = if action_types[i] == 0 { 1 } else { 2 };
        i = i + 1;
    }
    codes
}

/// The number of action instances the mask pass draws.
pub fn mask_instance_count(action_count: usize) -> (r: u32)
    ensures
        r == (if action_count < MAX_ACTIONS { action_count } else { MAX_ACTIONS }),
{
    if action_count < MAX_ACTIONS {
        action_count as u32
    } else {
        MAX_ACTIONS as u32
    }
}

/// True when the mask pass draws the cached actions of an earlier frame:
/// this frame produced none.
pub fn use_cached_actions(action_count: usize) -> (r: bool)
    ensures
        r == (action_count == 0),
{
    action_count == 0
}

/// The row pitch of a frame copied back from the GPU: `width * 4` bytes,
/// rounded up to the copy alignment.
pub fn padded_bytes_per_row(width: u32) -> (r: u32)
    requires
        width * 4 + 255 <= u32::MAX,
    ensures
        r == width * 4 + (256 - (width * 4) % 256) % 256,
        r % 256 == 0,
        width * 4 <= r < width * 4 + 256,
{
    let unpadded = width * 4;
    let align = COPY_BYTES_PER_ROW_ALIGNMENT;
    let padding = (align - unpadded % align) % align;
    unpadded + padding
}

/// The pixels of a padded read-back: for each of the `height` rows, the
/// first `width * 4` bytes of its `padded_row` bytes.
pub open spec fn unpadded_rows(data: Seq<u8>, row_bytes: int, padded_row: int, height: int) -> Seq<u8> {
    Seq::new((height * row_bytes) as nat, |i: int| data[(i / row_bytes) * padded_row + i % row_bytes])
}

/// Drops the row padding of a frame read back from the GPU.
pub fn strip_row_padding(data: &[u8], width: u32, height: u32, padded_row: u32) -> (r: Vec<u8>)
    requires
        padded_row > 0,
        width * 4 <= padded_row,
        padded_row * height <= data.len(),
    ensures
        width > 0 ==> r@ == unpadded_rows(data@, width * 4, padded_row as int, height as int),
        width == 0 ==> r@.len() == 0,
{
    let row_bytes = width as usize * 4;
    let pitch = padded_row as usize;
    let rows = height as usize;
    let mut out: Vec<u8> = Vec::new();
    let mut y: usize = 0;
    while y < rows
        invariant
            row_bytes == width * 4,
            pitch == padded_row,
            rows == height,
            pitch > 0,
            row_bytes <= pitch,
            pitch * rows <= data.len(),
            y <= rows,
            out@.len() == y * row_bytes,
            width > 0 ==> forall|i: int|
                0 <= i < y * row_bytes ==> #[trigger] out@[i] == data@[(i / row_bytes as int) * pitch + i
                    % row_bytes as int],
        decreases rows - y,
    {
        proof {
            assert(y * pitch + pitch <= pitch * rows) by (nonlinear_arith)
                requires
                    y < rows,
                    pitch > 0,
            ;
        }
        let start = y * pitch;
        let mut x: usize = 0;
        while x < row_bytes
            invariant
                row_bytes == width * 4,
                pitch == padded_row,
                rows == height,
                row_bytes <= pitch,
                pitch * rows <= data.len(),
                y < rows,
                start == y * pitch,
                start + pitch <= data.len(),
                x <= row_bytes,
                out@.len() == y * row_bytes + x,
                width > 0 ==> forall|i: int|
                    0 <= i < y * row_bytes + x ==> #[trigger] out@[i] == data@[(i / row_bytes as int) * pitch
                        + i % row_bytes as int],
            decreases row_bytes - x,
        {
            out.push(data[start + x]);
            proof {
                if width > 0 {
                    let i = y * row_bytes + x;
                    vstd::arithmetic::div_mod::lemma_fundamental_div_mod_converse(
                        i as int,
                        row_bytes as int,
                        y as int,
                        x as int,
                    );
                }
            }
            x = x + 1;
        }
        assert((y + 1) * row_bytes == y * row_bytes + row_bytes) by (nonlinear_arith);
        y = y + 1;
    }
    proof {
        if width > 0 {
            assert(rows * row_bytes == height * (width * 4));
            assert(out@ =~= unpadded_rows(data@, width * 4, padded_row as int, height as int));
        } else {
            assert(rows * row_bytes == 0);
        }
    }
    out
}

/// How a redraw ends once inference and upload are done.
#[derive(Debug, Clone, Copy, PartialEq, Eq, Structural)]
pub enum RedrawEnd {
    /// The frame or mask texture does not exist yet: nothing is drawn and no
    /// acknowledgement is sent.
    NothingToDraw,
    /// Draw, write the headless frame dump, and end the process.
    DumpAndExit,
    /// Draw, submit and present; acknowledge the frame when `ack`.
    Present { ack: bool },
}

/// How a redraw ends: nothing is drawn until both textures exist; with
/// headless dumps on, a frame that produced actions is dumped and the
/// process ends; otherwise the frame is presented and, when a new frame was
/// uploaded, acknowledged.
pub fn redraw_end(textures_ready: bool, action_count: usize, dump_headless: bool, uploaded: bool) -> (r: RedrawEnd)
    ensures
        r == (if !textures_ready {
            RedrawEnd::NothingToDraw
        } else if dump_headless && action_count > 0 {
            RedrawEnd::DumpAndExit
        } else {
            RedrawEnd::Present { ack: uploaded }
        }),
{
    if !textures_ready {
        return RedrawEnd::NothingToDraw;
    }
    if dump_headless && action_count > 0 {
        return RedrawEnd::DumpAndExit;
    }
    RedrawEnd::Present { ack: uploaded }
}

/// True when a GPU capture is started before the frame's commands: the
/// frame is drawn and produced actions.
pub fn starts_capture(textures_ready: bool, action_count: usize) -> (r: bool)
    ensures
        r == (textures_ready && action_count > 0),
{
    textures_ready && action_count > 0
}

/// What the capture hooks do this frame.
#[derive(Debug, Clone, Copy, PartialEq, Eq, Structural)]
pub enum CaptureStep {
    /// Do nothing.
    Idle,
    /// Start a frame capture.
    Start,
}

/// Whether a programmatic frame capture starts: only when capturing is
/// enabled, the capture tool is loaded, no capture is recording, and no
/// tool UI is attached (which captures on its own).
pub fn capture_step(enabled: bool, tool_loaded: bool, recording: bool, target_control_connected: bool) -> (r: CaptureStep)
    ensures
        r == (if enabled && tool_loaded && !recording && !target_control_connected {
            CaptureStep::Start
        } else {
            CaptureStep::Idle
        }),
{
    if !enabled {
        return CaptureStep::Idle;
    }
    if tool_loaded && !recording {
        if target_control_connected {
            return CaptureStep::Idle;
        }
        return CaptureStep::Start;
    }
    CaptureStep::Idle
}

/// Without padding (the row pitch is the row's length), stripping keeps
/// the read-back's first `height` rows unchanged.
pub proof fn lemma_unpadded_pitch_keeps_bytes(data: Seq<u8>, row_bytes: int, height: int)
    requires
        row_bytes > 0,
        height >= 0,
        row_bytes * height <= data.len(),
    ensures
        unpadded_rows(data, row_bytes, row_bytes, height) == data.subrange(0, height * row_bytes),
{
    assert(height * row_bytes == row_bytes * height) by (nonlinear_arith);
    assert forall|i: int| 0 <= i < height * row_bytes implies #[trigger] unpadded_rows(data, row_bytes, row_bytes, height)[i]
        == data.subrange(0, height * row_bytes)[i] by {
        vstd::arithmetic::div_mod::lemma_fundamental_div_mod(i, row_bytes);
        assert((i / row_bytes) * row_bytes == row_bytes * (i / row_bytes)) by (nonlinear_arith);
    }
    assert(unpadded_rows(data, row_bytes, row_bytes, height) =~= data.subrange(0, height * row_bytes));
}

/// Action type 0 (blur) is drawn with shader code 1, every other type
/// (black box) with code 2; code 0 marks an unused slot and is never an
/// action's code.
pub proof fn lemma_shader_action_codes(action_type: u8)
    ensures
        shader_action_code(action_type) == (if action_type == 0 { 1u32 } else { 2u32 }),
        shader_action_code(action_type) != 0,
{
}

/// The stripped read-back keeps byte `x` of row `y` at `y * row_bytes + x`,
/// taken from `y * padded_row + x` of the padded data.
pub proof fn lemma_unpadded_rows_index(data: Seq<u8>, row_bytes: int, padded_row: int, height: int, y: int, x: int)
    requires
        row_bytes > 0,
        0 <= y < height,
        0 <= x < row_bytes,
    ensures
        unpadded_rows(data, row_bytes, padded_row, height).len() == height * row_bytes,
        unpadded_rows(data, row_bytes, padded_row, height)[y * row_bytes + x] == data[y * padded_row + x],
{
    assert(0 <= y * row_bytes + x < height * row_bytes) by (nonlinear_arith)
        requires
            0 <= y < height,
            0 <= x < row_bytes,
    ;
    assert(height * row_bytes >= 0) by (nonlinear_arith)
        requires
            0 <= y < height,
            row_bytes > 0,
    ;
    vstd::arithmetic::div_mod::lemma_fundamental_div_mod_converse(y * row_bytes + x, row_bytes, y, x);
}

} // verus!
