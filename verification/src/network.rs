//! The frame protocol between the page loader and the renderer: each frame
//! is a little-endian `u32` length, that many bytes of metadata, then
//! `width * height * 4` bytes of RGBA pixels; the renderer answers each
//! frame with one acknowledgement byte once the GPU has taken it.

use vstd::prelude::*;

verus! {

/// The byte that acknowledges a frame.
pub const ACK_BYTE: u8 = 1u8;

/// The frames between two timing reports.
pub const LOG_INTERVAL: u32 = 100u32;

/// The number that four bytes encode, least significant byte first.
pub open spec fn le_u32(b: Seq<u8>) -> int {
    b[0] + 256 * b[1] + 65536 * b[2] + 16777216 * b[3]
}

/// Decodes the length prefix of a frame's metadata.
pub fn decode_length_prefix(bytes: [u8; 4]) -> (r: u32)
    ensures
        r == le_u32(bytes@),
{
    let b0 = bytes[0] as u32;
    let b1 = bytes[1] as u32;
    let b2 = bytes[2] as u32;
    let b3 = bytes[3] as u32;
    b0 + 256 * b1 + 65536 * b2 + 16777216 * b3
}

/// The size of a frame's pixel data: four bytes per pixel.
pub fn frame_pixel_bytes(width: u32, height: u32) -> (r: usize)
    requires
        width * height * 4 <= u32::MAX,
    ensures
        r == width * height * 4,
{
    let pixels: u32 = width * height;
    (pixels * 4) as usize
}

/// True for the frames whose timing is reported: the first, then every
/// hundredth.
pub fn should_report_frame(count: u32) -> (r: bool)
    ensures
        r == (count == 0 || count % 100 == 0),
{
    count == 0 || count % LOG_INTERVAL == 0
}

/// Whether the next inference is skipped once a frame has arrived: a frame
/// that arrives while an inference runs makes the next one be skipped.
pub fn skip_after_frame(inference_running: bool, skip_next: bool) -> (r: bool)
    ensures
        r == (skip_next || inference_running),
{
    if inference_running {
        true
    } else {
        skip_next
    }
}

/// Where a connection stands.
#[derive(Debug, Clone, Copy, PartialEq, Eq, Structural)]
pub enum ConnPhase {
    /// Waiting for the four bytes of the length prefix.
    AwaitLength,
    /// Waiting for `len` bytes of metadata.
    AwaitMetadata { len: u32 },
    /// Waiting for `len` bytes of pixels.
    AwaitPixels { len: usize },
    /// The frame is published; waiting for the GPU to take it.
    AwaitAck,
    /// Sending the acknowledgement byte.
    SendAck,
    /// The connection is over.
    Closed,
}

/// What the I/O side reports back.
#[derive(Debug, Clone, Copy)]
pub enum ConnEvent {
    /// The four bytes of the length prefix arrived.
    LengthRead([u8; 4]),
    /// The metadata arrived; it gives the frame's size.
    MetadataRead { width: u32, height: u32 },
    /// The pixels arrived.
    PixelsRead,
    /// The GPU took the frame.
    AckReady,
    /// The acknowledgement byte was written.
    AckWritten,
    /// A read or write failed, or the acknowledgement channel closed.
    Failed,
}

/// What the I/O side does next.
#[derive(Debug, Clone, Copy, PartialEq, Eq, Structural)]
pub enum ConnAction {
    /// Read exactly this many bytes.
    ReadExact(usize),
    /// Publish the frame, then wait for the GPU to take it.
    PublishAndWait,
    /// Write this byte.
    Write(u8),
    /// End the connection.
    Close,
}

/// The next phase and action of a connection after an event. An event that
/// does not belong to the phase, and every failure, closes it.
pub open spec fn conn_step_spec(phase: ConnPhase, event: ConnEvent) -> (ConnPhase, ConnAction) {
    match (phase, event) {
        (ConnPhase::AwaitLength, ConnEvent::LengthRead(b)) => (
            ConnPhase::AwaitMetadata { len: le_u32(b@) as u32 },
            ConnAction::ReadExact(le_u32(b@) as usize),
        ),
        (ConnPhase::AwaitMetadata { .. }, ConnEvent::MetadataRead { width, height }) => (
            ConnPhase::AwaitPixels { len: (width * height * 4) as usize },
            ConnAction::ReadExact((width * height * 4) as usize),
        ),
        (ConnPhase::AwaitPixels { .. }, ConnEvent::PixelsRead) => (ConnPhase::AwaitAck, ConnAction::PublishAndWait),
        (ConnPhase::AwaitAck, ConnEvent::AckReady) => (ConnPhase::SendAck, ConnAction::Write(ACK_BYTE)),
        (ConnPhase::SendAck, ConnEvent::AckWritten) => (ConnPhase::AwaitLength, ConnAction::ReadExact(4)),
        _ => (ConnPhase::Closed, ConnAction::Close),
    }
}

/// One step of a connection.
pub fn conn_step(phase: ConnPhase, event: ConnEvent) -> (r: (ConnPhase, ConnAction))
    requires
        event matches ConnEvent::MetadataRead { width, height } ==> width * height * 4 <= u32::MAX,
    ensures
        r == conn_step_spec(phase, event),
{
    match (phase, event) {
        (ConnPhase::AwaitLength, ConnEvent::LengthRead(b)) => {
            let len = decode_length_prefix(b);
            (ConnPhase::AwaitMetadata { len }, ConnAction::ReadExact(len as usize))
        },
        (ConnPhase::AwaitMetadata { .. }, ConnEvent::MetadataRead { width, height }) => {
            let len = frame_pixel_bytes(width, height);
            (ConnPhase::AwaitPixels { len }, ConnAction::ReadExact(len))
        },
        (ConnPhase::AwaitPixels { .. }, ConnEvent::PixelsRead) => (ConnPhase::AwaitAck, ConnAction::PublishAndWait),
        (ConnPhase::AwaitAck, ConnEvent::AckReady) => (ConnPhase::SendAck, ConnAction::Write(ACK_BYTE)),
        (ConnPhase::SendAck, ConnEvent::AckWritten) => (ConnPhase::AwaitLength, ConnAction::ReadExact(4)),
        _ => (ConnPhase::Closed, ConnAction::Close),
    }
}

/// Once closed, a connection stays closed whatever is reported.
pub proof fn lemma_closed_is_final(event: ConnEvent)
    ensures
        conn_step_spec(ConnPhase::Closed, event) == (ConnPhase::Closed, ConnAction::Close),
{
}

/// A failure closes the connection in every phase.
pub proof fn lemma_failure_closes(phase: ConnPhase)
    ensures
        conn_step_spec(phase, ConnEvent::Failed) == (ConnPhase::Closed, ConnAction::Close),
{
}

/// The bytes of `n`, least significant first.
pub open spec fn le_bytes(n: u32) -> Seq<u8> {
    seq![(n % 256) as u8, ((n / 256) % 256) as u8, ((n / 65536) % 256) as u8, (n / 16777216) as u8]
}

/// The length prefix is little-endian: decoding the four bytes of any
/// `u32`, least significant first, gives that number back.
pub proof fn lemma_length_prefix_round_trip(n: u32)
    ensures
        le_u32(le_bytes(n)) == n,
{
    let b = le_bytes(n);
    assert(n == n % 256 + 256 * ((n / 256) % 256) + 65536 * ((n / 65536) % 256) + 16777216 * (n / 16777216))
        by (nonlinear_arith);
}

/// One whole frame: from waiting for a length, the events of a frame that
/// arrives and is taken by the GPU lead back to waiting for the next length.
/// On the way the connection reads the metadata's length, then the
/// `width * height * 4` bytes of pixels, publishes the frame, writes the
/// acknowledgement byte `1`, and asks for the next four-byte prefix.
pub proof fn lemma_frame_cycle(bytes: [u8; 4], width: u32, height: u32)
    requires
        width * height * 4 <= u32::MAX,
    ensures
        ({
            let s1 = conn_step_spec(ConnPhase::AwaitLength, ConnEvent::LengthRead(bytes));
            let s2 = conn_step_spec(s1.0, ConnEvent::MetadataRead { width, height });
            let s3 = conn_step_spec(s2.0, ConnEvent::PixelsRead);
            let s4 = conn_step_spec(s3.0, ConnEvent::AckReady);
            let s5 = conn_step_spec(s4.0, ConnEvent::AckWritten);
            &&& s1.1 == ConnAction::ReadExact(le_u32(bytes@) as usize)
            &&& s2.1 == ConnAction::ReadExact((width * height * 4) as usize)
            &&& s3.1 == ConnAction::PublishAndWait
            &&& s4.1 == ConnAction::Write(1u8)
            &&& s5.1 == ConnAction::ReadExact(4)
            &&& s5.0 == ConnPhase::AwaitLength
        }),
{
}

} // verus!
