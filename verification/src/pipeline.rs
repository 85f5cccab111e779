//! The decisions of the reader pipeline: when it may start, which chunks
//! its worker keeps, and how its pump reacts to a pull.

use vstd::prelude::*;
use crate::source::PullOutcome;
use crate::types::{Offset, RawChunk, ReaderError};

verus! {

/// Commands that can be sent to the pipeline.
#[derive(Debug, Clone)]
pub enum PipelineCommand {
    /// Seek to an offset of the processed document.
    Seek(Offset),
    /// Pause the pipeline.
    Pause,
    /// Resume the pipeline.
    Resume,
    /// Stop the pipeline and shut down its threads.
    Stop,
}

/// Current state of the pipeline.
#[derive(Debug, Clone, Copy, PartialEq, Eq, Structural)]
pub enum PipelineState {
    Idle,
    Running,
    Paused,
    Stopped,
}

/// What the pump does after a pull.
#[derive(Debug, Clone, Copy, PartialEq, Eq, Structural)]
pub enum PumpAction {
    /// Stamp the pulled chunk with the current generation and forward it.
    Forward,
    /// Sleep this many milliseconds, then pull again.
    Sleep(u64),
}

/// True when a pipeline in `state` may start: from `Idle` or `Stopped`,
/// while it still owns its source.
pub open spec fn may_start(state: PipelineState, source_available: bool) -> bool {
    (state == PipelineState::Idle || state == PipelineState::Stopped) && source_available
}

/// The state a stop leaves the pipeline in, from any state.
pub open spec fn after_stop(state: PipelineState) -> PipelineState {
    PipelineState::Stopped
}

/// The pipeline state after a successful start, or why it cannot start: it
/// starts only from `Idle` or `Stopped`, and only while it still owns its
/// source.
pub fn start_transition(state: PipelineState, source_available: bool) -> (r: Result<PipelineState, ReaderError>)
    ensures
        r is Ok <==> may_start(state, source_available),
        state != PipelineState::Idle && state != PipelineState::Stopped ==> (r matches Err(
            ReaderError::Internal(m),
        ) && m@ == "Pipeline already running"@),
        (state == PipelineState::Idle || state == PipelineState::Stopped) && !source_available ==> (r matches Err(
            ReaderError::Internal(m),
        ) && m@ == "Source already taken; pipeline already started"@),
        (state == PipelineState::Idle || state == PipelineState::Stopped) && source_available ==> (r matches Ok(s)
            && s == PipelineState::Running),
{
    if state != PipelineState::Idle && state != PipelineState::Stopped {
        return Err(ReaderError::Internal("Pipeline already running".to_owned()));
    }
    if !source_available {
        return Err(ReaderError::Internal("Source already taken; pipeline already started".to_owned()));
    }
    Ok(PipelineState::Running)
}

/// The state after a stop: always `Stopped`.
pub fn stop_transition(state: PipelineState) -> (r: PipelineState)
    ensures
        r == after_stop(state),
{
    PipelineState::Stopped
}

/// What the pump does with the outcome of a pull: forward a chunk, wait
/// 1 ms when nothing was available, 100 ms at the end of the document.
pub fn pump_action(outcome: &PullOutcome) -> (r: PumpAction)
    ensures
        r == match outcome {
            PullOutcome::Chunk(_) => PumpAction::Forward,
            PullOutcome::Empty => PumpAction::Sleep(1),
            PullOutcome::Eos => PumpAction::Sleep(100),
        },
{
    match outcome {
        PullOutcome::Chunk(_) => PumpAction::Forward,
        PullOutcome::Empty => PumpAction::Sleep(1),
        PullOutcome::Eos => PumpAction::Sleep(100),
    }
}

/// `chunk` carrying seek generation `generation`.
pub open spec fn stamped(chunk: RawChunk, generation: u64) -> RawChunk {
    RawChunk { offset: chunk.offset, data: chunk.data, generation }
}

/// True when the worker processes `chunk` while the seek generation is
/// `current`.
pub open spec fn accepts(chunk: RawChunk, current: u64) -> bool {
    chunk.generation == current
}

/// The chunk stamped with the current seek generation.
pub fn stamp_chunk(chunk: RawChunk, generation: u64) -> (r: RawChunk)
    ensures
        r == stamped(chunk, generation),
{
    let mut chunk = chunk;
    chunk.generation = generation;
    chunk
}

/// True when the worker processes a chunk: only chunks of the current seek
/// generation are processed, older ones are dropped.
pub fn worker_accepts(chunk: &RawChunk, current_generation: u64) -> (r: bool)
    ensures
        r == accepts(*chunk, current_generation),
{
    chunk.generation == current_generation
}

/// A chunk stamped by the pump is processed by the worker exactly when no
/// seek has moved the generation on since: chunks read before a seek are
/// dropped.
pub proof fn lemma_only_current_generation_processed(chunk: RawChunk, stamp_generation: u64, current: u64)
    ensures
        accepts(stamped(chunk, stamp_generation), current) <==> stamp_generation == current,
        stamped(chunk, stamp_generation).offset == chunk.offset,
        stamped(chunk, stamp_generation).data == chunk.data,
{
}

/// A stopped pipeline that still owns its source may start again, and a
/// running or paused one may not.
pub proof fn lemma_restart_only_after_stop(state: PipelineState, source_available: bool)
    ensures
        may_start(after_stop(state), true),
        state == PipelineState::Running || state == PipelineState::Paused ==> !may_start(state, source_available),
{
}

} // verus!
