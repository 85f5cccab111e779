use std::time::Duration;

use hfm_filter::filter::{NoopFilter, TextFilter, UppercaseFilter};
use hfm_filter::pipeline::{
    pump_action, start_transition, stamp_chunk, stop_transition, worker_accepts, PipelineState, PumpAction,
};
use hfm_filter::source::{LocalFileSource, PullOutcome, TextSource};
use hfm_filter::types::{ChunkState, Offset, ProcessedChunk, RawChunk, ReaderError};

#[test]
fn test_uppercase() {
    let raw = RawChunk::new(Offset(0), "hello world", 0);
    let filter = UppercaseFilter;
    let processed = filter.process(&raw).unwrap();
    assert_eq!(processed.data, "HELLO WORLD");
    assert_eq!(processed.offset, Offset(0));
}

#[test]
fn test_noop() {
    let raw = RawChunk::new(Offset(0), "keep as is", 0);
    let filter = NoopFilter;
    let processed = filter.process(&raw).unwrap();
    assert_eq!(processed.data, "keep as is");
    assert_eq!(processed.offset, Offset(0));
}

#[test]
fn it_works() {
    assert!(true);
}

#[test]
fn test_local_source_basic() {
    // The text of a small manifest, as reading `Cargo.toml` from disk would give it.
    let content = "[package]\nname = \"hfm-reader\"\nversion = \"0.1.0\"\n".to_string();
    let source = LocalFileSource::from_content(content);
    assert!(source.line_count() > 0);
    assert!(!source.content().is_empty());
}

#[test]
fn test_pull_and_seek() {
    let content = "line1\nline2\nline3";
    let mut source = LocalFileSource::from_content(content.to_string());
    assert_eq!(source.line_count(), 3);

    match source.try_pull_chunk(Duration::from_secs(0)) {
        PullOutcome::Chunk(chunk) => {
            assert_eq!(chunk.offset, Offset(0));
            assert_eq!(chunk.data, "line1");
        }
        _ => panic!("Expected chunk"),
    }

    match source.try_pull_chunk(Duration::from_secs(0)) {
        PullOutcome::Chunk(chunk) => {
            assert_eq!(chunk.offset, Offset(5));
            assert_eq!(chunk.data, "line2");
        }
        _ => panic!("Expected chunk"),
    }

    source.seek(Offset(0)).unwrap();
    match source.try_pull_chunk(Duration::from_secs(0)) {
        PullOutcome::Chunk(chunk) => {
            assert_eq!(chunk.offset, Offset(0));
            assert_eq!(chunk.data, "line1");
        }
        _ => panic!("Expected chunk"),
    }

    source.seek(Offset(6)).unwrap();
    match source.try_pull_chunk(Duration::from_secs(0)) {
        PullOutcome::Chunk(chunk) => {
            assert_eq!(chunk.offset, Offset(5));
            assert_eq!(chunk.data, "line2");
        }
        _ => panic!("Expected chunk"),
    }

    source.seek(Offset(17)).unwrap();
    match source.try_pull_chunk(Duration::from_secs(0)) {
        PullOutcome::Eos => {}
        _ => panic!("Expected Eos"),
    }
}

fn pull_all(source: &mut LocalFileSource) -> Vec<(u64, String)> {
    let mut pieces: Vec<(u64, String)> = Vec::new();
    loop {
        match source.try_pull_chunk(Duration::from_millis(1)) {
            PullOutcome::Chunk(c) => pieces.push((c.offset.0, c.data)),
            PullOutcome::Eos => break,
            PullOutcome::Empty => panic!("a memory source never waits"),
        }
    }
    pieces
}

#[test]
fn source_keeps_empty_lines_and_tiles_text() {
    let text = "\n\nab\n\ncde\n";
    let mut source = LocalFileSource::from_content(text.to_string());
    assert_eq!(source.line_count(), 6);
    let pieces = pull_all(&mut source);
    let expected: Vec<(u64, String)> = vec![(0, ""), (0, ""), (0, "ab"), (2, ""), (2, "cde"), (5, "")]
        .into_iter()
        .map(|(o, d)| (o, d.to_string()))
        .collect();
    assert_eq!(pieces, expected);
    // Joined with newlines, the chunks give the text back.
    let data: Vec<&str> = pieces.iter().map(|p| p.1.as_str()).collect();
    assert_eq!(data.join("\n"), text);
    // Each chunk starts where the previous one ends.
    for w in pieces.windows(2) {
        assert_eq!(w[0].0 + w[0].1.len() as u64, w[1].0);
    }
}

#[test]
fn source_single_newline_has_two_lines() {
    let mut source = LocalFileSource::from_content("\n".to_string());
    assert_eq!(source.line_count(), 2);
    assert_eq!(pull_all(&mut source), vec![(0, String::new()), (0, String::new())]);
}

#[test]
fn source_empty_text_is_one_empty_line() {
    let mut source = LocalFileSource::from_content(String::new());
    assert_eq!(source.line_count(), 1);
    assert_eq!(pull_all(&mut source), vec![(0, String::new())]);
    assert!(matches!(source.try_pull_chunk(Duration::from_secs(0)), PullOutcome::Eos));
}

#[test]
fn source_seek_to_zero_restarts() {
    let mut source = LocalFileSource::from_content("\nx\n\ny".to_string());
    let first = pull_all(&mut source);
    source.seek(Offset(0)).unwrap();
    assert_eq!(pull_all(&mut source), first);
    let fresh = pull_all(&mut LocalFileSource::from_content("\nx\n\ny".to_string()));
    assert_eq!(first, fresh);
}

#[test]
fn source_seek_to_each_line_offset_returns_that_line() {
    let mut source = LocalFileSource::from_content("alpha\nbe\ngamma".to_string());
    for (offset, line) in [(0u64, "alpha"), (5, "be"), (7, "gamma")] {
        source.seek(Offset(offset)).unwrap();
        match source.try_pull_chunk(Duration::from_secs(0)) {
            PullOutcome::Chunk(c) => {
                assert_eq!(c.offset, Offset(offset));
                assert_eq!(c.data, line);
            }
            _ => panic!("Expected chunk"),
        }
    }
}

#[test]
fn source_multibyte_offsets_count_bytes() {
    let mut source = LocalFileSource::from_content("é\nü".to_string());
    match source.try_pull_chunk(Duration::from_secs(0)) {
        PullOutcome::Chunk(c) => assert_eq!((c.offset, c.data.as_str()), (Offset(0), "é")),
        _ => panic!("Expected chunk"),
    }
    match source.try_pull_chunk(Duration::from_secs(0)) {
        PullOutcome::Chunk(c) => assert_eq!((c.offset, c.data.as_str()), (Offset(2), "ü")),
        _ => panic!("Expected chunk"),
    }
}

#[test]
fn uppercase_keeps_generation_and_changes_text() {
    let raw = RawChunk::new(Offset(7), "straße", 3);
    let processed = UppercaseFilter::new().process(&raw).unwrap();
    assert_eq!(processed.data, "STRASSE");
    assert_eq!(processed.offset, Offset(7));
    assert_eq!(processed.generation, 3);
}

#[test]
fn noop_keeps_everything() {
    let raw = RawChunk::new(Offset(2), "abc", 9);
    let processed = NoopFilter::default().process(&raw).unwrap();
    assert_eq!(processed, ProcessedChunk::new(Offset(2), "abc", 9));
}

#[test]
fn chunk_end_offsets_count_bytes() {
    assert_eq!(RawChunk::new(Offset(10), "héllo", 0).end_offset(), Offset(16));
    assert_eq!(ProcessedChunk::new(Offset(0), "", 0).end_offset(), Offset(0));
    assert_eq!(Offset(42).as_u64(), 42);
    assert_eq!(Offset(42).as_usize(), 42);
    assert_eq!(Offset::from(5u64), Offset(5));
    assert_eq!(Offset::from(7usize), Offset(7));
}

#[test]
fn chunk_state_accessors() {
    let raw = ChunkState::Raw(RawChunk::new(Offset(1), "r", 0));
    let ready = ChunkState::Ready(ProcessedChunk::new(Offset(4), "p", 0));
    assert_eq!(raw.offset(), Some(Offset(1)));
    assert_eq!(raw.data(), Some("r"));
    assert_eq!(ready.offset(), Some(Offset(4)));
    assert_eq!(ready.data(), Some("p"));
    assert_eq!(ChunkState::Processing.offset(), None);
    assert_eq!(ChunkState::Processing.data(), None);
}

#[test]
fn pipeline_start_rules() {
    assert!(matches!(start_transition(PipelineState::Idle, true), Ok(PipelineState::Running)));
    assert!(matches!(start_transition(PipelineState::Stopped, true), Ok(PipelineState::Running)));
    match start_transition(PipelineState::Running, true) {
        Err(ReaderError::Internal(m)) => assert_eq!(m, "Pipeline already running"),
        _ => panic!("a running pipeline must not start"),
    }
    match start_transition(PipelineState::Idle, false) {
        Err(ReaderError::Internal(m)) => assert_eq!(m, "Source already taken; pipeline already started"),
        _ => panic!("a pipeline without source must not start"),
    }
    assert_eq!(stop_transition(PipelineState::Running), PipelineState::Stopped);
    // A stopped pipeline that still owns its source may start again.
    assert!(start_transition(stop_transition(PipelineState::Paused), true).is_ok());
}

#[test]
fn pipeline_drops_chunks_of_older_generations() {
    let chunk = RawChunk::new(Offset(3), "x", 0);
    let stamped = stamp_chunk(chunk, 5);
    assert_eq!(stamped.generation, 5);
    assert_eq!(stamped.offset, Offset(3));
    assert!(worker_accepts(&stamped, 5));
    assert!(!worker_accepts(&stamped, 6));
}

#[test]
fn pump_actions() {
    let chunk = PullOutcome::Chunk(RawChunk::new(Offset(0), "a", 0));
    assert_eq!(pump_action(&chunk), PumpAction::Forward);
    assert_eq!(pump_action(&PullOutcome::Empty), PumpAction::Sleep(1));
    assert_eq!(pump_action(&PullOutcome::Eos), PumpAction::Sleep(100));
}
