//! A payload travelling through the fetch and process stages.

use vstd::prelude::*;

verus! {

/// Outcome recorded on a buffer.
#[allow(non_camel_case_types)]
#[derive(Clone, Copy, Debug, PartialEq, Eq, Structural)]
pub enum Status {
    SUCCESS,
    FAIL,
}

impl Status {
    /// The status name.
    pub fn as_str(&self) -> (r: &'static str)
        ensures
            r@ == (match self {
                Status::SUCCESS => "SUCCESS"@,
                Status::FAIL => "FAIL"@,
            }),
    {
        match self {
            Status::SUCCESS => "SUCCESS",
            Status::FAIL => "FAIL",
        }
    }
}

/// A payload with its identity, iteration, status and timing.
#[derive(Clone, Debug)]
pub struct ContentBuffer {
    pub input_id: String,
    pub iteration: usize,
    pub payload: Vec<u8>,
    pub status: Status,
    pub start_time_ms: u128,
    pub end_time_ms: u128,
}

impl ContentBuffer {
    /// A buffer named `dummy` holding 1024 zero bytes.
    pub fn new_dummy() -> (r: ContentBuffer)
        ensures
            r.input_id@ == "dummy"@,
            r.iteration == 0,
            r.payload@ == Seq::new(1024, |i: int| 0u8),
            r.status == Status::SUCCESS,
            r.start_time_ms == 0,
            r.end_time_ms == 0,
    {
        let payload = vec![0u8; 1024];
        assert(payload@ =~= Seq::new(1024, |i: int| 0u8));
        ContentBuffer {
            input_id: "dummy".to_owned(),
            iteration: 0,
            payload,
            status: Status::SUCCESS,
            start_time_ms: 0,
            end_time_ms: 0,
        }
    }

    /// A buffer named `large` holding `data`.
    pub fn from_bytes(data: Vec<u8>) -> (r: ContentBuffer)
        ensures
            r.input_id@ == "large"@,
            r.iteration == 0,
            r.payload@ == data@,
            r.status == Status::SUCCESS,
            r.start_time_ms == 0,
            r.end_time_ms == 0,
    {
        ContentBuffer {
            input_id: "large".to_owned(),
            iteration: 0,
            payload: data,
            status: Status::SUCCESS,
            start_time_ms: 0,
            end_time_ms: 0,
        }
    }
}

/// True when `out` is `inp` with only its payload and status possibly
/// changed.
pub open spec fn same_identity(inp: ContentBuffer, out: ContentBuffer) -> bool {
    &&& out.input_id == inp.input_id
    &&& out.iteration == inp.iteration
    &&& out.start_time_ms == inp.start_time_ms
    &&& out.end_time_ms == inp.end_time_ms
}

} // verus!
