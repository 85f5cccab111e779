//! The fetch stage.

use vstd::prelude::*;
use crate::content_buffer::{ContentBuffer, Status, same_identity};

verus! {

/// The fetch stage: a buffer with an empty payload is marked `FAIL`; any
/// other buffer passes unchanged.
pub fn fetch_stage(input: ContentBuffer) -> (r: ContentBuffer)
    ensures
        same_identity(input, r),
        r.payload@ == input.payload@,
        r.status == (if input.payload@.len() == 0 { Status::FAIL } else { input.status }),
{
    let mut input = input;
    if input.payload.len() == 0 {
        input.status = Status::FAIL;
    }
    input
}

} // verus!
