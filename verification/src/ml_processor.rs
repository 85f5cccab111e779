//! The processing stage.

use vstd::prelude::*;
use crate::content_buffer::{ContentBuffer, Status, same_identity};

verus! {

/// Reverses `v` in place.
fn reverse_bytes(v: &mut Vec<u8>)
    ensures
        final(v)@ == old(v)@.reverse(),
{
    let n = v.len();
    let ghost orig = v@;
    let mut i: usize = 0;
    while i < n / 2
        invariant
            n == orig.len(),
            v.len() == n,
            i <= n / 2,
            forall|k: int|
                0 <= k < n ==> #[trigger] v@[k] == (if k < i || k >= n - i { orig[n - 1 - k] } else { orig[k] }),
        decreases n / 2 - i,
    {
        let j = n - 1 - i;
        let a = v[i];
        let b = v[j];
        v[i] = b;
        v[j] = a;
        i = i + 1;
    }
    assert(v@ =~= orig.reverse());
}

/// The processing stage: a `SUCCESS` buffer gets its payload reversed; a
/// `FAIL` buffer passes unchanged.
pub fn process_stage(input: ContentBuffer) -> (r: ContentBuffer)
    ensures
        same_identity(input, r),
        r.status == input.status,
        r.payload@ == (if input.status == Status::SUCCESS { input.payload@.reverse() } else { input.payload@ }),
{
    let mut input = input;
    if let Status::SUCCESS = input.status {
        reverse_bytes(&mut input.payload);
    }
    input
}

} // verus!
