//! The construction rule of the fixed-size worker pool. The pool's threads,
//! channel and joins live with the runtime around the library; the rule that
//! decides whether a requested size can make progress is verified here.

use vstd::prelude::*;

use crate::errors::SizeError;

verus! {

/// Decides whether a worker pool may be built with the requested size. A
/// pool needs at least one worker to ever run a job, so zero is a fatal
/// construction error; any positive size is accepted unchanged.
pub fn validate_pool_size(size: usize) -> (r: Result<usize, SizeError>)
    ensures
        r is Ok <==> size >= 1,
        r matches Ok(s) ==> s == size,
        r matches Err(e) ==> e.msg@ == "thread pool size must be greater than 0"@,
{
    if size == 0 {
        Err(SizeError::new("thread pool size must be greater than 0"))
    } else {
        Ok(size)
    }
}

} // verus!
