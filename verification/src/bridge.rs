//! The rules of the execution context that runs the engine's asynchronous
//! operations on behalf of blocking callers.

use vstd::prelude::*;

verus! {

/// The number of worker threads of the execution context.
pub const WORKER_THREAD_NUM: usize = 3;

/// The most threads the execution context starts for blocking tasks.
pub const MAX_BLOCK_THREAD_NUM: usize = 50;

/// Where a blocking call runs its asynchronous operation.
#[derive(Clone, Copy, Debug, PartialEq, Eq, Structural)]
pub enum Route {
    /// The caller is outside the execution context: it hands the operation
    /// to the workers and waits.
    Workers,
    /// The caller is itself a task of the execution context: it moves to
    /// the blocking-task pool before it waits, so that no worker is held.
    BlockingPool,
}

/// The route of a blocking call, given whether the caller already runs
/// inside the execution context.
pub fn route(inside_context: bool) -> (route: Route)
    ensures
        route == if inside_context {
            Route::BlockingPool
        } else {
            Route::Workers
        },
{
    if inside_context {
        Route::BlockingPool
    } else {
        Route::Workers
    }
}

} // verus!
