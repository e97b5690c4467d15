use vstd::prelude::*;
use crate::pool::build_pool;

verus! {

/// Worker-pool allocation failed at construction time; the encoder is not
/// usable.  Surfaced immediately, never silently downgraded to inline.
#[derive(Debug, PartialEq, Eq, Structural)]
pub struct PoolCreationError;

/// How the bulk operations run: inline on the caller's thread, or on a
/// fixed-size rayon worker pool.  Downgrading to inline is permanent:
/// nothing turns an `Inline` strategy back into a `Pooled` one.
#[derive(Debug)]
pub enum ExecutionStrategy {
    Inline,
    Pooled(rayon::ThreadPool),
}

impl ExecutionStrategy {
    /// A worker count of at most 1 means inline; more means a pool of
    /// exactly that many persistent workers, whose allocation failure is
    /// reported to the caller.
    pub fn with_workers(n: usize) -> (r: Result<ExecutionStrategy, PoolCreationError>)
        ensures
            n <= 1 ==> (r matches Ok(s) && s is Inline),
            r matches Ok(s) ==> (s is Inline <==> n <= 1),
            r is Err ==> n > 1,
    {
        if n > 1 {
            match build_pool(n) {
                Ok(p) => Ok(ExecutionStrategy::Pooled(p)),
                Err(_) => Err(PoolCreationError),
            }
        } else {
            Ok(ExecutionStrategy::Inline)
        }
    }

    /// Discard the pool, if any; every later operation runs inline.  A
    /// second call finds the `Inline` strategy and leaves it as it is.
    pub fn downgrade_to_inline(&mut self)
        ensures
            *final(self) is Inline,
    {
        *self = ExecutionStrategy::Inline;
    }
}

} // verus!
