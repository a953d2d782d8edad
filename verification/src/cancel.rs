//! Cooperative cancellation of execution.

use std::sync::atomic::AtomicBool;
use std::sync::atomic::Ordering;
use std::sync::Arc;

use vstd::prelude::*;

use crate::error::Error;
use crate::results;
use crate::results::{ExecutionExitCode, ExecutionResult};

verus! {

/// A clonable token used for cooperative cancellation checks.
///
/// All clones of a token share one flag, which any thread may change at any time. So which value a
/// read of the flag gives is left open; what is stated is which operation is made on which flag.
#[derive(Debug)]
pub struct CancellationToken {
    flag: Arc<AtomicBool>,
}

impl CancellationToken {
    /// Whether the flag of this token was made as `AtomicBool::new(cancelled)` makes one.
    pub closed spec fn starts_as(self, cancelled: bool) -> bool {
        call_ensures(AtomicBool::new, (cancelled,), *self.flag)
    }

    /// What storing `cancelled` into this token's flag ensures.
    pub closed spec fn marked_as(self, cancelled: bool) -> bool {
        call_ensures(AtomicBool::store, (&*self.flag, cancelled, Ordering::SeqCst), ())
    }

    /// Whether a load of this token's flag can give `cancelled`.
    pub closed spec fn may_read(self, cancelled: bool) -> bool {
        call_ensures(AtomicBool::load, (&*self.flag, Ordering::SeqCst), cancelled)
    }
}

impl Clone for CancellationToken {
    /// A token with the same flag.
    fn clone(&self) -> (r: Self)
        ensures
            r == *self,
    {
        CancellationToken { flag: self.flag.clone() }
    }
}

impl Default for CancellationToken {
    fn default() -> (r: Self)
        ensures
            r.starts_as(false),
    {
        CancellationToken { flag: Arc::new(AtomicBool::new(false)) }
    }
}

/// What a check gives where the flag reads as `cancelled`.
pub open spec fn check_outcome(cancelled: bool) -> Result<(), Error> {
    if cancelled {
        Err(Error::Interrupted)
    } else {
        Ok(())
    }
}

/// What a check gives where the flag reads as `cancelled`.
pub fn check_flag(cancelled: bool) -> (r: Result<(), Error>)
    ensures
        r == check_outcome(cancelled),
{
    if cancelled {
        Err(Error::Interrupted)
    } else {
        Ok(())
    }
}

impl CancellationToken {
    /// Create a new uncancelled token.
    pub fn new() -> (r: Self)
        ensures
            r.starts_as(false),
    {
        CancellationToken::default()
    }

    /// Marks this token as cancelled.
    pub fn cancel(&self)
        ensures
            self.marked_as(true),
    {
        self.flag.store(true, Ordering::SeqCst);
    }

    /// Clears cancellation for this token.
    pub fn reset(&self)
        ensures
            self.marked_as(false),
    {
        self.flag.store(false, Ordering::SeqCst);
    }

    /// Returns whether cancellation was requested.
    pub fn is_cancelled(&self) -> (r: bool)
        ensures
            self.may_read(r),
    {
        self.flag.load(Ordering::SeqCst)
    }

    /// Returns `Err(Interrupted)` if cancellation was requested.
    pub fn check(&self) -> (r: Result<(), Error>)
        ensures
            exists|cancelled: bool| #[trigger]
                self.may_read(cancelled) && r == check_outcome(cancelled),
    {
        check_flag(self.is_cancelled())
    }

    /// Returns a standard interrupted execution result.
    pub fn interrupted_result() -> (r: ExecutionResult)
        ensures
            r == results::ended_with(ExecutionExitCode::Interrupted),
            r.exit_code.number() == 130,
    {
        ExecutionResult::new(ExecutionExitCode::Interrupted)
    }
}

} // verus!
