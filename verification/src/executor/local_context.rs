//! Scoped access to the executor running on the current thread.

use vstd::prelude::*;

verus! {

/// A thread's executor slot.
#[derive(Debug, Clone, Copy, PartialEq, Eq, Structural)]
pub struct LocalContext {
    current: Option<usize>,
}

/// Puts a thread's slot back as it was.
#[derive(Debug, PartialEq, Eq, Structural)]
pub struct Reset {
    previous: Option<usize>,
}

impl Reset {
    /// What the slot held.
    pub closed spec fn spec_previous(&self) -> Option<usize> {
        self.previous
    }
}

impl View for LocalContext {
    type V = Option<usize>;

    /// The executor that is installed.
    closed spec fn view(&self) -> Option<usize> {
        self.current
    }
}

impl LocalContext {
    /// No executor is installed.
    pub fn new() -> (context: Self)
        ensures
            context@ is None,
    {
        LocalContext { current: None }
    }

    /// Installs an executor. The slot is put back as it was by the guard, when
    /// the scope it was installed for is left, on return and on unwinding.
    pub fn set(&mut self, executor: usize) -> (reset: Reset)
        ensures
            final(self)@ == Some(executor),
            reset.spec_previous() == old(self)@,
    {
        let reset = Reset { previous: self.current };
        self.current = Some(executor);
        reset
    }

    /// Leaves the scope that an executor was installed for.
    pub fn reset(&mut self, reset: Reset)
        ensures
            final(self)@ == reset.spec_previous(),
    {
        self.current = reset.previous;
    }

    /// The executor that is installed, if one is.
    pub fn try_with(&self) -> (executor: Option<usize>)
        ensures
            executor == self@,
    {
        self.current
    }

    /// The executor that is installed.
    pub fn with(&self) -> (executor: usize)
        requires
            self@ is Some,
        ensures
            Some(executor) == self@,
    {
        match self.current {
            Some(executor) => executor,
            None => vstd::pervasive::unreached(),
        }
    }

    /// Whether this thread is currently running an executor.
    pub fn is_set(&self) -> (set: bool)
        ensures
            set <==> self@ is Some,
    {
        self.current.is_some()
    }
}

/// What a slot holds once scopes were entered one inside the other, innermost
/// last, given what it held before.
pub open spec fn nested(before: Option<usize>, scopes: Seq<usize>) -> Option<usize> {
    if scopes.len() == 0 {
        before
    } else {
        Some(scopes.last())
    }
}

/// Leaving the innermost scope, whichever way, brings back what the scope
/// around it had installed, and leaving the outermost brings back what was
/// there before.
pub proof fn law_scopes_restore(before: Option<usize>, scopes: Seq<usize>, executor: usize, slot: LocalContext, reset: Reset)
    requires
        slot@ == Some(executor),
        reset.spec_previous() == nested(before, scopes),
    ensures
        nested(before, scopes.push(executor)) == slot@,
        nested(before, scopes.push(executor).drop_last()) == reset.spec_previous(),
{
    assert(scopes.push(executor).drop_last() =~= scopes);
}

} // verus!
