use vstd::prelude::*;

verus! {

/// How many sessions are open in a process that shares one transport library among them:
/// the library is set up when the first session opens and torn down when the last one
/// closes.
pub struct SessionCount {
    open: usize,
}

impl SessionCount {
    /// The number of open sessions.
    pub closed spec fn count(&self) -> nat {
        self.open as nat
    }

    /// No session open.
    pub fn new() -> (r: SessionCount)
        ensures
            r.count() == 0,
    {
        SessionCount { open: 0 }
    }

    /// Whether no session is open, so that the library must be set up before the next
    /// one opens.
    pub fn is_idle(&self) -> (r: bool)
        ensures
            r == (self.count() == 0),
    {
        self.open == 0
    }

    /// The number of open sessions.
    pub fn open_sessions(&self) -> (r: usize)
        ensures
            r == self.count(),
    {
        self.open
    }

    /// Records a session that has opened; `false`, with nothing changed, where the count
    /// is already at its largest.
    pub fn opened(&mut self) -> (r: bool)
        ensures
            r == (old(self).count() < usize::MAX),
            r ==> final(self).count() == old(self).count() + 1,
            !r ==> final(self).count() == old(self).count(),
    {
        if self.open == usize::MAX {
            return false;
        }
        self.open = self.open + 1;
        true
    }

    /// Records a session that has closed; `true` where it was the last one, so that the
    /// library is to be torn down.
    pub fn closed(&mut self) -> (last: bool)
        requires
            old(self).count() > 0,
        ensures
            final(self).count() == old(self).count() - 1,
            last == (final(self).count() == 0),
    {
        self.open = self.open - 1;
        self.open == 0
    }
}

} // verus!
