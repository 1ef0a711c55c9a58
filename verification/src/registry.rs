use vstd::prelude::*;

verus! {

/// Health flags observed by every mutating path. The flusher (outside the
/// core) trips the poison bit when background persistence breaks; while the
/// registry is not okay, handlers refuse to touch the store and answer with
/// the canned server-error group instead.
pub struct Registry {
    okay: bool,
    poisoned: bool,
}

impl Registry {
    /// A fresh registry: healthy, mutations allowed.
    pub fn new_healthy() -> (r: Registry)
        ensures
            r.state_okay(),
    {
        Registry { okay: true, poisoned: false }
    }

    pub closed spec fn spec_state_okay(&self) -> bool {
        self.okay && !self.poisoned
    }

    /// True exactly when every flag reports healthy.
    #[verifier::when_used_as_spec(spec_state_okay)]
    pub fn state_okay(&self) -> (r: bool)
        ensures
            r == self.spec_state_okay(),
    {
        self.okay && !self.poisoned
    }

    /// Trip the poison bit: from now on mutating handlers are fenced off.
    pub fn poison(&mut self)
        ensures
            !final(self).spec_state_okay(),
    {
        self.poisoned = true;
    }

    /// Clear the poison bit and report healthy again.
    pub fn unpoison(&mut self)
        ensures
            final(self).spec_state_okay(),
    {
        self.okay = true;
        self.poisoned = false;
    }
}

} // verus!
