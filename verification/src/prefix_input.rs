//! The input source that prefix commands are typed with.
//!
//! A prefix command needs an ascii-capable source. The source that was in
//! use is saved on the way in and restored on the way out.

use vstd::prelude::*;

verus! {

/// The source to go back to, by the number that the platform knows it by.
#[derive(Clone, Copy, Debug, PartialEq, Eq, Structural)]
pub struct PrefixInputSource {
    pub saved: Option<u32>,
}

/// What is saved once the platform switched away from a source: the first one
/// stays.
pub open spec fn saved_after(saved: Option<u32>, from: Option<u32>) -> Option<u32> {
    if saved is Some {
        saved
    } else {
        from
    }
}

impl PrefixInputSource {
    pub fn new() -> (source: PrefixInputSource)
        ensures
            source.saved is None,
    {
        PrefixInputSource { saved: None }
    }

    /// Whether entering a prefix command asks the platform for a switch: not
    /// while one is in effect.
    pub fn wants_switch(&self) -> (wants: bool)
        ensures
            wants == (self.saved is None),
    {
        self.saved.is_none()
    }

    /// The platform was asked, and switched away from this source; absent
    /// where there was nothing to switch or the switch failed. A source that
    /// is saved already stays.
    pub fn switched(&mut self, from: Option<u32>)
        ensures
            final(self).saved == saved_after(old(self).saved, from),
    {
        if self.saved.is_none() {
            self.saved = from;
        }
    }

    /// The source to restore, where one was saved; it is saved no longer.
    pub fn restore(&mut self) -> (source: Option<u32>)
        ensures
            source == old(self).saved,
            final(self).saved is None,
    {
        let source = self.saved;
        self.saved = None;
        source
    }
}

/// The source that was in use before the first prefix command is the one to go
/// back to, however many more are entered before that.
pub proof fn law_the_first_source_is_gone_back_to(first: u32, later: Option<u32>)
    ensures
        saved_after(None, Some(first)) == Some(first),
        saved_after(saved_after(None, Some(first)), later) == Some(first),
        saved_after(None, None) is None,
{
}

} // verus!
