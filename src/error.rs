use vstd::prelude::*;

verus! {

/// What can go wrong while shipping records.
#[derive(Clone, Debug)]
pub enum Error {
    /// The dispatch worker has stopped; no more commands are accepted.
    ChannelClosed,
    /// The downstream sender failed; it says itself whether the failure is
    /// fatal.
    Transport { fatal: bool, message: String },
    /// An invariant of the dispatch engine was broken.
    FatalInternal(String),
}

impl Error {
    /// Whether the error stops the dispatch worker.
    pub open spec fn fatal(&self) -> bool {
        match self {
            Error::ChannelClosed => true,
            Error::Transport { fatal, .. } => *fatal,
            Error::FatalInternal(_) => true,
        }
    }

    /// Executable form of [`Error::fatal`].
    pub fn is_fatal(&self) -> (r: bool)
        ensures
            r == self.fatal(),
    {
        match self {
            Error::ChannelClosed => true,
            Error::Transport { fatal, .. } => *fatal,
            Error::FatalInternal(_) => true,
        }
    }
}

} // verus!
