use vstd::prelude::*;

verus! {

/// Severity of a log record, from the most severe to the least.
#[derive(Clone, Copy, Debug, PartialEq, Eq, Structural)]
pub enum Level {
    Error,
    Warn,
    Info,
    Debug,
    Trace,
}

impl Level {
    /// Rank of a level on the severity scale: `Trace` is 1, `Error` is 5.
    pub open spec fn rank(self) -> nat {
        match self {
            Level::Error => 5,
            Level::Warn => 4,
            Level::Info => 3,
            Level::Debug => 2,
            Level::Trace => 1,
        }
    }

    /// Executable severity rank.
    pub fn severity(&self) -> (r: u8)
        ensures
            r as nat == self.rank(),
    {
        match self {
            Level::Error => 5,
            Level::Warn => 4,
            Level::Info => 3,
            Level::Debug => 2,
            Level::Trace => 1,
        }
    }

    /// Whether this level is at least as severe as `other`.
    pub fn at_least(&self, other: &Level) -> (r: bool)
        ensures
            r == (self.rank() >= other.rank()),
    {
        self.severity() >= other.severity()
    }
}

} // verus!
