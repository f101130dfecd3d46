//! What the listener keeps for each stream: the file that it reads, and where it is stuck.

use vstd::prelude::*;

verus! {

/// How often in a row the same place may fail to be read while each failure is still reported
/// as an error. The first few are the short windows in which the node is still writing the
/// line; beyond them a place is reported now and then only, so that the reports do not slow
/// the listener down.
pub const PARSE_FAIL_LOUD_RETRIES: u32 = 3;

/// How long, in nanoseconds, a stuck place goes without another report.
pub const PARSE_FAIL_WARN_INTERVAL_NANOS: u64 = 60_000_000_000;

/// How long, in nanoseconds, a place must be stuck to count as a stall.
pub const STALL_GRACE_NANOS: u64 = 30_000_000_000;

/// The nanoseconds from one moment to another, none if the other is earlier.
pub open spec fn elapsed(from: u64, to: u64) -> u64 {
    if to >= from {
        (to - from) as u64
    } else {
        0
    }
}

/// The repeated failures to read a stream at one place.
#[derive(Clone, Copy, Debug, PartialEq, Eq, Structural)]
pub struct ParseFailureTracker {
    /// Where in the file the last failure was. None if the last line could be read, or if the
    /// place is not known.
    pub last_fail_offset: Option<u64>,
    /// How many failures in a row there were at that place.
    pub fail_count: u32,
    /// When they began.
    pub first_fail_at: Option<u64>,
    /// When the place was last reported as stuck.
    pub last_warn_at: Option<u64>,
}

/// How loud a failure is reported.
#[derive(Clone, Copy, Debug, PartialEq, Eq, Structural)]
pub enum ParseFailureReport {
    /// As an error.
    Loud,
    /// As a place that is still stuck, after so many attempts and so many nanoseconds.
    StillStuck { offset: Option<u64>, attempts: u32, stuck_for: u64 },
    /// Not at all.
    Silent,
}

impl ParseFailureTracker {
    /// No failure is pending.
    pub open spec fn cleared() -> ParseFailureTracker {
        ParseFailureTracker {
            last_fail_offset: None,
            fail_count: 0,
            first_fail_at: None,
            last_warn_at: None,
        }
    }

    /// The failure is at the place of the last one.
    pub open spec fn is_repeated(self, offset: Option<u64>) -> bool {
        offset is Some && self.last_fail_offset == offset
    }

    /// The failures with one more.
    pub open spec fn counted(self, offset: Option<u64>, now: u64) -> ParseFailureTracker {
        if self.is_repeated(offset) {
            ParseFailureTracker {
                fail_count: if self.fail_count < u32::MAX {
                    (self.fail_count + 1) as u32
                } else {
                    u32::MAX
                },
                ..self
            }
        } else {
            ParseFailureTracker {
                last_fail_offset: offset,
                fail_count: 1,
                first_fail_at: Some(now),
                last_warn_at: None,
            }
        }
    }

    /// A stuck place is to be reported again.
    pub open spec fn is_warn_due(self, now: u64) -> bool {
        self.last_warn_at matches Some(at) ==> elapsed(at, now) >= PARSE_FAIL_WARN_INTERVAL_NANOS
    }

    /// How the last failure is reported.
    pub open spec fn report(self, now: u64) -> ParseFailureReport {
        if self.fail_count <= PARSE_FAIL_LOUD_RETRIES {
            ParseFailureReport::Loud
        } else if self.is_warn_due(now) {
            ParseFailureReport::StillStuck {
                offset: self.last_fail_offset,
                attempts: self.fail_count,
                stuck_for: match self.first_fail_at {
                    Some(at) => elapsed(at, now),
                    None => 0,
                },
            }
        } else {
            ParseFailureReport::Silent
        }
    }

    /// The failures after the report.
    pub open spec fn reported(self, now: u64) -> ParseFailureTracker {
        if self.report(now) is StillStuck {
            ParseFailureTracker { last_warn_at: Some(now), ..self }
        } else {
            self
        }
    }

    /// The stream has been stuck at one place for long.
    pub open spec fn is_stalled(self, now: u64) -> bool {
        &&& self.fail_count > PARSE_FAIL_LOUD_RETRIES
        &&& self.first_fail_at matches Some(at) && elapsed(at, now) > STALL_GRACE_NANOS
    }

    /// Forgets the failures: a line has been read.
    pub fn clear(&mut self)
        ensures
            *final(self) == ParseFailureTracker::cleared(),
    {
        *self = ParseFailureTracker::default();
    }

    /// Notes a failure, and says how it is to be reported.
    pub fn record(&mut self, offset: Option<u64>, now: u64) -> (report: ParseFailureReport)
        ensures
            report == old(self).counted(offset, now).report(now),
            *final(self) == old(self).counted(offset, now).reported(now),
    {
        let repeated = match (offset, self.last_fail_offset) {
            (Some(offset), Some(last)) => offset == last,
            _ => false,
        };
        if repeated {
            self.fail_count = self.fail_count.saturating_add(1);
        } else {
            self.last_fail_offset = offset;
            self.fail_count = 1;
            self.first_fail_at = Some(now);
            self.last_warn_at = None;
        }
        if self.fail_count <= PARSE_FAIL_LOUD_RETRIES {
            return ParseFailureReport::Loud;
        }
        let warn_due = match self.last_warn_at {
            Some(at) => now.saturating_sub(at) >= PARSE_FAIL_WARN_INTERVAL_NANOS,
            None => true,
        };
        if !warn_due {
            return ParseFailureReport::Silent;
        }
        let stuck_for: u64 = match self.first_fail_at {
            Some(at) => now.saturating_sub(at),
            None => 0,
        };
        self.last_warn_at = Some(now);
        ParseFailureReport::StillStuck {
            offset: self.last_fail_offset,
            attempts: self.fail_count,
            stuck_for,
        }
    }

    /// Whether the stream has been stuck at one place for long.
    pub fn is_active_stall(&self, now: u64) -> (stalled: bool)
        ensures
            stalled == self.is_stalled(now),
    {
        self.fail_count > PARSE_FAIL_LOUD_RETRIES && match self.first_fail_at {
            Some(at) => now.saturating_sub(at) > STALL_GRACE_NANOS,
            None => false,
        }
    }
}

impl Default for ParseFailureTracker {
    fn default() -> (tracker: ParseFailureTracker)
        ensures
            tracker == ParseFailureTracker::cleared(),
    {
        ParseFailureTracker {
            last_fail_offset: None,
            fail_count: 0,
            first_fail_at: None,
            last_warn_at: None,
        }
    }
}

/// What the listener keeps for one stream; `F` is the file that it reads.
#[derive(Debug)]
pub struct SourceState<F> {
    pub file: Option<F>,
    /// The name of a new file whose first line has not been read yet.
    pub pending_first_batch_log: Option<String>,
    pub parse_fail: ParseFailureTracker,
}

impl<F> SourceState<F> {
    pub open spec fn is_idle(self) -> bool {
        &&& self.file is None
        &&& self.pending_first_batch_log is None
        &&& self.parse_fail == ParseFailureTracker::cleared()
    }

    pub fn new() -> (source: SourceState<F>)
        ensures
            source.is_idle(),
    {
        SourceState {
            file: None,
            pending_first_batch_log: None,
            parse_fail: ParseFailureTracker::default(),
        }
    }
}

} // verus!
