use vstd::prelude::*;

verus! {

/// Event-mask bit for readable readiness, matching the kernel's value.
pub const EVENT_IN_BITS: u32 = 1;

/// Event-mask bit for writable readiness, matching the kernel's value.
pub const EVENT_OUT_BITS: u32 = 4;

/// Mask of the two event bits this library understands.
pub const EVENT_ALL_BITS: u32 = 5;

/// Errors of the dpoll layer itself (as opposed to POSIX errno values).
#[derive(Clone, Copy, Debug, PartialEq, Eq, Structural)]
pub enum DpollErrors {
    /// The 32-bit event mask held bits other than `IN` and `OUT`.
    InvalidEvent(u32),
}

/// The set of events a caller can register interest in or observe:
/// readable (`IN`) and writable (`OUT`) readiness.
#[derive(Clone, Copy, Debug, PartialEq, Eq, Structural)]
pub struct Event {
    pub incoming: bool,
    pub outgoing: bool,
}

impl Event {
    pub open spec fn spec_empty() -> Event {
        Event { incoming: false, outgoing: false }
    }

    /// The 32-bit mask this set is written as on the ABI.
    pub open spec fn spec_bits(self) -> u32 {
        ((if self.incoming {
            EVENT_IN_BITS
        } else {
            0u32
        }) + (if self.outgoing {
            EVENT_OUT_BITS
        } else {
            0u32
        })) as u32
    }

    pub fn empty() -> (r: Event)
        ensures
            r == Event::spec_empty(),
    {
        Event { incoming: false, outgoing: false }
    }

    pub fn all() -> (r: Event)
        ensures
            r == (Event { incoming: true, outgoing: true }),
    {
        Event { incoming: true, outgoing: true }
    }

    pub fn input() -> (r: Event)
        ensures
            r == (Event { incoming: true, outgoing: false }),
    {
        Event { incoming: true, outgoing: false }
    }

    pub fn output() -> (r: Event)
        ensures
            r == (Event { incoming: false, outgoing: true }),
    {
        Event { incoming: false, outgoing: true }
    }

    pub fn is_empty(self) -> (r: bool)
        ensures
            r == (self == Event::spec_empty()),
    {
        !self.incoming && !self.outgoing
    }

    pub fn union(self, other: Event) -> (r: Event)
        ensures
            r.incoming == (self.incoming || other.incoming),
            r.outgoing == (self.outgoing || other.outgoing),
    {
        Event { incoming: self.incoming || other.incoming, outgoing: self.outgoing || other.outgoing }
    }

    pub fn intersection(self, other: Event) -> (r: Event)
        ensures
            r.incoming == (self.incoming && other.incoming),
            r.outgoing == (self.outgoing && other.outgoing),
    {
        Event { incoming: self.incoming && other.incoming, outgoing: self.outgoing && other.outgoing }
    }

    /// The events of `self` that are not in `other`.
    pub open spec fn spec_difference(self, other: Event) -> Event {
        Event {
            incoming: self.incoming && !other.incoming,
            outgoing: self.outgoing && !other.outgoing,
        }
    }

    pub fn difference(self, other: Event) -> (r: Event)
        ensures
            r == self.spec_difference(other),
            r.incoming == (self.incoming && !other.incoming),
            r.outgoing == (self.outgoing && !other.outgoing),
    {
        Event {
            incoming: self.incoming && !other.incoming,
            outgoing: self.outgoing && !other.outgoing,
        }
    }

    pub fn intersects(self, other: Event) -> (r: bool)
        ensures
            r == (self.incoming && other.incoming || self.outgoing && other.outgoing),
    {
        self.incoming && other.incoming || self.outgoing && other.outgoing
    }

    /// Writes the set as the kernel's 32-bit event mask.
    pub fn bits(self) -> (r: u32)
        ensures
            r == self.spec_bits(),
    {
        let a: u32 = if self.incoming {
            EVENT_IN_BITS
        } else {
            0
        };
        let b: u32 = if self.outgoing {
            EVENT_OUT_BITS
        } else {
            0
        };
        a + b
    }

    /// Reads a 32-bit event mask received from the application. Masks with
    /// any bit besides `IN` and `OUT` set are rejected.
    pub fn from_bits(bits: u32) -> (r: Result<Event, DpollErrors>)
        ensures
            match r {
                Result::Ok(e) => bits & !EVENT_ALL_BITS == 0 && e.incoming == (bits & EVENT_IN_BITS
                    != 0) && e.outgoing == (bits & EVENT_OUT_BITS != 0),
                Result::Err(err) => bits & !EVENT_ALL_BITS != 0 && err
                    == DpollErrors::InvalidEvent(bits),
            },
    {
        if bits & !EVENT_ALL_BITS != 0 {
            Err(DpollErrors::InvalidEvent(bits))
        } else {
            Ok(Event { incoming: bits & EVENT_IN_BITS != 0, outgoing: bits & EVENT_OUT_BITS != 0 })
        }
    }
}

/// A well-formed event mask survives the encode / decode round trip: writing
/// a set as its 32-bit mask and reading it back yields the same set.
pub proof fn lemma_event_bits_round_trip(e: Event)
    ensures
        e.spec_bits() & !EVENT_ALL_BITS == 0,
        e.incoming == (e.spec_bits() & EVENT_IN_BITS != 0),
        e.outgoing == (e.spec_bits() & EVENT_OUT_BITS != 0),
{
    if e.incoming {
        if e.outgoing {
            assert(5u32 & !5u32 == 0 && 5u32 & 1u32 != 0 && 5u32 & 4u32 != 0) by (bit_vector);
        } else {
            assert(1u32 & !5u32 == 0 && 1u32 & 1u32 != 0 && 1u32 & 4u32 == 0) by (bit_vector);
        }
    } else {
        if e.outgoing {
            assert(4u32 & !5u32 == 0 && 4u32 & 1u32 == 0 && 4u32 & 4u32 != 0) by (bit_vector);
        } else {
            assert(0u32 & !5u32 == 0 && 0u32 & 1u32 == 0 && 0u32 & 4u32 == 0) by (bit_vector);
        }
    }
}

} // verus!
