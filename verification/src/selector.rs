//! What the loop shares with the readiness selector: interests, readiness
//! reports and timeouts.
use vstd::prelude::*;

verus! {

/// The bit of an interest set that asks for writability.
pub const WRITEABLE: u8 = 1;

/// The bit of an interest set that asks for readability.
pub const READABLE: u8 = 2;

/// What a registration with the selector asks to be told of.
#[derive(Clone, Copy, Debug, PartialEq, Eq)]
pub struct Interest(u8);

impl Interest {
    /// The interest set as bits.
    pub closed spec fn bits(&self) -> u8 {
        self.0
    }

    /// Readability is asked for: the bit for it is set.
    pub open spec fn wants_read(&self) -> bool {
        self.bits() & READABLE != 0
    }

    /// Writability is asked for: the bit for it is set.
    pub open spec fn wants_write(&self) -> bool {
        self.bits() & WRITEABLE != 0
    }

    /// Asks to be told when the descriptor can be read, and of nothing else.
    pub fn readable() -> (i: Interest)
        ensures
            i.bits() == READABLE,
            i.wants_read(),
            !i.wants_write(),
    {
        assert(2u8 & 2u8 != 0) by (bit_vector);
        assert(2u8 & 1u8 == 0) by (bit_vector);
        Interest(READABLE)
    }

    /// Asks to be told when the descriptor can be written, and of nothing
    /// else.
    pub fn writeable() -> (i: Interest)
        ensures
            i.bits() == WRITEABLE,
            i.wants_write(),
            !i.wants_read(),
    {
        assert(1u8 & 1u8 != 0) by (bit_vector);
        assert(1u8 & 2u8 == 0) by (bit_vector);
        Interest(WRITEABLE)
    }

    /// Whether readability is asked for.
    pub fn is_readable(&self) -> (b: bool)
        ensures
            b == self.wants_read(),
    {
        self.0 & READABLE != 0
    }

    /// Whether writability is asked for.
    pub fn is_writeable(&self) -> (b: bool)
        ensures
            b == self.wants_write(),
    {
        self.0 & WRITEABLE != 0
    }
}

/// The timeout that the operating system's wait is given for `timeout_ms`:
/// -1, which stands for no limit, where there is none; 0 for a negative one;
/// else the timeout itself.
pub open spec fn wait_timeout(timeout_ms: Option<i32>) -> int {
    match timeout_ms {
        None => -1,
        Some(ms) => if ms < 0 {
            0
        } else {
            ms as int
        },
    }
}

/// The timeout to hand to the operating system's wait.
pub fn select_timeout(timeout_ms: Option<i32>) -> (t: i32)
    ensures
        t == wait_timeout(timeout_ms),
{
    match timeout_ms {
        None => -1,
        Some(ms) => if ms < 0 {
            0
        } else {
            ms
        },
    }
}

/// One readiness report of the selector: which conditions hold, as the
/// operating system's bits, and the identity the descriptor was registered
/// under.
#[derive(Clone, Copy, Debug, PartialEq, Eq)]
pub struct Event {
    events: u32,
    epoll_data: usize,
}

impl View for Event {
    type V = (u32, usize);

    closed spec fn view(&self) -> (u32, usize) {
        (self.events, self.epoll_data)
    }
}

impl Event {
    /// A report of the conditions `events` for the identity `id`. The bits
    /// of `events` are kept as they are.
    pub fn new(events: i32, id: usize) -> (e: Event)
        ensures
            e@ == (events as u32, id),
    {
        Event { events: #[verifier::truncate] (events as u32), epoll_data: id }
    }

    /// The identity the descriptor was registered under.
    pub fn data(&self) -> (id: usize)
        ensures
            id == self@.1,
    {
        self.epoll_data
    }

    /// The identity the descriptor was registered under.
    pub fn id(&self) -> (id: usize)
        ensures
            id == self@.1,
    {
        self.data()
    }
}

} // verus!
