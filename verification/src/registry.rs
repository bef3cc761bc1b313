//! The bookkeeping of a readiness registry: which interests are registered
//! for which file descriptor, what is handed to the kernel for each, and
//! how the outcome of a wait is read.
//!
//! The kernel calls themselves are made by the caller; the event masks are
//! those of libc.

use vstd::prelude::*;
use std::collections::HashMap;

verus! {

broadcast use vstd::std_specs::hash::group_hash_axioms;

#[derive(Debug, Copy, Clone, Hash, PartialEq, Eq, Structural)]
pub enum EventType {
    Read,
    Write,
}

/// The event mask and the key registered with the kernel for an interest.
#[derive(Debug, Copy, Clone, PartialEq, Eq, Structural)]
pub struct EpollEvent {
    pub events: u32,
    pub key: u64,
}

/// The level-triggered readiness mask for reading.
pub const READ_FLAGS: u32 = 0x001;

/// The level-triggered readiness mask for writing.
pub const WRITE_FLAGS: u32 = 0x004;

pub const READ_KEY: u64 = 0;

pub const WRITE_KEY: u64 = 1;

/// `libc::EPOLLIN`: the kernel's event mask for a descriptor that can be
/// read. libc defines it as 1 for Linux.
#[verifier::external_body]
fn read_flags() -> (flags: u32)
    ensures
        flags == READ_FLAGS,
{
    libc::EPOLLIN as u32
}

/// `libc::EPOLLOUT`: the kernel's event mask for a descriptor that can be
/// written. libc defines it as 4 for Linux.
#[verifier::external_body]
fn write_flags() -> (flags: u32)
    ensures
        flags == WRITE_FLAGS,
{
    libc::EPOLLOUT as u32
}

impl EventType {
    /// What is registered with the kernel for this kind of interest.
    pub fn epoll_event(&self) -> (event: EpollEvent)
        ensures
            event == match *self {
                EventType::Read => (EpollEvent { events: READ_FLAGS, key: READ_KEY }),
                EventType::Write => (EpollEvent { events: WRITE_FLAGS, key: WRITE_KEY }),
            },
    {
        match self {
            EventType::Read => EpollEvent { events: read_flags(), key: READ_KEY },
            EventType::Write => EpollEvent { events: write_flags(), key: WRITE_KEY },
        }
    }
}

/// The interests registered for one file descriptor.
#[derive(Debug, Copy, Clone, PartialEq, Eq, Structural)]
pub struct InterestSet {
    pub read: bool,
    pub write: bool,
}

impl InterestSet {
    pub open spec fn none() -> InterestSet {
        InterestSet { read: false, write: false }
    }

    pub open spec fn with(self, event_type: EventType) -> InterestSet {
        match event_type {
            EventType::Read => InterestSet { read: true, ..self },
            EventType::Write => InterestSet { write: true, ..self },
        }
    }

    pub open spec fn without(self, event_type: EventType) -> InterestSet {
        match event_type {
            EventType::Read => InterestSet { read: false, ..self },
            EventType::Write => InterestSet { write: false, ..self },
        }
    }

    pub open spec fn has(self, event_type: EventType) -> bool {
        match event_type {
            EventType::Read => self.read,
            EventType::Write => self.write,
        }
    }

    fn add(self, event_type: EventType) -> (set: InterestSet)
        ensures
            set == self.with(event_type),
    {
        match event_type {
            EventType::Read => InterestSet { read: true, write: self.write },
            EventType::Write => InterestSet { read: self.read, write: true },
        }
    }

    fn remove(self, event_type: EventType) -> (set: InterestSet)
        ensures
            set == self.without(event_type),
    {
        match event_type {
            EventType::Read => InterestSet { read: false, write: self.write },
            EventType::Write => InterestSet { read: self.read, write: false },
        }
    }
}

/// How a wait ended.
#[derive(Debug, Copy, Clone, PartialEq, Eq, Structural)]
pub enum Notification {
    /// No registered interest became ready in time.
    Timeout,
    /// This many events were harvested after this many nanoseconds.
    Events(usize, u64),
}

/// The interest table of a registry and its default timeout.
pub struct Registry {
    instances: HashMap<i32, InterestSet>,
    timeout: u64,
}

impl View for Registry {
    type V = Map<i32, InterestSet>;

    closed spec fn view(&self) -> Map<i32, InterestSet> {
        self.instances@
    }
}

impl Registry {
    /// The default timeout of a wait, in nanoseconds.
    pub const DEFAULT_TIMEOUT: u64 = 1_500_000_000;

    pub closed spec fn spec_timeout(&self) -> u64 {
        self.timeout
    }

    /// The interests registered for `fd`: none where it was never named.
    pub open spec fn interests(&self, fd: i32) -> InterestSet {
        if self@.dom().contains(fd) {
            self@[fd]
        } else {
            InterestSet::none()
        }
    }

    pub fn new() -> (registry: Self)
        ensures
            registry@ == Map::<i32, InterestSet>::empty(),
            registry.spec_timeout() == Self::DEFAULT_TIMEOUT,
    {
        Self::with_timeout(Self::DEFAULT_TIMEOUT)
    }

    pub fn with_timeout(timeout: u64) -> (registry: Self)
        ensures
            registry@ == Map::<i32, InterestSet>::empty(),
            registry.spec_timeout() == timeout,
    {
        Self { instances: HashMap::new(), timeout }
    }

    pub fn timeout(&self) -> (nanos: u64)
        ensures
            nanos == self.spec_timeout(),
    {
        self.timeout
    }

    /// Records interest in `event_type` for `fd` and gives what is to be
    /// registered with the kernel for it.
    pub fn add_interest(&mut self, event_type: EventType, fd: i32) -> (event: EpollEvent)
        ensures
            final(self)@ == old(self)@.insert(fd, old(self).interests(fd).with(event_type)),
            final(self).spec_timeout() == old(self).spec_timeout(),
            event == match event_type {
                EventType::Read => (EpollEvent { events: READ_FLAGS, key: READ_KEY }),
                EventType::Write => (EpollEvent { events: WRITE_FLAGS, key: WRITE_KEY }),
            },
    {
        let current = match self.instances.get(&fd) {
            Some(set) => *set,
            None => InterestSet { read: false, write: false },
        };
        self.instances.insert(fd, current.add(event_type));
        event_type.epoll_event()
    }

    /// Drops the interest in `event_type` for `fd`. A descriptor that was
    /// never named stays unnamed.
    pub fn delete_interest(&mut self, event_type: EventType, fd: i32)
        ensures
            final(self)@ == if old(self)@.dom().contains(fd) {
                old(self)@.insert(fd, old(self)@[fd].without(event_type))
            } else {
                old(self)@
            },
            final(self).spec_timeout() == old(self).spec_timeout(),
    {
        let current = match self.instances.get(&fd) {
            Some(set) => Some(*set),
            None => None,
        };
        match current {
            Some(set) => {
                self.instances.insert(fd, set.remove(event_type));
            },
            None => {},
        }
    }

    /// Whether interest in `event_type` is recorded for `fd`.
    pub fn has_interest(&self, event_type: EventType, fd: i32) -> (has: bool)
        ensures
            has == self.interests(fd).has(event_type),
    {
        match self.instances.get(&fd) {
            Some(set) => match event_type {
                EventType::Read => set.read,
                EventType::Write => set.write,
            },
            None => false,
        }
    }

    /// The timeout to hand to the kernel for a wait of `nanos`
    /// nanoseconds: whole milliseconds, at most what the kernel takes.
    pub fn wait_millis(nanos: u64) -> (millis: i32)
        ensures
            millis == if nanos / 1_000_000 <= i32::MAX {
                (nanos / 1_000_000) as int
            } else {
                i32::MAX as int
            },
    {
        let millis: u64 = nanos / 1_000_000;
        if millis <= 2147483647 {
            millis as i32
        } else {
            i32::MAX
        }
    }

    /// Reads the outcome of a wait that harvested `ready` events after
    /// `elapsed` nanoseconds: none is a timeout.
    pub fn notification(ready: usize, elapsed: u64) -> (notification: Notification)
        ensures
            notification == if ready == 0 {
                Notification::Timeout
            } else {
                Notification::Events(ready, elapsed)
            },
    {
        if ready == 0 {
            Notification::Timeout
        } else {
            Notification::Events(ready, elapsed)
        }
    }
}

} // verus!
