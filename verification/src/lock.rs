//! A reader-writer lock that never waits: whoever finds it taken is told so.

use vstd::prelude::*;

verus! {

/// The lock is held in a way that excludes the access that was asked for.
#[derive(Debug, Clone, Copy, PartialEq, Eq, Structural)]
pub struct WouldBlock;

/// A value behind a lock for many readers or one writer.
///
/// Access through `try_read` and `try_write` lasts as long as the borrow that
/// it returns. A hold taken with `hold_read` or `hold_write` lasts until it
/// is released, and stands for a guard that another part of the program
/// keeps.
pub struct RwLock<T> {
    value: T,
    readers: usize,
    writer: bool,
}

impl<T> RwLock<T> {
    /// The guarded value.
    pub closed spec fn view(&self) -> T {
        self.value
    }

    /// How many read holds stand.
    pub closed spec fn readers(&self) -> nat {
        self.readers as nat
    }

    /// Whether the write hold stands.
    pub closed spec fn writer(&self) -> bool {
        self.writer
    }

    /// Whether a reader gets in: no write hold stands.
    pub open spec fn readable(&self) -> bool {
        !self.writer()
    }

    /// Whether a writer gets in: no hold stands at all.
    pub open spec fn writable(&self) -> bool {
        !self.writer() && self.readers() == 0
    }

    /// A lock around `value`, with no hold on it.
    pub fn new(value: T) -> (r: RwLock<T>)
        ensures
            r@ == value,
            r.readers() == 0,
            !r.writer(),
    {
        RwLock { value, readers: 0, writer: false }
    }

    /// Shared access to the value, unless the write hold stands.
    pub fn try_read(&self) -> (r: Result<&T, WouldBlock>)
        ensures
            r is Ok <==> self.readable(),
            r is Ok ==> *r.unwrap() == self@,
    {
        if self.writer {
            Err(WouldBlock)
        } else {
            Ok(&self.value)
        }
    }

    /// Exclusive access to the value, unless any hold stands. What is behind
    /// the returned borrow when it ends is the guarded value from then on.
    pub fn try_write(&mut self) -> (r: Result<&mut T, WouldBlock>)
        ensures
            r is Ok <==> old(self).writable(),
            r is Ok ==> *r.unwrap() == old(self)@ && final(self)@ == *final(r.unwrap()),
            r is Err ==> final(self)@ == old(self)@,
            final(self).readers() == old(self).readers(),
            final(self).writer() == old(self).writer(),
    {
        if self.writer || self.readers > 0 {
            Err(WouldBlock)
        } else {
            Ok(&mut self.value)
        }
    }

    /// Takes a read hold, unless the write hold stands or the count is full.
    pub fn hold_read(&mut self) -> (r: Result<(), WouldBlock>)
        ensures
            r is Ok <==> old(self).readable() && old(self).readers() < usize::MAX,
            final(self).readers() == old(self).readers() + if r is Ok { 1nat } else { 0nat },
            final(self).writer() == old(self).writer(),
            final(self)@ == old(self)@,
    {
        if self.writer || self.readers == usize::MAX {
            Err(WouldBlock)
        } else {
            self.readers = self.readers + 1;
            Ok(())
        }
    }

    /// Gives one read hold back; without one, nothing changes.
    pub fn release_read(&mut self)
        ensures
            final(self).readers() == if old(self).readers() > 0 {
                (old(self).readers() - 1) as nat
            } else {
                0nat
            },
            final(self).writer() == old(self).writer(),
            final(self)@ == old(self)@,
    {
        if self.readers > 0 {
            self.readers = self.readers - 1;
        }
    }

    /// Takes the write hold, unless any hold stands.
    pub fn hold_write(&mut self) -> (r: Result<(), WouldBlock>)
        ensures
            r is Ok <==> old(self).writable(),
            final(self).writer() == (old(self).writer() || r is Ok),
            final(self).readers() == old(self).readers(),
            final(self)@ == old(self)@,
    {
        if self.writer || self.readers > 0 {
            Err(WouldBlock)
        } else {
            self.writer = true;
            Ok(())
        }
    }

    /// Gives the write hold back.
    pub fn release_write(&mut self)
        ensures
            !final(self).writer(),
            final(self).readers() == old(self).readers(),
            final(self)@ == old(self)@,
    {
        self.writer = false;
    }
}

} // verus!
