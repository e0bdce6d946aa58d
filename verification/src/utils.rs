//! Small helpers that the wallet shares: a mutex for single-threaded use and
//! the smallest Lightning amount per network.

use vstd::prelude::*;

verus! {

/// The Bitcoin networks that a wallet can run on.
#[derive(Debug, Clone, Copy, PartialEq, Eq, Structural)]
pub enum Network {
    Bitcoin,
    Testnet,
    Signet,
    Regtest,
}

/// The smallest amount, in satoshis, that the wallet sends over Lightning.
pub open spec fn min_lightning_amount_spec(network: Network) -> u64 {
    match network {
        Network::Bitcoin => 50_000,
        _ => 10_000,
    }
}

/// The smallest amount, in satoshis, that the wallet sends over Lightning:
/// 50 000 on the main network, 10 000 on every test network.
pub fn min_lightning_amount(network: Network) -> (r: u64)
    ensures
        r == min_lightning_amount_spec(network),
{
    match network {
        Network::Bitcoin => 50_000,
        Network::Testnet | Network::Signet | Network::Regtest => 10_000,
    }
}

pub type LockResult<Guard> = Result<Guard, ()>;

/// A mutex for code that runs on one thread: exclusive access is the
/// exclusive borrow of the mutex itself, so taking the lock never waits.
pub struct Mutex<T> {
    inner: T,
}

/// Access to the value of a locked [`Mutex`]; the lock is released when the
/// guard goes away.
#[must_use]
pub struct MutexGuard<'a, T> {
    pub lock: &'a mut T,
}

impl<T> Mutex<T> {
    /// The value that the mutex guards.
    pub closed spec fn view(&self) -> T {
        self.inner
    }

    /// A mutex around `inner`.
    pub fn new(inner: T) -> (r: Mutex<T>)
        ensures
            r@ == inner,
    {
        Mutex { inner }
    }

    /// Locks the mutex. The guard starts at the guarded value, and what the
    /// guard holds when it goes away is what the mutex guards from then on.
    pub fn lock(&mut self) -> (r: LockResult<MutexGuard<'_, T>>)
        ensures
            r is Ok,
            r.unwrap()@ == old(self)@,
            final(self)@ == *final(r.unwrap().lock),
    {
        Ok(MutexGuard { lock: &mut self.inner })
    }
}

impl<'a, T> MutexGuard<'a, T> {
    /// The value that the guard holds now.
    pub open spec fn view(&self) -> T {
        *self.lock
    }

    /// Shared access to the guarded value.
    pub fn deref(&self) -> (r: &T)
        ensures
            *r == self@,
    {
        &*self.lock
    }

    /// Exclusive access to the guarded value.
    pub fn deref_mut(&mut self) -> (r: &mut T)
        ensures
            *r == old(self)@,
            final(self)@ == *final(r),
            *final(final(self).lock) == *final(old(self).lock),
    {
        &mut *self.lock
    }
}

} // verus!
