//! What the wallet decides about a peer before it connects: how the text
//! `pubkey@host:port` falls into its parts, and which error a failed step
//! ends in. Resolving the address and opening the connection are the
//! caller's work.

use crate::text::chars_of;
use vstd::prelude::*;

verus! {

/// Why a peer's connection info was not accepted.
#[derive(Debug, Clone, Copy, PartialEq, Eq, Structural)]
pub enum PeerInfoError {
    /// The text has no `@` between a public key and an address.
    Format,
    /// The address does not resolve to a socket address.
    Address,
    /// The public key is not one.
    Pubkey,
}

/// Why a connection to a peer did not come about.
#[derive(Debug, Clone, Copy, PartialEq, Eq, Structural)]
pub enum ConnectError {
    /// No connection info was given.
    MissingInfo,
    /// The connection info was not accepted.
    Invalid(PeerInfoError),
    /// The peer could not be reached.
    Unreachable,
}

impl PeerInfoError {
    /// The error in words.
    pub open spec fn text(self) -> Seq<char> {
        match self {
            PeerInfoError::Format => "ERROR: incorrectly formatted peer info. Should be formatted as: `pubkey@host:port`"@,
            PeerInfoError::Address => "ERROR: couldn't parse pubkey@host:port into a socket address"@,
            PeerInfoError::Pubkey => "ERROR: unable to parse given pubkey for node"@,
        }
    }

    /// The error in words.
    pub fn message(&self) -> (r: &'static str)
        ensures
            r@ == self.text(),
    {
        match self {
            PeerInfoError::Format => "ERROR: incorrectly formatted peer info. Should be formatted as: `pubkey@host:port`",
            PeerInfoError::Address => "ERROR: couldn't parse pubkey@host:port into a socket address",
            PeerInfoError::Pubkey => "ERROR: unable to parse given pubkey for node",
        }
    }
}

impl ConnectError {
    /// The error in words.
    pub open spec fn text(self) -> Seq<char> {
        match self {
            ConnectError::MissingInfo => "connectpeer requires peer connection info"@,
            ConnectError::Invalid(e) => e.text(),
            ConnectError::Unreachable => "could not connect to peer"@,
        }
    }

    /// The error in words.
    pub fn message(&self) -> (r: &'static str)
        ensures
            r@ == self.text(),
    {
        match self {
            ConnectError::MissingInfo => "connectpeer requires peer connection info",
            ConnectError::Invalid(e) => e.message(),
            ConnectError::Unreachable => "could not connect to peer",
        }
    }
}

/// The position of the first `@` in `s` at or after `from`, or the length of
/// `s` where there is none.
pub open spec fn next_at(s: Seq<char>, from: int) -> int
    decreases s.len() - from,
{
    if from < 0 || from >= s.len() {
        s.len() as int
    } else if s[from] == '@' {
        from
    } else {
        next_at(s, from + 1)
    }
}

/// The parts of `pubkey@host:port`: what stands before the first `@`, and
/// what stands between it and the next `@` or the end. None where there is
/// no `@`.
pub open spec fn peer_info_parts(s: Seq<char>) -> Option<(Seq<char>, Seq<char>)> {
    let first = next_at(s, 0);
    if first >= s.len() {
        None
    } else {
        Some((s.subrange(0, first), s.subrange(first + 1, next_at(s, first + 1))))
    }
}

/// `next_at` stays within the text and lands on an `@` or on the end.
pub proof fn lemma_next_at(s: Seq<char>, from: int)
    requires
        0 <= from <= s.len(),
    ensures
        from <= next_at(s, from) <= s.len(),
        next_at(s, from) < s.len() ==> s[next_at(s, from)] == '@',
        forall|i: int| from <= i < next_at(s, from) ==> s[i] != '@',
    decreases s.len() - from,
{
    if from < s.len() && s[from] != '@' {
        lemma_next_at(s, from + 1);
    }
}

/// The position of the first `@` at or after `from`, or the length where there is none.
fn find_at(chars: &Vec<char>, from: usize) -> (r: usize)
    requires
        from <= chars.len(),
    ensures
        r == next_at(chars@, from as int),
{
    let mut i: usize = from;
    while i < chars.len()
        invariant
            from <= i <= chars.len(),
            next_at(chars@, from as int) == next_at(chars@, i as int),
        decreases chars.len() - i,
    {
        if chars[i] == '@' {
            return i;
        }
        i += 1;
    }
    i
}

/// Splits `pubkey@host:port` into the text of the public key and the text of
/// the address; fails with `Format` exactly where the text has no `@`. What
/// follows a second `@` is not looked at.
pub fn split_peer_info(peer_pubkey_and_ip_addr: &str) -> (r: Result<(String, String), PeerInfoError>)
    ensures
        match peer_info_parts(peer_pubkey_and_ip_addr@) {
            Some(parts) => r is Ok && r.unwrap().0@ == parts.0 && r.unwrap().1@ == parts.1,
            None => r == Err::<(String, String), PeerInfoError>(PeerInfoError::Format),
        },
{
    let chars = chars_of(peer_pubkey_and_ip_addr);
    let first = find_at(&chars, 0);
    if first >= chars.len() {
        return Err(PeerInfoError::Format);
    }
    let second = find_at(&chars, first + 1);
    proof {
        lemma_next_at(chars@, first + 1);
    }
    let pubkey = peer_pubkey_and_ip_addr.substring_char(0, first).to_owned();
    let addr = peer_pubkey_and_ip_addr.substring_char(first + 1, second).to_owned();
    Ok((pubkey, addr))
}

/// Puts a peer's info together from what resolving the address and reading
/// the public key gave. A failed address is reported before a failed key.
pub fn parse_peer_info<K, A>(pubkey: Option<K>, peer_addr: Option<A>) -> (r: Result<
    (K, A),
    PeerInfoError,
>)
    ensures
        r == match (pubkey, peer_addr) {
            (_, None) => Err::<(K, A), PeerInfoError>(PeerInfoError::Address),
            (None, Some(_)) => Err(PeerInfoError::Pubkey),
            (Some(k), Some(a)) => Ok((k, a)),
        },
{
    match peer_addr {
        None => Err(PeerInfoError::Address),
        Some(addr) => match pubkey {
            None => Err(PeerInfoError::Pubkey),
            Some(key) => Ok((key, addr)),
        },
    }
}

/// The parts of the connection info to connect with; fails with
/// `MissingInfo` on an empty text, and with `Invalid(Format)` on one without `@`.
pub fn connect_peer_request(peer_pubkey_and_ip_addr: &str) -> (r: Result<
    (String, String),
    ConnectError,
>)
    ensures
        match peer_info_parts(peer_pubkey_and_ip_addr@) {
            Some(parts) => r is Ok && r.unwrap().0@ == parts.0 && r.unwrap().1@ == parts.1,
            None => r == Err::<(String, String), ConnectError>(
                if peer_pubkey_and_ip_addr@.len() == 0 {
                    ConnectError::MissingInfo
                } else {
                    ConnectError::Invalid(PeerInfoError::Format)
                },
            ),
        },
{
    if peer_pubkey_and_ip_addr.is_empty() {
        return Err(ConnectError::MissingInfo);
    }
    match split_peer_info(peer_pubkey_and_ip_addr) {
        Ok(parts) => Ok(parts),
        Err(e) => Err(ConnectError::Invalid(e)),
    }
}

/// What a connection attempt ends in: success where the peer was reached,
/// `Unreachable` where it was not.
pub fn connect_peer_outcome(connected: bool) -> (r: Result<(), ConnectError>)
    ensures
        r == if connected {
            Ok::<(), ConnectError>(())
        } else {
            Err(ConnectError::Unreachable)
        },
{
    if connected {
        Ok(())
    } else {
        Err(ConnectError::Unreachable)
    }
}

} // verus!
