//! The cipher that the storage consumes.
//!
//! The storage does not encrypt by itself. It hands text to a [`Cipher`] and
//! stores what comes back, and it hands ciphertext and a passphrase back to
//! read it.

use vstd::prelude::*;

verus! {

/// The cipher could not do what was asked of it.
#[derive(Debug, Clone, Copy, PartialEq, Eq, Structural)]
pub struct CipherError;

/// Key material derived from a passphrase, with the operations that use it.
///
/// The four spec functions are the cipher's model: which key a passphrase
/// gives, which texts the key encrypts, which ciphertexts `encrypt` may give
/// for a text, and what `decrypt_with_password` makes of a ciphertext. Which
/// key is derived, and whether an encryption succeeds, depend on the
/// arguments alone; only the ciphertext may differ from call to call.
///
/// An implementation written in Verus states its own model. The bodies
/// written here are there for implementations in ordinary Rust, which cannot
/// state one: they are the model of [`NoCipher`], and nothing proved of a
/// cipher in general rests on them.
pub trait Cipher: Sized {
    /// The key material that `passphrase` gives, if it gives any.
    open spec fn derived(passphrase: Seq<char>) -> Option<Self> {
        None
    }

    /// Whether `encrypt` succeeds on `text`.
    open spec fn encrypts(&self, text: Seq<char>) -> bool {
        false
    }

    /// Whether `ciphertext` is one of the texts that `encrypt` may give for `text`.
    open spec fn seals(&self, text: Seq<char>, ciphertext: Seq<char>) -> bool {
        false
    }

    /// The text that `ciphertext` decrypts to under `passphrase`, if it decrypts.
    open spec fn opened(ciphertext: Seq<char>, passphrase: Seq<char>) -> Option<Seq<char>> {
        None
    }

    /// Derives key material from a passphrase: the same passphrase always
    /// gives the same key material.
    fn encryption_key_from_pass(passphrase: &str) -> (r: Result<Self, CipherError>)
        ensures
            r is Ok <==> Self::derived(passphrase@) is Some,
            r is Ok ==> r.unwrap() == Self::derived(passphrase@).unwrap(),
    ;

    /// Encrypts `text`. Two calls may give two ciphertexts.
    fn encrypt(&self, text: &str) -> (r: Result<String, CipherError>)
        ensures
            r is Ok <==> self.encrypts(text@),
            r is Ok ==> self.seals(text@, r.unwrap()@),
    ;

    /// Decrypts `ciphertext` with the key that `passphrase` gives.
    fn decrypt_with_password(ciphertext: &str, passphrase: &str) -> (r: Result<
        String,
        CipherError,
    >)
        ensures
            r is Ok <==> Self::opened(ciphertext@, passphrase@) is Some,
            r is Ok ==> r.unwrap()@ == Self::opened(ciphertext@, passphrase@).unwrap(),
    ;
}

/// Whether everything that `cipher` seals opens again under `passphrase`.
pub open spec fn opens_what_it_seals<C: Cipher>(cipher: C, passphrase: Seq<char>) -> bool {
    forall|text: Seq<char>, ciphertext: Seq<char>| #[trigger]
        cipher.seals(text, ciphertext) ==> C::opened(ciphertext, passphrase) == Some(text)
}

/// The cipher of a storage that is never to encrypt: it derives no key,
/// seals nothing and opens nothing. A rotation to a passphrase therefore
/// fails on it before anything is changed.
#[derive(Debug, Clone, Copy, PartialEq, Eq, Structural)]
pub struct NoCipher;

impl Cipher for NoCipher {
    fn encryption_key_from_pass(passphrase: &str) -> (r: Result<Self, CipherError>)
        ensures
            r is Err,
    {
        Err(CipherError)
    }

    fn encrypt(&self, text: &str) -> (r: Result<String, CipherError>)
        ensures
            r is Err,
    {
        Err(CipherError)
    }

    fn decrypt_with_password(ciphertext: &str, passphrase: &str) -> (r: Result<
        String,
        CipherError,
    >)
    {
        Err(CipherError)
    }
}

/// The cipher of a storage that keeps nothing: key material is derived from
/// every passphrase, and is never put to work, since it seals nothing and
/// opens nothing.
#[derive(Debug, Clone, Copy, PartialEq, Eq, Structural)]
pub struct IdleCipher;

impl Cipher for IdleCipher {
    open spec fn derived(passphrase: Seq<char>) -> Option<Self> {
        Some(IdleCipher)
    }

    fn encryption_key_from_pass(passphrase: &str) -> (r: Result<Self, CipherError>)
        ensures
            r == Ok::<Self, CipherError>(IdleCipher),
    {
        Ok(IdleCipher)
    }

    fn encrypt(&self, text: &str) -> (r: Result<String, CipherError>)
        ensures
            r is Err,
    {
        Err(CipherError)
    }

    fn decrypt_with_password(ciphertext: &str, passphrase: &str) -> (r: Result<
        String,
        CipherError,
    >)
    {
        Err(CipherError)
    }
}

} // verus!
