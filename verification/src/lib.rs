//! A peer-to-peer messaging substrate: a deterministic binary wire codec,
//! typed cryptographic containers built on authenticated encryption and
//! signatures, and a transport-agent abstraction exchanging discrete byte
//! blobs through an in-process host.

use vstd::prelude::*;

mod bigend;
pub mod agent;
pub mod attestation;
pub mod block;
mod buffer;
pub mod cipher;
pub mod claim;
pub mod constants;
pub mod digest;
pub mod ecdh;
pub mod encryptable;
pub mod entity;
pub mod envelope;
mod error;
pub mod hkdf;
mod prim;
pub mod maildrop;
pub mod message;
pub mod printable;
pub mod priority;
pub mod secrets;
mod serial;
pub mod sig;
pub mod signable;
pub mod time;
pub mod util;
pub mod uuid;
mod vecs;

pub use buffer::{Reader, Writer};
pub use encryptable::{Encryptable, Encrypted};
pub use error::Error;
pub use printable::Printable;
pub use serial::{decode_exact, Serializable};
pub use signable::{Signable, Signed};
pub use uuid::{Typed, UUID};

verus! {

/// A secret byte value of a fixed size. Implementations own their bytes
/// exclusively and expose them only through `expose`.
pub trait SecretBytes: Sized {
    /// The fixed byte length of values of this type.
    spec fn size_spec() -> nat;

    /// The secret bytes, for specifications.
    spec fn expose_spec(&self) -> Seq<u8>;

    /// Takes ownership of already-exposed key material.
    fn from_exposed(raw: Vec<u8>) -> (s: Self)
        requires
            raw@.len() == Self::size_spec(),
        ensures
            s.expose_spec() == raw@,
    ;

    /// Grants read access to the secret bytes.
    fn expose(&self) -> (r: &Vec<u8>)
        ensures
            r@ == self.expose_spec(),
    ;

    /// The fixed byte length of values of this type.
    fn len() -> (n: usize)
        ensures
            n == Self::size_spec(),
    ;
}

} // verus!
