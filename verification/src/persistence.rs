//! The stored identity.
//!
//! The node's identity is kept as 128 hexadecimal digits: two keys of 32
//! bytes. It is written once, on first boot, and then read back and
//! compared, because a node that silently changes its identity between
//! boots is worse than one that fails to start.

use vstd::prelude::*;

verus! {

/// Length of the stored identity in characters.
pub const IDENTITY_HEX_LEN: usize = 128;

/// Namespace of the key-value store that holds the identity.
pub const NVS_NAMESPACE: &'static str = "reticulum";

/// Key under which the identity is stored.
pub const IDENTITY_KEY: &'static str = "device_id";

/// Whether a byte is a hexadecimal digit in ASCII.
pub open spec fn is_hex_byte(b: u8) -> bool {
    (48 <= b <= 57) || (65 <= b <= 70) || (97 <= b <= 102)
}

/// The bytes have the shape of a stored identity: exactly 128 hexadecimal
/// digits.
pub open spec fn identity_shaped(bytes: Seq<u8>) -> bool {
    bytes.len() == IDENTITY_HEX_LEN && forall|i: int|
        0 <= i < bytes.len() ==> is_hex_byte(#[trigger] bytes[i])
}

/// Whether the bytes have the shape of a stored identity.
pub fn is_identity_hex(bytes: &[u8]) -> (r: bool)
    ensures
        r == identity_shaped(bytes@),
{
    if bytes.len() != IDENTITY_HEX_LEN {
        return false;
    }
    let mut i: usize = 0;
    while i < bytes.len()
        invariant
            0 <= i <= bytes@.len(),
            forall|j: int| 0 <= j < i ==> is_hex_byte(#[trigger] bytes@[j]),
        decreases bytes@.len() - i,
    {
        let b = bytes[i];
        if !((48 <= b && b <= 57) || (65 <= b && b <= 70) || (97 <= b && b <= 102)) {
            return false;
        }
        i = i + 1;
    }
    true
}

/// What to do at boot, given what the store holds.
#[derive(Debug, Clone, Copy, PartialEq, Eq, Structural)]
pub enum BootDecision {
    /// Use the stored identity.
    UseStored,
    /// Nothing usable is stored: create an identity, store it and verify
    /// what was stored.
    CreateAndStore,
}

/// Decides what to do at boot.
///
/// `stored` is what the store holds under the identity's key, if anything.
/// What is stored is used if it has the shape of an identity; the caller
/// falls back to `CreateAndStore` if its keys turn out not to parse.
pub fn boot_decision(stored: Option<&[u8]>) -> (d: BootDecision)
    ensures
        d == if stored is Some && identity_shaped(stored->Some_0@) {
            BootDecision::UseStored
        } else {
            BootDecision::CreateAndStore
        },
{
    match stored {
        Some(bytes) => if is_identity_hex(bytes) {
            BootDecision::UseStored
        } else {
            BootDecision::CreateAndStore
        },
        None => BootDecision::CreateAndStore,
    }
}

/// Why a stored identity did not pass verification.
#[derive(Debug, Clone, Copy, PartialEq, Eq, Structural)]
pub enum VerifyError {
    /// Nothing was found after the write.
    NotFound,
    /// What was read back differs from what was written.
    Mismatch {
        /// Number of bytes written.
        wrote: usize,
        /// Number of bytes read back.
        read: usize,
    },
}

/// Whether two byte strings are the same.
pub fn same_bytes(a: &[u8], b: &[u8]) -> (r: bool)
    ensures
        r == (a@ == b@),
{
    if a.len() != b.len() {
        return false;
    }
    let mut i: usize = 0;
    while i < a.len()
        invariant
            0 <= i <= a@.len(),
            a@.len() == b@.len(),
            forall|j: int| 0 <= j < i ==> a@[j] == b@[j],
        decreases a@.len() - i,
    {
        if a[i] != b[i] {
            return false;
        }
        i = i + 1;
    }
    assert(a@ =~= b@);
    true
}

/// Verifies a write: succeeds exactly when what was read back is, byte for
/// byte, what was written.
pub fn verify_read_back(written: &[u8], read_back: Option<&[u8]>) -> (r: Result<(), VerifyError>)
    ensures
        r is Ok <==> read_back is Some && read_back->Some_0@ == written@,
        read_back is None ==> r == Err::<(), VerifyError>(VerifyError::NotFound),
        read_back is Some && read_back->Some_0@ != written@ ==> r == Err::<(), VerifyError>(
            VerifyError::Mismatch { wrote: written@.len() as usize, read: read_back->Some_0@.len() as usize },
        ),
{
    match read_back {
        None => Err(VerifyError::NotFound),
        Some(bytes) => if same_bytes(written, bytes) {
            Ok(())
        } else {
            Err(VerifyError::Mismatch { wrote: written.len(), read: bytes.len() })
        },
    }
}

} // verus!
