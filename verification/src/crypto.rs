//! Hashing primitives and the opaque values of the polynomial-commitment
//! scheme.  The BLAKE2b-256 digests are computed by an outside crate; this
//! module gives each digest a name that the rest of the crate states its
//! contracts over.

use vstd::prelude::*;
use blake2::digest::consts::U32;

verus! {

/// The BLAKE2b-256 digest of the given bytes.  A digest is a function of
/// the input bytes alone; its pages-long definition is not restated here.
pub uninterp spec fn blake2b_256_of(data: Seq<u8>) -> Seq<u8>;

/// The keyed BLAKE2b-256 digest of the given bytes under the given key.
pub uninterp spec fn blake2b_256_keyed_of(key: Seq<u8>, data: Seq<u8>) -> Seq<u8>;

/// BLAKE2b hashing of a variable sized data into 256-bit output.
///
/// Relies on `blake2::Blake2b` with a 32-byte output size: the digest
/// depends on the input bytes alone.
#[verifier::external_body]
pub fn blake2b_256_hash(data: &[u8]) -> (r: [u8; 32])
    ensures
        r@ == blake2b_256_of(data@),
{
    let mut state = <blake2::Blake2b<U32> as blake2::Digest>::new();
    blake2::Digest::update(&mut state, data);
    blake2::Digest::finalize(state).into()
}

/// Keyed BLAKE2b hashing of a variable sized data into 256-bit output.
///
/// Relies on `blake2::Blake2bMac` with a 32-byte output size: the digest
/// depends on the key and input bytes alone.  Its constructor only accepts
/// keys of at most 64 bytes, so longer keys are ruled out here.
#[verifier::external_body]
pub fn blake2b_256_hash_with_key(data: &[u8], key: &[u8]) -> (r: [u8; 32])
    requires
        key@.len() <= 64,
    ensures
        r@ == blake2b_256_keyed_of(key@, data@),
{
    let mut state = blake2::Blake2bMac::<U32>::new_with_salt_and_personal(key, &[], &[]).expect(
        "key is at most 64 bytes",
    );
    blake2::digest::Update::update(&mut state, data);
    blake2::digest::FixedOutput::finalize_fixed(state).into()
}

/// The lowercase hexadecimal digit with the given value.
pub open spec fn hex_digit(n: u8) -> char {
    if n < 10 {
        (48 + n) as char
    } else {
        (87 + n) as char
    }
}

/// The lowercase hexadecimal spelling of the given bytes: two digits for
/// each byte, high nibble first.
pub open spec fn hex_of(s: Seq<u8>) -> Seq<char> {
    Seq::new(
        2 * s.len(),
        |i: int|
            if i % 2 == 0 {
                hex_digit(s[i / 2] / 16)
            } else {
                hex_digit(s[i / 2] % 16)
            },
    )
}

/// Relies on `hex::encode`: two lowercase hexadecimal digits for each
/// byte, high nibble first.
#[verifier::external_body]
pub fn hex_encode(data: &[u8]) -> (r: String)
    ensures
        r@ == hex_of(data@),
{
    hex::encode(data)
}

/// The all-zero byte string of the given length.
pub open spec fn zero_bytes(n: nat) -> Seq<u8> {
    Seq::new(n, |i: int| 0u8)
}

/// A scalar of the commitment scheme's field, carried as its canonical 32
/// bytes.  What can be computed with it lives in the commitment scheme,
/// not here.
#[derive(Debug, Copy, Clone, PartialEq, Eq, Hash)]
pub struct Scalar(pub [u8; 32]);

impl Scalar {
    /// How many full bytes can be stored in a scalar such that any byte
    /// values are valid.
    pub const SAFE_BYTES: usize = 31;

    /// How many bytes a scalar occupies once padded for commitment.
    pub const FULL_BYTES: usize = 32;
}

impl Default for Scalar {
    /// The scalar with all bytes zero.
    fn default() -> (r: Self)
        ensures
            r.0@ == zero_bytes(32),
    {
        let r = Scalar([0u8; 32]);
        proof {
            assert(r.0@ =~= zero_bytes(32));
        }
        r
    }
}

/// A scalar in the legacy chunk representation, carried as its canonical
/// 32 bytes.
#[derive(Debug, Copy, Clone, PartialEq, Eq, Hash)]
pub struct ScalarLegacy(pub [u8; 32]);

impl Default for ScalarLegacy {
    /// The scalar with all bytes zero.
    fn default() -> (r: Self)
        ensures
            r.0@ == zero_bytes(32),
    {
        let r = ScalarLegacy([0u8; 32]);
        proof {
            assert(r.0@ =~= zero_bytes(32));
        }
        r
    }
}

/// A commitment of the polynomial-commitment scheme, carried as its
/// canonical 48 compressed bytes.  This crate only stores and threads
/// commitments; producing and verifying them is the scheme's work.
#[derive(Debug, Copy, Clone, PartialEq, Eq, Hash)]
pub struct Commitment(pub [u8; 48]);

impl Default for Commitment {
    /// The commitment with all bytes zero.
    fn default() -> (r: Self)
        ensures
            r.0@ == zero_bytes(48),
    {
        let r = Commitment([0u8; 48]);
        proof {
            assert(r.0@ =~= zero_bytes(48));
        }
        r
    }
}

/// An inclusion witness of the polynomial-commitment scheme, carried as
/// its canonical 48 compressed bytes.
#[derive(Debug, Copy, Clone, PartialEq, Eq, Hash)]
pub struct Witness(pub [u8; 48]);

impl Default for Witness {
    /// The witness with all bytes zero.
    fn default() -> (r: Self)
        ensures
            r.0@ == zero_bytes(48),
    {
        let r = Witness([0u8; 48]);
        proof {
            assert(r.0@ =~= zero_bytes(48));
        }
        r
    }
}

} // verus!
