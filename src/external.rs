//! The calls this library makes into outside crates, with the facts about
//! them that the verified code relies on.

use vstd::prelude::*;
use rand_xoshiro::rand_core::{RngCore, SeedableRng};

verus! {

/// `url::Url`, carried through as an opaque value: a validator's endpoint.
#[verifier::external_type_specification]
#[verifier::external_body]
pub struct ExUrl(url::Url);

/// `data_encoding::DecodeError`, the error of a failed decoding.
#[verifier::external_type_specification]
#[verifier::external_body]
pub struct ExDecodeError(data_encoding::DecodeError);

/// The bytes that the unpadded URL-safe base64 decoding of `text` gives, or
/// `None` where `text` is no such encoding.
pub uninterp spec fn base64url_decoded(text: Seq<char>) -> Option<Seq<u8>>;

/// The `i`-th value (from zero) that `next_u32` returns on a
/// Xoshiro256PlusPlus generator seeded with `seed`.
pub uninterp spec fn xoshiro_u32_draw(seed: Seq<u8>, i: nat) -> u32;

/// Relies on `data_encoding::BASE64URL_NOPAD.decode`: it succeeds exactly on
/// the valid encodings, and its output depends on the input text alone.
#[verifier::external_body]
pub(crate) fn decode_base64url(text: &str) -> (r: Result<Vec<u8>, data_encoding::DecodeError>)
    ensures
        r is Ok <==> base64url_decoded(text@) is Some,
        r is Ok ==> r->Ok_0@ == base64url_decoded(text@)->Some_0,
{
    data_encoding::BASE64URL_NOPAD.decode(text.as_bytes())
}

/// Relies on `rand_xoshiro::Xoshiro256PlusPlus::from_seed` and
/// `RngCore::next_u32`: a generator built from a seed returns a sequence of
/// values fixed by that seed; this takes the first `count` of them.
#[verifier::external_body]
pub(crate) fn xoshiro_u32_draws(seed: [u8; 32], count: usize) -> (r: Vec<u32>)
    ensures
        r@.len() == count,
        forall|i: int| 0 <= i < count ==> r@[i] == xoshiro_u32_draw(seed@, i as nat),
{
    let mut rng = rand_xoshiro::Xoshiro256PlusPlus::from_seed(seed);
    (0..count).map(|_| rng.next_u32()).collect()
}

} // verus!
