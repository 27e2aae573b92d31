//! A toy additive-mask scheme over 64-bit integers.
//!
//! A plaintext `m` is hidden as `m + r * MODULUS` for a small random
//! multiplier `r`; reducing modulo `MODULUS` recovers it.  Sums and products
//! of hidden values hide the sums and products of their plaintexts as long as
//! no intermediate value leaves the `i64` range.

use vstd::prelude::*;

verus! {

/// The modulus of the scheme, a five-digit prime.
pub const MODULUS: i64 = 100007;

/// The exclusive upper bound of the random multiplier used by [`encrypt`].
pub const MASK_LIMIT: i64 = 10;

pub struct PublicKey {
    pub pk: i64,
}

pub struct SecretKey {
    pub sk: i64,
}

/// What [`encrypt_with`] returns for plaintext `m` and multiplier `r`.
pub open spec fn masked(m: int, r: int) -> int {
    m + r * MODULUS
}

/// Whether `c` is a possible result of encrypting `m`.
pub open spec fn hides(m: int, c: int) -> bool {
    exists|r: int| 1 <= r < MASK_LIMIT && c == #[trigger] masked(m, r)
}

/// The plaintext read from `c`: the remainder of the truncated division by
/// the modulus, which carries the sign of `c`.
pub open spec fn revealed(c: int) -> int {
    if c >= 0 {
        c % (MODULUS as int)
    } else {
        -((-c) % (MODULUS as int))
    }
}

/// Generates the key pair. Both halves hold the modulus.
pub fn keygen() -> (keys: (PublicKey, SecretKey))
    ensures
        keys.0.pk == MODULUS,
        keys.1.sk == MODULUS,
{
    (PublicKey { pk: MODULUS }, SecretKey { sk: MODULUS })
}

/// Draws an integer with `rand::random_range(low..high)`, which samples the
/// thread-local generator from the half-open range.  The range must not be
/// empty; every outcome lies in it.  Nothing is claimed of which one comes.
/// The generator is seeded from the operating system when a thread first
/// uses it, and `rand` panics if that fails; no precondition can rule it out.
#[verifier::external_body]
pub(crate) fn random_in(low: i64, high: i64) -> (r: i64)
    requires
        low < high,
    ensures
        low <= r < high,
{
    rand::random_range(low..high)
}

/// Draws the multiplier for one encryption: at least one and below
/// [`MASK_LIMIT`].
pub(crate) fn random_mask() -> (r: i64)
    ensures
        1 <= r < MASK_LIMIT,
{
    random_in(1, MASK_LIMIT)
}

/// Hides `m` under the multiplier `r`.
pub fn encrypt_with(m: i64, r: i64, _sk: &SecretKey) -> (c: i64)
    requires
        1 <= r < MASK_LIMIT,
        i64::MIN <= masked(m as int, r as int) <= i64::MAX,
    ensures
        c == masked(m as int, r as int),
{
    m + r * MODULUS
}

/// Hides `m` under a freshly drawn multiplier.
pub fn encrypt(m: i64, _sk: &SecretKey) -> (c: i64)
    requires
        m + (MASK_LIMIT - 1) * MODULUS <= i64::MAX,
    ensures
        hides(m as int, c as int),
{
    let r: i64 = random_mask();
    let c: i64 = encrypt_with(m, r, _sk);
    c
}

/// Reads the plaintext back from `c`.
pub fn decrypt(c: &i64, _sk: &SecretKey) -> (m: i64)
    ensures
        m == revealed(*c as int),
{
    *c % MODULUS
}

/// Adds two hidden values.
pub fn homomorphic_add(c1: &i64, c2: &i64) -> (sum: i64)
    requires
        i64::MIN <= *c1 + *c2 <= i64::MAX,
    ensures
        sum == *c1 + *c2,
{
    *c1 + *c2
}

/// Multiplies two hidden values.
pub fn homomorphic_mul(c1: &i64, c2: &i64) -> (product: i64)
    requires
        i64::MIN <= *c1 * *c2 <= i64::MAX,
    ensures
        product == *c1 * *c2,
{
    *c1 * *c2
}

} // verus!
