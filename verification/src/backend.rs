//! The arithmetic that the interpreter computes with.
//!
//! A backend turns a plain integer into a value of its own, adds and
//! multiplies such values, and turns a value back into a plain integer.
//! Encoding may be randomized; the other operations are functions of their
//! arguments.

use crate::scheme::{
    decrypt, encrypt, homomorphic_add, homomorphic_mul, keygen, masked, random_mask, revealed,
    PublicKey, SecretKey, MASK_LIMIT, MODULUS,
};
use vstd::arithmetic::div_mod::lemma_mod_multiples_vanish;
use vstd::prelude::*;

verus! {

/// What the interpreter asks of its arithmetic.
///
/// The four `spec` functions say what the four operations yield; each
/// implementation defines them for itself.  Whether decoding a sum gives the
/// sum of what was encoded is no part of this trait: it is stated, for the
/// backends of this crate, by [`adds_exactly`] and [`multiplies_exactly`].
pub trait Backend {
    /// The representation the backend computes on.
    type Value;

    /// Whether encoding `plain` may yield `value`.
    spec fn encodes(&self, plain: i64, value: Self::Value) -> bool;

    /// The plain integer that decoding `value` yields.
    spec fn decoded(&self, value: Self::Value) -> i64;

    /// The value that adding `a` and `b` yields.
    spec fn sum(&self, a: Self::Value, b: Self::Value) -> Self::Value;

    /// The value that multiplying `a` and `b` yields.
    spec fn product(&self, a: Self::Value, b: Self::Value) -> Self::Value;

    fn encode(&self, plain: i64) -> (value: Self::Value)
        ensures
            self.encodes(plain, value),
    ;

    fn decode(&self, value: &Self::Value) -> (plain: i64)
        ensures
            plain == self.decoded(*value),
    ;

    fn add(&self, a: &Self::Value, b: &Self::Value) -> (value: Self::Value)
        ensures
            value == self.sum(*a, *b),
    ;

    fn mul(&self, a: &Self::Value, b: &Self::Value) -> (value: Self::Value)
        ensures
            value == self.product(*a, *b),
    ;
}

/// Whether the backend adds the plain integers `x` and `y` exactly, whatever
/// encodings it picks for them.
pub open spec fn adds_exactly<B: Backend>(backend: &B, x: i64, y: i64) -> bool {
    forall|vx: B::Value, vy: B::Value|
        backend.encodes(x, vx) && backend.encodes(y, vy) ==> backend.decoded(
            #[trigger] backend.sum(vx, vy),
        ) == x + y
}

/// Whether the backend multiplies the plain integers `x` and `y` exactly,
/// whatever encodings it picks for them.
pub open spec fn multiplies_exactly<B: Backend>(backend: &B, x: i64, y: i64) -> bool {
    forall|vx: B::Value, vy: B::Value|
        backend.encodes(x, vx) && backend.encodes(y, vy) ==> backend.decoded(
            #[trigger] backend.product(vx, vy),
        ) == x * y
}

/// Plain 64-bit integers: a value is its own encoding, and sums and products
/// wrap around at the ends of the `i64` range.
pub struct PlainBackend;

impl PlainBackend {
    pub fn new() -> Self {
        PlainBackend
    }
}

impl Backend for PlainBackend {
    type Value = i64;

    open spec fn encodes(&self, plain: i64, value: i64) -> bool {
        value == plain
    }

    open spec fn decoded(&self, value: i64) -> i64 {
        value
    }

    open spec fn sum(&self, a: i64, b: i64) -> i64 {
        a.wrapping_add(b)
    }

    open spec fn product(&self, a: i64, b: i64) -> i64 {
        a.wrapping_mul(b)
    }

    fn encode(&self, plain: i64) -> (value: i64) {
        plain
    }

    fn decode(&self, value: &i64) -> (plain: i64) {
        *value
    }

    fn add(&self, a: &i64, b: &i64) -> (value: i64) {
        a.wrapping_add(*b)
    }

    fn mul(&self, a: &i64, b: &i64) -> (value: i64) {
        a.wrapping_mul(*b)
    }
}

/// The masking scheme of [`crate::scheme`] as a backend.
///
/// Plain integers from zero up to the modulus are encoded without loss.  Sums
/// and products are exact while no value leaves the `i64` range; beyond it
/// they wrap around.
pub struct ToyBackend {
    public: PublicKey,
    secret: SecretKey,
}

impl ToyBackend {
    /// A backend with a freshly generated key pair: both keys hold the
    /// modulus of the scheme.
    pub fn new() -> (backend: Self)
        ensures
            backend.public_key().pk == MODULUS,
            backend.secret_key().sk == MODULUS,
    {
        let (public, secret) = keygen();
        ToyBackend { public, secret }
    }

    /// The public key that the backend holds.
    pub closed spec fn public_key(&self) -> PublicKey {
        self.public
    }

    /// The secret key that the backend encodes and decodes with.
    pub closed spec fn secret_key(&self) -> SecretKey {
        self.secret
    }
}

impl Backend for ToyBackend {
    type Value = i64;

    open spec fn encodes(&self, plain: i64, value: i64) -> bool {
        exists|r: i64| 1 <= r < MASK_LIMIT && value == plain.wrapping_add(#[trigger] mask(r))
    }

    open spec fn decoded(&self, value: i64) -> i64 {
        revealed(value as int) as i64
    }

    open spec fn sum(&self, a: i64, b: i64) -> i64 {
        a.wrapping_add(b)
    }

    open spec fn product(&self, a: i64, b: i64) -> i64 {
        a.wrapping_mul(b)
    }

    fn encode(&self, plain: i64) -> (value: i64) {
        if plain <= i64::MAX - (MASK_LIMIT - 1) * MODULUS {
            let value: i64 = encrypt(plain, &self.secret);
            proof {
                let r = choose|r: int| 1 <= r < MASK_LIMIT && value == #[trigger] masked(plain as int, r);
                assert(value == plain.wrapping_add(mask(r as i64)));
            }
            value
        } else {
            let r: i64 = random_mask();
            let value: i64 = plain.wrapping_add(r * MODULUS);
            assert(value == plain.wrapping_add(mask(r)));
            value
        }
    }

    fn decode(&self, value: &i64) -> (plain: i64) {
        decrypt(value, &self.secret)
    }

    fn add(&self, a: &i64, b: &i64) -> (value: i64) {
        match a.checked_add(*b) {
            Some(_) => homomorphic_add(a, b),
            None => a.wrapping_add(*b),
        }
    }

    fn mul(&self, a: &i64, b: &i64) -> (value: i64) {
        match a.checked_mul(*b) {
            Some(_) => homomorphic_mul(a, b),
            None => a.wrapping_mul(*b),
        }
    }
}

/// The mask that the multiplier `r` contributes.
pub open spec fn mask(r: i64) -> i64 {
    (r * MODULUS) as i64
}

/// The plain backend adds exactly whenever the sum is an `i64`.
pub proof fn plain_backend_adds_exactly(backend: &PlainBackend, x: i64, y: i64)
    requires
        i64::MIN <= x + y <= i64::MAX,
    ensures
        adds_exactly(backend, x, y),
{
}

/// The plain backend multiplies exactly whenever the product is an `i64`.
pub proof fn plain_backend_multiplies_exactly(backend: &PlainBackend, x: i64, y: i64)
    requires
        i64::MIN <= x * y <= i64::MAX,
    ensures
        multiplies_exactly(backend, x, y),
{
}

/// The masking backend adds exactly, under every choice of masks, whenever
/// the two plain integers and their sum lie between zero and the modulus.
pub proof fn toy_backend_adds_exactly(backend: &ToyBackend, x: i64, y: i64)
    requires
        0 <= x,
        0 <= y,
        x + y < MODULUS,
    ensures
        adds_exactly(backend, x, y),
{
    assert forall|vx: i64, vy: i64|
        backend.encodes(x, vx) && backend.encodes(y, vy) implies backend.decoded(
        #[trigger] backend.sum(vx, vy),
    ) == x + y by {
        let rx = choose|r: i64| 1 <= r < MASK_LIMIT && vx == x.wrapping_add(#[trigger] mask(r));
        let ry = choose|r: i64| 1 <= r < MASK_LIMIT && vy == y.wrapping_add(#[trigger] mask(r));
        let total = vx + vy;
        assert(total == (x + y) + (rx + ry) * MODULUS) by (nonlinear_arith)
            requires
                total == vx + vy,
                vx == x + rx * MODULUS,
                vy == y + ry * MODULUS,
        ;
        lemma_mod_multiples_vanish((rx + ry) as int, (x + y) as int, MODULUS as int);
    }
}

/// The masking backend multiplies exactly, under every choice of masks,
/// whenever the two plain integers and their product lie between zero and the
/// modulus.
pub proof fn toy_backend_multiplies_exactly(backend: &ToyBackend, x: i64, y: i64)
    requires
        0 <= x < MODULUS,
        0 <= y < MODULUS,
        x * y < MODULUS,
    ensures
        multiplies_exactly(backend, x, y),
{
    assert forall|vx: i64, vy: i64|
        backend.encodes(x, vx) && backend.encodes(y, vy) implies backend.decoded(
        #[trigger] backend.product(vx, vy),
    ) == x * y by {
        let rx = choose|r: i64| 1 <= r < MASK_LIMIT && vx == x.wrapping_add(#[trigger] mask(r));
        let ry = choose|r: i64| 1 <= r < MASK_LIMIT && vy == y.wrapping_add(#[trigger] mask(r));
        let total = vx * vy;
        let k = x * ry + rx * y + rx * ry * MODULUS;
        assert(total == x * y + k * MODULUS) by (nonlinear_arith)
            requires
                total == vx * vy,
                vx == x + rx * MODULUS,
                vy == y + ry * MODULUS,
                k == x * ry + rx * y + rx * ry * MODULUS,
        ;
        assert(0 <= total <= 1_000_140_004_900_000) by (nonlinear_arith)
            requires
                total == vx * vy,
                0 <= vx <= 1_000_070,
                0 <= vy <= 1_000_070,
        ;
        assert(0 <= x * y) by (nonlinear_arith)
            requires
                0 <= x,
                0 <= y,
        ;
        lemma_mod_multiples_vanish(k, (x * y) as int, MODULUS as int);
    }
}

} // verus!
