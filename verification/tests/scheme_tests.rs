use fhe_dsl::{
    decrypt, encrypt, encrypt_with, homomorphic_add, homomorphic_mul, keygen, Backend,
    PlainBackend, ToyBackend,
};

const T: i64 = 100007;

#[test]
fn keys_hold_the_modulus() {
    let (pk, sk) = keygen();
    assert_eq!(pk.pk, T);
    assert_eq!(sk.sk, T);
}

#[test]
fn encryption_adds_a_multiple_of_the_modulus() {
    let (_pk, sk) = keygen();
    assert_eq!(encrypt_with(5, 1, &sk), 5 + T);
    assert_eq!(encrypt_with(5, 9, &sk), 5 + 9 * T);
    assert_eq!(encrypt_with(-3, 2, &sk), 2 * T - 3);
    for _ in 0..200 {
        let c = encrypt(42, &sk);
        assert_eq!((c - 42) % T, 0);
        let r = (c - 42) / T;
        assert!(1 <= r && r < 10);
    }
}

#[test]
fn decryption_is_the_truncated_remainder() {
    let (_pk, sk) = keygen();
    assert_eq!(decrypt(&(5 + 3 * T), &sk), 5);
    assert_eq!(decrypt(&0, &sk), 0);
    assert_eq!(decrypt(&T, &sk), 0);
    assert_eq!(decrypt(&(T - 1), &sk), T - 1);
    assert_eq!(decrypt(&-1, &sk), -1);
    assert_eq!(decrypt(&(-T - 5), &sk), -5);
}

#[test]
fn hidden_values_add_and_multiply() {
    assert_eq!(homomorphic_add(&3, &4), 7);
    assert_eq!(homomorphic_add(&-3, &4), 1);
    assert_eq!(homomorphic_mul(&3, &4), 12);
    assert_eq!(homomorphic_mul(&-3, &4), -12);
}

#[test]
fn the_toy_backend_is_exact_on_small_values() {
    let backend = ToyBackend::new();
    for a in [0i64, 1, 2, 17, 316, 50003] {
        for b in [0i64, 1, 3, 19, 316, 50003] {
            for _ in 0..20 {
                let x = backend.encode(a);
                let y = backend.encode(b);
                assert_eq!(backend.decode(&x), a);
                if a + b < T {
                    assert_eq!(backend.decode(&backend.add(&x, &y)), a + b);
                }
                if a * b < T {
                    assert_eq!(backend.decode(&backend.mul(&x, &y)), a * b);
                }
            }
        }
    }
}

#[test]
fn the_toy_backend_reduces_modulo_the_modulus() {
    let backend = ToyBackend::new();
    let x = backend.encode(T - 1);
    let y = backend.encode(5);
    assert_eq!(backend.decode(&backend.add(&x, &y)), 4);
}

#[test]
fn the_plain_backend_is_exact_where_nothing_overflows() {
    let backend = PlainBackend::new();
    for a in [-7i64, 0, 1, 1 << 31, i64::MAX / 2] {
        for b in [-2i64, 0, 1, 2] {
            let x = backend.encode(a);
            let y = backend.encode(b);
            assert_eq!(backend.decode(&x), a);
            assert_eq!(backend.decode(&backend.add(&x, &y)), a + b);
            assert_eq!(backend.decode(&backend.mul(&x, &y)), a * b);
        }
    }
    assert_eq!(backend.add(&i64::MAX, &1), i64::MIN);
    assert_eq!(backend.mul(&i64::MAX, &2), -2);
}
