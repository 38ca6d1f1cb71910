use vuvuzela::onion;
use vuvuzela::onion::{decrypt, encrypt, keygen, EncryptionPurpose, KeyError};

#[test]
fn keygen_randomized() {
    let (_sk, pk1) = keygen();
    let (_sk, pk2) = keygen();

    assert_ne!(pk1, pk2);
}

#[test]
fn derive_commutes() {
    let (sk1, pk1) = keygen();
    let (sk2, pk2) = keygen();
    let d1 = onion::derive(&sk1, &pk2).unwrap();
    let d2 = onion::derive(&sk2, &pk1).unwrap();

    assert_eq!(d1, d2);
}

#[test]
fn encrypt_invertible() {
    let (sk1, _pk1) = keygen();
    let (_sk2, pk2) = keygen();
    let d = onion::derive(&sk1, &pk2).unwrap();

    let m = "Hello, world!".as_bytes().to_vec();
    let c = encrypt(&d, m.clone(), EncryptionPurpose::Forward);
    let m_dc = decrypt(&d, c, EncryptionPurpose::Forward).unwrap();
    assert_eq!(m, m_dc);
}

#[test]
fn decrypt_can_fail() {
    let (sk1, pk1) = keygen();
    let (_sk2, pk2) = keygen();
    let d1 = onion::derive(&sk1, &pk2).unwrap();
    let d2 = onion::derive(&sk1, &pk1).unwrap();

    let m = "Hello, world!".as_bytes().to_vec();
    let c = encrypt(&d1, m, EncryptionPurpose::Forward);
    let dc = decrypt(&d2, c, EncryptionPurpose::Forward);
    assert_eq!(dc, Err(()));
}

#[test]
fn decrypt_rejects_tampering() {
    let (sk1, _pk1) = keygen();
    let (_sk2, pk2) = keygen();
    let d = onion::derive(&sk1, &pk2).unwrap();

    let m = "Hello, world!".as_bytes().to_vec();
    let c = encrypt(&d, m.clone(), EncryptionPurpose::Forward);
    // Flip one bit anywhere in the ciphertext: authentication must fail, and
    // a wrong plaintext must never come back.
    for bit in 0..8 {
        for pos in [0, c.len() / 2, c.len() - 1] {
            let mut tampered = c.clone();
            tampered[pos] ^= 1u8 << bit;
            assert_eq!(decrypt(&d, tampered, EncryptionPurpose::Forward), Err(()));
        }
    }
}

#[test]
fn encrypt_changes_and_grows_message() {
    let (sk1, _pk1) = keygen();
    let (_sk2, pk2) = keygen();
    let d = onion::derive(&sk1, &pk2).unwrap();

    let m = "Hello, world!".as_bytes().to_vec();
    let c = encrypt(&d, m.clone(), EncryptionPurpose::Forward);
    assert_eq!(c.len(), m.len() + 16);
    assert_ne!(&c[..m.len()], &m[..]);
}

#[test]
fn purposes_give_distinct_ciphertexts() {
    let (sk1, _pk1) = keygen();
    let (_sk2, pk2) = keygen();
    let d = onion::derive(&sk1, &pk2).unwrap();

    let m = "Hello, world!".as_bytes().to_vec();
    let cf = encrypt(&d, m.clone(), EncryptionPurpose::Forward);
    let cb = encrypt(&d, m.clone(), EncryptionPurpose::Backward);
    assert_ne!(cf, cb);
    // The wrong purpose must not decrypt.
    assert_eq!(decrypt(&d, cf, EncryptionPurpose::Backward), Err(()));
}

#[test]
fn derive_rejects_bad_lengths() {
    let (sk, pk) = keygen();
    assert_eq!(onion::derive(&vec![0u8; 5], &pk), Err(KeyError::BadLength));
    assert_eq!(onion::derive(&sk, &vec![0u8; 31]), Err(KeyError::BadLength));
    assert!(onion::derive(&sk, &pk).is_ok());
}

#[test]
fn derived_keys_are_aead_sized() {
    let (sk1, _) = keygen();
    let (_, pk2) = keygen();
    let d = onion::derive(&sk1, &pk2).unwrap();
    assert_eq!(d.len(), 32);
    assert_ne!(d, sk1);
}
