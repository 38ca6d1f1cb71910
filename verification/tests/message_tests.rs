use vuvuzela::codec::{read_u32_be, write_u32_be};
use vuvuzela::message::{
    backward_onion_decrypt, blank, forward_onion_encrypt, pack, unpack, unwrap, wrap, Deaddrop,
    CONTENT_SIZE, PACKED_SIZE,
};
use vuvuzela::onion::{self, EncryptionPurpose};

#[test]
fn wrap_invertible() {
    let (_sk, pk) = onion::keygen();
    let m = "Hello, world!".as_bytes().to_vec();
    let w = wrap(&pk, &m);
    let (pk_uw, m_uw) = unwrap(&w);

    assert_eq!(pk_uw, pk);
    assert_eq!(m, m_uw);
}

#[test]
fn from_bytes_correct() {
    let b: [u8; 4] = [1, 2, 3, 4];
    let drop = Deaddrop::from_bytes(&b);

    assert_eq!(drop.bytes(), b);
}

#[test]
fn from_key_correct() {
    let (sk, _pk) = onion::keygen();
    let (_sk, pk) = onion::keygen();
    let dk = onion::derive(&sk, &pk).unwrap();
    let drop = Deaddrop::new(&dk);

    assert_eq!(drop.bytes(), dk[..4]);
}

#[test]
fn sample_randomized() {
    let drop1 = Deaddrop::sample();
    let drop2 = Deaddrop::sample();

    assert_ne!(drop1, drop2);
}

#[test]
fn pack_invertible() {
    let m = vec![123; CONTENT_SIZE];
    let d = Deaddrop::sample();
    let p = pack(&m, &d);
    let (mm, dd) = unpack(p.clone());

    assert_eq!(m, mm);
    assert_eq!(d, dd);
}

#[test]
fn test_onion() {
    let (sk1, pk1) = onion::keygen();
    let (sk2, pk2) = onion::keygen();

    let m = "Hello, onions!".as_bytes().to_vec();

    // client encrypts
    let (dks, w) = forward_onion_encrypt(&vec![pk1, pk2], m.clone());

    // server 1 unwrap decrypt
    let (pku, c) = unwrap(&w);
    let d1 = onion::derive(&sk1, &pku).unwrap();
    let w = onion::decrypt(&d1, c, EncryptionPurpose::Forward).unwrap();

    // server 2 unwrap decrypt
    let (pku, c) = unwrap(&w);
    let d2 = onion::derive(&sk2, &pku).unwrap();
    let w = onion::decrypt(&d2, c, EncryptionPurpose::Forward).unwrap();

    assert_eq!(m, w);

    let m = "Hello, client!".as_bytes().to_vec();

    // server 2 re-encrypts
    let c = onion::encrypt(&d2, m.clone(), EncryptionPurpose::Backward);

    // server 1 re-encrypts
    let c = onion::encrypt(&d1, c, EncryptionPurpose::Backward);

    // client decrypts
    let n = backward_onion_decrypt(&dks, c).unwrap();

    assert_eq!(m, n);
}

#[test]
fn blank_is_all_zero_content() {
    let d = Deaddrop::from_bytes(&[9, 8, 7, 6]);
    let b = blank(&d);
    assert_eq!(b.len(), PACKED_SIZE);
    let (content, dd) = unpack(b);
    assert_eq!(content, vec![0u8; CONTENT_SIZE]);
    assert_eq!(dd, d);
}

#[test]
fn be_codec_round_trips() {
    let bytes = write_u32_be(0x0102_0304);
    assert_eq!(bytes, vec![1u8, 2, 3, 4]);
    assert_eq!(read_u32_be(&bytes), 0x0102_0304);
    assert_eq!(read_u32_be(&[0xff, 0, 0, 1]), 0xff00_0001);
}

#[test]
fn onion_length_grows_per_hop() {
    let (_sk1, pk1) = onion::keygen();
    let (_sk2, pk2) = onion::keygen();
    let (_sk3, pk3) = onion::keygen();
    let m = vec![0u8; PACKED_SIZE];
    let (dks, w) = forward_onion_encrypt(&vec![pk1, pk2, pk3], m.clone());
    assert_eq!(dks.len(), 3);
    assert_eq!(w.len(), PACKED_SIZE + 3 * 48);
    assert_ne!(&w[32..32 + PACKED_SIZE], &m[..]);
}
