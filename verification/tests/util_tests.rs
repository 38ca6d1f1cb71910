use vuvuzela::client_util;
use vuvuzela::message;
use vuvuzela::message::{Deaddrop, CONTENT_SIZE};
use vuvuzela::onion;
use vuvuzela::util;

#[test]
fn deaddrop_switches() {
    let d_loner = Deaddrop::from_bytes(&[1, 1, 1, 1]);
    let d_shared = Deaddrop::from_bytes(&[2, 2, 2, 2]);
    let m1 = vec![1; CONTENT_SIZE];
    let m2 = vec![2; CONTENT_SIZE];
    let m3 = vec![3; CONTENT_SIZE];

    let input = vec![
        message::pack(&m1, &d_shared),
        message::pack(&m2, &d_shared),
        message::pack(&m3, &d_loner),
    ];

    assert_eq!(util::deaddrop(input), vec![m2, m1, m3]);
}

#[test]
fn deaddrop_preserves_unmatched_order() {
    let tags = [[1u8, 0, 0, 1], [2, 0, 0, 2], [3, 0, 0, 3]];
    let mut input = vec![];
    let mut contents = vec![];
    for (i, t) in tags.iter().enumerate() {
        let m = vec![i as u8 + 10; CONTENT_SIZE];
        input.push(message::pack(&m, &Deaddrop::from_bytes(t)));
        contents.push(m);
    }
    assert_eq!(util::deaddrop(input), contents);
}

#[test]
fn forward_injects_noise_and_never_shrinks() {
    let (sk_s, pk_s) = onion::keygen();
    let (_sk_n, pk_n) = onion::keygen();

    // Two real messages addressed to this server.
    let mut input = vec![];
    for i in 0..2u8 {
        let m = vec![i; CONTENT_SIZE];
        let packed = message::pack(&m, &Deaddrop::sample());
        let (_dks, w) = message::forward_onion_encrypt(&vec![pk_s.clone()], packed);
        input.push(w);
    }

    let settings = util::Settings { other_pks: vec![pk_n.clone()], sk: sk_s.clone() };
    let (state, out) = util::forward(input, &settings, 2, 3);
    // Two singles plus twice three pairs on top of the two real slots.
    assert_eq!(out.len(), 2 + 2 + 2 * 3);

    // The batch walks back: exactly the two real slots return.
    let replies = util::backward(state, out);
    assert_eq!(replies.len(), 2);

    let (state0, out0) = util::forward(
        vec![message::forward_onion_encrypt(
            &vec![pk_s.clone()],
            message::blank(&Deaddrop::sample()),
        ).1],
        &settings,
        0,
        0,
    );
    assert_eq!(out0.len(), 1);
    assert_eq!(util::backward(state0, out0).len(), 1);
}

#[test]
fn empty_batch_round_trips() {
    let (sk_s, _pk_s) = onion::keygen();
    let settings = util::Settings { other_pks: vec![], sk: sk_s };
    let (state, out) = util::forward(vec![], &settings, 0, 0);
    assert_eq!(out.len(), 0);
    let matched = util::deaddrop(out);
    assert_eq!(matched.len(), 0);
    assert_eq!(util::backward(state, matched).len(), 0);
}

#[test]
fn forward_substitutes_blank_for_bad_message() {
    let (sk_s, _pk_s) = onion::keygen();
    let (_sk_n, pk_n) = onion::keygen();

    // A message that is long enough to unwrap but authenticates under no key.
    let garbage = vec![7u8; 300];
    let settings = util::Settings { other_pks: vec![pk_n], sk: sk_s };
    let (state, out) = util::forward(vec![garbage], &settings, 0, 0);
    assert_eq!(out.len(), 1);
    // The substitute is a structurally valid blank, not a dropped slot.
    let (content, _tag) = message::unpack(out[0].clone());
    assert_eq!(content, vec![0u8; CONTENT_SIZE]);
    assert_eq!(util::backward(state, out).len(), 1);
}

#[test]
fn crypto_integration_test() {
    // server keys
    let (sk0, pk0) = onion::keygen();
    let (sk1, pk1) = onion::keygen();
    let (sk2, pk2) = onion::keygen();
    let server_pks = vec![pk0, pk1, pk2];

    // client keys
    let (ska, pka) = onion::keygen();
    let (skb, pkb) = onion::keygen();
    let (skc, pkc) = onion::keygen();

    // derived keys
    let dka = onion::derive(&ska, &pkb).unwrap();
    let dkb = onion::derive(&skb, &pka).unwrap();
    assert_eq!(dka, dkb);
    let dkc = onion::derive(&skc, &pkc).unwrap();

    // messages
    let ma = "Hello, Bob!".as_bytes().to_vec();
    let mb = "Hello, Alice!".as_bytes().to_vec();
    let mc = "Hello, Charlie!".as_bytes().to_vec();

    // wrap
    let r = 3;
    let (server_dksa, wa) = client_util::wrap(r, ma, &pkb, &dka, &server_pks);
    let (server_dksb, wb) = client_util::wrap(r, mb, &pka, &dkb, &server_pks);
    let (server_dksc, wc) = client_util::wrap(r, mc, &pkc, &dkc, &server_pks);
    let in0 = vec![wa, wb, wc];

    // server settings; each server draws its own noise counts
    let s0 = util::Settings { other_pks: server_pks[1..].to_vec(), sk: sk0 };
    let s1 = util::Settings { other_pks: server_pks[2..].to_vec(), sk: sk1 };
    let s2 = util::Settings { other_pks: server_pks[3..].to_vec(), sk: sk2 };

    // forward
    println!("in0 len: {}", in0.len());
    let (s0, in1) = util::forward(in0, &s0, 2, 1);
    println!("in1 len: {}", in1.len());
    let (s1, in2) = util::forward(in1, &s1, 1, 2);
    println!("in2 len: {}", in2.len());
    let (s2, in3) = util::forward(in2, &s2, 3, 0);
    println!("in3 len: {}", in3.len());

    // deaddrop
    let out3 = util::deaddrop(in3);
    println!("out3 len: {}", out3.len());

    // backward
    let out2 = util::backward(s2, out3);
    println!("out2 len: {}", out2.len());
    let out1 = util::backward(s1, out2);
    println!("out1 len: {}", out1.len());
    let out0 = util::backward(s0, out1);
    println!("out0 len: {}", out0.len());

    // unwrap and compare
    println!("try unwrap Alice...");
    let oa = client_util::unwrap(r, out0[0].clone(), &pka, &dka, server_dksa).unwrap();
    println!("try unwrap Bob...");
    let ob = client_util::unwrap(r, out0[1].clone(), &pkb, &dkb, server_dksb).unwrap();
    println!("try unwrap Charlie...");
    let oc = client_util::unwrap(r, out0[2].clone(), &pkc, &dkc, server_dksc).unwrap();

    let ra = std::str::from_utf8(&oa).unwrap().trim_end_matches(char::from(0u8));
    let rb = std::str::from_utf8(&ob).unwrap().trim_end_matches(char::from(0u8));
    let rc = std::str::from_utf8(&oc).unwrap().trim_end_matches(char::from(0u8));

    assert_eq!((ra, rb, rc), ("Hello, Alice!", "Hello, Bob!", "Hello, Charlie!"));
}

#[test]
fn reply_is_authenticated() {
    // A reply tampered with in transit fails the client's unwrap instead of
    // producing a wrong plaintext.
    let (sk0, pk0) = onion::keygen();
    let (ska, pka) = onion::keygen();
    let (_skb, pkb) = onion::keygen();
    let dka = onion::derive(&ska, &pkb).unwrap();
    let server_pks = vec![pk0];

    let (server_dks, w) = client_util::wrap(7, b"hi".to_vec(), &pkb, &dka, &server_pks);
    let s = util::Settings { other_pks: vec![], sk: sk0 };
    let (st, fwd) = util::forward(vec![w], &s, 0, 0);
    let matched = util::deaddrop(fwd);
    let mut back = util::backward(st, matched);
    let mut reply = back.remove(0);
    reply[0] ^= 0x80;
    assert_eq!(client_util::unwrap(7, reply, &pka, &dka, server_dks), Err(()));
}
