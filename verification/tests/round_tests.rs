use vuvuzela::keys::{Party, PartyType};
use vuvuzela::message::{Deaddrop, CONTENT_SIZE, PACKED_SIZE};
use vuvuzela::round::{Phase, RoundCoordinator};

#[test]
fn round_cycle_runs_in_order() {
    let mut rc = RoundCoordinator::new();
    assert_eq!(rc.phase, Phase::Collecting);
    assert_eq!(rc.round_num, 0);

    // Collection: two client submissions and a forwarded batch, no loss.
    let i0 = rc.submit(vec![1u8; 4]);
    let i1 = rc.submit(vec![2u8; 4]);
    assert_eq!((i0, i1), (0, 1));
    rc.receive_forward_batch(vec![vec![3u8; 4], vec![4u8; 4]]);
    assert_eq!(rc.buffer.len(), 4);

    // The timer fires: the buffer swaps out whole.
    let batch = rc.begin_shuffle();
    assert_eq!(batch, vec![vec![1u8; 4], vec![2u8; 4], vec![3u8; 4], vec![4u8; 4]]);
    assert_eq!(rc.buffer.len(), 0);
    assert_eq!(rc.phase, Phase::Shuffling);

    // A submission for the next round arrives mid-shuffle and waits.
    let i_next = rc.submit(vec![9u8; 4]);
    assert_eq!(i_next, 0);

    rc.begin_waiting();
    assert_eq!(rc.phase, Phase::AwaitingPeer);
    assert!(!rc.remote_round_ended());

    // The next hop streams the batch back, then signals the round's end.
    rc.receive_backward_batch(vec![vec![5u8; 4]]);
    rc.receive_backward_batch(vec![vec![6u8; 4]]);
    rc.signal_remote_end();
    assert!(rc.remote_round_ended());

    let back = rc.begin_return();
    assert_eq!(back, vec![vec![5u8; 4], vec![6u8; 4]]);
    assert_eq!(rc.phase, Phase::Returning);
    assert!(!rc.remote_round_ended());

    // Replies publish; blocked clients drain by submission index.
    rc.publish_replies(vec![vec![7u8; PACKED_SIZE], vec![8u8; PACKED_SIZE]]);
    assert_eq!(rc.phase, Phase::Draining);
    let fallback = Deaddrop::from_bytes(&[0, 0, 0, 5]);
    assert_eq!(rc.reply_or_blank(0, &fallback), vec![7u8; PACKED_SIZE]);
    assert_eq!(rc.reply_or_blank(1, &fallback), vec![8u8; PACKED_SIZE]);

    // A submission with no published reply still gets a message-shaped blank.
    let blank_reply = rc.reply_or_blank(2, &fallback);
    assert_eq!(blank_reply.len(), PACKED_SIZE);
    assert_eq!(&blank_reply[..CONTENT_SIZE], &vec![0u8; CONTENT_SIZE][..]);
    assert_eq!(&blank_reply[CONTENT_SIZE..], &[0, 0, 0, 5]);

    // The boundary: the counter moves, buffers reset, the waiting
    // next-round submission survives.
    rc.finish_round();
    assert_eq!(rc.round_num, 1);
    assert_eq!(rc.phase, Phase::Collecting);
    assert_eq!(rc.replies.len(), 0);
    assert_eq!(rc.backwards.len(), 0);
    assert_eq!(rc.buffer, vec![vec![9u8; 4]]);
}

#[test]
fn round_numbers_strictly_increase() {
    let mut rc = RoundCoordinator::new();
    let mut last = rc.round_num;
    for _ in 0..3 {
        let _batch = rc.begin_shuffle();
        rc.begin_waiting();
        rc.signal_remote_end();
        let _back = rc.begin_return();
        rc.publish_replies(vec![]);
        rc.finish_round();
        assert!(rc.round_num > last);
        last = rc.round_num;
    }
    assert_eq!(rc.round_num, 3);
}

#[test]
fn party_identities() {
    let p = PartyType::Client.with_id(3);
    assert_eq!(p, Party { party_type: PartyType::Client, id: 3 });
    let s = PartyType::Server.with_id(0);
    assert_eq!(s.party_type, PartyType::Server);
    assert_eq!(s.id, 0);
}
