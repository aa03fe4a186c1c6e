use euralios::message::{Message, MessageData, OPEN, WRITE};
use euralios::rendezvous::{
    drop_endpoint, new_rendezvous, receive, send, ReceiveOutcome, RendezvousState, SendOutcome,
    Side,
};

fn short(tag: u64, v1: u64, v2: u64) -> Message {
    Message::Short(tag, v1, v2)
}

#[test]
fn sender_parks_until_receiver_arrives() {
    let mut rv = new_rendezvous();
    let outcome = send(&mut rv, Side::A, 1, short(OPEN, 7, 8));
    assert!(matches!(outcome, SendOutcome::Parked));
    assert!(matches!(rv.state, RendezvousState::SenderWaiting { .. }));

    match receive(&mut rv, Side::B, 2) {
        ReceiveOutcome::Received { msg, sender_tid } => {
            assert_eq!(sender_tid, 1);
            match msg {
                Message::Short(tag, v1, v2) => {
                    assert_eq!((tag, v1, v2), (OPEN, 7, 8));
                },
                _ => panic!("expected a short message"),
            }
        },
        _ => panic!("expected a delivery"),
    }
    assert!(matches!(rv.state, RendezvousState::Idle));
}

#[test]
fn receiver_parks_until_sender_arrives() {
    let mut rv = new_rendezvous();
    assert!(matches!(receive(&mut rv, Side::B, 2), ReceiveOutcome::Parked));
    match send(&mut rv, Side::A, 1, short(WRITE, 1, 2)) {
        SendOutcome::Delivered { receiver_tid, msg } => {
            assert_eq!(receiver_tid, 2);
            assert_eq!(msg.tag(), WRITE);
        },
        _ => panic!("expected immediate delivery"),
    }
}

#[test]
fn delivery_is_pairwise_fifo() {
    let mut rv = new_rendezvous();

    // Send A completes before send B begins; the peer's receives see
    // them in the same order.
    send(&mut rv, Side::A, 1, short(OPEN, 1, 0));
    let first = match receive(&mut rv, Side::B, 2) {
        ReceiveOutcome::Received { msg, .. } => msg,
        _ => panic!("expected a message"),
    };
    send(&mut rv, Side::A, 1, short(OPEN, 2, 0));
    let second = match receive(&mut rv, Side::B, 2) {
        ReceiveOutcome::Received { msg, .. } => msg,
        _ => panic!("expected a message"),
    };
    match (first, second) {
        (Message::Short(_, a, _), Message::Short(_, b, _)) => {
            assert_eq!(a, 1);
            assert_eq!(b, 2);
        },
        _ => panic!("expected short messages"),
    }
}

#[test]
fn send_to_dropped_peer_is_closed() {
    let mut rv = new_rendezvous();
    assert!(drop_endpoint(&mut rv, Side::B).is_none());
    match send(&mut rv, Side::A, 1, short(OPEN, 0, 0)) {
        SendOutcome::Closed { msg } => assert_eq!(msg.tag(), OPEN),
        _ => panic!("expected the closed outcome"),
    }
    assert!(matches!(receive(&mut rv, Side::A, 1), ReceiveOutcome::Closed));
}

#[test]
fn dropping_peer_wakes_parked_sender() {
    let mut rv = new_rendezvous();
    send(&mut rv, Side::A, 5, short(OPEN, 0, 0));
    assert_eq!(drop_endpoint(&mut rv, Side::B), Some(5));
    assert!(matches!(rv.state, RendezvousState::Closed));
    // The woken sender sees the channel as closed from then on.
    assert!(matches!(
        send(&mut rv, Side::A, 5, short(OPEN, 0, 0)),
        SendOutcome::Closed { .. }
    ));
}

#[test]
fn long_messages_carry_payloads() {
    let mut rv = new_rendezvous();
    let payload = Message::Long(WRITE, MessageData::Value(3), MessageData::Value(9));
    send(&mut rv, Side::A, 1, payload);
    match receive(&mut rv, Side::B, 2) {
        ReceiveOutcome::Received { msg: Message::Long(tag, MessageData::Value(a), MessageData::Value(b)), .. } => {
            assert_eq!(tag, WRITE);
            assert_eq!(a, 3);
            assert_eq!(b, 9);
        },
        _ => panic!("expected the long message back"),
    }
}
