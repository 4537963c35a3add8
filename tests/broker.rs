use testnet::broker::Action;
use testnet::broker::Broker;
use testnet::broker::BrokerError;
use testnet::message::IpcMessage;

fn reply(i: usize, m: IpcMessage) -> Action {
    Action::Reply(i, m)
}

#[test]
fn broadcast_one_two_nodes() {
    let mut b = Broker::new(2);
    let a = b.on_request(0, IpcMessage::Send(b"ping".to_vec())).unwrap();
    assert!(a.is_empty());
    let a = b.on_request(1, IpcMessage::Receive).unwrap();
    assert_eq!(
        a,
        vec![reply(1, IpcMessage::Send(b"ping".to_vec())), reply(0, IpcMessage::Wait)]
    );
}

#[test]
fn broadcast_one_receiver_first() {
    let mut b = Broker::new(2);
    assert!(b.on_request(1, IpcMessage::Receive).unwrap().is_empty());
    let a = b.on_request(0, IpcMessage::Send(b"ping".to_vec())).unwrap();
    assert_eq!(
        a,
        vec![reply(1, IpcMessage::Send(b"ping".to_vec())), reply(0, IpcMessage::Wait)]
    );
}

#[test]
fn broadcast_all_two_nodes() {
    let mut b = Broker::new(2);
    assert!(b.on_request(1, IpcMessage::BroadcastAllSend(b"1".to_vec())).unwrap().is_empty());
    let a = b.on_request(0, IpcMessage::BroadcastAllSend(b"0".to_vec())).unwrap();
    let all = vec![b"0".to_vec(), b"1".to_vec()];
    assert_eq!(
        a,
        vec![
            reply(0, IpcMessage::BroadcastAllRecv(all.clone())),
            reply(1, IpcMessage::BroadcastAllRecv(all)),
        ]
    );
}

#[test]
fn broadcast_all_three_nodes() {
    let mut b = Broker::new(3);
    assert!(b.on_request(2, IpcMessage::BroadcastAllSend(b"c".to_vec())).unwrap().is_empty());
    assert!(b.on_request(0, IpcMessage::BroadcastAllSend(b"a".to_vec())).unwrap().is_empty());
    let a = b.on_request(1, IpcMessage::BroadcastAllSend(b"b".to_vec())).unwrap();
    let all = vec![b"a".to_vec(), b"b".to_vec(), b"c".to_vec()];
    assert_eq!(a.len(), 3);
    for (i, x) in a.into_iter().enumerate() {
        assert_eq!(x, reply(i, IpcMessage::BroadcastAllRecv(all.clone())));
    }
}

#[test]
fn broadcast_one_with_waiter() {
    let mut b = Broker::new(3);
    assert!(b.on_request(2, IpcMessage::Wait).unwrap().is_empty());
    assert!(b.on_request(1, IpcMessage::Receive).unwrap().is_empty());
    let a = b.on_request(0, IpcMessage::Send(b"x".to_vec())).unwrap();
    assert_eq!(
        a,
        vec![
            reply(1, IpcMessage::Send(b"x".to_vec())),
            reply(0, IpcMessage::Wait),
            reply(2, IpcMessage::Wait),
        ]
    );
}

#[test]
fn only_waiters_complete() {
    let mut b = Broker::new(2);
    assert!(b.on_request(0, IpcMessage::Wait).unwrap().is_empty());
    let a = b.on_request(1, IpcMessage::Wait).unwrap();
    assert_eq!(a, vec![reply(0, IpcMessage::Wait), reply(1, IpcMessage::Wait)]);
}

#[test]
fn second_sender_is_refused() {
    let mut b = Broker::new(3);
    assert!(b.on_request(0, IpcMessage::Send(b"x".to_vec())).unwrap().is_empty());
    assert_eq!(
        b.on_request(1, IpcMessage::Send(b"y".to_vec())),
        Err(BrokerError::MultipleSenders)
    );
}

#[test]
fn exit_cuts_off_broadcast_all() {
    let mut b = Broker::new(2);
    assert!(b.on_request(0, IpcMessage::BroadcastAllSend(b"0".to_vec())).unwrap().is_empty());
    let a = b.on_exit(1);
    assert_eq!(a, vec![Action::Close(0)]);
    assert!(!b.is_live(0));
    assert!(!b.is_finished());
    assert!(b.on_exit(0).is_empty());
    assert!(b.is_finished());
}

#[test]
fn exit_of_sender_cuts_off_receivers() {
    let mut b = Broker::new(3);
    assert!(b.on_request(0, IpcMessage::Send(b"x".to_vec())).unwrap().is_empty());
    assert!(b.on_request(1, IpcMessage::Receive).unwrap().is_empty());
    let a = b.on_exit(0);
    assert!(a.is_empty());
    let a = b.on_request(2, IpcMessage::Wait).unwrap();
    assert_eq!(a, vec![Action::Close(1), Action::Close(2)]);
}

#[test]
fn exited_idle_node_lets_broadcast_one_complete() {
    let mut b = Broker::new(3);
    assert!(b.on_exit(2).is_empty());
    assert!(b.on_request(1, IpcMessage::Receive).unwrap().is_empty());
    let a = b.on_request(0, IpcMessage::Send(b"x".to_vec())).unwrap();
    assert_eq!(
        a,
        vec![reply(1, IpcMessage::Send(b"x".to_vec())), reply(0, IpcMessage::Wait)]
    );
}

#[test]
fn request_after_exit_in_broadcast_all_fails() {
    let mut b = Broker::new(2);
    assert!(b.on_exit(1).is_empty());
    let a = b.on_request(0, IpcMessage::BroadcastAllSend(b"0".to_vec())).unwrap();
    assert_eq!(a, vec![Action::Close(0)]);
}

#[test]
fn second_request_in_one_step_cuts_off() {
    let mut b = Broker::new(2);
    assert!(b.on_request(0, IpcMessage::Receive).unwrap().is_empty());
    let a = b.on_request(0, IpcMessage::Receive).unwrap();
    assert_eq!(a, vec![Action::Close(0)]);
    let a = b.on_request(0, IpcMessage::Wait).unwrap();
    assert!(a.is_empty());
}

#[test]
fn reply_sent_as_request_cuts_off() {
    let mut b = Broker::new(2);
    let a = b.on_request(1, IpcMessage::BroadcastAllRecv(vec![])).unwrap();
    assert_eq!(a, vec![Action::Close(1)]);
    let a = b.on_failure(0);
    assert_eq!(a, vec![Action::Close(0)]);
}

#[test]
fn oversized_broadcast_all_cuts_off_everyone() {
    let mut b = Broker::new(2);
    let big = vec![0u8; 40000];
    assert!(b.on_request(0, IpcMessage::BroadcastAllSend(big.clone())).unwrap().is_empty());
    let a = b.on_request(1, IpcMessage::BroadcastAllSend(big)).unwrap();
    assert_eq!(a, vec![Action::Close(0), Action::Close(1)]);
    assert!(!b.is_live(0));
    assert!(!b.is_live(1));
}
