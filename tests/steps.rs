use testnet::broker::Action;
use testnet::broker::Broker;
use testnet::config::normalize_nodes;
use testnet::config::NodeConfig;
use testnet::context::broadcast_all_reply;
use testnet::context::payload_string;
use testnet::context::payload_strings;
use testnet::context::receive_reply;
use testnet::context::wait_reply;
use testnet::context::Context;
use testnet::message::decode;
use testnet::message::encode;

fn contexts(n: usize) -> Vec<Context> {
    let nodes = normalize_nodes(&vec![NodeConfig::default(); n]).unwrap();
    (0..n).map(|i| Context::new(i, nodes.clone())).collect()
}

/// Hands a request frame to the broker; returns the reply frames it writes.
fn submit(broker: &mut Broker, i: usize, frame: &[u8]) -> Vec<(usize, Vec<u8>)> {
    let (msg, used) = decode(frame).unwrap().unwrap();
    assert_eq!(used, frame.len());
    broker
        .on_request(i, msg)
        .unwrap()
        .into_iter()
        .map(|a| match a {
            Action::Reply(j, m) => (j, encode(&m).unwrap()),
            Action::Close(j) => panic!("node {} cut off", j),
        })
        .collect()
}

fn reply_for(replies: &[(usize, Vec<u8>)], i: usize) -> Vec<u8> {
    replies.iter().find(|(j, _)| *j == i).unwrap().1.clone()
}

#[test]
fn send_string_reaches_receiver() {
    let mut cs = contexts(2);
    let mut broker = Broker::new(2);
    let request = cs[0].send_string_request("ping").unwrap();
    assert!(submit(&mut broker, 0, &request).is_empty());
    let request = cs[1].receive_request();
    let replies = submit(&mut broker, 1, &request);
    let got = payload_string(receive_reply(&reply_for(&replies, 1)).unwrap()).unwrap();
    assert_eq!(got, "ping");
    assert_eq!(wait_reply(&reply_for(&replies, 0)), Ok(()));
    assert_eq!(cs[0].step_count(), 1);
    assert_eq!(cs[1].step_count(), 1);
}

#[test]
fn broadcast_all_strings_by_index() {
    let mut cs = contexts(2);
    let mut broker = Broker::new(2);
    let r1 = cs[1].broadcast_all_string_request("1").unwrap();
    let r0 = cs[0].broadcast_all_string_request("0").unwrap();
    assert!(submit(&mut broker, 1, &r1).is_empty());
    let replies = submit(&mut broker, 0, &r0);
    for i in 0..2 {
        let all = payload_strings(broadcast_all_reply(&reply_for(&replies, i)).unwrap()).unwrap();
        assert_eq!(all, vec!["0".to_string(), "1".to_string()]);
    }
}

#[test]
fn three_node_all_to_all() {
    let mut cs = contexts(3);
    let mut broker = Broker::new(3);
    let words = ["a", "b", "c"];
    let mut replies = Vec::new();
    for i in [1usize, 2, 0] {
        let r = cs[i].broadcast_all_string_request(words[i]).unwrap();
        replies = submit(&mut broker, i, &r);
    }
    assert_eq!(replies.len(), 3);
    for i in 0..3 {
        let all = payload_strings(broadcast_all_reply(&reply_for(&replies, i)).unwrap()).unwrap();
        assert_eq!(all, vec!["a".to_string(), "b".to_string(), "c".to_string()]);
    }
}

#[test]
fn mixed_broadcast_one() {
    let mut cs = contexts(3);
    let mut broker = Broker::new(3);
    let w = cs[2].wait_request();
    assert!(submit(&mut broker, 2, &w).is_empty());
    let s = cs[0].send_request(b"payload".to_vec()).unwrap();
    assert!(submit(&mut broker, 0, &s).is_empty());
    let r = cs[1].receive_request();
    let replies = submit(&mut broker, 1, &r);
    assert_eq!(receive_reply(&reply_for(&replies, 1)), Ok(b"payload".to_vec()));
    assert_eq!(wait_reply(&reply_for(&replies, 0)), Ok(()));
    assert_eq!(wait_reply(&reply_for(&replies, 2)), Ok(()));
}
