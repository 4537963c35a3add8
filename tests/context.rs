use testnet::config::normalize_nodes;
use testnet::config::NodeConfig;
use testnet::context::broadcast_all_reply;
use testnet::context::payload_string;
use testnet::context::payload_strings;
use testnet::context::receive_reply;
use testnet::context::wait_reply;
use testnet::context::ClientError;
use testnet::context::Context;
use testnet::message::decode;
use testnet::message::encode;
use testnet::message::DecodeError;
use testnet::message::IpcMessage;

fn context(i: usize) -> Context {
    Context::new(i, normalize_nodes(&vec![NodeConfig::default(); 2]).unwrap())
}

#[test]
fn context_describes_its_node() {
    let c = context(1);
    assert_eq!(c.current_node_index(), 1);
    assert_eq!(c.current_node_name(), "n1");
    assert_eq!(c.current_node_ifname(), "veth1");
    assert_eq!(c.current_node().ifaddr.to_text(), "10.84.0.2/16");
    assert_eq!(c.nodes().len(), 2);
    assert_eq!(c.step_count(), 0);
}

#[test]
fn requests_count_steps() {
    let mut c = context(0);
    let f = c.broadcast_all_request(b"0".to_vec()).unwrap();
    assert_eq!(decode(&f), Ok(Some((IpcMessage::BroadcastAllSend(b"0".to_vec()), f.len()))));
    let f = c.send_request(b"x".to_vec()).unwrap();
    assert_eq!(decode(&f), Ok(Some((IpcMessage::Send(b"x".to_vec()), f.len()))));
    let f = c.receive_request();
    assert_eq!(decode(&f), Ok(Some((IpcMessage::Receive, f.len()))));
    let f = c.wait_request();
    assert_eq!(decode(&f), Ok(Some((IpcMessage::Wait, f.len()))));
    assert_eq!(c.step_count(), 4);
}

#[test]
fn string_requests_carry_utf8() {
    let mut c = context(0);
    let f = c.send_string_request("ping").unwrap();
    assert_eq!(decode(&f), Ok(Some((IpcMessage::Send(b"ping".to_vec()), f.len()))));
    let f = c.broadcast_all_string_request("é").unwrap();
    assert_eq!(
        decode(&f),
        Ok(Some((IpcMessage::BroadcastAllSend("é".as_bytes().to_vec()), f.len())))
    );
}

#[test]
fn named_steps_log_their_end() {
    let mut c = context(0);
    assert_eq!(c.finish_step(true), None);
    c.step("join");
    assert_eq!(c.finish_step(true), Some("step \"join\": ok".to_string()));
    assert_eq!(c.finish_step(true), None);
    c.step("leave");
    assert_eq!(c.finish_step(false), Some("step \"leave\": failed".to_string()));
}

#[test]
fn replies_are_checked() {
    let all = encode(&IpcMessage::BroadcastAllRecv(vec![b"0".to_vec(), b"1".to_vec()])).unwrap();
    assert_eq!(broadcast_all_reply(&all), Ok(vec![b"0".to_vec(), b"1".to_vec()]));
    assert_eq!(receive_reply(&all), Err(ClientError::InvalidResponse));
    assert_eq!(wait_reply(&all), Err(ClientError::InvalidResponse));
    let send = encode(&IpcMessage::Send(b"ping".to_vec())).unwrap();
    assert_eq!(receive_reply(&send), Ok(b"ping".to_vec()));
    let wait = encode(&IpcMessage::Wait).unwrap();
    assert_eq!(wait_reply(&wait), Ok(()));
    assert_eq!(broadcast_all_reply(&wait), Err(ClientError::InvalidResponse));
    assert_eq!(wait_reply(&[]), Err(ClientError::NoResponse));
    assert_eq!(wait_reply(&[1, 0, 1, 0]), Err(ClientError::Decode(DecodeError::TooLarge)));
    let mut long = wait.clone();
    long.push(0);
    assert_eq!(wait_reply(&long), Err(ClientError::InvalidResponse));
}

#[test]
fn payloads_read_as_strings() {
    assert_eq!(payload_string(b"ping".to_vec()), Ok("ping".to_string()));
    assert_eq!(payload_string(vec![0xff]), Err(ClientError::InvalidString));
    assert_eq!(
        payload_strings(vec![b"0".to_vec(), b"1".to_vec()]),
        Ok(vec!["0".to_string(), "1".to_string()])
    );
    assert_eq!(payload_strings(vec![b"0".to_vec(), vec![0xc3]]), Err(ClientError::InvalidString));
}

#[test]
fn oversized_string_requests_fail() {
    let mut c = context(0);
    let big = "x".repeat(70000);
    assert_eq!(
        c.send_string_request(&big),
        Err(ClientError::Encode(testnet::message::EncodeError::TooLarge))
    );
    assert_eq!(
        c.broadcast_all_string_request(&big),
        Err(ClientError::Encode(testnet::message::EncodeError::TooLarge))
    );
    assert_eq!(c.step_count(), 2);
    let fits = "y".repeat(65536 - 8);
    assert!(c.send_string_request(&fits).is_ok());
}
