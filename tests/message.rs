use testnet::message::decode;
use testnet::message::encode;
use testnet::message::DecodeError;
use testnet::message::EncodeError;
use testnet::message::IpcMessage;
use testnet::message::MAX_MESSAGE_SIZE;

fn round_trip(m: IpcMessage) {
    let mut bytes = encode(&m).unwrap();
    let len = bytes.len();
    bytes.extend_from_slice(&[9, 9, 9]);
    assert_eq!(decode(&bytes), Ok(Some((m, len))));
}

#[test]
fn frames_round_trip() {
    round_trip(IpcMessage::Send(b"ping".to_vec()));
    round_trip(IpcMessage::Receive);
    round_trip(IpcMessage::Wait);
    round_trip(IpcMessage::BroadcastAllSend(vec![]));
    round_trip(IpcMessage::BroadcastAllRecv(vec![b"a".to_vec(), vec![], b"ccc".to_vec()]));
}

#[test]
fn frame_layout_is_little_endian() {
    assert_eq!(encode(&IpcMessage::Wait).unwrap(), vec![4, 0, 0, 0, 2, 0, 0, 0]);
    assert_eq!(
        encode(&IpcMessage::Send(vec![7, 8])).unwrap(),
        vec![10, 0, 0, 0, 0, 0, 0, 0, 2, 0, 0, 0, 7, 8]
    );
    assert_eq!(
        encode(&IpcMessage::BroadcastAllRecv(vec![vec![1]])).unwrap(),
        vec![13, 0, 0, 0, 4, 0, 0, 0, 1, 0, 0, 0, 1, 0, 0, 0, 1]
    );
}

#[test]
fn incomplete_frames_wait_for_more() {
    assert_eq!(decode(&[]), Ok(None));
    assert_eq!(decode(&[4, 0, 0]), Ok(None));
    assert_eq!(decode(&[4, 0, 0, 0, 2, 0]), Ok(None));
}

#[test]
fn oversized_frames_are_refused() {
    assert_eq!(decode(&[1, 0, 1, 0]), Err(DecodeError::TooLarge));
    let big = IpcMessage::Send(vec![0; MAX_MESSAGE_SIZE]);
    assert_eq!(encode(&big), Err(EncodeError::TooLarge));
    let fits = IpcMessage::Send(vec![0; MAX_MESSAGE_SIZE - 8]);
    assert_eq!(encode(&fits).unwrap().len(), MAX_MESSAGE_SIZE + 4);
    let list = IpcMessage::BroadcastAllRecv(vec![vec![0; MAX_MESSAGE_SIZE / 2]; 2]);
    assert_eq!(encode(&list), Err(EncodeError::TooLarge));
}

#[test]
fn malformed_frames_are_refused() {
    assert_eq!(decode(&[4, 0, 0, 0, 9, 0, 0, 0]), Err(DecodeError::Malformed));
    assert_eq!(decode(&[5, 0, 0, 0, 2, 0, 0, 0, 0]), Err(DecodeError::Malformed));
    assert_eq!(decode(&[9, 0, 0, 0, 0, 0, 0, 0, 5, 0, 0, 0, 1]), Err(DecodeError::Malformed));
    assert_eq!(decode(&[2, 0, 0, 0, 1, 0]), Err(DecodeError::Malformed));
}
