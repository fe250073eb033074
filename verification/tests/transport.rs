use cachybridge::protocol::{encode_frame, Message, ProtocolError};
use cachybridge::transport::{
    parse_psk, poll_header, poll_record, read_record, write_record, Handshake, HandshakeStep,
    Peeked, PollStep, Role, SecureConnection, TransportError, MAX_APPLICATION_PAYLOAD,
    MAX_CIPHERTEXT_FRAME, NOISE_TAG_BYTES,
};

fn begin(role: Role, psk: &[u8; 32]) -> Handshake {
    match Handshake::begin(role, psk) {
        Ok(handshake) => handshake,
        Err(error) => panic!("{error:?}"),
    }
}

fn finish(handshake: Handshake) -> SecureConnection {
    match handshake.finish() {
        Ok(connection) => connection,
        Err(error) => panic!("{error:?}"),
    }
}

/// Two ends of a channel that share a key.
fn connected(psk: [u8; 32]) -> (SecureConnection, SecureConnection) {
    let mut host = begin(Role::Host, &psk);
    let mut client = begin(Role::Client, &psk);
    let first = host.send().unwrap();
    client.receive(&first[2..]).unwrap();
    let second = client.send().unwrap();
    host.receive(&second[2..]).unwrap();
    (finish(host), finish(client))
}

#[test]
fn psk_parser_rejects_invalid_text() {
    assert!(parse_psk("ff").is_err());
    assert!(parse_psk(&"z".repeat(64)).is_err());
    assert_eq!(parse_psk(&"ab".repeat(32)).unwrap(), [0xab; 32]);
}

#[test]
fn noise_psk_authenticates_and_encrypts_a_frame() {
    let (mut sender, mut receiver) = connected([9_u8; 32]);
    let plaintext = encode_frame(Message::Heartbeat);
    let record = sender.send(Message::Heartbeat).unwrap();
    let encrypted = &record[2..];
    assert_ne!(encrypted, plaintext.as_slice());
    assert_eq!(receiver.receive(encrypted).unwrap(), Message::Heartbeat);
}

#[test]
fn messages_cross_the_channel_both_ways_in_order() {
    let (mut host, mut client) = connected([7_u8; 32]);
    let first = host.send(Message::Heartbeat).unwrap();
    let second = host.send_payload(b"payload").unwrap();
    assert_eq!(client.receive(&first[2..]), Ok(Message::Heartbeat));
    assert_eq!(client.receive_payload(&second[2..]), Ok(b"payload".to_vec()));
    let answer = client.send(Message::ReleaseAll).unwrap();
    assert_eq!(host.receive(&answer[2..]), Ok(Message::ReleaseAll));
}

#[test]
fn a_record_is_not_accepted_twice_or_out_of_order() {
    let (mut host, mut client) = connected([7_u8; 32]);
    let first = host.send(Message::Heartbeat).unwrap();
    let second = host.send(Message::Goodbye).unwrap();
    assert!(matches!(client.receive(&second[2..]), Err(TransportError::Noise(_))));
    assert_eq!(client.receive(&first[2..]), Ok(Message::Heartbeat));
    assert!(matches!(client.receive(&first[2..]), Err(TransportError::Noise(_))));
    assert_eq!(client.receive(&second[2..]), Ok(Message::Goodbye));
}

#[test]
fn different_keys_do_not_complete_a_handshake() {
    let mut host = begin(Role::Host, &[1; 32]);
    let mut client = begin(Role::Client, &[2; 32]);
    let first = host.send().unwrap();
    assert!(matches!(client.receive(&first[2..]), Err(TransportError::Noise(_))));
    assert_eq!(client.step(), HandshakeStep::Receive);
}

#[test]
fn each_side_takes_its_turn() {
    let mut host = begin(Role::Host, &[1; 32]);
    let mut client = begin(Role::Client, &[1; 32]);
    assert_eq!(host.step(), HandshakeStep::Send);
    assert_eq!(client.step(), HandshakeStep::Receive);
    let first = host.send().unwrap();
    assert_eq!(read_record(&[first[0], first[1]], 1_024), Ok(first.len() - 2));
    assert_eq!(host.step(), HandshakeStep::Receive);
    client.receive(&first[2..]).unwrap();
    assert_eq!(client.step(), HandshakeStep::Send);
    let second = client.send().unwrap();
    assert_eq!(client.step(), HandshakeStep::Finish);
    host.receive(&second[2..]).unwrap();
    assert_eq!(host.step(), HandshakeStep::Finish);
}

#[test]
fn records_carry_their_length() {
    assert_eq!(write_record(&[7, 8, 9], 3), Ok(vec![0, 3, 7, 8, 9]));
    assert_eq!(write_record(&[7, 8, 9], 2), Err(TransportError::RecordTooLarge(3)));
    assert_eq!(
        write_record(&[0; 65_536], usize::MAX),
        Err(TransportError::RecordTooLarge(65_536))
    );
    assert_eq!(read_record(&[1, 2], 1_024), Ok(258));
    assert_eq!(read_record(&[4, 1], 1_024), Err(TransportError::RecordTooLarge(1_025)));
}

#[test]
fn polling_reads_only_whole_records() {
    assert_eq!(poll_header(Peeked::Closed, &[0, 0]), PollStep::Receive);
    assert_eq!(poll_header(Peeked::WouldBlock, &[0, 0]), PollStep::NotReady);
    assert_eq!(poll_header(Peeked::Bytes(1), &[0, 20]), PollStep::NotReady);
    assert_eq!(poll_header(Peeked::Bytes(2), &[0, 20]), PollStep::PeekRecord(22));
    assert_eq!(
        poll_header(Peeked::Bytes(2), &[255, 255]),
        PollStep::Fail(TransportError::RecordTooLarge(65_535))
    );
    assert_eq!(poll_record(Peeked::Bytes(21), 22), PollStep::NotReady);
    assert_eq!(poll_record(Peeked::Bytes(22), 22), PollStep::Receive);
    assert_eq!(poll_record(Peeked::WouldBlock, 22), PollStep::NotReady);
}

#[test]
fn payloads_and_packets_outside_their_bounds_are_refused() {
    let (mut host, mut client) = connected([7_u8; 32]);
    assert_eq!(
        host.send_payload(&[0; MAX_APPLICATION_PAYLOAD + 1]),
        Err(TransportError::RecordTooLarge(MAX_APPLICATION_PAYLOAD + 1))
    );
    let full = host.send_payload(&[3; MAX_APPLICATION_PAYLOAD]).unwrap();
    assert_eq!(full.len(), 2 + MAX_CIPHERTEXT_FRAME);
    assert_eq!(client.receive_payload(&full[2..]), Ok(vec![3; MAX_APPLICATION_PAYLOAD]));
    assert_eq!(
        client.receive(&[0; NOISE_TAG_BYTES - 1]),
        Err(TransportError::InvalidNoisePacket)
    );
    let garbage = host.send_payload(b"?").unwrap();
    assert_eq!(
        client.receive(&garbage[2..]),
        Err(TransportError::Protocol(ProtocolError::TooShort))
    );
}

#[test]
fn only_the_awaited_handshake_packet_is_taken() {
    let mut host = begin(Role::Host, &[1; 32]);
    let mut client = begin(Role::Client, &[1; 32]);
    let first = host.send().unwrap();
    assert_eq!(first.len(), 2 + 48);
    let mut altered = first[2..].to_vec();
    altered[47] ^= 1;
    assert!(client.receive(&[]).is_err());
    assert!(client.receive(&altered).is_err());
    assert_eq!(client.step(), HandshakeStep::Receive);
    client.receive(&first[2..]).unwrap();
    let second = client.send().unwrap();
    assert_eq!(second.len(), 2 + 48);
    assert!(host.receive(&first[2..]).is_err());
    host.receive(&second[2..]).unwrap();
    assert_eq!(host.step(), HandshakeStep::Finish);
}
