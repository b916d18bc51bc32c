use protocol::codec::Type;
use protocol::connection::{decode_packet, Connection};
use protocol::errors::{Error, IoErrorKind};
use protocol::middleware::{Algorithm, Compression, Pipeline};

fn plain_connection() -> Connection {
    Connection::new(Pipeline::default())
}

#[test]
fn registration_is_remembered() {
    let mut c = plain_connection();
    assert!(!c.is_registered(7));
    c.register(7);
    c.register(9);
    assert!(c.is_registered(7));
    assert!(c.is_registered(9));
    assert!(!c.is_registered(8));
}

#[test]
fn send_and_receive_round_trip() {
    let mut sender = plain_connection();
    let mut receiver = plain_connection();
    sender.register(3);
    receiver.register(3);
    let value: Vec<u32> = vec![10, 20, 30];
    let frame = sender.send_packet(3, &value).unwrap();
    let (id, payload) = receiver.receive_packet(Some(frame)).unwrap().unwrap();
    assert_eq!(id, 3);
    let back: Vec<u32> = decode_packet(payload).unwrap();
    assert_eq!(back, value);
}

#[test]
fn frame_layout_is_id_then_payload() {
    let sender = plain_connection();
    let frame = sender.send_packet(0x01020304, &5u8).unwrap();
    assert_eq!(frame, vec![1, 2, 3, 4, 5]);
}

#[test]
fn unknown_identifier_is_rejected() {
    let sender = plain_connection();
    let mut receiver = plain_connection();
    receiver.register(8);
    let frame = sender.send_packet(7, &vec![1u8, 2, 3]).unwrap();
    let r = receiver.receive_packet(Some(frame));
    assert_eq!(r, Err(Error::UnknownPacketId));
}

#[test]
fn no_data_yet_is_not_an_error() {
    let receiver = plain_connection();
    let r = receiver.receive_packet(None).unwrap();
    assert!(r.is_none());
}

#[test]
fn short_frame_is_an_eof_error() {
    let mut receiver = plain_connection();
    receiver.register(1);
    let r = receiver.receive_packet(Some(vec![0, 0]));
    assert_eq!(r, Err(Error::Io(IoErrorKind::UnexpectedEof)));
}

#[test]
fn default_stage_is_identity() {
    let pipeline = Pipeline::default();
    assert_eq!(pipeline.compression, Compression::Disabled);
    let data = vec![1u8, 2, 3, 4, 5];
    assert_eq!(pipeline.encode_data(&data), data);
    assert_eq!(pipeline.decode_data(&data).unwrap(), data);
}

#[test]
fn compression_round_trip_restores_plaintext() {
    let pipeline = Pipeline { compression: Compression::Enabled(Algorithm::Zlib) };
    let mut sender = plain_connection();
    let mut receiver = plain_connection();
    sender.middleware = pipeline;
    receiver.middleware = pipeline;
    sender.register(2);
    receiver.register(2);
    let value: Vec<u8> = (0..200).map(|i| (i % 17) as u8).collect();
    let frame = sender.send_packet(2, &value).unwrap();
    let (id, payload) = receiver.receive_packet(Some(frame)).unwrap().unwrap();
    assert_eq!(id, 2);
    let back: Vec<u8> = decode_packet(payload).unwrap();
    assert_eq!(back, value);
}

#[test]
fn compression_actually_shrinks_redundant_data() {
    let pipeline = Pipeline { compression: Compression::Enabled(Algorithm::Zlib) };
    let data = vec![0u8; 1000];
    let compressed = pipeline.encode_data(&data);
    assert!(compressed.len() < data.len());
    assert_ne!(compressed, data);
    assert_eq!(pipeline.decode_data(&compressed).unwrap(), data);
}

#[test]
fn malformed_compressed_payload_is_rejected() {
    let pipeline = Pipeline { compression: Compression::Enabled(Algorithm::Zlib) };
    let garbage = vec![0xffu8, 0xfe, 0xfd, 1, 2, 3];
    assert!(pipeline.decode_data(&garbage).is_err());
}

#[test]
fn enabling_compression_changes_only_the_payload() {
    let mut plain = plain_connection();
    let mut compressed = plain_connection();
    compressed.middleware = Pipeline { compression: Compression::Enabled(Algorithm::Zlib) };
    plain.register(5);
    compressed.register(5);
    let value: Vec<u8> = vec![9; 64];
    let plain_frame = plain.send_packet(5, &value).unwrap();
    let compressed_frame = compressed.send_packet(5, &value).unwrap();
    assert_eq!(plain_frame[..4], compressed_frame[..4]);
    assert_ne!(plain_frame[4..], compressed_frame[4..]);
}

#[test]
fn decode_packet_propagates_codec_errors() {
    let r: Result<Vec<u32>, Error> = decode_packet(vec![0, 0, 0, 2, 0]);
    assert!(matches!(r, Err(Error::Io(IoErrorKind::UnexpectedEof))));
}
