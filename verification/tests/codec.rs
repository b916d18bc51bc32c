use protocol::array::Array;
use protocol::codec::Type;
use protocol::errors::{Error, IoErrorKind, TryFromIntError};
use protocol::io::{ByteSink, ByteSource};

fn encode<T: Type>(value: &T) -> Result<Vec<u8>, Error> {
    let mut sink = ByteSink::new();
    value.write(&mut sink)?;
    Ok(sink.into_vec())
}

fn decode<T: Type>(bytes: Vec<u8>) -> Result<T, Error> {
    let mut source = ByteSource::new(bytes);
    T::read(&mut source)
}

#[test]
fn round_trip_integers() {
    assert_eq!(encode(&0x12u8).unwrap(), vec![0x12]);
    assert_eq!(encode(&0x1234u16).unwrap(), vec![0x12, 0x34]);
    assert_eq!(encode(&0x12345678u32).unwrap(), vec![0x12, 0x34, 0x56, 0x78]);
    assert_eq!(
        encode(&0x123456789abcdef0u64).unwrap(),
        vec![0x12, 0x34, 0x56, 0x78, 0x9a, 0xbc, 0xde, 0xf0]
    );
    assert_eq!(decode::<u8>(vec![0x12]).unwrap(), 0x12u8);
    assert_eq!(decode::<u16>(vec![0x12, 0x34]).unwrap(), 0x1234u16);
    assert_eq!(decode::<u32>(vec![0x12, 0x34, 0x56, 0x78]).unwrap(), 0x12345678u32);
    assert_eq!(
        decode::<u64>(vec![0x12, 0x34, 0x56, 0x78, 0x9a, 0xbc, 0xde, 0xf0]).unwrap(),
        0x123456789abcdef0u64
    );
}

#[test]
fn round_trip_integer_extremes() {
    for v in [0u64, 1, u64::MAX] {
        assert_eq!(decode::<u64>(encode(&v).unwrap()).unwrap(), v);
    }
    for v in [0u32, u32::MAX] {
        assert_eq!(decode::<u32>(encode(&v).unwrap()).unwrap(), v);
    }
    for v in [0u8, u8::MAX] {
        assert_eq!(decode::<u8>(encode(&v).unwrap()).unwrap(), v);
    }
}

#[test]
fn encode_list_with_byte_prefix() {
    let arr: Array<u8, u32> = Array::new(vec![1, 2, 3]);
    let bytes = encode(&arr).unwrap();
    assert_eq!(bytes, vec![0x03, 0, 0, 0, 1, 0, 0, 0, 2, 0, 0, 0, 3]);
    let back: Array<u8, u32> = decode(bytes).unwrap();
    assert_eq!(back.elements, vec![1, 2, 3]);
}

#[test]
fn round_trip_empty_container() {
    let arr: Array<u8, u32> = Array::new(Vec::new());
    let bytes = encode(&arr).unwrap();
    assert_eq!(bytes, vec![0]);
    let back: Array<u8, u32> = decode(bytes).unwrap();
    assert!(back.elements.is_empty());
}

#[test]
fn round_trip_max_count_container() {
    let elements: Vec<u8> = (0..=255u8).collect();
    let arr: Array<u8, u8> = Array::new(elements.clone()[..255].to_vec());
    let bytes = encode(&arr).unwrap();
    assert_eq!(bytes.len(), 256);
    assert_eq!(bytes[0], 255);
    let back: Array<u8, u8> = decode(bytes).unwrap();
    assert_eq!(back.elements.len(), 255);
    assert_eq!(back.elements, elements[..255].to_vec());
}

#[test]
fn round_trip_nested_containers() {
    let value: Vec<Vec<u8>> = vec![vec![1, 2], Vec::new(), vec![3]];
    let bytes = encode(&value).unwrap();
    let back: Vec<Vec<u8>> = decode(bytes).unwrap();
    assert_eq!(back, value);
}

#[test]
fn vec_uses_32_bit_prefix() {
    let value: Vec<u8> = vec![7];
    assert_eq!(encode(&value).unwrap(), vec![0, 0, 0, 1, 7]);
}

#[test]
fn prefix_overflow_rejected() {
    let arr: Array<u8, u8> = Array::new(vec![0u8; 256]);
    let mut sink = ByteSink::new();
    let r = arr.write(&mut sink);
    assert_eq!(r, Err(Error::TryFromInt(TryFromIntError {})));
    assert_eq!(sink.len(), 0, "an overflowing prefix must write nothing");
}

#[test]
fn truncated_stream_rejected() {
    let bytes = vec![2, 0, 0, 0, 1];
    let r: Result<Array<u8, u32>, Error> = decode(bytes);
    assert!(matches!(r, Err(Error::Io(IoErrorKind::UnexpectedEof))));
}

#[test]
fn truncated_integer_rejected() {
    let r: Result<u32, Error> = decode(vec![1, 2, 3]);
    assert_eq!(r, Err(Error::Io(IoErrorKind::UnexpectedEof)));
}

#[test]
fn zero_prefix_reads_no_elements() {
    let back: Array<u16, u32> = decode(vec![0, 0]).unwrap();
    assert!(back.elements.is_empty());
}

#[test]
fn decode_ignores_trailing_bytes() {
    let mut source = ByteSource::new(vec![0, 42, 9, 9]);
    let v = <Array<u8, u8> as Type>::read(&mut source).unwrap();
    assert!(v.elements.is_empty());
    let next = u8::read(&mut source).unwrap();
    assert_eq!(next, 42);
}

#[test]
fn two_byte_prefix_layout() {
    let arr: Array<u16, u8> = Array::new(vec![9]);
    assert_eq!(encode(&arr).unwrap(), vec![0, 1, 9]);
    let back: Array<u16, u8> = decode(vec![0, 1, 9]).unwrap();
    assert_eq!(back.elements, vec![9]);
}
