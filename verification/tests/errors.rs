use protocol::errors::{CharTryFromError, Error, IoErrorKind, TryFromIntError};

#[test]
fn narrowing_error_description() {
    let e = TryFromIntError {};
    assert_eq!(e.description(), "out of range integral type conversion attempted");
}

#[test]
fn char_conversion_error_description() {
    let e = CharTryFromError {};
    assert_eq!(e.description(), "converted integer out of range for `char`");
}

#[test]
fn error_variants_are_distinguishable() {
    let io = Error::Io(IoErrorKind::UnexpectedEof);
    let range = Error::TryFromInt(TryFromIntError {});
    let unknown = Error::UnknownPacketId;
    let discr = Error::UnknownEnumDiscriminator("Weather".to_string(), "Hail".to_string());
    let parcel = Error::UnimplementedParcel("Opaque".to_string());
    assert_ne!(io, range);
    assert_ne!(unknown, discr);
    assert_ne!(discr, parcel);
    assert_eq!(io.clone(), io);
    assert_eq!(
        discr,
        Error::UnknownEnumDiscriminator("Weather".to_string(), "Hail".to_string())
    );
}
