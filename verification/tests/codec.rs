use core::cmp::Ordering;

use der::datetime::decode_decimal;
use der::encode::finish_expected;
use der::hexbin::decode_hex;
use der::hexbin::HexError;
use der::DateTime;
use der::Decode;
use der::DerOrd;
use der::Encode;
use der::Encoder;
use der::Error;
use der::GeneralizedTime;
use der::Header;
use der::HexOrBin;
use der::Length;
use der::Tag;
use der::UnixDuration;

const EXAMPLE: [u8; 17] = [
    0x18, 0x0f, 0x31, 0x39, 0x39, 0x31, 0x30, 0x35, 0x30, 0x36, 0x32, 0x33, 0x34, 0x35, 0x34,
    0x30, 0x5a,
];

#[test]
fn round_trip() {
    let example_bytes = EXAMPLE;
    let utc_time = GeneralizedTime::from_der(&example_bytes).unwrap();
    assert_eq!(utc_time.to_unix_duration().secs, 673573540);

    let mut encoder = Encoder::new(128);
    utc_time.encode(&mut encoder).unwrap();
    assert_eq!(example_bytes.to_vec(), encoder.finish());
}

#[test]
fn reference_vector_fields() {
    let t = GeneralizedTime::from_der(&EXAMPLE).unwrap();
    let dt = t.to_date_time();
    assert_eq!(dt.year, 1991);
    assert_eq!(dt.month, 5);
    assert_eq!(dt.day, 6);
    assert_eq!(dt.hour, 23);
    assert_eq!(dt.minute, 45);
    assert_eq!(dt.second, 40);
    assert_eq!(t.to_vec().unwrap(), EXAMPLE.to_vec());
}

#[test]
fn indefinite_length_rejected() {
    assert_eq!(Length::from_der(&[0x80]), Err(Error::Overlength));
}

#[test]
fn non_minimal_lengths_rejected() {
    assert_eq!(Length::from_der(&[0x81, 0x7f]), Err(Error::Overlength));
    assert_eq!(Length::from_der(&[0x81, 0x00]), Err(Error::Overlength));
    assert_eq!(Length::from_der(&[0x82, 0x00, 0x80]), Err(Error::Overlength));
    assert_eq!(Length::from_der(&[0x83, 0x00, 0x01, 0x00]), Err(Error::Overlength));
    assert_eq!(Length::from_der(&[0x84, 0x00, 0x01, 0x00, 0x00]), Err(Error::Overlength));
}

#[test]
fn minimal_lengths_accepted() {
    assert_eq!(Length::from_der(&[0x7f]), Ok(Length(0x7f)));
    assert_eq!(Length::from_der(&[0x81, 0x80]), Ok(Length(0x80)));
    assert_eq!(Length::from_der(&[0x82, 0x01, 0x00]), Ok(Length(0x100)));
    assert_eq!(Length::from_der(&[0x84, 0xff, 0xff, 0xff, 0xff]), Ok(Length(0xffff_ffff)));
}

#[test]
fn oversized_length_is_overflow() {
    assert_eq!(Length::from_der(&[0x85, 0x01, 0x00, 0x00, 0x00, 0x00]), Err(Error::Overflow));
}

#[test]
fn length_overflow_boundary() {
    assert_eq!(Length::try_from_usize(0xffff_ffff), Ok(Length(0xffff_ffff)));
    assert_eq!(Length::try_from_usize(0x1_0000_0000), Err(Error::Overflow));
    let max = Length(0xffff_ffff);
    let encoded = max.to_vec().unwrap();
    assert_eq!(encoded, vec![0x84, 0xff, 0xff, 0xff, 0xff]);
    assert_eq!(Length::from_der(&encoded), Ok(max));
}

#[test]
fn length_addition_overflow() {
    assert_eq!(Length(0xffff_ffff).add(Length(1)), Err(Error::Overflow));
    assert_eq!(Length(5).add(Length(7)), Ok(Length(12)));
}

#[test]
fn generalized_time_bad_digit_rejected() {
    let mut bytes = EXAMPLE;
    bytes[2] = 0x2f;
    assert_eq!(
        GeneralizedTime::from_der(&bytes),
        Err(Error::Value { tag: Tag::GeneralizedTime })
    );
    let mut bytes = EXAMPLE;
    bytes[15] = 0x41;
    assert_eq!(
        GeneralizedTime::from_der(&bytes),
        Err(Error::Value { tag: Tag::GeneralizedTime })
    );
}

#[test]
fn generalized_time_bad_terminator_rejected() {
    let mut bytes = EXAMPLE;
    bytes[16] = 0x7a;
    assert_eq!(
        GeneralizedTime::from_der(&bytes),
        Err(Error::Value { tag: Tag::GeneralizedTime })
    );
}

#[test]
fn generalized_time_wrong_length_rejected() {
    let bytes = [
        0x18, 0x0e, 0x31, 0x39, 0x39, 0x31, 0x30, 0x35, 0x30, 0x36, 0x32, 0x33, 0x34, 0x35,
        0x34, 0x30,
    ];
    assert_eq!(
        GeneralizedTime::from_der(&bytes),
        Err(Error::Value { tag: Tag::GeneralizedTime })
    );
}

#[test]
fn generalized_time_invalid_calendar_rejected() {
    // 1991-02-30 does not exist; every digit is valid.
    let bytes = [
        0x18, 0x0f, 0x31, 0x39, 0x39, 0x31, 0x30, 0x32, 0x33, 0x30, 0x32, 0x33, 0x34, 0x35,
        0x34, 0x30, 0x5a,
    ];
    assert_eq!(
        GeneralizedTime::from_der(&bytes),
        Err(Error::Value { tag: Tag::GeneralizedTime })
    );
}

#[test]
fn trailing_data_rejected() {
    let mut bytes = EXAMPLE.to_vec();
    bytes.push(0x00);
    assert_eq!(
        GeneralizedTime::from_der(&bytes),
        Err(Error::TrailingData { decoded: Length(17), remaining: Length(1) })
    );
}

#[test]
fn unexpected_tag_reported() {
    let bytes = [0x04, 0x01, 0x00];
    assert_eq!(
        GeneralizedTime::from_der(&bytes),
        Err(Error::UnexpectedTag { expected: Tag::GeneralizedTime, actual: Tag::OctetString })
    );
}

#[test]
fn unknown_tag_octet_reported() {
    assert_eq!(Tag::from_der(&[0x07]), Err(Error::TagUnknown { byte: 0x07 }));
    assert_eq!(Tag::from_der(&[0x18]), Ok(Tag::GeneralizedTime));
    assert_eq!(
        Tag::from_der(&[0xa3]),
        Ok(Tag::ContextSpecific { constructed: true, number: 3 })
    );
}

#[test]
fn header_round_trip_long_form() {
    let header = Header::new(Tag::OctetString, 300).unwrap();
    let encoded = header.to_vec().unwrap();
    assert_eq!(encoded, vec![0x04, 0x82, 0x01, 0x2c]);
    assert_eq!(Header::from_der(&encoded), Ok(header));
}

#[test]
fn header_new_overflow() {
    assert_eq!(Header::new(Tag::OctetString, 0x1_0000_0000), Err(Error::Overflow));
}

#[test]
fn header_ordering_tag_first() {
    let a = Header::new(Tag::Boolean, 1000).unwrap();
    let b = Header::new(Tag::Integer, 1).unwrap();
    assert_eq!(a.der_cmp(&b), Ok(Ordering::Less));
    assert_eq!(b.der_cmp(&a), Ok(Ordering::Greater));
}

#[test]
fn header_ordering_length_second() {
    let a = Header::new(Tag::OctetString, 3).unwrap();
    let b = Header::new(Tag::OctetString, 4000).unwrap();
    assert_eq!(a.der_cmp(&b), Ok(Ordering::Less));
    assert_eq!(a.der_cmp(&a), Ok(Ordering::Equal));
    let c = Length(0x7f);
    let d = Length(0x80);
    assert_eq!(c.der_cmp(&d), Ok(Ordering::Less));
}

#[test]
fn encode_length_consistency() {
    let t = GeneralizedTime::from_der(&EXAMPLE).unwrap();
    let len = t.encoded_len().unwrap();
    assert_eq!(len, Length(17));
    assert_eq!(t.to_vec().unwrap().len(), 17);
}

#[test]
fn encoder_overflow_reported() {
    let t = GeneralizedTime::from_der(&EXAMPLE).unwrap();
    let mut encoder = Encoder::new(5);
    assert_eq!(t.encode(&mut encoder), Err(Error::Overflow));
}

#[test]
fn incomplete_detection_on_finish() {
    let mut encoder = Encoder::new(5);
    encoder.byte(1).unwrap();
    encoder.byte(2).unwrap();
    encoder.byte(3).unwrap();
    let out = finish_expected(3, encoder).unwrap();
    assert_eq!(out, vec![1, 2, 3]);

    let mut encoder = Encoder::new(5);
    encoder.byte(1).unwrap();
    encoder.byte(2).unwrap();
    encoder.byte(3).unwrap();
    assert_eq!(
        finish_expected(5, encoder),
        Err(Error::Incomplete { expected_len: Length(5), actual_len: Length(3) })
    );
}

#[test]
fn decimal_pairs() {
    assert_eq!(decode_decimal(Tag::GeneralizedTime, 0x34, 0x32), Ok(42));
    assert_eq!(
        decode_decimal(Tag::GeneralizedTime, 0x34, 0x78),
        Err(Error::Value { tag: Tag::GeneralizedTime })
    );
}

#[test]
fn datetime_validation() {
    assert!(DateTime::new(1991, 5, 6, 23, 45, 40).is_ok());
    assert_eq!(DateTime::new(1991, 13, 6, 0, 0, 0), Err(Error::DateTime));
    assert_eq!(DateTime::new(1991, 2, 30, 0, 0, 0), Err(Error::DateTime));
    assert_eq!(DateTime::new(2100, 2, 29, 0, 0, 0), Err(Error::DateTime));
    assert!(DateTime::new(2000, 2, 29, 0, 0, 0).is_ok());
    assert_eq!(DateTime::new(1969, 12, 31, 0, 0, 0), Err(Error::DateTime));
    assert_eq!(DateTime::new(1991, 5, 6, 24, 0, 0), Err(Error::DateTime));
}

#[test]
fn unix_duration_conversions() {
    let epoch = GeneralizedTime::from_unix_duration(UnixDuration { secs: 0, nanos: 0 }).unwrap();
    let dt = epoch.to_date_time();
    assert_eq!((dt.year, dt.month, dt.day, dt.hour, dt.minute, dt.second), (1970, 1, 1, 0, 0, 0));

    let t = GeneralizedTime::from_unix_duration(UnixDuration { secs: 673573540, nanos: 0 })
        .unwrap();
    assert_eq!(t.to_date_time(), DateTime::new(1991, 5, 6, 23, 45, 40).unwrap());

    let last = GeneralizedTime::from_unix_duration(UnixDuration { secs: 253402300799, nanos: 0 })
        .unwrap();
    assert_eq!(last.to_date_time(), DateTime::new(9999, 12, 31, 23, 59, 59).unwrap());
    assert_eq!(last.to_unix_duration().secs, 253402300799);

    assert_eq!(
        GeneralizedTime::from_unix_duration(UnixDuration { secs: 253402300800, nanos: 0 }),
        Err(Error::Value { tag: Tag::GeneralizedTime })
    );
    assert_eq!(
        GeneralizedTime::from_unix_duration(UnixDuration { secs: 0, nanos: 1 }),
        Err(Error::Value { tag: Tag::GeneralizedTime })
    );
}

#[test]
fn unix_round_trip_leap_day() {
    let dt = DateTime::new(2024, 2, 29, 12, 30, 15).unwrap();
    let t = GeneralizedTime::from_date_time(dt);
    let d = t.to_unix_duration();
    let back = GeneralizedTime::from_unix_duration(d).unwrap();
    assert_eq!(back.to_date_time(), dt);
}

#[test]
fn datetime_encodes_like_generalized_time() {
    let dt = DateTime::new(1991, 5, 6, 23, 45, 40).unwrap();
    assert_eq!(dt.to_vec().unwrap(), EXAMPLE.to_vec());
    assert_eq!(DateTime::from_der(&EXAMPLE), Ok(dt));
}

#[test]
fn hex_decoding() {
    assert_eq!(decode_hex(b"3141", 2), Ok(vec![0x31, 0x41]));
    assert_eq!(decode_hex(b"fF0a", 2), Ok(vec![0xff, 0x0a]));
    assert_eq!(decode_hex(b"314", 2), Err(HexError::InvalidLength));
    assert_eq!(decode_hex(b"31g1", 2), Err(HexError::InvalidEncoding));
}

#[test]
fn hex_or_bin_wrapping() {
    let value: HexOrBin<4, false> = HexOrBin::new([1, 2, 3, 4]);
    assert_eq!(value.as_bytes(), &[1, 2, 3, 4]);
    assert_eq!(value.into_bytes(), [1, 2, 3, 4]);
}

#[test]
fn generalized_time_ordering() {
    let a = GeneralizedTime::from_date_time(DateTime::new(1991, 5, 6, 23, 45, 40).unwrap());
    let b = GeneralizedTime::from_date_time(DateTime::new(1991, 5, 7, 0, 0, 0).unwrap());
    assert_eq!(a.der_cmp(&b), Ok(Ordering::Less));
    assert_eq!(b.der_cmp(&a), Ok(Ordering::Greater));
    assert_eq!(a.der_cmp(&a), Ok(Ordering::Equal));
    assert!(a.to_vec().unwrap() < b.to_vec().unwrap());
}

#[test]
fn conversions_between_wrappers() {
    let dt = DateTime::new(1991, 5, 6, 23, 45, 40).unwrap();
    let t = GeneralizedTime::from(dt);
    assert_eq!(t.to_date_time(), dt);
    assert_eq!(DateTime::from(t), dt);
}

#[test]
fn header_length_error_names_tag() {
    assert_eq!(
        Header::from_der(&[0x04, 0x80]),
        Err(Error::Length { tag: Tag::OctetString })
    );
    assert_eq!(
        Header::from_der(&[0x04, 0x81, 0x05]),
        Err(Error::Length { tag: Tag::OctetString })
    );
}

#[test]
fn truncated_content_reported() {
    assert_eq!(
        GeneralizedTime::from_der(&[0x18, 0x0f, 0x31]),
        Err(Error::Incomplete { expected_len: Length(15), actual_len: Length(1) })
    );
}

#[test]
fn encoder_writes_runs_of_bytes() {
    let mut encoder = Encoder::new(4);
    encoder.bytes(&[1, 2, 3]).unwrap();
    assert_eq!(encoder.bytes(&[4, 5]), Err(Error::Overflow));
    encoder.byte(4).unwrap();
    assert_eq!(encoder.finish(), vec![1, 2, 3, 4]);
}
