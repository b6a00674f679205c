use knet_codec::codec::{CodecError, TaggedValue};
use knet_codec::schema::{Schema, SchemaError, Variant};

fn variant(name: &str, payload_size: usize) -> Variant {
    Variant { name: name.as_bytes().to_vec(), payload_size }
}

/// The example type: `Ping` with an empty payload and `Temperature` with a
/// four-byte one, so the tag width is the length of "Temperature".
fn example_schema() -> Schema {
    Schema::new(vec![variant("Ping", 0), variant("Temperature", 4)]).unwrap()
}

#[test]
fn tag_width_is_longest_name() {
    let s = example_schema();
    assert_eq!(s.get_size_of_payload(), 11);
}

#[test]
fn header_width_is_stable_across_calls() {
    let s = example_schema();
    let first = s.get_size_of_payload();
    for _ in 0..5 {
        let _ = s.from_raw(&[0u8; 2]);
        assert_eq!(s.get_size_of_payload(), first);
    }
}

#[test]
fn encode_temperature_layout() {
    let s = example_schema();
    let v = TaggedValue { variant: 1, payload: 37i32.to_ne_bytes().to_vec() };
    let enc = s.serialize(&v);
    assert_eq!(enc.len(), 15);
    assert_eq!(&enc[0..11], b"Temperature");
    assert_eq!(&enc[11..15], &37i32.to_ne_bytes());
}

#[test]
fn encode_ping_is_padded_name_only() {
    let s = example_schema();
    let v = TaggedValue { variant: 0, payload: vec![] };
    let enc = s.serialize(&v);
    assert_eq!(enc.len(), 11);
    assert_eq!(&enc[0..4], b"Ping");
    assert_eq!(&enc[4..11], &[0u8; 7]);
}

#[test]
fn round_trip_every_variant() {
    let s = example_schema();
    let values = vec![
        TaggedValue { variant: 0, payload: vec![] },
        TaggedValue { variant: 1, payload: 37i32.to_ne_bytes().to_vec() },
        TaggedValue { variant: 1, payload: (-40i32).to_ne_bytes().to_vec() },
    ];
    for v in values {
        let enc = s.serialize(&v);
        let dec = s.from_raw(&enc).unwrap();
        assert_eq!(dec, v);
    }
}

#[test]
fn round_trip_temperature_value() {
    let s = example_schema();
    let v = TaggedValue { variant: 1, payload: 37i32.to_ne_bytes().to_vec() };
    let enc = s.serialize(&v);
    let dec = s.from_raw(&enc).unwrap();
    assert_eq!(dec.variant, 1);
    assert_eq!(i32::from_ne_bytes(dec.payload.try_into().unwrap()), 37);
}

#[test]
fn deserialize_overwrites_in_place() {
    let s = example_schema();
    let enc = s.serialize(&TaggedValue { variant: 1, payload: 7i32.to_ne_bytes().to_vec() });
    let mut dst = TaggedValue { variant: 0, payload: vec![] };
    s.deserialize(&mut dst, &enc).unwrap();
    assert_eq!(dst.variant, 1);
    assert_eq!(dst.payload, 7i32.to_ne_bytes().to_vec());
}

#[test]
fn deserialize_keeps_value_on_error() {
    let s = example_schema();
    let mut dst = TaggedValue { variant: 0, payload: vec![] };
    let r = s.deserialize(&mut dst, b"Pong\0\0\0\0\0\0\0");
    assert_eq!(r, Err(CodecError::UnknownTag));
    assert_eq!(dst, TaggedValue { variant: 0, payload: vec![] });
}

#[test]
fn unknown_tag_is_fatal() {
    let s = example_schema();
    let r = s.from_raw(b"Pong\0\0\0\0\0\0\0");
    assert_eq!(r, Err(CodecError::UnknownTag));
}

#[test]
fn unknown_tag_in_introspection() {
    let s = example_schema();
    assert_eq!(s.get_size_of_data(b"Pong\0\0\0\0\0\0\0"), Err(CodecError::UnknownTag));
}

#[test]
fn malformed_tag_is_fatal() {
    let s = example_schema();
    let mut buf = vec![0xFFu8; 11];
    buf.extend_from_slice(&[0u8; 4]);
    assert_eq!(s.from_raw(&buf), Err(CodecError::MalformedTag));
    assert_eq!(s.get_size_of_data(&buf[0..11]), Err(CodecError::MalformedTag));
}

#[test]
fn short_buffer_for_tag_segment() {
    let s = example_schema();
    assert_eq!(s.from_raw(b"Ping"), Err(CodecError::ShortBuffer));
}

#[test]
fn short_buffer_for_payload() {
    let s = example_schema();
    // A full tag naming Temperature, but only two of its four payload bytes.
    let buf = b"Temperature\x01\x02";
    assert_eq!(s.from_raw(buf), Err(CodecError::ShortBuffer));
}

#[test]
fn introspection_returns_fixed_payload_sizes() {
    let s = example_schema();
    assert_eq!(s.get_size_of_data(b"Ping\0\0\0\0\0\0\0"), Ok(0));
    assert_eq!(s.get_size_of_data(b"Temperature"), Ok(4));
    // The padding width does not matter, only the stripped name.
    assert_eq!(s.get_size_of_data(b"Ping"), Ok(0));
    assert_eq!(s.get_size_of_data(b"Ping\0\0\0\0\0\0\0\0\0\0\0\0"), Ok(0));
}

#[test]
fn introspection_is_idempotent() {
    let s = example_schema();
    for _ in 0..3 {
        assert_eq!(s.get_size_of_data(b"Temperature"), Ok(4));
        let _ = s.from_raw(b"Ping\0\0\0\0\0\0\0");
        assert_eq!(s.get_size_of_data(b"Temperature"), Ok(4));
    }
}

#[test]
fn decode_trailing_bytes_beyond_payload_are_ignored() {
    let s = example_schema();
    let mut buf = b"Ping\0\0\0\0\0\0\0".to_vec();
    buf.extend_from_slice(&[9u8, 9, 9]);
    let dec = s.from_raw(&buf).unwrap();
    assert_eq!(dec, TaggedValue { variant: 0, payload: vec![] });
}

#[test]
fn name_as_long_as_tag_width_gets_no_padding() {
    let s = Schema::new(vec![variant("On", 1), variant("No", 2)]).unwrap();
    assert_eq!(s.get_size_of_payload(), 2);
    let enc = s.serialize(&TaggedValue { variant: 0, payload: vec![5] });
    assert_eq!(enc, vec![b'O', b'n', 5]);
    let dec = s.from_raw(&enc).unwrap();
    assert_eq!(dec, TaggedValue { variant: 0, payload: vec![5] });
}

#[test]
fn multibyte_names_round_trip() {
    let s = Schema::new(vec![variant("Größe", 2), variant("Ωmega", 1)]).unwrap();
    assert_eq!(s.get_size_of_payload(), 7);
    let v = TaggedValue { variant: 1, payload: vec![0xAB] };
    let enc = s.serialize(&v);
    assert_eq!(enc.len(), 8);
    let dec = s.from_raw(&enc).unwrap();
    assert_eq!(dec, v);
}

#[test]
fn schema_rejects_empty_union() {
    assert!(matches!(Schema::new(vec![]), Err(SchemaError::EmptyUnion)));
}

#[test]
fn schema_rejects_empty_name() {
    assert!(matches!(
        Schema::new(vec![variant("Ping", 0), variant("", 4)]),
        Err(SchemaError::EmptyName)
    ));
}

#[test]
fn schema_rejects_zero_byte_in_name() {
    assert!(matches!(
        Schema::new(vec![Variant { name: vec![b'P', 0, b'g'], payload_size: 1 }]),
        Err(SchemaError::ZeroByteInName)
    ));
}

#[test]
fn schema_rejects_name_that_is_not_text() {
    assert!(matches!(
        Schema::new(vec![Variant { name: vec![0xC0, 0x80], payload_size: 1 }]),
        Err(SchemaError::NameNotUtf8)
    ));
}

#[test]
fn schema_rejects_duplicate_names() {
    assert!(matches!(
        Schema::new(vec![variant("Ping", 0), variant("Ping", 4)]),
        Err(SchemaError::DuplicateName)
    ));
}
