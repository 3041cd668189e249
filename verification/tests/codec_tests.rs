use newsmaw::{decode_record, encode_record, NewsData, CodecError, Timestamp};

fn full_record() -> NewsData {
    NewsData {
        title: "A headline".to_string(),
        authors: Some(vec!["First Author".to_string(), "Second Author".to_string()]),
        timestamp_published: Some(Timestamp {
            year: 2023,
            month: 5,
            day: 1,
            hour: 10,
            minute: 0,
            second: 0,
            offset_seconds: 0,
        }),
        timestamp_updated: Some(Timestamp {
            year: 2023,
            month: 5,
            day: 2,
            hour: 23,
            minute: 59,
            second: 59,
            offset_seconds: -36000,
        }),
        byline: Some("By somebody".to_string()),
        content: "Body text with unicode: naïve café 日本語".to_string(),
        tags: vec!["politics".to_string(), "politics".to_string(), "world".to_string()],
        version: 1,
    }
}

fn minimal_record() -> NewsData {
    NewsData {
        title: String::new(),
        authors: None,
        timestamp_published: None,
        timestamp_updated: None,
        byline: None,
        content: String::new(),
        tags: Vec::new(),
        version: 1,
    }
}

#[test]
fn round_trip_full_record() {
    let r = full_record();
    let bytes = encode_record(&r);
    let back = decode_record(&bytes).expect("a fresh encoding must decode");
    assert!(back == r);
}

#[test]
fn round_trip_minimal_record() {
    let r = minimal_record();
    let bytes = encode_record(&r);
    let back = decode_record(&bytes).expect("a fresh encoding must decode");
    assert!(back == r);
}

#[test]
fn version_is_first_field_little_endian() {
    let bytes = encode_record(&minimal_record());
    assert_eq!(&bytes[0..4], &[1u8, 0, 0, 0]);
}

#[test]
fn decode_rejects_empty_input() {
    assert_eq!(decode_record(&Vec::new()), Err(CodecError::Malformed));
}

#[test]
fn decode_rejects_truncated_input() {
    let mut bytes = encode_record(&full_record());
    bytes.truncate(bytes.len() - 1);
    assert_eq!(decode_record(&bytes), Err(CodecError::Malformed));
}

#[test]
fn decode_rejects_trailing_bytes() {
    let mut bytes = encode_record(&full_record());
    bytes.push(0);
    assert_eq!(decode_record(&bytes), Err(CodecError::Malformed));
}

#[test]
fn decode_rejects_unsupported_schema_version() {
    let mut bytes = encode_record(&minimal_record());
    assert_eq!(&bytes[0..4], &[1u8, 0, 0, 0]);
    bytes[0] = 2;
    assert_eq!(decode_record(&bytes), Err(CodecError::Malformed));
}

#[test]
fn decode_rejects_bad_option_tag() {
    let r = minimal_record();
    let mut bytes = encode_record(&r);
    // the authors tag byte sits right after the version and the empty title
    let tag_index = 4 + 8;
    assert_eq!(bytes[tag_index], 0);
    bytes[tag_index] = 2;
    assert_eq!(decode_record(&bytes), Err(CodecError::Malformed));
}

#[test]
fn records_with_different_content_differ() {
    let a = full_record();
    let mut b = full_record();
    b.content.push('!');
    assert!(!(a == b));
    let bytes_a = encode_record(&a);
    let bytes_b = encode_record(&b);
    assert!(bytes_a != bytes_b);
}
