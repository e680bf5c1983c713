use encoding_asn1::common::{FieldParameters, TagAndLength};
use encoding_asn1::types::RawValue;
use encoding_asn1::{
    expect_end, marshal, marshal_choice, marshal_record, marshal_with_params, parse_int32,
    parse_tag_and_length, unmarshal, unmarshal_choice, unmarshal_record, unmarshal_with_params,
    Error, ErrorKind, Unmarshaler,
};

struct TagAndLengthTest {
    bytes: Vec<u8>,
    out: TagAndLength,
}

#[test]
fn unmarshal_it_works() {
    assert_eq!(parse_int32(&vec![0x00]), 0);
    assert_eq!(parse_int32(&vec![0x7f]), 127);
    assert_eq!(parse_int32(&vec![0x00, 0x80]), 128);
    assert_eq!(parse_int32(&vec![0x01, 0x00]), 256);
    assert_eq!(parse_int32(&vec![0x80]), -128);
    assert_eq!(parse_int32(&vec![0xff, 0x7f]), -129);
    assert_eq!(parse_int32(&vec![0xff]), -1);
    assert_eq!(parse_int32(&vec![0x80, 0x00, 0x00, 0x00]), -2147483648);

    let tag_and_length_data = vec![
        TagAndLengthTest {
            bytes: vec![0x80, 0x01],
            out: TagAndLength { class: 2, length: 1, ..TagAndLength::default() },
        },
        TagAndLengthTest {
            bytes: vec![0xa0, 0x01],
            out: TagAndLength { class: 2, length: 1, is_compound: true, ..TagAndLength::default() },
        },
        TagAndLengthTest {
            bytes: vec![0x02, 0x00],
            out: TagAndLength { class: 0, tag: 2, length: 0, is_compound: false },
        },
        TagAndLengthTest {
            bytes: vec![0xfe, 0x00],
            out: TagAndLength { class: 3, tag: 30, length: 0, is_compound: true },
        },
        TagAndLengthTest {
            bytes: vec![0x1f, 0x1f, 0x00],
            out: TagAndLength { class: 0, tag: 31, length: 0, is_compound: false },
        },
        TagAndLengthTest {
            bytes: vec![0x1f, 0x81, 0x00, 0x00],
            out: TagAndLength { class: 0, tag: 128, length: 0, is_compound: false },
        },
        TagAndLengthTest {
            bytes: vec![0x1f, 0x81, 0x80, 0x01, 0x00],
            out: TagAndLength { class: 0, tag: 0x4001, length: 0, is_compound: false },
        },
        TagAndLengthTest {
            bytes: vec![0x00, 0x81, 0x80],
            out: TagAndLength { class: 0, tag: 0, length: 128, is_compound: false },
        },
        TagAndLengthTest {
            bytes: vec![0x00, 0x82, 0x01, 0x00],
            out: TagAndLength { class: 0, tag: 0, length: 256, is_compound: false },
        },
        TagAndLengthTest {
            bytes: vec![0xa0, 0x84, 0x7f, 0xff, 0xff, 0xff],
            out: TagAndLength { class: 2, tag: 0, length: 0x7fffffff, is_compound: true },
        },
        TagAndLengthTest {
            bytes: vec![0x1f, 0x87, 0xFF, 0xFF, 0xFF, 0x7F, 0x00],
            out: TagAndLength { class: 0, tag: i32::MAX, length: 0, is_compound: false },
        },
    ];

    for test in &tag_and_length_data {
        let (tl, _) = parse_tag_and_length(&test.bytes).unwrap();
        assert_eq!(tl, test.out);
    }

    let bytes = vec![0x02, 0x01, 0x42];
    let i = i32::unmarshal(&bytes).unwrap();
    assert_eq!(i.0, 0x42);

    let bytes = vec![0x30, 0x03, 0x02, 0x01, 0x40];
    let (body, rest) = unmarshal_record(&bytes, &FieldParameters::default()).unwrap();
    let (a, body) = unmarshal::<i32>(body).unwrap();
    expect_end(body).unwrap();
    assert_eq!(a, 0x40);
    assert!(rest.is_empty());
}

fn kind(r: Result<(TagAndLength, &[u8]), Error>) -> ErrorKind {
    r.unwrap_err().kind()
}

#[test]
fn header_rejections() {
    assert_eq!(kind(parse_tag_and_length(&[])), ErrorKind::SyntaxError);
    assert_eq!(kind(parse_tag_and_length(&[0x02])), ErrorKind::SyntaxError);
    assert_eq!(kind(parse_tag_and_length(&[0x30, 0x80])), ErrorKind::SyntaxError);
    assert_eq!(kind(parse_tag_and_length(&[0x04, 0x81, 0x7f])), ErrorKind::SyntaxError);
    assert_eq!(kind(parse_tag_and_length(&[0x04, 0x82, 0x00, 0x80])), ErrorKind::SyntaxError);
    assert_eq!(kind(parse_tag_and_length(&[0x04, 0x85, 1, 1, 1, 1, 1])), ErrorKind::StructuralError);
    assert_eq!(kind(parse_tag_and_length(&[0x04, 0x82, 0x01])), ErrorKind::SyntaxError);
    assert_eq!(kind(parse_tag_and_length(&[0x1f, 0x1e, 0x00])), ErrorKind::SyntaxError);
    assert_eq!(kind(parse_tag_and_length(&[0x1f, 0x80, 0x20, 0x00])), ErrorKind::SyntaxError);
    assert_eq!(kind(parse_tag_and_length(&[0x1f, 0x81])), ErrorKind::SyntaxError);
    assert_eq!(
        kind(parse_tag_and_length(&[0x1f, 0x81, 0x81, 0x81, 0x81, 0x81, 0x01, 0x00])),
        ErrorKind::StructuralError
    );
    assert_eq!(kind(parse_tag_and_length(&[0x1f, 0x88, 0x80, 0x80, 0x80, 0x00, 0x00])), ErrorKind::SyntaxError);
}

#[test]
fn parse_tag_and_length_returns_rest() {
    let bytes = vec![0x02, 0x01, 0x05, 0xaa];
    let (tl, rest) = parse_tag_and_length(&bytes).unwrap();
    assert_eq!(tl, TagAndLength { class: 0, tag: 2, length: 1, is_compound: false });
    assert_eq!(rest, &[0x05, 0xaa]);
}

#[test]
fn integer_round_trips() {
    for v in [0, 1, -1, 127, 128, -128, -129, 255, 256, 65535, -65536, 8388607, -8388609, i32::MAX, i32::MIN] {
        let mut bytes = marshal(&v);
        bytes.push(0xee);
        let (back, rest) = unmarshal::<i32>(&bytes).unwrap();
        assert_eq!(back, v);
        assert_eq!(rest, &[0xee]);
        for explicit in [false, true] {
            let p = FieldParameters::tagged(40, explicit);
            let bytes = marshal_with_params(&v, &p);
            let (back, rest) = unmarshal_with_params::<i32>(&bytes, &p).unwrap();
            assert_eq!(back, v);
            assert!(rest.is_empty());
        }
    }
}

#[test]
fn integer_rejections() {
    let k = |b: &[u8]| unmarshal::<i32>(b).unwrap_err().kind();
    assert_eq!(k(&[0x02, 0x00]), ErrorKind::SyntaxError);
    assert_eq!(k(&[0x02, 0x05, 1, 2, 3, 4, 5]), ErrorKind::StructuralError);
    assert_eq!(k(&[0x02, 0x02, 0x00, 0x05]), ErrorKind::SyntaxError);
    assert_eq!(k(&[0x02, 0x02, 0xff, 0x80]), ErrorKind::SyntaxError);
    assert_eq!(k(&[0x02, 0x02, 0x01]), ErrorKind::SyntaxError);
    assert_eq!(k(&[0x04, 0x01, 0x01]), ErrorKind::StructuralError);
    let p = FieldParameters::tagged(5, false);
    assert_eq!(unmarshal_with_params::<i32>(&[0x02, 0x01, 0x01], &p).unwrap_err().kind(), ErrorKind::StructuralError);
    let p = FieldParameters::tagged(5, true);
    assert_eq!(
        unmarshal_with_params::<i32>(&[0xa5, 0x04, 0x02, 0x01, 0x01, 0x00], &p).unwrap_err().kind(),
        ErrorKind::SyntaxError
    );
}

#[test]
fn octet_string_round_trip_and_tagging() {
    let v: Vec<u8> = (0..300).map(|i| (i % 251) as u8).collect();
    let bytes = marshal(&v);
    let (back, rest) = unmarshal::<Vec<u8>>(&bytes).unwrap();
    assert_eq!(back, v);
    assert!(rest.is_empty());
    let p = FieldParameters::tagged(2, false);
    let bytes = marshal_with_params(&v, &p);
    assert_eq!(bytes[0], 0x82);
    let (back, _) = unmarshal_with_params::<Vec<u8>>(&bytes, &p).unwrap();
    assert_eq!(back, v);
}

#[test]
fn raw_value_round_trip() {
    let rv = RawValue { class: 2, tag: 1, is_compound: false, bytes: vec![1, 2, 3], full_bytes: vec![] };
    let bytes = marshal(&rv);
    let (back, rest) = unmarshal::<RawValue>(&bytes).unwrap();
    assert_eq!(back.class, 2);
    assert_eq!(back.tag, 1);
    assert!(!back.is_compound);
    assert_eq!(back.bytes, vec![1, 2, 3]);
    assert!(back.full_bytes.is_empty());
    assert!(rest.is_empty());
    assert_eq!(unmarshal::<RawValue>(&[0x81, 0x03, 0x01]).unwrap_err().kind(), ErrorKind::SyntaxError);
}

#[test]
fn record_round_trip_and_set() {
    let bytes = marshal_record(&vec![marshal(&64), marshal(&65)], &FieldParameters::default());
    let (body, rest) = unmarshal_record(&bytes, &FieldParameters::default()).unwrap();
    let (a, body) = unmarshal::<i32>(body).unwrap();
    let (b, body) = unmarshal::<i32>(body).unwrap();
    assert_eq!((a, b), (64, 65));
    assert!(expect_end(body).is_ok());
    assert!(rest.is_empty());

    let set = vec![0x31, 0x03, 0x02, 0x01, 0x40];
    let (body, _) = unmarshal_record(&set, &FieldParameters::default()).unwrap();
    assert_eq!(unmarshal::<i32>(body).unwrap().0, 64);

    let wrong = vec![0x04, 0x03, 0x02, 0x01, 0x40];
    assert_eq!(unmarshal_record(&wrong, &FieldParameters::default()).unwrap_err().kind(), ErrorKind::StructuralError);
    assert_eq!(expect_end(&[0]).unwrap_err().kind(), ErrorKind::SyntaxError);

    let p = FieldParameters::tagged(1, false);
    let bytes = marshal_record(&vec![marshal(&7)], &p);
    let (body, _) = unmarshal_record(&bytes, &p).unwrap();
    assert_eq!(unmarshal::<i32>(body).unwrap().0, 7);
}

#[test]
fn choice_round_trip_and_unknown_tag() {
    let request = marshal_record(&vec![marshal(&1)], &FieldParameters::default());
    let bytes = marshal_choice(3001, &request);
    let tags = [3000, 3001];
    let (index, rv, rest) = unmarshal_choice(&bytes, &FieldParameters::default(), &tags).unwrap();
    assert_eq!(index, 1);
    assert_eq!(rv.bytes, request);
    assert!(rest.is_empty());
    let (body, _) = unmarshal_record(&rv.bytes, &FieldParameters::default()).unwrap();
    assert_eq!(unmarshal::<i32>(body).unwrap().0, 1);

    let other = marshal_choice(7, &request);
    let err = unmarshal_choice(&other, &FieldParameters::default(), &tags).unwrap_err();
    assert_eq!(err.kind(), ErrorKind::StructuralError);
}
