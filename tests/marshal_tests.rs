use encoding_asn1::common::FieldParameters;
use encoding_asn1::types::RawValue;
use encoding_asn1::{marshal, marshal_choice, marshal_record, marshal_with_params};

fn record(fields: Vec<Vec<u8>>) -> Vec<u8> {
    marshal_record(&fields, &FieldParameters::default())
}

fn int_struct(a: i32) -> Vec<u8> {
    record(vec![marshal(&a)])
}

#[test]
fn marshal_it_works() {
    assert_eq!(marshal(&10), vec![0x02, 0x01, 0x0a]);
    assert_eq!(marshal(&127), vec![0x02, 0x01, 0x7f]);
    assert_eq!(marshal(&128), vec![0x02, 0x02, 0x00, 0x80]);
    assert_eq!(marshal(&-128), vec![0x02, 0x01, 0x80]);
    assert_eq!(marshal(&-129), vec![0x02, 0x02, 0xff, 0x7f]);
    assert_eq!(int_struct(64), vec![0x30, 0x03, 0x02, 0x01, 0x40]);
    assert_eq!(
        record(vec![marshal(&64), marshal(&65)]),
        vec![0x30, 0x06, 0x02, 0x01, 0x40, 0x02, 0x01, 0x41]
    );
    assert_eq!(
        record(vec![int_struct(127)]),
        vec![0x30, 0x05, 0x30, 0x03, 0x02, 0x01, 0x7f]
    );
    assert_eq!(marshal(&vec![1u8, 2, 3]), vec![0x04, 0x03, 0x01, 0x02, 0x03]);
    assert_eq!(
        record(vec![marshal_with_params(&64, &FieldParameters::tagged(5, false))]),
        vec![0x30, 0x03, 0x85, 0x01, 0x40]
    );
    assert_eq!(
        record(vec![marshal_with_params(&64, &FieldParameters::tagged(5, true))]),
        vec![0x30, 0x05, 0xa5, 0x03, 0x02, 0x01, 0x40]
    );
    assert_eq!(
        marshal(&RawValue {
            tag: 1,
            class: 2,
            is_compound: false,
            bytes: vec![0x01, 0x02, 0x03],
            full_bytes: vec![],
        }),
        vec![0x81, 0x03, 0x01, 0x02, 0x03]
    );
}

#[test]
fn hello_it_works() {
    let request = record(vec![marshal(&1)]);
    let message = record(vec![marshal(&1), marshal_choice(3000, &request)]);
    assert_eq!(
        message,
        vec![0x30, 0x0C, 0x02, 0x01, 0x01, 0xBF, 0x97, 0x38, 0x05, 0x30, 0x03, 0x02, 0x01, 0x01]
    );
}

#[test]
fn octet_string_tests_it_works() {
    let s: encoding_asn1::types::OctetString = "hello".as_bytes().to_vec();
    assert_eq!(marshal(&s), vec![0x04, 0x05, 0x68, 0x65, 0x6c, 0x6c, 0x6f]);
}

#[test]
fn integer_edge_values() {
    assert_eq!(marshal(&0), vec![0x02, 0x01, 0x00]);
    assert_eq!(marshal(&-1), vec![0x02, 0x01, 0xff]);
    assert_eq!(marshal(&256), vec![0x02, 0x02, 0x01, 0x00]);
    assert_eq!(marshal(&-32769), vec![0x02, 0x03, 0xff, 0x7f, 0xff]);
    assert_eq!(marshal(&i32::MAX), vec![0x02, 0x04, 0x7f, 0xff, 0xff, 0xff]);
    assert_eq!(marshal(&i32::MIN), vec![0x02, 0x04, 0x80, 0x00, 0x00, 0x00]);
}

#[test]
fn long_lengths_and_high_tags() {
    let v = vec![0u8; 200];
    let out = marshal(&v);
    assert_eq!(&out[..3], &[0x04, 0x81, 0xc8]);
    assert_eq!(out.len(), 203);
    let v = vec![7u8; 256];
    let out = marshal(&v);
    assert_eq!(&out[..4], &[0x04, 0x82, 0x01, 0x00]);
    assert_eq!(marshal_with_params(&1, &FieldParameters::tagged(31, false)), vec![0x9f, 0x1f, 0x01, 0x01]);
    assert_eq!(
        marshal_with_params(&1, &FieldParameters::tagged(128, false)),
        vec![0x9f, 0x81, 0x00, 0x01, 0x01]
    );
}

#[test]
fn application_and_private_classes() {
    let mut p = FieldParameters::tagged(3, false);
    p.application = true;
    assert_eq!(marshal_with_params(&5, &p), vec![0x43, 0x01, 0x05]);
    let mut p = FieldParameters::tagged(3, true);
    p.private = true;
    assert_eq!(marshal_with_params(&5, &p), vec![0xe3, 0x03, 0x02, 0x01, 0x05]);
}

#[test]
fn octet_string_tagging() {
    let v = vec![0xaau8];
    assert_eq!(marshal_with_params(&v, &FieldParameters::tagged(2, false)), vec![0x82, 0x01, 0xaa]);
    assert_eq!(
        marshal_with_params(&v, &FieldParameters::tagged(2, true)),
        vec![0xa2, 0x03, 0x04, 0x01, 0xaa]
    );
    assert_eq!(marshal(&Vec::<u8>::new()), vec![0x04, 0x00]);
}

#[test]
fn raw_value_full_bytes_written_as_is() {
    let rv = RawValue { class: 0, tag: 2, is_compound: false, bytes: vec![9], full_bytes: vec![0x05, 0x00] };
    assert_eq!(marshal(&rv), vec![0x05, 0x00]);
}

#[test]
fn tagged_record_and_empty_record() {
    let body = vec![marshal(&64)];
    assert_eq!(
        marshal_record(&body, &FieldParameters::tagged(1, false)),
        vec![0xa1, 0x03, 0x02, 0x01, 0x40]
    );
    assert_eq!(record(vec![]), vec![0x30, 0x00]);
}
