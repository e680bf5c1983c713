use encoding_asn1::{field_parameters, marshal, marshal_record, marshal_with_params, params_from_attrs, parse_attributes, AnnotationError, Asn1Attr};

fn params(s: &str) -> Result<(bool, Option<i32>), AnnotationError> {
    field_parameters(s.as_bytes()).map(|p| (p.explicit, p.tag))
}

#[test]
fn annotation_directives() {
    assert_eq!(params("tag=5, implicit"), Ok((false, Some(5))));
    assert_eq!(params("tag = 5, explicit"), Ok((true, Some(5))));
    assert_eq!(params("  explicit ,tag=3000  "), Ok((true, Some(3000))));
    assert_eq!(params("explicit, implicit, tag=1"), Ok((false, Some(1))));
    assert_eq!(params("implicit, explicit, tag=1, tag=2"), Ok((true, Some(2))));
    assert_eq!(params(""), Ok((false, None)));
    assert_eq!(params("   "), Ok((false, None)));
    assert_eq!(params("tag=1,"), Ok((false, Some(1))));
    assert_eq!(params("tag=2147483647"), Ok((false, Some(i32::MAX))));
}

#[test]
fn annotation_rejections() {
    assert_eq!(params("explicit"), Err(AnnotationError::MissingTag));
    assert_eq!(params("foo"), Err(AnnotationError::UnexpectedAttribute));
    assert_eq!(params("tag"), Err(AnnotationError::UnexpectedAttribute));
    assert_eq!(params("foo = 3"), Err(AnnotationError::UnexpectedAttribute));
    assert_eq!(params("tag = x"), Err(AnnotationError::ExpectedLiteral));
    assert_eq!(params("tag ="), Err(AnnotationError::ExpectedLiteral));
    assert_eq!(params("tag = -1"), Err(AnnotationError::ExpectedLiteral));
    assert_eq!(params("tag = 2147483648"), Err(AnnotationError::BadInteger));
    assert_eq!(params(",tag=1"), Err(AnnotationError::EmptyItem));
    assert_eq!(params("tag=1,,implicit"), Err(AnnotationError::EmptyItem));
}

#[test]
fn annotation_list_and_fold() {
    assert_eq!(
        parse_attributes("implicit, tag = 7".as_bytes()),
        Ok(vec![Asn1Attr::Implicit, Asn1Attr::Tag(7)])
    );
    assert_eq!(params_from_attrs(&vec![Asn1Attr::Explicit]).map(|p| p.tag), Err(AnnotationError::MissingTag));
    assert_eq!(params_from_attrs(&vec![Asn1Attr::Tag(-3)]).map(|p| p.tag), Err(AnnotationError::BadInteger));
}

#[test]
fn annotated_fields_encode() {
    let implicit = field_parameters("tag=5, implicit".as_bytes()).unwrap();
    let explicit = field_parameters("tag=5, explicit".as_bytes()).unwrap();
    let default = field_parameters("".as_bytes()).unwrap();
    assert_eq!(
        marshal_record(&vec![marshal_with_params(&64, &implicit)], &default),
        vec![0x30, 0x03, 0x85, 0x01, 0x40]
    );
    assert_eq!(
        marshal_record(&vec![marshal_with_params(&64, &explicit)], &default),
        vec![0x30, 0x05, 0xa5, 0x03, 0x02, 0x01, 0x40]
    );
    assert_eq!(marshal_with_params(&64, &default), marshal(&64));
}
