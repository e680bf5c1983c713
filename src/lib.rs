//! DER encoding and decoding of integers, octet strings, raw TLVs, records
//! and discriminated unions, with IMPLICIT and EXPLICIT context tagging.
pub mod common;
pub mod wire;
pub mod marshal;
pub mod unmarshal;
pub mod types;
pub mod constructed;
pub mod laws;
pub mod annotation;

pub use common::{FieldParameters, TagAndLength};
pub use constructed::{expect_end, marshal_choice, marshal_record, unmarshal_choice, unmarshal_record};
pub use marshal::{marshal, marshal_with_params, Encoder, Marshaler, TaggedEncoder};
pub use types::{OctetString, RawValue};
pub use unmarshal::{parse_int32, parse_tag_and_length, unmarshal, unmarshal_with_params, Error, Unmarshaler};
pub use wire::ErrorKind;
pub use annotation::{field_parameters, params_from_attrs, parse_attributes, AnnotationError, Asn1Attr};
