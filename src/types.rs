use vstd::prelude::*;
use crate::common::{FieldParameters, TagAndLength, MAX_LENGTH};
use crate::marshal::{Encoder, Marshaler, TaggedEncoder};
use crate::unmarshal::{Error, Unmarshaler, read_tlv};
use crate::wire::{ErrorKind, header_octets, parse_tlv};

verus! {

pub type OctetString = Vec<u8>;

/// One TLV carried as it stands: the header's class, tag and form, and the
/// value octets. When `full_bytes` is not empty it is the whole TLV, and it
/// is written as it stands.
#[derive(Debug)]
pub struct RawValue {
    pub class: i32,
    pub tag: i32,
    pub is_compound: bool,
    pub bytes: Vec<u8>,
    pub full_bytes: Vec<u8>,
}

pub ghost struct RawValueView {
    pub class: i32,
    pub tag: i32,
    pub is_compound: bool,
    pub bytes: Seq<u8>,
    pub full_bytes: Seq<u8>,
}

impl View for RawValue {
    type V = RawValueView;

    open spec fn view(&self) -> RawValueView {
        RawValueView {
            class: self.class,
            tag: self.tag,
            is_compound: self.is_compound,
            bytes: self.bytes@,
            full_bytes: self.full_bytes@,
        }
    }
}

impl RawValueView {
    /// The header that the value octets are written under.
    pub open spec fn header(self) -> TagAndLength {
        TagAndLength {
            class: self.class,
            tag: self.tag,
            length: self.bytes.len() as usize,
            is_compound: self.is_compound,
        }
    }

    /// The octets the value writes.
    pub open spec fn encoding(self) -> Seq<u8> {
        if self.full_bytes.len() > 0 {
            self.full_bytes
        } else {
            header_octets(self.header()) + self.bytes
        }
    }

    /// Without cached octets, the header must be one that can be written.
    pub open spec fn writable(self) -> bool {
        self.full_bytes.len() > 0 || (0 <= self.class <= 3 && 0 <= self.tag && self.bytes.len()
            <= MAX_LENGTH)
    }
}

impl Marshaler for RawValue {
    open spec fn can_marshal(&self, params: FieldParameters) -> bool {
        self@.writable()
    }

    open spec fn spec_marshal(&self, params: FieldParameters) -> Seq<u8> {
        self@.encoding()
    }

    fn marshal_with_params(&self, _params: &FieldParameters) -> (r: Vec<u8>) {
        if self.full_bytes.len() > 0 {
            return self.full_bytes.clone();
        }
        let t = TaggedEncoder {
            tag: TagAndLength {
                class: self.class,
                is_compound: self.is_compound,
                length: self.bytes.len(),
                tag: self.tag,
            },
            body: self.bytes.clone(),
        };
        t.encode()
    }
}

/// The value read from one TLV: its header and value octets, no cached
/// octets.
pub open spec fn raw_of(h: TagAndLength, v: Seq<u8>) -> RawValueView {
    RawValueView { class: h.class, tag: h.tag, is_compound: h.is_compound, bytes: v, full_bytes: seq![] }
}

impl Unmarshaler<RawValue> for RawValue {
    open spec fn spec_unmarshal(bytes: Seq<u8>, params: FieldParameters) -> Result<(RawValueView, nat), ErrorKind> {
        match parse_tlv(bytes) {
            Err(e) => Err(e),
            Ok((h, v, c)) => Ok((raw_of(h, v), c)),
        }
    }

    fn unmarshal_with_params<'a>(bytes: &'a [u8], _params: &FieldParameters) -> (r: Result<
        (RawValue, &'a [u8]),
        Error,
    >) {
        match read_tlv(bytes) {
            Err(e) => Err(e),
            Ok((h, v, rest)) => {
                let rv = RawValue {
                    class: h.class,
                    tag: h.tag,
                    is_compound: h.is_compound,
                    bytes: vstd::slice::slice_to_vec(v),
                    full_bytes: Vec::new(),
                };
                assert(rv@ == raw_of(h, v@));
                Ok((rv, rest))
            },
        }
    }
}

} // verus!
