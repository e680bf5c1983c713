//! Records (SEQUENCE) and discriminated unions (CHOICE) built from the TLVs
//! of their parts: a record is its fields' TLVs, in declared order, inside
//! one compound TLV; a union alternative is its payload TLV inside a
//! context-specific compound TLV that carries the alternative's tag.
use vstd::prelude::*;
use crate::common::{self, FieldParameters, TagAndLength, MAX_LENGTH};
use crate::marshal::{Encoder, Marshaler};
use crate::unmarshal::{Error, Unmarshaler, read_tlv};
use crate::types::RawValue;
use crate::wire::{ErrorKind, header_octets, parse_tlv};

verus! {

/// The octets of all fields, in order.
pub open spec fn concat_all(fields: Seq<Vec<u8>>) -> Seq<u8>
    decreases fields.len(),
{
    if fields.len() == 0 {
        seq![]
    } else {
        concat_all(fields.drop_last()) + fields.last()@
    }
}

/// The outer header of a record: a context-specific tag when the caller
/// gives one, else UNIVERSAL SEQUENCE; always compound.
pub open spec fn record_header(params: FieldParameters, len: nat) -> TagAndLength {
    match params.tag {
        Some(t) => TagAndLength {
            class: common::CLASS_CONTEXT_SPECIFIC,
            tag: t,
            length: len as usize,
            is_compound: true,
        },
        None => TagAndLength {
            class: common::CLASS_UNIVERSAL,
            tag: common::TAG_SEQUENCE,
            length: len as usize,
            is_compound: true,
        },
    }
}

/// A record with the given field octets, under `params`.
pub open spec fn record_tlv(params: FieldParameters, body: Seq<u8>) -> Seq<u8> {
    header_octets(record_header(params, body.len())) + body
}

/// Writes a record whose fields have already been written, each with its
/// own field parameters.
pub fn marshal_record(fields: &Vec<Vec<u8>>, params: &FieldParameters) -> (r: Vec<u8>)
    requires
        params.wf(),
        concat_all(fields@).len() <= MAX_LENGTH,
    ensures
        r@ == record_tlv(*params, concat_all(fields@)),
{
    let mut body: Vec<u8> = Vec::new();
    let mut i: usize = 0;
    while i < fields.len()
        invariant
            i <= fields@.len(),
            body@ == concat_all(fields@.take(i as int)),
            concat_all(fields@).len() <= MAX_LENGTH,
        decreases fields@.len() - i,
    {
        assert(fields@.take(i + 1 as int).drop_last() =~= fields@.take(i as int));
        let mut f = fields[i].clone();
        body.append(&mut f);
        i += 1;
    }
    assert(fields@.take(i as int) =~= fields@);
    let tag_and_length = match params.tag {
        Some(t) => TagAndLength {
            class: common::CLASS_CONTEXT_SPECIFIC,
            tag: t,
            length: body.len(),
            is_compound: true,
        },
        None => TagAndLength {
            class: common::CLASS_UNIVERSAL,
            tag: common::TAG_SEQUENCE,
            length: body.len(),
            is_compound: true,
        },
    };
    let mut v = tag_and_length.encode();
    v.append(&mut body);
    v
}

/// Whether `h` opens a record read under `params`. SET is taken for
/// SEQUENCE.
pub open spec fn is_record_header(h: TagAndLength, params: FieldParameters) -> bool {
    &&& h.is_compound
    &&& match params.tag {
        Some(t) => h.class == common::CLASS_CONTEXT_SPECIFIC && h.tag == t,
        None => h.class == common::CLASS_UNIVERSAL && (h.tag == common::TAG_SEQUENCE || h.tag
            == common::TAG_SET),
    }
}

/// The field octets of a record at the head of `s`, and the count of octets
/// the record took.
pub open spec fn parse_record(s: Seq<u8>, params: FieldParameters) -> Result<(Seq<u8>, nat), ErrorKind> {
    match parse_tlv(s) {
        Err(e) => Err(e),
        Ok((h, v, c)) => if is_record_header(h, params) {
            Ok((v, c))
        } else {
            Err(ErrorKind::StructuralError)
        },
    }
}

/// Reads the outer TLV of a record: the octets of its fields, to be read in
/// declared order, and the octets after the record.
pub fn unmarshal_record<'a>(bytes: &'a [u8], params: &FieldParameters) -> (r: Result<
    (&'a [u8], &'a [u8]),
    Error,
>)
    ensures
        match parse_record(bytes@, *params) {
            Ok((v, c)) => r is Ok && r->Ok_0.0@ == v && c <= bytes@.len() && r->Ok_0.1@
                == bytes@.skip(c as int),
            Err(k) => r is Err && r->Err_0.spec_kind() == k,
        },
{
    let (h, v, rest) = match read_tlv(bytes) {
        Ok(p) => p,
        Err(e) => return Err(e),
    };
    let ok = h.is_compound && match params.tag {
        Some(t) => h.class == common::CLASS_CONTEXT_SPECIFIC && h.tag == t,
        None => h.class == common::CLASS_UNIVERSAL && (h.tag == common::TAG_SEQUENCE || h.tag
            == common::TAG_SET),
    };
    if !ok {
        return Err(Error::StructuralError("tags don't match".to_owned()));
    }
    Ok((v, rest))
}

/// Checks that the fields of a record used all of its octets.
pub fn expect_end(rest: &[u8]) -> (r: Result<(), Error>)
    ensures
        r is Ok <==> rest@.len() == 0,
        r is Err ==> r->Err_0.spec_kind() == ErrorKind::SyntaxError,
{
    if rest.len() != 0 {
        return Err(Error::SyntaxError("trailing data in record".to_owned()));
    }
    Ok(())
}

/// An alternative of a union: its payload TLV inside a compound
/// context-specific TLV with the alternative's tag.
pub open spec fn choice_tlv(tag: i32, payload: Seq<u8>) -> Seq<u8> {
    header_octets(
        TagAndLength {
            class: common::CLASS_CONTEXT_SPECIFIC,
            tag,
            length: payload.len() as usize,
            is_compound: true,
        },
    ) + payload
}

/// Writes the alternative with tag `tag` whose payload has already been
/// written with no tag override.
pub fn marshal_choice(tag: i32, payload: &Vec<u8>) -> (r: Vec<u8>)
    requires
        0 <= tag,
        payload@.len() <= MAX_LENGTH,
    ensures
        r@ == choice_tlv(tag, payload@),
{
    let rv = RawValue {
        class: common::CLASS_CONTEXT_SPECIFIC,
        tag,
        is_compound: true,
        bytes: payload.clone(),
        full_bytes: Vec::new(),
    };
    rv.marshal()
}

/// Reads an alternative of a union whose alternatives carry `tags`, in
/// declared order: the index of the first alternative with the tag read,
/// the TLV read, whose value is that alternative's payload, and the octets
/// after it. A tag that no alternative carries is a structural error.
pub fn unmarshal_choice<'a>(bytes: &'a [u8], params: &FieldParameters, tags: &[i32]) -> (r:
    Result<(usize, RawValue, &'a [u8]), Error>)
    requires
        params.wf(),
    ensures
        match RawValue::spec_unmarshal(bytes@, *params) {
            Err(k) => r is Err && r->Err_0.spec_kind() == k,
            Ok((rv, c)) => if exists|i: int| 0 <= i < tags@.len() && tags@[i] == rv.tag {
                &&& r is Ok
                &&& r->Ok_0.0 < tags@.len()
                &&& tags@[r->Ok_0.0 as int] == rv.tag
                &&& forall|j: int| 0 <= j < r->Ok_0.0 ==> tags@[j] != rv.tag
                &&& r->Ok_0.1@ == rv
                &&& c <= bytes@.len()
                &&& r->Ok_0.2@ == bytes@.skip(c as int)
            } else {
                r is Err && r->Err_0.spec_kind() == ErrorKind::StructuralError
            },
        },
{
    let (rv, rest) = match RawValue::unmarshal_with_params(bytes, params) {
        Ok(p) => p,
        Err(e) => return Err(e),
    };
    let ghost spec_r = RawValue::spec_unmarshal(bytes@, *params);
    let mut i: usize = 0;
    while i < tags.len()
        invariant
            i <= tags@.len(),
            forall|j: int| 0 <= j < i ==> tags@[j] != rv.tag,
            spec_r is Ok,
            spec_r->Ok_0.0 == rv@,
            spec_r->Ok_0.1 <= bytes@.len(),
            rest@ == bytes@.skip(spec_r->Ok_0.1 as int),
            spec_r == RawValue::spec_unmarshal(bytes@, *params),
        decreases tags@.len() - i,
    {
        if tags[i] == rv.tag {
            assert(tags@[i as int] == rv@.tag);
            return Ok((i, rv, rest));
        }
        i += 1;
    }
    Err(Error::StructuralError("no alternative has this tag".to_owned()))
}

} // verus!
