//! What holds across the encoders and decoders: every value that can be
//! written is read back, headers are minimal, and non-DER headers are
//! refused.
use vstd::prelude::*;
use crate::common::{self, FieldParameters, TagAndLength, MAX_LENGTH};
use crate::constructed::{
    choice_tlv, parse_record, record_header, record_tlv,
};
use crate::marshal::{Marshaler, natural_header, tagged_fits, tagged_tlv};
use crate::types::{RawValue, RawValueView, raw_of};
use crate::unmarshal::{Unmarshaler, parse_tagged};
use crate::wire::{
    ErrorKind, base128_octets, header_octets, int_octets, length_octets,
    parse_expected, parse_header, parse_length, parse_tag_number, parse_tlv,
    lemma_header_round_trip, lemma_int_round_trip, lemma_int_octets_len, lemma_int_octets_minimal,
    lemma_base128_round_trip, lemma_be_octets_len_bound, lemma_header_strict,
    lemma_int_strict, parse_int_value,
};

verus! {

/// A TLV whose header can be written is read back as its header and value,
/// whatever follows it.
pub proof fn tlv_round_trip(h: TagAndLength, value: Seq<u8>, rest: Seq<u8>)
    requires
        h.wf(),
        h.length == value.len(),
    ensures
        parse_tlv(header_octets(h) + value + rest) == Ok::<(TagAndLength, Seq<u8>, nat), ErrorKind>(
            (h, value, (header_octets(h).len() + value.len()) as nat),
        ),
        parse_expected(header_octets(h) + value + rest, h.class, h.tag, h.is_compound) == Ok::<
            (Seq<u8>, nat),
            ErrorKind,
        >((value, (header_octets(h).len() + value.len()) as nat)),
{
    let s = header_octets(h) + value + rest;
    assert(s =~= header_octets(h) + (value + rest));
    lemma_header_round_trip(h, value + rest);
    let c = header_octets(h).len();
    assert(s.subrange(c as int, c + value.len() as int) =~= value);
}

/// A value written under field parameters, with its natural tag, is read
/// back under the same parameters, whatever follows it.
pub proof fn tagged_round_trip(
    p: FieldParameters,
    tag: i32,
    compound: bool,
    value: Seq<u8>,
    rest: Seq<u8>,
)
    requires
        p.wf(),
        0 <= tag,
        tagged_fits(p, tag, compound, value.len()),
    ensures
        parse_tagged(tagged_tlv(p, tag, compound, value) + rest, p, tag, compound) == Ok::<
            (Seq<u8>, nat),
            ErrorKind,
        >((value, tagged_tlv(p, tag, compound, value).len())),
{
    let nh = natural_header(tag, compound, value.len());
    let natural = header_octets(nh) + value;
    match p.tag {
        None => {
            tlv_round_trip(nh, value, rest);
        },
        Some(t) => {
            if p.explicit {
                let oh = TagAndLength {
                    class: p.override_class(),
                    tag: t,
                    length: natural.len() as usize,
                    is_compound: true,
                };
                tlv_round_trip(oh, natural, rest);
                tlv_round_trip(nh, value, seq![]);
                assert(natural + seq![] =~= natural);
            } else {
                let ih = TagAndLength {
                    class: p.override_class(),
                    tag: t,
                    length: value.len() as usize,
                    is_compound: compound,
                };
                tlv_round_trip(ih, value, rest);
            }
        },
    }
}

/// Every 32-bit integer, written under any usable field parameters, is read
/// back under them, and reading stops where its TLV ends.
pub proof fn integer_round_trip(v: i32, p: FieldParameters, rest: Seq<u8>)
    requires
        p.wf(),
    ensures
        <i32 as Unmarshaler<i32>>::spec_unmarshal(v.spec_marshal(p) + rest, p) == Ok::<
            (i32, nat),
            ErrorKind,
        >((v, v.spec_marshal(p).len())),
{
    lemma_int_octets_len(v as int);
    tagged_round_trip(p, common::TAG_INTEGER, false, int_octets(v as int), rest);
    lemma_int_round_trip(v as int);
}

/// Every octet string that can be written under field parameters is read
/// back under them, and reading stops where its TLV ends.
pub proof fn octet_string_round_trip(b: Vec<u8>, p: FieldParameters, rest: Seq<u8>)
    requires
        b.can_marshal(p),
    ensures
        <Vec<u8> as Unmarshaler<Vec<u8>>>::spec_unmarshal(b.spec_marshal(p) + rest, p) == Ok::<
            (Seq<u8>, nat),
            ErrorKind,
        >((b@, b.spec_marshal(p).len())),
{
    tagged_round_trip(p, common::TAG_OCTET_STRING, false, b@, rest);
}

/// A raw value without cached octets is read back from what it writes.
pub proof fn raw_value_round_trip(rv: RawValueView, p: FieldParameters, rest: Seq<u8>)
    requires
        rv.writable(),
        rv.full_bytes.len() == 0,
    ensures
        <RawValue as Unmarshaler<RawValue>>::spec_unmarshal(rv.encoding() + rest, p) == Ok::<
            (RawValueView, nat),
            ErrorKind,
        >((rv, rv.encoding().len())),
{
    tlv_round_trip(rv.header(), rv.bytes, rest);
    assert(rv.full_bytes =~= seq![]);
    assert(raw_of(rv.header(), rv.bytes) == rv);
}

/// The field octets of a record are read back from the record, under the
/// parameters it was written with.
pub proof fn record_round_trip(p: FieldParameters, body: Seq<u8>, rest: Seq<u8>)
    requires
        p.wf(),
        body.len() <= MAX_LENGTH,
    ensures
        parse_record(record_tlv(p, body) + rest, p) == Ok::<(Seq<u8>, nat), ErrorKind>(
            (body, record_tlv(p, body).len()),
        ),
{
    tlv_round_trip(record_header(p, body.len()), body, rest);
}

/// A union alternative is read back as a raw value with its tag and its
/// payload.
pub proof fn choice_round_trip(tag: i32, payload: Seq<u8>, p: FieldParameters, rest: Seq<u8>)
    requires
        0 <= tag,
        payload.len() <= MAX_LENGTH,
    ensures
        <RawValue as Unmarshaler<RawValue>>::spec_unmarshal(choice_tlv(tag, payload) + rest, p)
            == Ok::<(RawValueView, nat), ErrorKind>(
            (
                RawValueView {
                    class: common::CLASS_CONTEXT_SPECIFIC,
                    tag,
                    is_compound: true,
                    bytes: payload,
                    full_bytes: seq![],
                },
                choice_tlv(tag, payload).len(),
            ),
        ),
{
    let h = TagAndLength {
        class: common::CLASS_CONTEXT_SPECIFIC,
        tag,
        length: payload.len() as usize,
        is_compound: true,
    };
    tlv_round_trip(h, payload, rest);
}

/// A record read without a tag override is read the same whether its outer
/// tag is SEQUENCE or SET.
pub proof fn set_read_as_sequence(s: Seq<u8>, p: FieldParameters)
    requires
        p.tag is None,
        parse_tlv(s) is Ok,
        parse_tlv(s)->Ok_0.0.class == common::CLASS_UNIVERSAL,
        parse_tlv(s)->Ok_0.0.is_compound,
        parse_tlv(s)->Ok_0.0.tag == common::TAG_SET || parse_tlv(s)->Ok_0.0.tag
            == common::TAG_SEQUENCE,
    ensures
        parse_record(s, p) == Ok::<(Seq<u8>, nat), ErrorKind>(
            (parse_tlv(s)->Ok_0.1, parse_tlv(s)->Ok_0.2),
        ),
{
}

/// Headers are written minimally: the short length form exactly for
/// lengths below 128, and no high tag number that opens with 0x80.
pub proof fn header_minimal(t: TagAndLength)
    requires
        t.wf(),
    ensures
        (length_octets(t.length as nat)[0] < 128) == (t.length < 128),
        t.tag >= 31 ==> base128_octets(t.tag as nat)[0] != 0x80,
{
    lemma_be_octets_len_bound(t.length as nat);
    if t.tag >= 31 {
        lemma_base128_round_trip(t.tag as nat, seq![]);
        assert(base128_octets(t.tag as nat) + seq![] =~= base128_octets(t.tag as nat));
    }
}

/// INTEGER values are written in the fewest octets that keep the sign.
pub proof fn integer_minimal(v: i32)
    ensures
        1 <= int_octets(v as int).len() <= 4,
        int_octets(v as int).len() > 1 ==> !((int_octets(v as int)[0] == 0 && int_octets(
            v as int,
        )[1] < 128) || (int_octets(v as int)[0] == 255 && int_octets(v as int)[1] >= 128)),
{
    lemma_int_octets_len(v as int);
    lemma_int_octets_minimal(v as int);
}

/// Headers that are not DER are refused: the indefinite length form, long
/// lengths with leading zero octets or below 128, and high tag numbers that
/// open with 0x80 or are below 31.
pub proof fn non_der_refused(s: Seq<u8>)
    ensures
        s.len() > 0 && s[0] == 0x80 ==> parse_length(s) is Err,
        s.len() > 1 && s[0] > 0x80 && s[1] == 0 ==> parse_length(s) is Err,
        parse_length(s) matches Ok((n, c)) ==> (c > 1 <==> n >= 128),
        s.len() > 1 && s[0] % 32 == 31 && s[1] == 0x80 ==> parse_tag_number(s) is Err,
        s.len() > 0 ==> (parse_tag_number(s) matches Ok((t, c)) ==> (t >= 31 <==> s[0] % 32 == 31)),
{
}

} // verus!

verus! {

/// The header reader accepts exactly the DER headers: every octet sequence
/// that opens with the encoding of a header that can be written is read as
/// that header, and whatever it reads is such an opening.
pub proof fn header_acceptance(t: TagAndLength, s: Seq<u8>)
    ensures
        t.wf() && header_octets(t).len() <= s.len() && s.take(header_octets(t).len() as int)
            == header_octets(t) ==> parse_header(s) == Ok::<(TagAndLength, nat), ErrorKind>(
            (t, header_octets(t).len()),
        ),
        parse_header(s) matches Ok((u, c)) ==> u.wf() && c == header_octets(u).len() && s.take(
            c as int,
        ) == header_octets(u),
{
    if t.wf() && header_octets(t).len() <= s.len() && s.take(header_octets(t).len() as int)
        == header_octets(t) {
        let n = header_octets(t).len() as int;
        assert(s =~= header_octets(t) + s.skip(n));
        lemma_header_round_trip(t, s.skip(n));
    }
    if parse_header(s) is Ok {
        lemma_header_strict(s);
    }
}

} // verus!

verus! {

/// The INTEGER value reader accepts exactly the minimal two's complement
/// encodings of 32-bit integers.
pub proof fn integer_acceptance(v: Seq<u8>, x: int)
    ensures
        -0x8000_0000 <= x <= 0x7fff_ffff && v == int_octets(x) ==> parse_int_value(v) == Ok::<
            int,
            ErrorKind,
        >(x),
        parse_int_value(v) matches Ok(y) ==> int_octets(y) == v,
{
    if -0x8000_0000 <= x <= 0x7fff_ffff && v == int_octets(x) {
        lemma_int_round_trip(x);
    }
    if parse_int_value(v) is Ok {
        lemma_int_strict(v);
    }
}

} // verus!
