use vstd::prelude::*;
use crate::common::{self, FieldParameters, TagAndLength, MAX_LENGTH};
use crate::wire::{
    ErrorKind, digits_value, parse_base128, parse_base128_from, be_value, parse_length,
    parse_tag_number, parse_header, twos_value, parse_expected, parse_int_value,
    parse_tlv,
};

verus! {

/// A decoding failure, with a description.
#[derive(Debug)]
pub enum Error {
    /// A layout limit is exceeded.
    StructuralError(String),
    /// The input is not minimal, well-formed DER.
    SyntaxError(String),
}

impl Error {
    pub open spec fn spec_kind(&self) -> ErrorKind {
        match self {
            Error::StructuralError(_) => ErrorKind::StructuralError,
            Error::SyntaxError(_) => ErrorKind::SyntaxError,
        }
    }

    pub fn kind(&self) -> (r: ErrorKind)
        ensures
            r == self.spec_kind(),
    {
        match self {
            Error::StructuralError(_) => ErrorKind::StructuralError,
            Error::SyntaxError(_) => ErrorKind::SyntaxError,
        }
    }

    /// The description the error carries.
    pub fn message(&self) -> (r: &String) {
        match self {
            Error::StructuralError(m) => m,
            Error::SyntaxError(m) => m,
        }
    }
}

fn syntax_error(msg: &str) -> (r: Error)
    ensures
        r.spec_kind() == ErrorKind::SyntaxError,
{
    Error::SyntaxError(msg.to_owned())
}

fn structural_error(msg: &str) -> (r: Error)
    ensures
        r.spec_kind() == ErrorKind::StructuralError,
{
    Error::StructuralError(msg.to_owned())
}

/// `r` is the exec form of the spec result `s`, read from `bytes` at `offset`.
pub open spec fn read_matches(
    r: Result<(usize, usize), Error>,
    s: Result<(nat, nat), ErrorKind>,
    offset: int,
) -> bool {
    match s {
        Ok((v, c)) => r is Ok && r->Ok_0 == (v as usize, (offset + c) as usize),
        Err(k) => r is Err && r->Err_0.spec_kind() == k,
    }
}

/// Reads a base-128 number from `bytes` at `init_offset`: its value and the
/// offset just past it.
fn parse_base128_int(bytes: &[u8], init_offset: usize) -> (r: Result<(i32, usize), Error>)
    requires
        init_offset <= bytes@.len(),
    ensures
        match parse_base128(bytes@.skip(init_offset as int)) {
            Ok((v, c)) => r is Ok && r->Ok_0 == (v as i32, (init_offset + c) as usize) && v
                <= 0x7fff_ffff && init_offset + c <= bytes@.len(),
            Err(k) => r is Err && r->Err_0.spec_kind() == k,
        },
{
    let ghost s = bytes@.skip(init_offset as int);
    let mut offset = init_offset;
    let mut ret64: i64 = 0;
    let mut shifted: usize = 0;
    while offset < bytes.len()
        invariant
            s == bytes@.skip(init_offset as int),
            offset == init_offset + shifted,
            offset <= bytes@.len(),
            shifted <= 5,
            ret64 == digits_value(s.take(shifted as int)),
            parse_base128(s) == parse_base128_from(s, shifted as nat),
            shifted == 0 ==> ret64 == 0,
            shifted == 1 ==> ret64 < 0x80,
            shifted == 2 ==> ret64 < 0x4000,
            shifted == 3 ==> ret64 < 0x20_0000,
            shifted == 4 ==> ret64 < 0x1000_0000,
            shifted == 5 ==> ret64 < 0x8_0000_0000,
        decreases bytes@.len() - offset,
    {
        if shifted == 5 {
            return Err(structural_error("base 128 integer too large"));
        }
        let b = bytes[offset];
        if shifted == 0 && b == 0x80 {
            return Err(syntax_error("integer is not minimally encoded"));
        }
        proof {
            assert(s.take(shifted + 1 as int).drop_last() =~= s.take(shifted as int));
        }
        ret64 = ret64 * 128 + (b % 128) as i64;
        offset += 1;
        if b < 128 {
            if ret64 > 0x7fff_ffff {
                return Err(syntax_error("base 128 integer too large"));
            }
            return Ok((ret64 as i32, offset));
        }
        shifted += 1;
    }
    Err(syntax_error("truncated base 128 integer"))
}

/// Reads length octets from `bytes` at `offset`: the length and the offset
/// just past them.
fn parse_length_octets(bytes: &[u8], offset: usize) -> (r: Result<(usize, usize), Error>)
    requires
        offset <= bytes@.len(),
    ensures
        read_matches(r, parse_length(bytes@.skip(offset as int)), offset as int),
        r is Ok ==> r->Ok_0.0 <= MAX_LENGTH,
{
    let ghost s = bytes@.skip(offset as int);
    if offset >= bytes.len() {
        return Err(syntax_error("truncated tag or length"));
    }
    let b = bytes[offset];
    if b < 128 {
        return Ok((b as usize, offset + 1));
    }
    let num_bytes = (b - 128) as usize;
    if num_bytes == 0 {
        return Err(syntax_error("indefinite length found (not DER)"));
    }
    if num_bytes > 4 {
        return Err(structural_error("length too large"));
    }
    if bytes.len() - offset - 1 < num_bytes {
        return Err(syntax_error("truncated tag or length"));
    }
    if bytes[offset + 1] == 0 {
        return Err(syntax_error("superfluous leading zeros in length"));
    }
    let n = bytes.len();
    let start = offset + 1;
    let mut length: u64 = 0;
    let mut i: usize = 0;
    while i < num_bytes
        invariant
            n == bytes@.len(),
            start == offset + 1,
            s == bytes@.skip(offset as int),
            1 <= num_bytes <= 4,
            offset + 1 + num_bytes <= bytes@.len(),
            i <= num_bytes,
            length == be_value(s.subrange(1, 1 + i)),
            length < 0x1_0000_0000,
            i == 0 ==> length == 0,
            i == 1 ==> length < 0x100,
            i == 2 ==> length < 0x1_0000,
            i == 3 ==> length < 0x100_0000,
        decreases num_bytes - i,
    {
        proof {
            assert(s.subrange(1, 1 + i + 1).drop_last() =~= s.subrange(1, 1 + i));
        }
        length = length * 256 + bytes[start + i] as u64;
        i += 1;
    }
    if length < 0x80 {
        return Err(syntax_error("non-minimal length"));
    }
    Ok((length as usize, offset + 1 + num_bytes))
}

/// Reads the header of one TLV from the head of `bytes`: its class, tag,
/// form and length, and the octets after it. A high tag number must be
/// minimal and at most 31 bits; the length must use the definite, minimal
/// form in at most four octets.
pub fn parse_tag_and_length(bytes: &[u8]) -> (r: Result<(TagAndLength, &[u8]), Error>)
    ensures
        match parse_header(bytes@) {
            Ok((t, c)) => r is Ok && r->Ok_0.0 == t && c <= bytes@.len() && r->Ok_0.1@
                == bytes@.skip(c as int),
            Err(k) => r is Err && r->Err_0.spec_kind() == k,
        },
{
    if bytes.len() == 0 {
        return Err(syntax_error("truncated tag or length"));
    }
    let b = bytes[0];
    let class = (b / 64) as i32;
    let is_compound = b % 64 >= 32;
    let mut tag = (b % 32) as i32;
    let mut offset: usize = 1;
    assert(bytes@[0] == b);
    if tag == 0x1f {
        assert(bytes@.skip(1) =~= bytes@.drop_first());
        match parse_base128_int(bytes, 1) {
            Err(e) => return Err(e),
            Ok((t, o)) => {
                if t < 0x1f {
                    return Err(syntax_error("non-minimal tag"));
                }
                tag = t;
                offset = o;
            },
        }
    }
    assert(parse_tag_number(bytes@) is Ok);
    assert(parse_tag_number(bytes@)->Ok_0 == (tag as nat, offset as nat));
    match parse_length_octets(bytes, offset) {
        Err(e) => Err(e),
        Ok((length, o)) => {
            let t = TagAndLength { class, tag, length, is_compound };
            Ok((t, vstd::slice::slice_subrange(bytes, o, bytes.len())))
        },
    }
}

} // verus!

verus! {

/// Reads big-endian two's complement octets as a signed 32-bit integer.
pub fn parse_int32(bytes: &[u8]) -> (r: i32)
    requires
        1 <= bytes@.len() <= 4,
    ensures
        r == twos_value(bytes@),
{
    let b0 = bytes[0];
    let mut ret: i64 = if b0 >= 128 { b0 as i64 - 256 } else { b0 as i64 };
    assert(bytes@.take(1) =~= seq![b0]);
    let mut i: usize = 1;
    while i < bytes.len()
        invariant
            1 <= i <= bytes@.len() <= 4,
            ret == twos_value(bytes@.take(i as int)),
            i == 1 ==> -0x80 <= ret < 0x80,
            i == 2 ==> -0x8000 <= ret < 0x8000,
            i == 3 ==> -0x80_0000 <= ret < 0x80_0000,
            i == 4 ==> -0x8000_0000 <= ret < 0x8000_0000,
        decreases bytes@.len() - i,
    {
        assert(bytes@.take(i + 1 as int).drop_last() =~= bytes@.take(i as int));
        ret = ret * 256 + bytes[i] as i64;
        i += 1;
    }
    assert(bytes@.take(i as int) =~= bytes@);
    ret as i32
}

/// Reads one TLV from the head of `bytes`: its header, its value octets
/// and the octets after it.
pub fn read_tlv(bytes: &[u8]) -> (r: Result<(TagAndLength, &[u8], &[u8]), Error>)
    ensures
        match parse_tlv(bytes@) {
            Ok((h, v, c)) => r is Ok && r->Ok_0.0 == h && r->Ok_0.1@ == v && c <= bytes@.len()
                && r->Ok_0.2@ == bytes@.skip(c as int),
            Err(k) => r is Err && r->Err_0.spec_kind() == k,
        },
{
    let (h, rest) = match parse_tag_and_length(bytes) {
        Ok(p) => p,
        Err(e) => return Err(e),
    };
    if rest.len() < h.length {
        return Err(syntax_error("data truncated"));
    }
    let ghost c = bytes@.len() - rest@.len();
    assert(rest@.subrange(0, h.length as int) =~= bytes@.subrange(c, c + h.length));
    assert(rest@.skip(h.length as int) =~= bytes@.skip(c + h.length));
    Ok((
        h,
        vstd::slice::slice_subrange(rest, 0, h.length),
        vstd::slice::slice_subrange(rest, h.length, rest.len()),
    ))
}

/// Reads one TLV from the head of `bytes` whose header has the given class,
/// tag and form: its value octets and the octets after it.
pub fn expect_tlv(bytes: &[u8], class: i32, tag: i32, compound: bool) -> (r: Result<
    (&[u8], &[u8]),
    Error,
>)
    ensures
        match parse_expected(bytes@, class, tag, compound) {
            Ok((v, c)) => r is Ok && r->Ok_0.0@ == v && c <= bytes@.len() && r->Ok_0.1@
                == bytes@.skip(c as int),
            Err(k) => r is Err && r->Err_0.spec_kind() == k,
        },
{
    let (h, v, rest) = match read_tlv(bytes) {
        Ok(p) => p,
        Err(e) => return Err(e),
    };
    if h.class != class || h.tag != tag || h.is_compound != compound {
        return Err(structural_error("tags don't match"));
    }
    Ok((v, rest))
}

/// The value octets of a TLV at the head of `s` read under the field
/// parameters, as `tagged_tlv` writes it, and the count of octets taken.
/// Under an EXPLICIT tag the inner TLV must fill the outer value.
pub open spec fn parse_tagged(s: Seq<u8>, p: FieldParameters, tag: i32, compound: bool) -> Result<
    (Seq<u8>, nat),
    ErrorKind,
> {
    match p.tag {
        None => parse_expected(s, common::CLASS_UNIVERSAL, tag, compound),
        Some(t) => if p.explicit {
            match parse_expected(s, p.override_class(), t, true) {
                Err(e) => Err(e),
                Ok((inner, c)) => match parse_expected(inner, common::CLASS_UNIVERSAL, tag, compound) {
                    Err(e) => Err(e),
                    Ok((v, c2)) => if c2 != inner.len() {
                        Err(ErrorKind::SyntaxError)
                    } else {
                        Ok((v, c))
                    },
                },
            }
        } else {
            parse_expected(s, p.override_class(), t, compound)
        },
    }
}

/// Reads the value octets of a TLV whose natural tag is `tag`, under
/// `params`, and the octets after the TLV.
pub fn unmarshal_tagged<'a>(bytes: &'a [u8], params: &FieldParameters, tag: i32, compound: bool) -> (r:
    Result<(&'a [u8], &'a [u8]), Error>)
    ensures
        match parse_tagged(bytes@, *params, tag, compound) {
            Ok((v, c)) => r is Ok && r->Ok_0.0@ == v && c <= bytes@.len() && r->Ok_0.1@
                == bytes@.skip(c as int),
            Err(k) => r is Err && r->Err_0.spec_kind() == k,
        },
{
    match params.tag {
        None => expect_tlv(bytes, common::CLASS_UNIVERSAL, tag, compound),
        Some(t) => {
            let class = params.class_for_override();
            if params.explicit {
                let (inner, rest) = match expect_tlv(bytes, class, t, true) {
                    Ok(p) => p,
                    Err(e) => return Err(e),
                };
                let (v, tail) = match expect_tlv(inner, common::CLASS_UNIVERSAL, tag, compound) {
                    Ok(p) => p,
                    Err(e) => return Err(e),
                };
                if tail.len() != 0 {
                    return Err(syntax_error("trailing data inside explicit tag"));
                }
                Ok((v, rest))
            } else {
                expect_tlv(bytes, class, t, compound)
            }
        },
    }
}

/// `r` is the exec form of the decoding `s` of `bytes`: the same value and
/// the octets after what was read, or an error of the same kind.
pub open spec fn decoded<T: View>(
    r: Result<(T, &[u8]), Error>,
    bytes: Seq<u8>,
    s: Result<(T::V, nat), ErrorKind>,
) -> bool {
    match s {
        Ok((v, c)) => r is Ok && r->Ok_0.0@ == v && c <= bytes.len() && r->Ok_0.1@ == bytes.skip(
            c as int,
        ),
        Err(k) => r is Err && r->Err_0.spec_kind() == k,
    }
}

/// A type that reads itself from the head of an octet sequence.
pub trait Unmarshaler<T: View> {
    /// What reading from `bytes` under `params` yields: the value and the
    /// count of octets taken, or the kind of error.
    spec fn spec_unmarshal(bytes: Seq<u8>, params: FieldParameters) -> Result<(T::V, nat), ErrorKind>;

    fn unmarshal(bytes: &[u8]) -> (r: Result<(T, &[u8]), Error>)
        ensures
            decoded(r, bytes@, Self::spec_unmarshal(bytes@, common::default_params())),
    {
        Self::unmarshal_with_params(bytes, &FieldParameters::default())
    }

    fn unmarshal_with_params<'a>(bytes: &'a [u8], params: &FieldParameters) -> (r: Result<
        (T, &'a [u8]),
        Error,
    >)
        requires
            params.wf(),
        ensures
            decoded(r, bytes@, Self::spec_unmarshal(bytes@, *params)),
    ;
}

/// Reads a `T` from the head of `bytes` with no tag override.
pub fn unmarshal<T: View + Unmarshaler<T>>(bytes: &[u8]) -> (r: Result<(T, &[u8]), Error>)
    ensures
        decoded(r, bytes@, T::spec_unmarshal(bytes@, common::default_params())),
{
    T::unmarshal(bytes)
}

/// Reads a `T` from the head of `bytes` under `params`.
pub fn unmarshal_with_params<'a, T: View + Unmarshaler<T>>(
    bytes: &'a [u8],
    params: &FieldParameters,
) -> (r: Result<(T, &'a [u8]), Error>)
    requires
        params.wf(),
    ensures
        decoded(r, bytes@, T::spec_unmarshal(bytes@, *params)),
{
    T::unmarshal_with_params(bytes, params)
}

impl Unmarshaler<i32> for i32 {
    open spec fn spec_unmarshal(bytes: Seq<u8>, params: FieldParameters) -> Result<(i32, nat), ErrorKind> {
        match parse_tagged(bytes, params, common::TAG_INTEGER, false) {
            Err(e) => Err(e),
            Ok((v, c)) => match parse_int_value(v) {
                Err(e) => Err(e),
                Ok(x) => Ok((x as i32, c)),
            },
        }
    }

    fn unmarshal_with_params<'a>(bytes: &'a [u8], params: &FieldParameters) -> (r: Result<
        (i32, &'a [u8]),
        Error,
    >) {
        let (v, rest) = match unmarshal_tagged(bytes, params, common::TAG_INTEGER, false) {
            Ok(p) => p,
            Err(e) => return Err(e),
        };
        if v.len() == 0 {
            return Err(syntax_error("empty integer"));
        }
        if v.len() > 4 {
            return Err(structural_error("integer too large"));
        }
        if v.len() > 1 && ((v[0] == 0 && v[1] < 128) || (v[0] == 255 && v[1] >= 128)) {
            return Err(syntax_error("integer not minimally-encoded"));
        }
        Ok((parse_int32(v), rest))
    }
}

impl Unmarshaler<Vec<u8>> for Vec<u8> {
    open spec fn spec_unmarshal(bytes: Seq<u8>, params: FieldParameters) -> Result<(Seq<u8>, nat), ErrorKind> {
        parse_tagged(bytes, params, common::TAG_OCTET_STRING, false)
    }

    fn unmarshal_with_params<'a>(bytes: &'a [u8], params: &FieldParameters) -> (r: Result<
        (Vec<u8>, &'a [u8]),
        Error,
    >) {
        match unmarshal_tagged(bytes, params, common::TAG_OCTET_STRING, false) {
            Ok((v, rest)) => Ok((vstd::slice::slice_to_vec(v), rest)),
            Err(e) => Err(e),
        }
    }
}

} // verus!
