use vstd::prelude::*;
use crate::common::{self, FieldParameters, TagAndLength, MAX_LENGTH, default_params};
use crate::wire::{
    base128_octets, base128_high, be_octets, header_octets,
    int_octets, lemma_base128_len_bound, lemma_base128_len_step, lemma_be_octets_len_bound,
    lemma_int_octets_len,
};

verus! {

/// A value that can write itself as octets.
pub trait Encoder {
    /// Whether the value can be written.
    spec fn encodable(&self) -> bool;

    /// The octets the value writes.
    spec fn spec_encode(&self) -> Seq<u8>;

    fn len(&self) -> (r: usize)
        requires
            self.encodable(),
        ensures
            r == self.spec_encode().len(),
    {
        self.encode().len()
    }

    fn encode(&self) -> (r: Vec<u8>)
        requires
            self.encodable(),
        ensures
            r@ == self.spec_encode(),
    ;
}

/// A header followed by a body.
pub struct TaggedEncoder<E1: Encoder, E2: Encoder> {
    pub tag: E1,
    pub body: E2,
}

impl<E1: Encoder, E2: Encoder> Encoder for TaggedEncoder<E1, E2> {
    open spec fn encodable(&self) -> bool {
        self.tag.encodable() && self.body.encodable()
    }

    open spec fn spec_encode(&self) -> Seq<u8> {
        self.tag.spec_encode() + self.body.spec_encode()
    }

    fn encode(&self) -> (r: Vec<u8>) {
        let mut v = self.tag.encode();
        let mut b = self.body.encode();
        v.append(&mut b);
        v
    }
}

fn encode_base128_high(m: i64) -> (r: Vec<u8>)
    requires
        0 <= m,
    ensures
        r@ == base128_high(m as nat),
    decreases m,
{
    if m == 0 {
        Vec::new()
    } else {
        let mut v = encode_base128_high(m / 128);
        v.push((m % 128 + 128) as u8);
        v
    }
}

/// The number of base-128 octets that `n` takes.
fn base128_int_length(n: i64) -> (r: i32)
    requires
        0 <= n <= 0x7fff_ffff,
    ensures
        r == base128_octets(n as nat).len(),
{
    proof {
        lemma_base128_len_bound(n as nat);
        lemma_base128_len_step(n as nat);
    }
    if n == 0 {
        return 1;
    }
    let mut l: i32 = 0;
    let mut m: i64 = n;
    while m > 0
        invariant
            0 <= m <= n,
            m > 0 ==> l + base128_octets(m as nat).len() == base128_octets(n as nat).len(),
            m == 0 ==> l == base128_octets(n as nat).len(),
            base128_octets(n as nat).len() <= 5,
        decreases m,
    {
        proof {
            lemma_base128_len_step(m as nat);
        }
        l += 1;
        m = m / 128;
    }
    l
}

/// `n` in base 128 with continuation bits, as a high tag number is written.
fn encode_int_using_base128(n: i64) -> (r: Vec<u8>)
    requires
        0 <= n,
    ensures
        r@ == base128_octets(n as nat),
{
    let mut v = encode_base128_high(n / 128);
    v.push((n % 128) as u8);
    v
}

/// The number of big-endian octets that the length `i` takes.
fn length_length(i: usize) -> (r: usize)
    requires
        i <= MAX_LENGTH,
    ensures
        r == be_octets(i as nat).len(),
{
    proof {
        lemma_be_octets_len_bound(i as nat);
    }
    let mut num_bytes: usize = 1;
    let mut m: usize = i;
    while m > 255
        invariant
            m <= i,
            num_bytes + be_octets(m as nat).len() == be_octets(i as nat).len() + 1,
            be_octets(i as nat).len() <= 4,
        decreases m,
    {
        num_bytes += 1;
        m = m / 256;
    }
    num_bytes
}

/// The length `i` as big-endian octets without leading zeros.
fn encode_length(i: usize) -> (r: Vec<u8>)
    ensures
        r@ == be_octets(i as nat),
    decreases i,
{
    if i < 256 {
        vec![i as u8]
    } else {
        let mut v = encode_length(i / 256);
        v.push((i % 256) as u8);
        v
    }
}

impl Encoder for TagAndLength {
    open spec fn encodable(&self) -> bool {
        self.wf()
    }

    open spec fn spec_encode(&self) -> Seq<u8> {
        header_octets(*self)
    }

    fn len(&self) -> (r: usize) {
        proof {
            lemma_base128_len_bound(self.tag as nat);
            lemma_be_octets_len_bound(self.length as nat);
        }
        let tag_len: usize = if self.tag >= 31 {
            base128_int_length(self.tag as i64) as usize
        } else {
            0
        };
        let length_len: usize = if self.length >= 128 {
            1 + length_length(self.length)
        } else {
            1
        };
        1 + tag_len + length_len
    }

    fn encode(&self) -> (r: Vec<u8>) {
        proof {
            lemma_be_octets_len_bound(self.length as nat);
        }
        let compound: u8 = if self.is_compound { 0x20 } else { 0 };
        let low: u8 = if self.tag >= 31 { 0x1f } else { self.tag as u8 };
        let b: u8 = (self.class as u8) * 64 + compound + low;
        let mut v = vec![b];
        if self.tag >= 31 {
            let mut t = encode_int_using_base128(self.tag as i64);
            v.append(&mut t);
        }
        if self.length >= 128 {
            let l = length_length(self.length);
            v.push(0x80 + l as u8);
            let mut o = encode_length(self.length);
            v.append(&mut o);
        } else {
            v.push(self.length as u8);
        }
        assert(v@ == header_octets(*self));
        v
    }
}

} // verus!

verus! {

/// `v` divided by 256, rounded toward negative infinity, with the remainder.
fn floor_div_256(v: i64) -> (r: (i64, u8))
    ensures
        r.0 == v as int / 256,
        r.1 == v as int % 256,
{
    let q = v / 256;
    let m = v % 256;
    if m < 0 {
        (q - 1, (m + 256) as u8)
    } else {
        (q, m as u8)
    }
}

fn encode_int_octets(v: i64) -> (r: Vec<u8>)
    requires
        -0x8000_0000 <= v <= 0x7fff_ffff,
    ensures
        r@ == int_octets(v as int),
    decreases crate::wire::abs(v as int),
{
    let (q, m) = floor_div_256(v);
    if -128 <= v && v < 128 {
        vec![m]
    } else {
        let mut o = encode_int_octets(q);
        o.push(m);
        o
    }
}

impl Encoder for i32 {
    open spec fn encodable(&self) -> bool {
        true
    }

    open spec fn spec_encode(&self) -> Seq<u8> {
        int_octets(*self as int)
    }

    fn len(&self) -> (r: usize) {
        proof {
            lemma_int_octets_len(*self as int);
        }
        let mut i: i64 = *self as i64;
        let mut n: usize = 1;
        while i > 127 || i < -128
            invariant
                -0x8000_0000 <= i <= 0x7fff_ffff,
                n + int_octets(i as int).len() == int_octets(*self as int).len() + 1,
                int_octets(*self as int).len() <= 4,
            decreases crate::wire::abs(i as int),
        {
            n += 1;
            let (q, _) = floor_div_256(i);
            i = q;
        }
        n
    }

    fn encode(&self) -> (r: Vec<u8>) {
        let r = encode_int_octets(*self as i64);
        assert(r@ == int_octets(*self as int));
        assert(r@ == self.spec_encode());
        r
    }
}

impl Encoder for Vec<u8> {
    open spec fn encodable(&self) -> bool {
        true
    }

    open spec fn spec_encode(&self) -> Seq<u8> {
        self@
    }

    fn len(&self) -> (r: usize) {
        self.len()
    }

    fn encode(&self) -> (r: Vec<u8>) {
        self.clone()
    }
}

} // verus!

verus! {

/// The header that a type's natural UNIVERSAL encoding opens with.
pub open spec fn natural_header(tag: i32, compound: bool, len: nat) -> TagAndLength {
    TagAndLength { class: common::CLASS_UNIVERSAL, tag, length: len as usize, is_compound: compound }
}

/// A value under the field parameters: the natural TLV when no tag is given;
/// with an IMPLICIT tag the natural header replaced; with an EXPLICIT tag the
/// natural TLV wrapped in an outer compound TLV.
pub open spec fn tagged_tlv(p: FieldParameters, tag: i32, compound: bool, value: Seq<u8>) -> Seq<u8> {
    let natural = header_octets(natural_header(tag, compound, value.len())) + value;
    match p.tag {
        None => natural,
        Some(t) => if p.explicit {
            header_octets(
                TagAndLength {
                    class: p.override_class(),
                    tag: t,
                    length: natural.len() as usize,
                    is_compound: true,
                },
            ) + natural
        } else {
            header_octets(
                TagAndLength {
                    class: p.override_class(),
                    tag: t,
                    length: value.len() as usize,
                    is_compound: compound,
                },
            ) + value
        },
    }
}

/// The value, and under an EXPLICIT tag also its natural TLV, fit a length.
pub open spec fn tagged_fits(p: FieldParameters, tag: i32, compound: bool, value_len: nat) -> bool {
    &&& value_len <= MAX_LENGTH
    &&& (p.explicit ==> header_octets(natural_header(tag, compound, value_len)).len() + value_len
        <= MAX_LENGTH)
}

/// Writes `value` as a TLV whose natural tag is `tag`, under `params`.
pub fn marshal_tagged(params: &FieldParameters, tag: i32, compound: bool, value: Vec<u8>) -> (r: Vec<
    u8,
>)
    requires
        params.wf(),
        0 <= tag,
        tagged_fits(*params, tag, compound, value@.len()),
    ensures
        r@ == tagged_tlv(*params, tag, compound, value@),
{
    let mut class = common::CLASS_UNIVERSAL;
    let mut outer_tag = tag;
    if let Some(t) = params.tag {
        class = params.class_for_override();
        if params.explicit {
            let inner = TaggedEncoder {
                tag: TagAndLength { class: common::CLASS_UNIVERSAL, tag, length: value.len(), is_compound: compound },
                body: value,
            };
            let mut outer = TaggedEncoder {
                tag: TagAndLength { class, tag: t, length: 0, is_compound: true },
                body: inner,
            };
            outer.tag.length = outer.body.len();
            return outer.encode();
        }
        outer_tag = t;
    }
    let te = TaggedEncoder {
        tag: TagAndLength { class, tag: outer_tag, length: value.len(), is_compound: compound },
        body: value,
    };
    te.encode()
}

/// A value that writes itself as one TLV under the given field parameters.
pub trait Marshaler {
    /// Whether the value can be written under `params`.
    spec fn can_marshal(&self, params: FieldParameters) -> bool;

    /// The TLV that the value writes under `params`.
    spec fn spec_marshal(&self, params: FieldParameters) -> Seq<u8>;

    fn marshal(&self) -> (r: Vec<u8>)
        requires
            self.can_marshal(default_params()),
        ensures
            r@ == self.spec_marshal(default_params()),
    {
        self.marshal_with_params(&FieldParameters::default())
    }

    fn marshal_with_params(&self, params: &FieldParameters) -> (r: Vec<u8>)
        requires
            self.can_marshal(*params),
        ensures
            r@ == self.spec_marshal(*params),
    ;
}

impl Marshaler for i32 {
    open spec fn can_marshal(&self, params: FieldParameters) -> bool {
        params.wf()
    }

    open spec fn spec_marshal(&self, params: FieldParameters) -> Seq<u8> {
        tagged_tlv(params, common::TAG_INTEGER, false, int_octets(*self as int))
    }

    fn marshal_with_params(&self, params: &FieldParameters) -> (r: Vec<u8>) {
        proof {
            lemma_int_octets_len(*self as int);
        }
        marshal_tagged(params, common::TAG_INTEGER, false, self.encode())
    }
}

impl Marshaler for Vec<u8> {
    open spec fn can_marshal(&self, params: FieldParameters) -> bool {
        params.wf() && tagged_fits(params, common::TAG_OCTET_STRING, false, self@.len())
    }

    open spec fn spec_marshal(&self, params: FieldParameters) -> Seq<u8> {
        tagged_tlv(params, common::TAG_OCTET_STRING, false, self@)
    }

    fn marshal_with_params(&self, params: &FieldParameters) -> (r: Vec<u8>) {
        marshal_tagged(params, common::TAG_OCTET_STRING, false, self.clone())
    }
}

/// Writes `m` with no tag override.
pub fn marshal<M: Marshaler>(m: &M) -> (r: Vec<u8>)
    requires
        m.can_marshal(default_params()),
    ensures
        r@ == m.spec_marshal(default_params()),
{
    m.marshal()
}

/// Writes `m` under `params`.
pub fn marshal_with_params<M: Marshaler>(m: &M, params: &FieldParameters) -> (r: Vec<u8>)
    requires
        m.can_marshal(*params),
    ensures
        r@ == m.spec_marshal(*params),
{
    m.marshal_with_params(params)
}

} // verus!
