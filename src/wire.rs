//! The DER wire format as mathematics: what each encoder writes and what each
//! decoder reads, with the facts that tie the two together.
use vstd::prelude::*;
use crate::common::{TagAndLength, MAX_LENGTH};

verus! {

/// The two kinds of decoding failure.
#[derive(Debug, Clone, Copy, PartialEq, Eq, Structural)]
pub enum ErrorKind {
    /// A layout limit is exceeded.
    StructuralError,
    /// The input is not minimal, well-formed DER.
    SyntaxError,
}

/// The leading base-128 digits of a number, each with its continuation bit.
pub open spec fn base128_high(m: nat) -> Seq<u8>
    decreases m,
{
    if m == 0 {
        seq![]
    } else {
        base128_high(m / 128) + seq![(m % 128 + 128) as u8]
    }
}

/// A non-negative integer in base 128, most significant digit first, with
/// the high bit set on every octet but the last.
pub open spec fn base128_octets(n: nat) -> Seq<u8> {
    base128_high(n / 128) + seq![(n % 128) as u8]
}

/// A non-negative integer as big-endian octets without leading zero octets.
pub open spec fn be_octets(n: nat) -> Seq<u8>
    decreases n,
{
    if n < 256 {
        seq![n as u8]
    } else {
        be_octets(n / 256) + seq![(n % 256) as u8]
    }
}

/// The length octets: short form below 128, else the count of big-endian
/// octets with the high bit, then those octets.
pub open spec fn length_octets(n: nat) -> Seq<u8> {
    if n < 128 {
        seq![n as u8]
    } else {
        seq![(128 + be_octets(n).len()) as u8] + be_octets(n)
    }
}

/// The identifier octet of a header.
pub open spec fn first_octet(t: TagAndLength) -> u8 {
    (t.class * 64 + (if t.is_compound { 32int } else { 0 }) + (if t.tag < 31 {
        t.tag as int
    } else {
        31
    })) as u8
}

/// A header as octets: identifier, the high tag number if any, the length.
pub open spec fn header_octets(t: TagAndLength) -> Seq<u8> {
    seq![first_octet(t)] + (if t.tag >= 31 {
        base128_octets(t.tag as nat)
    } else {
        seq![]
    }) + length_octets(t.length as nat)
}

pub open spec fn abs(v: int) -> int {
    if v < 0 {
        -v
    } else {
        v
    }
}

/// A signed integer in two's complement, big-endian, in the fewest octets
/// that keep its sign.
pub open spec fn int_octets(v: int) -> Seq<u8>
    decreases abs(v),
{
    if -128 <= v < 128 {
        seq![(v % 256) as u8]
    } else {
        int_octets(v / 256) + seq![(v % 256) as u8]
    }
}

} // verus!

verus! {

pub open spec fn pow_of(b: nat, j: nat) -> nat
    decreases j,
{
    if j == 0 {
        1
    } else {
        b * pow_of(b, (j - 1) as nat)
    }
}

pub proof fn lemma_base128_high_len(m: nat, j: nat)
    requires
        m < pow_of(128, j),
    ensures
        base128_high(m).len() <= j,
    decreases j,
{
    if m > 0 {
        assert(j > 0);
        assert(pow_of(128, j) == 128 * pow_of(128, (j - 1) as nat));
        lemma_base128_high_len(m / 128, (j - 1) as nat);
    }
}

/// A tag number of at most 31 bits takes at most five base-128 octets.
pub proof fn lemma_base128_len_bound(n: nat)
    requires
        n <= 0x7fff_ffff,
    ensures
        1 <= base128_octets(n).len() <= 5,
{
    reveal_with_fuel(pow_of, 5);
    lemma_base128_high_len(n / 128, 4);
}

/// Each base-128 digit beyond the first adds one octet.
pub proof fn lemma_base128_len_step(n: nat)
    ensures
        n < 128 ==> base128_octets(n).len() == 1,
        n >= 128 ==> base128_octets(n).len() == base128_octets(n / 128).len() + 1,
{
    if n >= 128 {
        assert(base128_high(n / 128) == base128_high(n / 128 / 128) + seq![
            (n / 128 % 128 + 128) as u8,
        ]);
    }
}

pub proof fn lemma_be_octets_len(n: nat, j: nat)
    requires
        j >= 1,
        n < pow_of(256, j),
    ensures
        be_octets(n).len() <= j,
    decreases j,
{
    if n >= 256 {
        assert(pow_of(256, j) == 256 * pow_of(256, (j - 1) as nat));
        if j == 1 {
            assert(pow_of(256, 0) == 1);
        } else {
            lemma_be_octets_len(n / 256, (j - 1) as nat);
        }
    }
}

/// A length that fits in 32 bits takes at most four octets.
pub proof fn lemma_be_octets_len_bound(n: nat)
    requires
        n <= MAX_LENGTH,
    ensures
        1 <= be_octets(n).len() <= 4,
{
    reveal_with_fuel(pow_of, 5);
    lemma_be_octets_len(n, 4);
}

/// Two's complement octets of a 32-bit integer number one to four.
pub proof fn lemma_int_octets_len(v: int)
    requires
        -0x8000_0000 <= v <= 0x7fff_ffff,
    ensures
        1 <= int_octets(v).len() <= 4,
{
    reveal_with_fuel(int_octets, 5);
}

} // verus!

verus! {

/// The number that base-128 digits spell, continuation bits ignored.
pub open spec fn digits_value(s: Seq<u8>) -> nat
    decreases s.len(),
{
    if s.len() == 0 {
        0
    } else {
        digits_value(s.drop_last()) * 128 + (s.last() % 128) as nat
    }
}

/// Reads a base-128 number whose first `i` octets have been seen to carry
/// the continuation bit: the value and the count of octets it took.
pub open spec fn parse_base128_from(s: Seq<u8>, i: nat) -> Result<(nat, nat), ErrorKind>
    decreases 5 - i,
{
    if i >= s.len() {
        Err(ErrorKind::SyntaxError)
    } else if i >= 5 {
        Err(ErrorKind::StructuralError)
    } else if i == 0 && s[0] == 0x80 {
        Err(ErrorKind::SyntaxError)
    } else if s[i as int] < 128 {
        let v = digits_value(s.take(i + 1 as int));
        if v > 0x7fff_ffff {
            Err(ErrorKind::SyntaxError)
        } else {
            Ok((v, i + 1))
        }
    } else {
        parse_base128_from(s, i + 1)
    }
}

/// A base-128 number at the head of `s`: at most five octets, the first not
/// 0x80, the value within 31 bits.
pub open spec fn parse_base128(s: Seq<u8>) -> Result<(nat, nat), ErrorKind> {
    parse_base128_from(s, 0)
}

/// The number that big-endian octets spell.
pub open spec fn be_value(s: Seq<u8>) -> nat
    decreases s.len(),
{
    if s.len() == 0 {
        0
    } else {
        be_value(s.drop_last()) * 256 + s.last() as nat
    }
}

/// Length octets at the head of `s`: the length and the count of octets.
/// The indefinite form, more than four octets, leading zero octets and a
/// long form for a short length are refused.
pub open spec fn parse_length(s: Seq<u8>) -> Result<(nat, nat), ErrorKind> {
    if s.len() == 0 {
        Err(ErrorKind::SyntaxError)
    } else if s[0] < 128 {
        Ok((s[0] as nat, 1))
    } else {
        let k = s[0] - 128;
        if k == 0 {
            Err(ErrorKind::SyntaxError)
        } else if k > 4 {
            Err(ErrorKind::StructuralError)
        } else if s.len() < 1 + k {
            Err(ErrorKind::SyntaxError)
        } else if s[1] == 0 {
            Err(ErrorKind::SyntaxError)
        } else if be_value(s.subrange(1, 1 + k)) < 128 {
            Err(ErrorKind::SyntaxError)
        } else {
            Ok((be_value(s.subrange(1, 1 + k)), (1 + k) as nat))
        }
    }
}

/// The tag number of a header at the head of a non-empty `s`, and the
/// count of octets it took. A high tag number below 31 is not minimal.
pub open spec fn parse_tag_number(s: Seq<u8>) -> Result<(nat, nat), ErrorKind> {
    if s[0] % 32 == 31 {
        match parse_base128(s.drop_first()) {
            Ok((v, c)) => if v < 31 {
                Err(ErrorKind::SyntaxError)
            } else {
                Ok((v, c + 1))
            },
            Err(e) => Err(e),
        }
    } else {
        Ok(((s[0] % 32) as nat, 1))
    }
}

/// The header at the head of `s`, and the count of octets it took.
pub open spec fn parse_header(s: Seq<u8>) -> Result<(TagAndLength, nat), ErrorKind> {
    if s.len() == 0 {
        Err(ErrorKind::SyntaxError)
    } else {
        match parse_tag_number(s) {
            Err(e) => Err(e),
            Ok((tag, off)) => match parse_length(s.skip(off as int)) {
                Err(e) => Err(e),
                Ok((len, c)) => Ok(
                    (
                        TagAndLength {
                            class: (s[0] / 64) as i32,
                            tag: tag as i32,
                            length: len as usize,
                            is_compound: s[0] % 64 >= 32,
                        },
                        off + c,
                    ),
                ),
            },
        }
    }
}

/// The value of big-endian two's complement octets.
pub open spec fn twos_value(s: Seq<u8>) -> int
    decreases s.len(),
{
    if s.len() == 0 {
        0
    } else if s.len() == 1 {
        if s[0] >= 128 {
            s[0] - 256
        } else {
            s[0] as int
        }
    } else {
        twos_value(s.drop_last()) * 256 + s.last()
    }
}

/// INTEGER value octets: one to four, in the fewest octets that keep the sign.
pub open spec fn parse_int_value(v: Seq<u8>) -> Result<int, ErrorKind> {
    if v.len() == 0 {
        Err(ErrorKind::SyntaxError)
    } else if v.len() > 4 {
        Err(ErrorKind::StructuralError)
    } else if v.len() > 1 && ((v[0] == 0 && v[1] < 128) || (v[0] == 255 && v[1] >= 128)) {
        Err(ErrorKind::SyntaxError)
    } else {
        Ok(twos_value(v))
    }
}

/// One TLV at the head of `s`: its header, its value octets and the count
/// of octets it took.
pub open spec fn parse_tlv(s: Seq<u8>) -> Result<(TagAndLength, Seq<u8>, nat), ErrorKind> {
    match parse_header(s) {
        Err(e) => Err(e),
        Ok((h, c)) => if s.len() < c + h.length {
            Err(ErrorKind::SyntaxError)
        } else {
            Ok((h, s.subrange(c as int, c + h.length), (c + h.length) as nat))
        },
    }
}

/// One TLV at the head of `s` whose header has the given class, tag and
/// form: its value octets and the count of octets it took.
pub open spec fn parse_expected(s: Seq<u8>, class: i32, tag: i32, compound: bool) -> Result<
    (Seq<u8>, nat),
    ErrorKind,
> {
    match parse_tlv(s) {
        Err(e) => Err(e),
        Ok((h, v, c)) => if h.class != class || h.tag != tag || h.is_compound != compound {
            Err(ErrorKind::StructuralError)
        } else {
            Ok((v, c))
        },
    }
}

} // verus!

verus! {

proof fn lemma_base128_high_facts(m: nat)
    ensures
        forall|j: int| 0 <= j < base128_high(m).len() ==> base128_high(m)[j] >= 128,
        m > 0 ==> base128_high(m).len() > 0 && base128_high(m)[0] != 0x80,
        digits_value(base128_high(m)) == m,
    decreases m,
{
    if m > 0 {
        lemma_base128_high_facts(m / 128);
        let h = base128_high(m);
        assert(h.drop_last() =~= base128_high(m / 128));
        if m / 128 == 0 {
            assert(base128_high(m / 128) =~= seq![]);
        }
    }
}

proof fn lemma_base128_octets_facts(n: nat)
    ensures
        base128_octets(n).len() >= 1,
        forall|j: int|
            0 <= j < base128_octets(n).len() - 1 ==> #[trigger] base128_octets(n)[j] >= 128,
        base128_octets(n)[base128_octets(n).len() - 1] < 128,
        base128_octets(n)[0] != 0x80,
        digits_value(base128_octets(n)) == n,
{
    lemma_base128_high_facts(n / 128);
    let b = base128_octets(n);
    assert(b.drop_last() =~= base128_high(n / 128));
    if n / 128 == 0 {
        assert(base128_high(n / 128) =~= seq![]);
    }
}

proof fn lemma_parse_base128_steps(s: Seq<u8>, i: nat, last: nat)
    requires
        i <= last < s.len(),
        last < 5,
        forall|j: int| 0 <= j < last ==> s[j] >= 128,
        s[0] != 0x80,
    ensures
        parse_base128_from(s, i) == parse_base128_from(s, last),
    decreases last - i,
{
    if i < last {
        lemma_parse_base128_steps(s, i + 1, last);
    }
}

/// A tag number of at most 31 bits is read back from its base-128 octets,
/// whatever follows them.
pub proof fn lemma_base128_round_trip(n: nat, rest: Seq<u8>)
    requires
        n <= 0x7fff_ffff,
    ensures
        parse_base128(base128_octets(n) + rest) == Ok::<(nat, nat), ErrorKind>(
            (n, base128_octets(n).len()),
        ),
{
    let b = base128_octets(n);
    let s = b + rest;
    lemma_base128_octets_facts(n);
    lemma_base128_len_bound(n);
    let last = (b.len() - 1) as nat;
    assert forall|j: int| 0 <= j < last implies s[j] >= 128 by {
        assert(s[j] == b[j]);
    }
    lemma_parse_base128_steps(s, 0, last);
    assert(s.take(last + 1 as int) =~= b);
}

proof fn lemma_be_octets_facts(n: nat)
    ensures
        be_value(be_octets(n)) == n,
        be_octets(n).len() >= 1,
        n > 0 ==> be_octets(n)[0] != 0,
    decreases n,
{
    if n >= 256 {
        lemma_be_octets_facts(n / 256);
        assert(be_octets(n).drop_last() =~= be_octets(n / 256));
    } else {
        assert(seq![n as u8].drop_last() =~= Seq::<u8>::empty());
        assert(be_value(Seq::<u8>::empty()) == 0);
    }
}

/// A length of at most four octets is read back from its length octets,
/// whatever follows them.
pub proof fn lemma_length_round_trip(n: nat, rest: Seq<u8>)
    requires
        n <= MAX_LENGTH,
    ensures
        parse_length(length_octets(n) + rest) == Ok::<(nat, nat), ErrorKind>(
            (n, length_octets(n).len()),
        ),
{
    let s = length_octets(n) + rest;
    if n >= 128 {
        lemma_be_octets_facts(n);
        lemma_be_octets_len_bound(n);
        let b = be_octets(n);
        assert(s.subrange(1, 1 + b.len() as int) =~= b);
    }
}

proof fn lemma_first_octet(t: TagAndLength)
    requires
        t.wf(),
    ensures
        first_octet(t) / 64 == t.class,
        (first_octet(t) % 64 >= 32) == t.is_compound,
        first_octet(t) % 32 == (if t.tag < 31 {
            t.tag as int
        } else {
            31
        }),
{
}

/// The octets of a header's tag part: the high tag number if any.
pub open spec fn tag_part(t: TagAndLength) -> Seq<u8> {
    if t.tag >= 31 {
        base128_octets(t.tag as nat)
    } else {
        seq![]
    }
}

proof fn lemma_tag_number_round_trip(t: TagAndLength, after: Seq<u8>)
    requires
        t.wf(),
    ensures
        parse_tag_number(seq![first_octet(t)] + tag_part(t) + after) == Ok::<(nat, nat), ErrorKind>(
            (t.tag as nat, 1 + tag_part(t).len()),
        ),
{
    lemma_first_octet(t);
    let s = seq![first_octet(t)] + tag_part(t) + after;
    assert(s[0] == first_octet(t));
    if t.tag >= 31 {
        lemma_base128_round_trip(t.tag as nat, after);
        assert(s.drop_first() =~= base128_octets(t.tag as nat) + after);
    }
}

/// A header that can be written is read back from its octets, whatever
/// follows them.
pub proof fn lemma_header_round_trip(t: TagAndLength, rest: Seq<u8>)
    requires
        t.wf(),
    ensures
        parse_header(header_octets(t) + rest) == Ok::<(TagAndLength, nat), ErrorKind>(
            (t, header_octets(t).len()),
        ),
{
    let lo = length_octets(t.length as nat);
    let s = header_octets(t) + rest;
    assert(s =~= seq![first_octet(t)] + tag_part(t) + (lo + rest));
    lemma_tag_number_round_trip(t, lo + rest);
    lemma_first_octet(t);
    assert(s.skip(1 + tag_part(t).len() as int) =~= lo + rest);
    lemma_length_round_trip(t.length as nat, rest);
}

} // verus!

verus! {

proof fn lemma_int_octets_value(v: int)
    ensures
        twos_value(int_octets(v)) == v,
        int_octets(v).len() >= 1,
    decreases abs(v),
{
    if -128 <= v < 128 {
        assert(int_octets(v) =~= seq![(v % 256) as u8]);
    } else {
        lemma_int_octets_value(v / 256);
        assert(int_octets(v).drop_last() =~= int_octets(v / 256));
    }
}

/// Two's complement octets are minimal: no leading octet only repeats the
/// sign of the next.
pub proof fn lemma_int_octets_minimal(v: int)
    ensures
        int_octets(v).len() > 1 ==> !((int_octets(v)[0] == 0 && int_octets(v)[1] < 128) || (
        int_octets(v)[0] == 255 && int_octets(v)[1] >= 128)),
    decreases abs(v),
{
    if !(-128 <= v < 128) {
        let q = v / 256;
        lemma_int_octets_minimal(q);
        lemma_int_octets_value(q);
        if -128 <= q < 128 {
            assert(int_octets(q) =~= seq![(q % 256) as u8]);
        }
    }
}

/// A 32-bit integer is read back from its INTEGER value octets.
pub proof fn lemma_int_round_trip(v: int)
    requires
        -0x8000_0000 <= v <= 0x7fff_ffff,
    ensures
        parse_int_value(int_octets(v)) == Ok::<int, ErrorKind>(v),
{
    lemma_int_octets_value(v);
    lemma_int_octets_minimal(v);
    lemma_int_octets_len(v);
}

} // verus!

verus! {

proof fn lemma_digits_positive(e: Seq<u8>)
    requires
        e.len() > 0,
        e[0] % 128 != 0,
    ensures
        digits_value(e) > 0,
    decreases e.len(),
{
    if e.len() > 1 {
        lemma_digits_positive(e.drop_last());
    }
}

proof fn lemma_high_inverse(e: Seq<u8>)
    requires
        forall|j: int| 0 <= j < e.len() ==> e[j] >= 128,
        e.len() > 0 ==> e[0] != 0x80,
    ensures
        base128_high(digits_value(e)) == e,
    decreases e.len(),
{
    if e.len() > 0 {
        let e1 = e.drop_last();
        let y = e.last();
        let m = digits_value(e);
        if e1.len() == 0 {
            assert(digits_value(e1) == 0);
            assert(base128_high(0) =~= seq![]);
            assert(base128_high(m) =~= e);
        } else {
            lemma_digits_positive(e1);
            lemma_high_inverse(e1);
            assert(m / 128 == digits_value(e1));
            assert(m % 128 == y - 128);
            assert(base128_high(m) =~= e1 + seq![y]);
            assert(e1 + seq![y] =~= e);
        }
    }
}

proof fn lemma_base128_inverse(d: Seq<u8>)
    requires
        d.len() > 0,
        forall|j: int| 0 <= j < d.len() - 1 ==> d[j] >= 128,
        d.last() < 128,
        d[0] != 0x80,
    ensures
        base128_octets(digits_value(d)) == d,
{
    let e = d.drop_last();
    assert forall|j: int| 0 <= j < e.len() implies e[j] >= 128 by {
        assert(e[j] == d[j]);
    }
    lemma_high_inverse(e);
    assert(e + seq![d.last()] =~= d);
}

proof fn lemma_parse_base128_shape(s: Seq<u8>, i: nat)
    requires
        parse_base128_from(s, i) is Ok,
        forall|j: int| 0 <= j < i ==> s[j] >= 128,
        i > 0 ==> s[0] != 0x80,
    ensures
        ({
            let (v, c) = parse_base128_from(s, i)->Ok_0;
            &&& 1 <= c <= s.len()
            &&& forall|j: int| 0 <= j < c - 1 ==> s[j] >= 128
            &&& s[c - 1] < 128
            &&& s[0] != 0x80
            &&& v == digits_value(s.take(c as int))
            &&& v <= 0x7fff_ffff
        }),
    decreases 5 - i,
{
    if i < s.len() && i < 5 && !(i == 0 && s[0] == 0x80) && s[i as int] >= 128 {
        lemma_parse_base128_shape(s, i + 1);
    }
}

/// What the base-128 reader accepts is exactly the minimal encoding of
/// the number it returns.
pub proof fn lemma_base128_strict(s: Seq<u8>)
    requires
        parse_base128(s) is Ok,
    ensures
        parse_base128(s)->Ok_0.0 <= 0x7fff_ffff,
        parse_base128(s)->Ok_0.1 <= s.len(),
        s.take(parse_base128(s)->Ok_0.1 as int) == base128_octets(parse_base128(s)->Ok_0.0),
{
    lemma_parse_base128_shape(s, 0);
    let (v, c) = parse_base128(s)->Ok_0;
    let d = s.take(c as int);
    lemma_base128_inverse(d);
}

proof fn lemma_be_positive(d: Seq<u8>)
    requires
        d.len() > 0,
        d[0] != 0,
    ensures
        be_value(d) > 0,
    decreases d.len(),
{
    if d.len() > 1 {
        lemma_be_positive(d.drop_last());
    }
}

proof fn lemma_be_bound(d: Seq<u8>)
    ensures
        be_value(d) < pow_of(256, d.len()),
    decreases d.len(),
{
    if d.len() > 0 {
        lemma_be_bound(d.drop_last());
        assert(pow_of(256, d.len()) == 256 * pow_of(256, (d.len() - 1) as nat));
    }
}

proof fn lemma_be_inverse(d: Seq<u8>)
    requires
        d.len() > 0,
        d[0] != 0,
    ensures
        be_octets(be_value(d)) == d,
    decreases d.len(),
{
    let d1 = d.drop_last();
    let x = d.last();
    if d1.len() == 0 {
        assert(be_value(d1) == 0);
        assert(be_octets(be_value(d)) =~= d);
    } else {
        lemma_be_positive(d1);
        lemma_be_inverse(d1);
        let n = be_value(d);
        assert(n / 256 == be_value(d1));
        assert(n % 256 == x);
        assert(be_octets(n) =~= d1 + seq![x]);
        assert(d1 + seq![x] =~= d);
    }
}

/// What the length reader accepts is exactly the minimal encoding of the
/// length it returns.
pub proof fn lemma_length_strict(s: Seq<u8>)
    requires
        parse_length(s) is Ok,
    ensures
        parse_length(s)->Ok_0.0 <= MAX_LENGTH,
        parse_length(s)->Ok_0.1 <= s.len(),
        s.take(parse_length(s)->Ok_0.1 as int) == length_octets(parse_length(s)->Ok_0.0),
{
    if s[0] < 128 {
        assert(s.take(1) =~= seq![s[0]]);
    } else {
        let k = (s[0] - 128) as int;
        let d = s.subrange(1, 1 + k);
        lemma_be_inverse(d);
        lemma_be_bound(d);
        reveal_with_fuel(pow_of, 5);
        assert(s.take(1 + k) =~= seq![s[0]] + d);
    }
}

/// What the header reader accepts is exactly the DER encoding of a header
/// that can be written.
pub proof fn lemma_header_strict(s: Seq<u8>)
    requires
        parse_header(s) is Ok,
    ensures
        parse_header(s)->Ok_0.0.wf(),
        parse_header(s)->Ok_0.1 <= s.len(),
        s.take(parse_header(s)->Ok_0.1 as int) == header_octets(parse_header(s)->Ok_0.0),
{
    let (t, c) = parse_header(s)->Ok_0;
    let s0 = s[0];
    let (tag, off) = parse_tag_number(s)->Ok_0;
    if s0 % 32 == 31 {
        lemma_base128_strict(s.drop_first());
        let c1 = parse_base128(s.drop_first())->Ok_0.1;
        assert(s.subrange(1, 1 + c1 as int) =~= s.drop_first().take(c1 as int));
        assert(tag_part(t) == s.subrange(1, off as int));
    } else {
        assert(tag_part(t) =~= s.subrange(1, off as int));
    }
    let rest = s.skip(off as int);
    lemma_length_strict(rest);
    let c2 = parse_length(rest)->Ok_0.1;
    assert(rest.take(c2 as int) =~= s.subrange(off as int, off + c2 as int));
    assert(first_octet(t) == s0);
    assert(s.take(c as int) =~= seq![s0] + s.subrange(1, off as int) + s.subrange(off as int, off + c2 as int));
}

} // verus!

verus! {

/// What the INTEGER value reader accepts is exactly the minimal encoding of
/// the integer it returns.
pub proof fn lemma_int_strict(v: Seq<u8>)
    requires
        parse_int_value(v) is Ok,
    ensures
        int_octets(parse_int_value(v)->Ok_0) == v,
    decreases v.len(),
{
    let tv = twos_value(v);
    if v.len() == 1 {
        assert(int_octets(tv) =~= v);
    } else {
        let v1 = v.drop_last();
        let x = v.last();
        if v1.len() >= 2 {
            assert(v1[0] == v[0] && v1[1] == v[1]);
            lemma_int_strict(v1);
            let t1 = twos_value(v1);
            assert(int_octets(t1).len() >= 2);
            assert(!(-128 <= t1 < 128));
        } else {
            assert(v1 =~= seq![v[0]]);
        }
        assert(tv / 256 == twos_value(v1));
        assert(tv % 256 == x);
        assert(int_octets(tv) =~= int_octets(twos_value(v1)) + seq![x]);
        if v1.len() == 1 {
            assert(int_octets(twos_value(v1)) =~= v1);
        }
        assert(v1 + seq![x] =~= v);
    }
}

} // verus!
