//! The per-field and per-variant directive grammar: a comma-separated list
//! of `explicit`, `implicit` and `tag = <decimal integer>`, with spaces
//! allowed around each token and one trailing comma. `explicit` and
//! `implicit` exclude each other; the last one written wins, as does the
//! last tag.
use vstd::prelude::*;
use crate::common::{FieldParameters, default_params};

verus! {

/// One directive.
#[derive(Debug, Clone, Copy, PartialEq, Eq, Structural)]
pub enum Asn1Attr {
    Explicit,
    Implicit,
    Tag(i32),
}

/// Why a directive list is refused.
#[derive(Debug, Clone, Copy, PartialEq, Eq, Structural)]
pub enum AnnotationError {
    /// A name other than `explicit`, `implicit` or `tag`, or `tag` without a
    /// value, or a value after another name.
    UnexpectedAttribute,
    /// Something other than a decimal integer after `=`.
    ExpectedLiteral,
    /// A tag number beyond 31 bits.
    BadInteger,
    /// An empty directive before a comma.
    EmptyItem,
    /// `explicit` without a tag number.
    MissingTag,
}

pub open spec fn trim_start(s: Seq<u8>) -> Seq<u8>
    decreases s.len(),
{
    if s.len() > 0 && s[0] == 0x20 {
        trim_start(s.drop_first())
    } else {
        s
    }
}

pub open spec fn trim_end(s: Seq<u8>) -> Seq<u8>
    decreases s.len(),
{
    if s.len() > 0 && s.last() == 0x20 {
        trim_end(s.drop_last())
    } else {
        s
    }
}

/// `s` without leading and trailing spaces.
pub open spec fn trim(s: Seq<u8>) -> Seq<u8> {
    trim_end(trim_start(s))
}

/// The index of the first `c` in `s`, or its length.
pub open spec fn find(s: Seq<u8>, c: u8) -> nat
    decreases s.len(),
{
    if s.len() == 0 || s[0] == c {
        0
    } else {
        1 + find(s.drop_first(), c)
    }
}

/// The comma-separated items of `s`.
pub open spec fn items(s: Seq<u8>) -> Seq<Seq<u8>>
    decreases s.len(),
{
    let j = find(s, 0x2c);
    if j >= s.len() {
        seq![s]
    } else {
        seq![s.take(j as int)] + items(s.skip(j + 1 as int))
    }
}

pub open spec fn explicit_word() -> Seq<u8> {
    seq![0x65, 0x78, 0x70, 0x6c, 0x69, 0x63, 0x69, 0x74]
}

pub open spec fn implicit_word() -> Seq<u8> {
    seq![0x69, 0x6d, 0x70, 0x6c, 0x69, 0x63, 0x69, 0x74]
}

pub open spec fn tag_word() -> Seq<u8> {
    seq![0x74, 0x61, 0x67]
}

pub open spec fn is_digit(b: u8) -> bool {
    0x30 <= b <= 0x39
}

/// The number that decimal digits spell.
pub open spec fn decimal_value(s: Seq<u8>) -> nat
    decreases s.len(),
{
    if s.len() == 0 {
        0
    } else {
        decimal_value(s.drop_last()) * 10 + (s.last() - 0x30) as nat
    }
}

/// One directive, spaces already trimmed.
pub open spec fn parse_item(t: Seq<u8>) -> Result<Asn1Attr, AnnotationError> {
    if t == explicit_word() {
        Ok(Asn1Attr::Explicit)
    } else if t == implicit_word() {
        Ok(Asn1Attr::Implicit)
    } else {
        let eq = find(t, 0x3d);
        if eq >= t.len() {
            Err(AnnotationError::UnexpectedAttribute)
        } else {
            let name = trim(t.take(eq as int));
            let value = trim(t.skip(eq + 1 as int));
            if value.len() == 0 || !(forall|k: int| 0 <= k < value.len() ==> is_digit(value[k])) {
                Err(AnnotationError::ExpectedLiteral)
            } else if name != tag_word() {
                Err(AnnotationError::UnexpectedAttribute)
            } else if decimal_value(value) > 0x7fff_ffff {
                Err(AnnotationError::BadInteger)
            } else {
                Ok(Asn1Attr::Tag(decimal_value(value) as i32))
            }
        }
    }
}

/// The directives of a list of items; an empty item is allowed last only.
pub open spec fn parse_items(its: Seq<Seq<u8>>) -> Result<Seq<Asn1Attr>, AnnotationError>
    decreases its.len(),
{
    if its.len() == 0 {
        Ok(seq![])
    } else if trim(its[0]).len() == 0 {
        if its.len() == 1 {
            Ok(seq![])
        } else {
            Err(AnnotationError::EmptyItem)
        }
    } else {
        match parse_item(trim(its[0])) {
            Err(e) => Err(e),
            Ok(a) => match parse_items(its.drop_first()) {
                Err(e) => Err(e),
                Ok(rest) => Ok(seq![a] + rest),
            },
        }
    }
}

/// The directives written in `s`.
pub open spec fn parse_attrs(s: Seq<u8>) -> Result<Seq<Asn1Attr>, AnnotationError> {
    parse_items(items(s))
}


/// The last of `explicit` and `implicit` decides; neither means implicit.
pub open spec fn explicit_of(attrs: Seq<Asn1Attr>) -> bool
    decreases attrs.len(),
{
    if attrs.len() == 0 {
        false
    } else {
        match attrs.last() {
            Asn1Attr::Explicit => true,
            Asn1Attr::Implicit => false,
            Asn1Attr::Tag(_) => explicit_of(attrs.drop_last()),
        }
    }
}

/// The last tag written, if any.
pub open spec fn tag_of(attrs: Seq<Asn1Attr>) -> Option<i32>
    decreases attrs.len(),
{
    if attrs.len() == 0 {
        None
    } else {
        match attrs.last() {
            Asn1Attr::Tag(t) => Some(t),
            _ => tag_of(attrs.drop_last()),
        }
    }
}

/// The field parameters that directives give.
pub open spec fn params_of(attrs: Seq<Asn1Attr>) -> Result<FieldParameters, AnnotationError> {
    if tag_of(attrs) matches Some(t) && t < 0 {
        Err(AnnotationError::BadInteger)
    } else if explicit_of(attrs) && tag_of(attrs) is None {
        Err(AnnotationError::MissingTag)
    } else {
        Ok(FieldParameters { explicit: explicit_of(attrs), tag: tag_of(attrs), ..default_params() })
    }
}

proof fn lemma_trim_start(s: Seq<u8>, a: nat)
    requires
        a <= s.len(),
        forall|k: int| 0 <= k < a ==> s[k] == 0x20,
        a == s.len() || s[a as int] != 0x20,
    ensures
        trim_start(s) == s.skip(a as int),
    decreases a,
{
    if a == 0 {
        assert(s.skip(0) =~= s);
    } else {
        lemma_trim_start(s.drop_first(), (a - 1) as nat);
        assert(s.drop_first().skip(a - 1) =~= s.skip(a as int));
    }
}

proof fn lemma_trim_end(t: Seq<u8>, b: nat)
    requires
        b <= t.len(),
        forall|k: int| b <= k < t.len() ==> t[k] == 0x20,
        b == 0 || t[b - 1] != 0x20,
    ensures
        trim_end(t) == t.take(b as int),
    decreases t.len() - b,
{
    if b == t.len() {
        assert(t.take(b as int) =~= t);
    } else {
        lemma_trim_end(t.drop_last(), b);
        assert(t.drop_last().take(b as int) =~= t.take(b as int));
    }
}

/// `s` without leading and trailing spaces.
fn trim_slice(s: &[u8]) -> (r: &[u8])
    ensures
        r@ == trim(s@),
{
    let mut a: usize = 0;
    while a < s.len() && s[a] == 0x20
        invariant
            a <= s@.len(),
            forall|k: int| 0 <= k < a ==> s@[k] == 0x20,
        decreases s@.len() - a,
    {
        a += 1;
    }
    let mut b: usize = s.len();
    while b > a && s[b - 1] == 0x20
        invariant
            a <= b <= s@.len(),
            forall|k: int| b <= k < s@.len() ==> s@[k] == 0x20,
            b < s@.len() ==> a < s@.len(),
        decreases b,
    {
        b -= 1;
    }
    proof {
        lemma_trim_start(s@, a as nat);
        let t = s@.skip(a as int);
        lemma_trim_end(t, (b - a) as nat);
        assert(t.take(b - a) =~= s@.subrange(a as int, b as int));
    }
    vstd::slice::slice_subrange(s, a, b)
}

proof fn lemma_find(s: Seq<u8>, c: u8, j: nat)
    requires
        j <= s.len(),
        forall|k: int| 0 <= k < j ==> s[k] != c,
        j == s.len() || s[j as int] == c,
    ensures
        find(s, c) == j,
    decreases j,
{
    if j > 0 {
        lemma_find(s.drop_first(), c, (j - 1) as nat);
    }
}

/// The index of the first `c` in `s`, or its length.
fn find_byte(s: &[u8], c: u8) -> (r: usize)
    ensures
        r == find(s@, c),
        r <= s@.len(),
{
    let mut j: usize = 0;
    while j < s.len() && s[j] != c
        invariant
            j <= s@.len(),
            forall|k: int| 0 <= k < j ==> s@[k] != c,
        decreases s@.len() - j,
    {
        j += 1;
    }
    proof {
        lemma_find(s@, c, j as nat);
    }
    j
}

fn eq_bytes(a: &[u8], b: &[u8]) -> (r: bool)
    ensures
        r == (a@ == b@),
{
    if a.len() != b.len() {
        return false;
    }
    let mut i: usize = 0;
    while i < a.len()
        invariant
            i <= a@.len() == b@.len(),
            forall|k: int| 0 <= k < i ==> a@[k] == b@[k],
        decreases a@.len() - i,
    {
        if a[i] != b[i] {
            return false;
        }
        i += 1;
    }
    assert(a@ =~= b@);
    true
}

/// The tag number that a run of decimal digits spells.
fn parse_decimal(v: &[u8]) -> (r: Result<i32, AnnotationError>)
    requires
        forall|k: int| 0 <= k < v@.len() ==> is_digit(v@[k]),
    ensures
        decimal_value(v@) <= 0x7fff_ffff ==> r == Ok::<i32, AnnotationError>(decimal_value(v@) as i32),
        decimal_value(v@) > 0x7fff_ffff ==> r == Err::<i32, AnnotationError>(AnnotationError::BadInteger),
{
    let mut acc: u64 = 0;
    let mut i: usize = 0;
    while i < v.len()
        invariant
            i <= v@.len(),
            forall|k: int| 0 <= k < v@.len() ==> is_digit(v@[k]),
            decimal_value(v@.take(i as int)) <= 0x7fff_ffff ==> acc == decimal_value(v@.take(i as int)),
            decimal_value(v@.take(i as int)) > 0x7fff_ffff ==> acc == 0x8000_0000,
        decreases v@.len() - i,
    {
        assert(v@.take(i + 1 as int).drop_last() =~= v@.take(i as int));
        acc = acc * 10 + (v[i] - 0x30) as u64;
        if acc > 0x7fff_ffff {
            acc = 0x8000_0000;
        }
        i += 1;
    }
    assert(v@.take(i as int) =~= v@);
    if acc > 0x7fff_ffff {
        Err(AnnotationError::BadInteger)
    } else {
        Ok(acc as i32)
    }
}

fn all_digits(v: &[u8]) -> (r: bool)
    ensures
        r == (forall|k: int| 0 <= k < v@.len() ==> is_digit(v@[k])),
{
    let mut i: usize = 0;
    while i < v.len()
        invariant
            i <= v@.len(),
            forall|k: int| 0 <= k < i ==> is_digit(v@[k]),
        decreases v@.len() - i,
    {
        if v[i] < 0x30 || v[i] > 0x39 {
            assert(!is_digit(v@[i as int]));
            return false;
        }
        i += 1;
    }
    true
}

/// Reads one directive, spaces already trimmed.
fn parse_item_bytes(t: &[u8]) -> (r: Result<Asn1Attr, AnnotationError>)
    ensures
        r == parse_item(t@),
{
    let explicit_w: [u8; 8] = [0x65, 0x78, 0x70, 0x6c, 0x69, 0x63, 0x69, 0x74];
    let implicit_w: [u8; 8] = [0x69, 0x6d, 0x70, 0x6c, 0x69, 0x63, 0x69, 0x74];
    let tag_w: [u8; 3] = [0x74, 0x61, 0x67];
    assert(explicit_w@ =~= explicit_word());
    assert(implicit_w@ =~= implicit_word());
    assert(tag_w@ =~= tag_word());
    if eq_bytes(t, explicit_w.as_slice()) {
        return Ok(Asn1Attr::Explicit);
    }
    if eq_bytes(t, implicit_w.as_slice()) {
        return Ok(Asn1Attr::Implicit);
    }
    let eq = find_byte(t, 0x3d);
    if eq >= t.len() {
        return Err(AnnotationError::UnexpectedAttribute);
    }
    let name = trim_slice(vstd::slice::slice_subrange(t, 0, eq));
    let value = trim_slice(vstd::slice::slice_subrange(t, eq + 1, t.len()));
    assert(t@.subrange(0, eq as int) =~= t@.take(eq as int));
    assert(t@.subrange(eq + 1, t@.len() as int) =~= t@.skip(eq + 1));
    if value.len() == 0 || !all_digits(value) {
        return Err(AnnotationError::ExpectedLiteral);
    }
    if !eq_bytes(name, tag_w.as_slice()) {
        return Err(AnnotationError::UnexpectedAttribute);
    }
    match parse_decimal(value) {
        Ok(n) => Ok(Asn1Attr::Tag(n)),
        Err(e) => Err(e),
    }
}

pub open spec fn prepend(
    acc: Seq<Asn1Attr>,
    r: Result<Seq<Asn1Attr>, AnnotationError>,
) -> Result<Seq<Asn1Attr>, AnnotationError> {
    match r {
        Ok(x) => Ok(acc + x),
        Err(e) => Err(e),
    }
}

/// Reads a directive list such as `explicit, tag = 5`.
pub fn parse_attributes(s: &[u8]) -> (r: Result<Vec<Asn1Attr>, AnnotationError>)
    ensures
        match parse_attrs(s@) {
            Ok(v) => r is Ok && r->Ok_0@ == v,
            Err(e) => r is Err && r->Err_0 == e,
        },
{
    let mut acc: Vec<Asn1Attr> = Vec::new();
    let mut start: usize = 0;
    assert(s@.skip(0) =~= s@);
    assert(acc@ + Seq::<Asn1Attr>::empty() =~= Seq::<Asn1Attr>::empty());
    loop
        invariant
            start <= s@.len(),
            parse_attrs(s@) == prepend(acc@, parse_items(items(s@.skip(start as int)))),
        decreases s@.len() - start,
    {
        let rest = vstd::slice::slice_subrange(s, start, s.len());
        let j = find_byte(rest, 0x2c);
        let item = vstd::slice::slice_subrange(rest, 0, j);
        assert(rest@.subrange(0, j as int) =~= rest@.take(j as int));
        let t = trim_slice(item);
        let ghost its = items(rest@);
        proof {
            if j < rest@.len() {
                assert(its.drop_first() =~= items(rest@.skip(j + 1)));
            }
            assert(its[0] == item@);
        }
        if t.len() == 0 {
            if j >= rest.len() {
                assert(acc@ + Seq::<Asn1Attr>::empty() =~= acc@);
                return Ok(acc);
            }
            return Err(AnnotationError::EmptyItem);
        }
        let a = match parse_item_bytes(t) {
            Ok(a) => a,
            Err(e) => return Err(e),
        };
        let ghost before = acc@;
        acc.push(a);
        if j >= rest.len() {
            assert(its.drop_first() =~= Seq::<Seq<u8>>::empty());
            assert(before + (seq![a] + Seq::<Asn1Attr>::empty()) =~= acc@);
            return Ok(acc);
        }
        proof {
            assert(rest@.skip(j + 1) =~= s@.skip(start + j + 1));
            match parse_items(its.drop_first()) {
                Ok(x) => {
                    assert(before + (seq![a] + x) =~= acc@ + x);
                },
                Err(e) => {},
            }
        }
        start = start + j + 1;
    }
}

/// The field parameters that directives give: the last of `explicit` and
/// `implicit` and the last tag decide. `explicit` needs a tag, and a tag
/// number is never negative.
pub fn params_from_attrs(attrs: &Vec<Asn1Attr>) -> (r: Result<FieldParameters, AnnotationError>)
    ensures
        r == params_of(attrs@),
{
    let mut explicit = false;
    let mut tag: Option<i32> = None;
    let mut i: usize = 0;
    while i < attrs.len()
        invariant
            i <= attrs@.len(),
            explicit == explicit_of(attrs@.take(i as int)),
            tag == tag_of(attrs@.take(i as int)),
        decreases attrs@.len() - i,
    {
        assert(attrs@.take(i + 1 as int).drop_last() =~= attrs@.take(i as int));
        match attrs[i] {
            Asn1Attr::Explicit => {
                explicit = true;
            },
            Asn1Attr::Implicit => {
                explicit = false;
            },
            Asn1Attr::Tag(t) => {
                tag = Some(t);
            },
        }
        i += 1;
    }
    assert(attrs@.take(i as int) =~= attrs@);
    if let Some(t) = tag {
        if t < 0 {
            return Err(AnnotationError::BadInteger);
        }
    }
    if explicit && tag.is_none() {
        return Err(AnnotationError::MissingTag);
    }
    Ok(FieldParameters { explicit, tag, ..FieldParameters::default() })
}

/// The field parameters that a directive list such as `tag = 5, explicit`
/// gives.
pub fn field_parameters(s: &[u8]) -> (r: Result<FieldParameters, AnnotationError>)
    ensures
        match parse_attrs(s@) {
            Ok(v) => r == params_of(v),
            Err(e) => r == Err::<FieldParameters, AnnotationError>(e),
        },
        r matches Ok(p) ==> p.wf(),
{
    match parse_attributes(s) {
        Ok(attrs) => params_from_attrs(&attrs),
        Err(e) => Err(e),
    }
}

} // verus!
