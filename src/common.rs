use vstd::prelude::*;

verus! {

pub const TAG_BOOLEAN: i32 = 1;
pub const TAG_INTEGER: i32 = 2;
pub const TAG_BIT_STRING: i32 = 3;
pub const TAG_OCTET_STRING: i32 = 4;
pub const TAG_NULL: i32 = 5;
pub const TAG_OID: i32 = 6;
pub const TAG_ENUM: i32 = 10;
pub const TAG_UTF8_STRING: i32 = 12;
pub const TAG_SEQUENCE: i32 = 16;
pub const TAG_SET: i32 = 17;
pub const TAG_NUMERIC_STRING: i32 = 18;
pub const TAG_PRINTABLE_STRING: i32 = 19;
pub const TAG_T61_STRING: i32 = 20;
pub const TAG_IA5_STRING: i32 = 22;
pub const TAG_UTCTIME: i32 = 23;
pub const TAG_GENERALIZED_TIME: i32 = 24;
pub const TAG_GENERAL_STRING: i32 = 27;
pub const TAG_BMPSTRING: i32 = 30;

// The class of a tag is the namespace it lives in.
pub const CLASS_UNIVERSAL: i32 = 0;
pub const CLASS_APPLICATION: i32 = 1;
pub const CLASS_CONTEXT_SPECIFIC: i32 = 2;
pub const CLASS_PRIVATE: i32 = 3;

/// The largest length that a header can carry: four big-endian length octets.
pub const MAX_LENGTH: usize = 0xffff_ffff;

/// Per-field directives: an IMPLICIT tag replaces the natural UNIVERSAL tag of
/// a value, an EXPLICIT tag wraps the natural encoding in an outer compound
/// TLV. A single layer of tagging is supported.
#[derive(Debug, Clone, Copy)]
pub struct FieldParameters {
    pub optional: bool,
    pub explicit: bool,
    pub application: bool,
    pub private: bool,
    pub default_value: Option<i64>,
    pub tag: Option<i32>,
    pub string_type: i32,
    pub time_type: i32,
    pub set: bool,
    pub omit_empty: bool,
}

/// The parameters used when a caller gives none: no tag override.
pub open spec fn default_params() -> FieldParameters {
    FieldParameters {
        optional: false,
        explicit: false,
        application: false,
        private: false,
        default_value: None,
        tag: None,
        string_type: 0,
        time_type: 0,
        set: false,
        omit_empty: false,
    }
}

impl FieldParameters {
    /// Parameters are usable when an EXPLICIT directive carries a tag number
    /// and that number is non-negative.
    pub open spec fn wf(&self) -> bool {
        &&& (self.explicit ==> self.tag.is_some())
        &&& (self.tag matches Some(t) ==> t >= 0)
    }

    /// The class that a tag override lives in.
    pub open spec fn override_class(&self) -> i32 {
        if self.application {
            CLASS_APPLICATION
        } else if self.private {
            CLASS_PRIVATE
        } else {
            CLASS_CONTEXT_SPECIFIC
        }
    }

    pub fn class_for_override(&self) -> (r: i32)
        ensures
            r == self.override_class(),
    {
        if self.application {
            CLASS_APPLICATION
        } else if self.private {
            CLASS_PRIVATE
        } else {
            CLASS_CONTEXT_SPECIFIC
        }
    }

    /// Parameters that apply a single tag to a field.
    pub fn tagged(tag: i32, explicit: bool) -> (r: FieldParameters)
        ensures
            r == (FieldParameters { tag: Some(tag), explicit, ..default_params() }),
    {
        FieldParameters { tag: Some(tag), explicit, ..FieldParameters::default() }
    }
}

impl Default for FieldParameters {
    fn default() -> (r: FieldParameters)
        ensures
            r == default_params(),
    {
        FieldParameters {
            optional: false,
            explicit: false,
            application: false,
            private: false,
            default_value: None,
            tag: None,
            string_type: 0,
            time_type: 0,
            set: false,
            omit_empty: false,
        }
    }
}

/// The header of one TLV: class, tag number, compound flag and the length of
/// the value that follows.
#[derive(Debug, Clone, Copy, PartialEq, Eq, Structural)]
pub struct TagAndLength {
    pub class: i32,
    pub tag: i32,
    pub length: usize,
    pub is_compound: bool,
}

impl TagAndLength {
    /// A header that can be written: a class of the four, a non-negative tag,
    /// and a length that fits four length octets.
    pub open spec fn wf(&self) -> bool {
        &&& 0 <= self.class <= 3
        &&& 0 <= self.tag
        &&& self.length <= MAX_LENGTH
    }
}

impl Default for TagAndLength {
    fn default() -> (r: TagAndLength)
        ensures
            r == (TagAndLength { class: 0, tag: 0, length: 0, is_compound: false }),
    {
        TagAndLength { class: 0, tag: 0, length: 0, is_compound: false }
    }
}

} // verus!
