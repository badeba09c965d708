//! Resource record classes.

use vstd::prelude::*;

verus! {

/// [RFC 1035](https://www.rfc-editor.org/rfc/rfc1035#section-3.2.4)
#[derive(Debug, Clone, PartialEq, Eq, Structural)]
pub enum Class {
    /// The Internet.
    IN,
    /// The CSNET class.
    CS,
    /// The CHAOS class.
    CH,
    /// Hesiod.
    HS,
    Unknown(u16),
}

/// The class a wire code stands for.
pub open spec fn class_of_code(value: u16) -> Class {
    match value {
        1 => Class::IN,
        2 => Class::CS,
        3 => Class::CH,
        4 => Class::HS,
        _ => Class::Unknown(value),
    }
}

/// The wire code of a class.
pub open spec fn code_of_class(c: Class) -> u16 {
    match c {
        Class::IN => 1,
        Class::CS => 2,
        Class::CH => 3,
        Class::HS => 4,
        Class::Unknown(code) => code,
    }
}

/// A class that decoding can produce: `Unknown` only holds codes without a variant of their own.
pub open spec fn canonical_class(c: Class) -> bool {
    match c {
        Class::Unknown(code) => class_of_code(code) == c,
        _ => true,
    }
}

impl From<u16> for Class {
    fn from(value: u16) -> (r: Self)
        ensures
            r == class_of_code(value),
    {
        match value {
            1 => Self::IN,
            2 => Self::CS,
            3 => Self::CH,
            4 => Self::HS,
            _ => Self::Unknown(value),
        }
    }
}

impl vstd::std_specs::convert::FromSpecImpl<u16> for Class {
    open spec fn obeys_from_spec() -> bool {
        true
    }

    open spec fn from_spec(v: u16) -> Self {
        class_of_code(v)
    }
}

impl From<Class> for u16 {
    fn from(val: Class) -> (r: Self)
        ensures
            r == code_of_class(val),
    {
        match val {
            Class::IN => 1,
            Class::CS => 2,
            Class::CH => 3,
            Class::HS => 4,
            Class::Unknown(code) => code,
        }
    }
}

impl vstd::std_specs::convert::FromSpecImpl<Class> for u16 {
    open spec fn obeys_from_spec() -> bool {
        true
    }

    open spec fn from_spec(v: Class) -> Self {
        code_of_class(v)
    }
}

/// Reading a code into a class and writing the class back gives the same code.
pub proof fn lemma_class_code_roundtrip(value: u16)
    ensures
        code_of_class(class_of_code(value)) == value,
{
}

/// A class that decoding can produce is read back from its own code.
pub proof fn lemma_class_roundtrip(c: Class)
    requires
        canonical_class(c),
    ensures
        class_of_code(code_of_class(c)) == c,
{
}

/// The RFC 1035 codes of the classes: IN 1, CS 2, CH 3 and HS 4, each read
/// back as its class; any other code stays `Unknown`.
pub proof fn lemma_class_codes(v: u16)
    ensures
        class_of_code(1) == Class::IN && code_of_class(Class::IN) == 1,
        class_of_code(2) == Class::CS && code_of_class(Class::CS) == 2,
        class_of_code(3) == Class::CH && code_of_class(Class::CH) == 3,
        class_of_code(4) == Class::HS && code_of_class(Class::HS) == 4,
        v == 0 || v > 4 ==> class_of_code(v) == Class::Unknown(v),
        code_of_class(Class::Unknown(v)) == v,
{
}

} // verus!
