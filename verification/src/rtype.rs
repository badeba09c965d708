//! Resource record types.

use vstd::prelude::*;

verus! {

#[derive(Debug, Clone, PartialEq, Eq, Structural)]
pub enum Type {
    /// [RFC 1035](https://www.rfc-editor.org/rfc/rfc1035#section-3.2.2)
    A,
    /// [RFC 1035](https://www.rfc-editor.org/rfc/rfc1035#section-3.2.2)
    NS,
    /// [RFC 1035](https://www.rfc-editor.org/rfc/rfc1035#section-3.2.2)
    CNAME,
    /// [RFC 1035](https://www.rfc-editor.org/rfc/rfc1035#section-3.2.2)
    SOA,
    /// [RFC 1035](https://www.rfc-editor.org/rfc/rfc1035#section-3.2.2)
    PTR,
    /// [RFC 1035](https://www.rfc-editor.org/rfc/rfc1035#section-3.2.2)
    MX,
    /// [RFC 1035](https://www.rfc-editor.org/rfc/rfc1035#section-3.2.2)
    TXT,
    /// [RFC 3596](https://www.rfc-editor.org/rfc/rfc3596#section-2.1)
    AAAA,
    /// [RFC 6891](https://www.rfc-editor.org/rfc/rfc6891#section-6.1.1)
    OPT,
    Unknown(u16),
}

/// The type a wire code stands for.
pub open spec fn type_of_code(value: u16) -> Type {
    match value {
        1 => Type::A,
        2 => Type::NS,
        5 => Type::CNAME,
        6 => Type::SOA,
        12 => Type::PTR,
        15 => Type::MX,
        16 => Type::TXT,
        28 => Type::AAAA,
        41 => Type::OPT,
        _ => Type::Unknown(value),
    }
}

/// The wire code of a type.
pub open spec fn code_of_type(t: Type) -> u16 {
    match t {
        Type::A => 1,
        Type::NS => 2,
        Type::CNAME => 5,
        Type::SOA => 6,
        Type::PTR => 12,
        Type::MX => 15,
        Type::TXT => 16,
        Type::AAAA => 28,
        Type::OPT => 41,
        Type::Unknown(code) => code,
    }
}

/// A type that decoding can produce: `Unknown` only holds codes that have no variant of their own.
pub open spec fn canonical_type(t: Type) -> bool {
    match t {
        Type::Unknown(code) => type_of_code(code) == t,
        _ => true,
    }
}

impl From<u16> for Type {
    fn from(value: u16) -> (r: Self)
        ensures
            r == type_of_code(value),
    {
        match value {
            1 => Self::A,
            2 => Self::NS,
            5 => Self::CNAME,
            6 => Self::SOA,
            12 => Self::PTR,
            15 => Self::MX,
            16 => Self::TXT,
            28 => Self::AAAA,
            41 => Self::OPT,
            _ => Self::Unknown(value),
        }
    }
}

impl vstd::std_specs::convert::FromSpecImpl<u16> for Type {
    open spec fn obeys_from_spec() -> bool {
        true
    }

    open spec fn from_spec(v: u16) -> Self {
        type_of_code(v)
    }
}

impl From<Type> for u16 {
    fn from(val: Type) -> (r: Self)
        ensures
            r == code_of_type(val),
    {
        match val {
            Type::A => 1,
            Type::NS => 2,
            Type::CNAME => 5,
            Type::SOA => 6,
            Type::PTR => 12,
            Type::MX => 15,
            Type::TXT => 16,
            Type::AAAA => 28,
            Type::OPT => 41,
            Type::Unknown(code) => code,
        }
    }
}

impl vstd::std_specs::convert::FromSpecImpl<Type> for u16 {
    open spec fn obeys_from_spec() -> bool {
        true
    }

    open spec fn from_spec(v: Type) -> Self {
        code_of_type(v)
    }
}

/// Reading a code into a type and writing the type back gives the same code.
pub proof fn lemma_type_code_roundtrip(value: u16)
    ensures
        code_of_type(type_of_code(value)) == value,
{
}

/// A type that decoding can produce is read back from its own code.
pub proof fn lemma_type_roundtrip(t: Type)
    requires
        canonical_type(t),
    ensures
        type_of_code(code_of_type(t)) == t,
{
}

/// Decoding only ever produces canonical types.
pub proof fn lemma_type_of_code_canonical(value: u16)
    ensures
        canonical_type(type_of_code(value)),
{
}

/// The wire codes of the types: A 1, NS 2, CNAME 5, SOA 6, PTR 12, MX 15 and
/// TXT 16 (RFC 1035), AAAA 28 (RFC 3596) and OPT 41 (RFC 6891), each read back
/// as its type; any other code stays `Unknown`.
pub proof fn lemma_type_codes(v: u16)
    ensures
        type_of_code(1) == Type::A && code_of_type(Type::A) == 1,
        type_of_code(2) == Type::NS && code_of_type(Type::NS) == 2,
        type_of_code(5) == Type::CNAME && code_of_type(Type::CNAME) == 5,
        type_of_code(6) == Type::SOA && code_of_type(Type::SOA) == 6,
        type_of_code(12) == Type::PTR && code_of_type(Type::PTR) == 12,
        type_of_code(15) == Type::MX && code_of_type(Type::MX) == 15,
        type_of_code(16) == Type::TXT && code_of_type(Type::TXT) == 16,
        type_of_code(28) == Type::AAAA && code_of_type(Type::AAAA) == 28,
        type_of_code(41) == Type::OPT && code_of_type(Type::OPT) == 41,
        v != 1 && v != 2 && v != 5 && v != 6 && v != 12 && v != 15 && v != 16 && v != 28 && v
            != 41 ==> type_of_code(v) == Type::Unknown(v),
        code_of_type(Type::Unknown(v)) == v,
{
}

} // verus!
