//! Normalized `Edm.*` field types.
use std::borrow::Cow;
use crate::text::{after_prefix, before_suffix, cat3, same_text, strip_prefix, strip_suffix};
use vstd::prelude::*;

verus! {

/// A normalized `Edm.*` field type. Recognized types are named variants;
/// anything else is preserved verbatim in [`FieldType::Unknown`] so error
/// messages can echo the original spelling.
#[derive(Debug, PartialEq)]
pub enum FieldType {
    String,
    Int32,
    Int64,
    Single,
    Double,
    Boolean,
    DateTimeOffset,
    Guid,
    GeographyPoint,
    /// `Edm.Int8` (REST spelling; the SDKs send `Edm.SByte`).
    Int8,
    /// `Edm.Int16`.
    Int16,
    /// `Edm.Time` (time of day, `"HH:MM:SS[.fraction]"`).
    Time,
    /// `Edm.Duration` (ISO 8601 duration, `"P1DT2H"`).
    Duration,
    /// `Edm.Binary` (base64 string).
    Binary,
    ComplexType,
    Half,
    CollectionString,
    CollectionInt32,
    CollectionInt64,
    CollectionSingle,
    CollectionDouble,
    CollectionHalf,
    CollectionBoolean,
    CollectionDateTimeOffset,
    CollectionGuid,
    CollectionInt8,
    CollectionInt16,
    CollectionBinary,
    CollectionComplexType,
    /// An unrecognized type, kept verbatim for echo in error messages.
    Unknown(String),
}

/// The mathematical value of a [`FieldType`].
pub enum FieldTypeV {
    String,
    Int32,
    Int64,
    Single,
    Double,
    Boolean,
    DateTimeOffset,
    Guid,
    GeographyPoint,
    Int8,
    Int16,
    Time,
    Duration,
    Binary,
    ComplexType,
    Half,
    CollectionString,
    CollectionInt32,
    CollectionInt64,
    CollectionSingle,
    CollectionDouble,
    CollectionHalf,
    CollectionBoolean,
    CollectionDateTimeOffset,
    CollectionGuid,
    CollectionInt8,
    CollectionInt16,
    CollectionBinary,
    CollectionComplexType,
    Unknown(Seq<char>),
}

impl View for FieldType {
    type V = FieldTypeV;

    open spec fn view(&self) -> FieldTypeV {
        match self {
            FieldType::String => FieldTypeV::String,
            FieldType::Int32 => FieldTypeV::Int32,
            FieldType::Int64 => FieldTypeV::Int64,
            FieldType::Single => FieldTypeV::Single,
            FieldType::Double => FieldTypeV::Double,
            FieldType::Boolean => FieldTypeV::Boolean,
            FieldType::DateTimeOffset => FieldTypeV::DateTimeOffset,
            FieldType::Guid => FieldTypeV::Guid,
            FieldType::GeographyPoint => FieldTypeV::GeographyPoint,
            FieldType::Int8 => FieldTypeV::Int8,
            FieldType::Int16 => FieldTypeV::Int16,
            FieldType::Time => FieldTypeV::Time,
            FieldType::Duration => FieldTypeV::Duration,
            FieldType::Binary => FieldTypeV::Binary,
            FieldType::ComplexType => FieldTypeV::ComplexType,
            FieldType::Half => FieldTypeV::Half,
            FieldType::CollectionString => FieldTypeV::CollectionString,
            FieldType::CollectionInt32 => FieldTypeV::CollectionInt32,
            FieldType::CollectionInt64 => FieldTypeV::CollectionInt64,
            FieldType::CollectionSingle => FieldTypeV::CollectionSingle,
            FieldType::CollectionDouble => FieldTypeV::CollectionDouble,
            FieldType::CollectionHalf => FieldTypeV::CollectionHalf,
            FieldType::CollectionBoolean => FieldTypeV::CollectionBoolean,
            FieldType::CollectionDateTimeOffset => FieldTypeV::CollectionDateTimeOffset,
            FieldType::CollectionGuid => FieldTypeV::CollectionGuid,
            FieldType::CollectionInt8 => FieldTypeV::CollectionInt8,
            FieldType::CollectionInt16 => FieldTypeV::CollectionInt16,
            FieldType::CollectionBinary => FieldTypeV::CollectionBinary,
            FieldType::CollectionComplexType => FieldTypeV::CollectionComplexType,
            FieldType::Unknown(raw) => FieldTypeV::Unknown(raw@),
        }
    }
}

impl FieldTypeV {
    /// The canonical `Edm.*` spelling.
    pub open spec fn name(self) -> Seq<char> {
        match self {
            FieldTypeV::String => "Edm.String"@,
            FieldTypeV::Int32 => "Edm.Int32"@,
            FieldTypeV::Int64 => "Edm.Int64"@,
            FieldTypeV::Single => "Edm.Single"@,
            FieldTypeV::Double => "Edm.Double"@,
            FieldTypeV::Boolean => "Edm.Boolean"@,
            FieldTypeV::DateTimeOffset => "Edm.DateTimeOffset"@,
            FieldTypeV::Guid => "Edm.Guid"@,
            FieldTypeV::GeographyPoint => "Edm.GeographyPoint"@,
            FieldTypeV::Int8 => "Edm.Int8"@,
            FieldTypeV::Int16 => "Edm.Int16"@,
            FieldTypeV::Time => "Edm.Time"@,
            FieldTypeV::Duration => "Edm.Duration"@,
            FieldTypeV::Binary => "Edm.Binary"@,
            FieldTypeV::ComplexType => "Edm.ComplexType"@,
            FieldTypeV::Half => "Edm.Half"@,
            FieldTypeV::CollectionString => "Edm.Collection(Edm.String)"@,
            FieldTypeV::CollectionInt32 => "Edm.Collection(Edm.Int32)"@,
            FieldTypeV::CollectionInt64 => "Edm.Collection(Edm.Int64)"@,
            FieldTypeV::CollectionSingle => "Edm.Collection(Edm.Single)"@,
            FieldTypeV::CollectionDouble => "Edm.Collection(Edm.Double)"@,
            FieldTypeV::CollectionHalf => "Edm.Collection(Edm.Half)"@,
            FieldTypeV::CollectionBoolean => "Edm.Collection(Edm.Boolean)"@,
            FieldTypeV::CollectionDateTimeOffset => "Edm.Collection(Edm.DateTimeOffset)"@,
            FieldTypeV::CollectionGuid => "Edm.Collection(Edm.Guid)"@,
            FieldTypeV::CollectionInt8 => "Edm.Collection(Edm.Int8)"@,
            FieldTypeV::CollectionInt16 => "Edm.Collection(Edm.Int16)"@,
            FieldTypeV::CollectionBinary => "Edm.Collection(Edm.Binary)"@,
            FieldTypeV::CollectionComplexType => "Edm.Collection(Edm.ComplexType)"@,
            FieldTypeV::Unknown(raw) => raw,
        }
    }

    /// The element type of a collection type.
    pub open spec fn inner(self) -> Option<FieldTypeV> {
        match self {
            FieldTypeV::CollectionString => Some(FieldTypeV::String),
            FieldTypeV::CollectionInt32 => Some(FieldTypeV::Int32),
            FieldTypeV::CollectionInt64 => Some(FieldTypeV::Int64),
            FieldTypeV::CollectionSingle => Some(FieldTypeV::Single),
            FieldTypeV::CollectionDouble => Some(FieldTypeV::Double),
            FieldTypeV::CollectionHalf => Some(FieldTypeV::Half),
            FieldTypeV::CollectionBoolean => Some(FieldTypeV::Boolean),
            FieldTypeV::CollectionDateTimeOffset => Some(FieldTypeV::DateTimeOffset),
            FieldTypeV::CollectionGuid => Some(FieldTypeV::Guid),
            FieldTypeV::CollectionInt8 => Some(FieldTypeV::Int8),
            FieldTypeV::CollectionInt16 => Some(FieldTypeV::Int16),
            FieldTypeV::CollectionBinary => Some(FieldTypeV::Binary),
            FieldTypeV::CollectionComplexType => Some(FieldTypeV::ComplexType),
            _ => None,
        }
    }

    pub open spec fn complex(self) -> bool {
        self is ComplexType || self is CollectionComplexType
    }

    pub open spec fn equality_only(self) -> bool {
        self is Duration || self is Binary || self is CollectionBinary
    }

    /// Whether the type can back a vector field.
    pub open spec fn vector(self) -> bool {
        self is CollectionSingle || self is CollectionHalf
    }
}

/// The type that a normalized spelling names; the SDKs serialize `Edm.Int8` as
/// `Edm.SByte`.
pub open spec fn type_named(raw: Seq<char>) -> FieldTypeV {
    if raw == "Edm.String"@ {
        FieldTypeV::String
    } else if raw == "Edm.Int32"@ {
        FieldTypeV::Int32
    } else if raw == "Edm.Int64"@ {
        FieldTypeV::Int64
    } else if raw == "Edm.Single"@ {
        FieldTypeV::Single
    } else if raw == "Edm.Double"@ {
        FieldTypeV::Double
    } else if raw == "Edm.Boolean"@ {
        FieldTypeV::Boolean
    } else if raw == "Edm.DateTimeOffset"@ {
        FieldTypeV::DateTimeOffset
    } else if raw == "Edm.Guid"@ {
        FieldTypeV::Guid
    } else if raw == "Edm.GeographyPoint"@ {
        FieldTypeV::GeographyPoint
    } else if raw == "Edm.Int8"@ || raw == "Edm.SByte"@ {
        FieldTypeV::Int8
    } else if raw == "Edm.Int16"@ {
        FieldTypeV::Int16
    } else if raw == "Edm.Time"@ {
        FieldTypeV::Time
    } else if raw == "Edm.Duration"@ {
        FieldTypeV::Duration
    } else if raw == "Edm.Binary"@ {
        FieldTypeV::Binary
    } else if raw == "Edm.ComplexType"@ {
        FieldTypeV::ComplexType
    } else if raw == "Edm.Half"@ {
        FieldTypeV::Half
    } else if raw == "Edm.Collection(Edm.String)"@ {
        FieldTypeV::CollectionString
    } else if raw == "Edm.Collection(Edm.Int32)"@ {
        FieldTypeV::CollectionInt32
    } else if raw == "Edm.Collection(Edm.Int64)"@ {
        FieldTypeV::CollectionInt64
    } else if raw == "Edm.Collection(Edm.Single)"@ {
        FieldTypeV::CollectionSingle
    } else if raw == "Edm.Collection(Edm.Double)"@ {
        FieldTypeV::CollectionDouble
    } else if raw == "Edm.Collection(Edm.Half)"@ {
        FieldTypeV::CollectionHalf
    } else if raw == "Edm.Collection(Edm.Boolean)"@ {
        FieldTypeV::CollectionBoolean
    } else if raw == "Edm.Collection(Edm.DateTimeOffset)"@ {
        FieldTypeV::CollectionDateTimeOffset
    } else if raw == "Edm.Collection(Edm.Guid)"@ {
        FieldTypeV::CollectionGuid
    } else if raw == "Edm.Collection(Edm.Int8)"@ || raw == "Edm.Collection(Edm.SByte)"@ {
        FieldTypeV::CollectionInt8
    } else if raw == "Edm.Collection(Edm.Int16)"@ {
        FieldTypeV::CollectionInt16
    } else if raw == "Edm.Collection(Edm.Binary)"@ {
        FieldTypeV::CollectionBinary
    } else if raw == "Edm.Collection(Edm.ComplexType)"@ {
        FieldTypeV::CollectionComplexType
    } else {
        FieldTypeV::Unknown(raw)
    }
}

impl FieldType {
    /// The canonical `Edm.*` spelling (the stored string for `Unknown`).
    pub(crate) fn name(&self) -> (r: &str)
        ensures
            r@ == self@.name(),
    {
        match self {
            FieldType::String => "Edm.String",
            FieldType::Int32 => "Edm.Int32",
            FieldType::Int64 => "Edm.Int64",
            FieldType::Single => "Edm.Single",
            FieldType::Double => "Edm.Double",
            FieldType::Boolean => "Edm.Boolean",
            FieldType::DateTimeOffset => "Edm.DateTimeOffset",
            FieldType::Guid => "Edm.Guid",
            FieldType::GeographyPoint => "Edm.GeographyPoint",
            FieldType::Int8 => "Edm.Int8",
            FieldType::Int16 => "Edm.Int16",
            FieldType::Time => "Edm.Time",
            FieldType::Duration => "Edm.Duration",
            FieldType::Binary => "Edm.Binary",
            FieldType::ComplexType => "Edm.ComplexType",
            FieldType::Half => "Edm.Half",
            FieldType::CollectionString => "Edm.Collection(Edm.String)",
            FieldType::CollectionInt32 => "Edm.Collection(Edm.Int32)",
            FieldType::CollectionInt64 => "Edm.Collection(Edm.Int64)",
            FieldType::CollectionSingle => "Edm.Collection(Edm.Single)",
            FieldType::CollectionDouble => "Edm.Collection(Edm.Double)",
            FieldType::CollectionHalf => "Edm.Collection(Edm.Half)",
            FieldType::CollectionBoolean => "Edm.Collection(Edm.Boolean)",
            FieldType::CollectionDateTimeOffset => "Edm.Collection(Edm.DateTimeOffset)",
            FieldType::CollectionGuid => "Edm.Collection(Edm.Guid)",
            FieldType::CollectionInt8 => "Edm.Collection(Edm.Int8)",
            FieldType::CollectionInt16 => "Edm.Collection(Edm.Int16)",
            FieldType::CollectionBinary => "Edm.Collection(Edm.Binary)",
            FieldType::CollectionComplexType => "Edm.Collection(Edm.ComplexType)",
            FieldType::Unknown(raw) => raw.as_str(),
        }
    }

    /// The canonical `Edm.*` spelling (the stored string for `Unknown`), for
    /// echo in error messages.
    pub fn as_str(&self) -> (r: Cow<'_, str>)
        ensures
            r@ == self@.name(),
    {
        Cow::Borrowed(self.name())
    }

    /// Parses a normalized `Edm.*` spelling into a variant; unrecognized
    /// spellings are preserved in [`FieldType::Unknown`].
    pub fn from_normalized(raw: &str) -> (r: FieldType)
        ensures
            r@ == type_named(raw@),
    {
        if same_text(raw, "Edm.String") {
            FieldType::String
        } else if same_text(raw, "Edm.Int32") {
            FieldType::Int32
        } else if same_text(raw, "Edm.Int64") {
            FieldType::Int64
        } else if same_text(raw, "Edm.Single") {
            FieldType::Single
        } else if same_text(raw, "Edm.Double") {
            FieldType::Double
        } else if same_text(raw, "Edm.Boolean") {
            FieldType::Boolean
        } else if same_text(raw, "Edm.DateTimeOffset") {
            FieldType::DateTimeOffset
        } else if same_text(raw, "Edm.Guid") {
            FieldType::Guid
        } else if same_text(raw, "Edm.GeographyPoint") {
            FieldType::GeographyPoint
        } else if same_text(raw, "Edm.Int8") || same_text(raw, "Edm.SByte") {
            FieldType::Int8
        } else if same_text(raw, "Edm.Int16") {
            FieldType::Int16
        } else if same_text(raw, "Edm.Time") {
            FieldType::Time
        } else if same_text(raw, "Edm.Duration") {
            FieldType::Duration
        } else if same_text(raw, "Edm.Binary") {
            FieldType::Binary
        } else if same_text(raw, "Edm.ComplexType") {
            FieldType::ComplexType
        } else if same_text(raw, "Edm.Half") {
            FieldType::Half
        } else if same_text(raw, "Edm.Collection(Edm.String)") {
            FieldType::CollectionString
        } else if same_text(raw, "Edm.Collection(Edm.Int32)") {
            FieldType::CollectionInt32
        } else if same_text(raw, "Edm.Collection(Edm.Int64)") {
            FieldType::CollectionInt64
        } else if same_text(raw, "Edm.Collection(Edm.Single)") {
            FieldType::CollectionSingle
        } else if same_text(raw, "Edm.Collection(Edm.Double)") {
            FieldType::CollectionDouble
        } else if same_text(raw, "Edm.Collection(Edm.Half)") {
            FieldType::CollectionHalf
        } else if same_text(raw, "Edm.Collection(Edm.Boolean)") {
            FieldType::CollectionBoolean
        } else if same_text(raw, "Edm.Collection(Edm.DateTimeOffset)") {
            FieldType::CollectionDateTimeOffset
        } else if same_text(raw, "Edm.Collection(Edm.Guid)") {
            FieldType::CollectionGuid
        } else if same_text(raw, "Edm.Collection(Edm.Int8)") || same_text(raw, "Edm.Collection(Edm.SByte)") {
            FieldType::CollectionInt8
        } else if same_text(raw, "Edm.Collection(Edm.Int16)") {
            FieldType::CollectionInt16
        } else if same_text(raw, "Edm.Collection(Edm.Binary)") {
            FieldType::CollectionBinary
        } else if same_text(raw, "Edm.Collection(Edm.ComplexType)") {
            FieldType::CollectionComplexType
        } else {
            FieldType::Unknown(raw.to_owned())
        }
    }

    /// The element type for a collection field, `None` for scalar types.
    pub fn inner_type(&self) -> (r: Option<FieldType>)
        ensures
            match r {
                Some(t) => self@.inner() == Some(t@),
                None => self@.inner() is None,
            },
    {
        match self {
            FieldType::CollectionString => Some(FieldType::String),
            FieldType::CollectionInt32 => Some(FieldType::Int32),
            FieldType::CollectionInt64 => Some(FieldType::Int64),
            FieldType::CollectionSingle => Some(FieldType::Single),
            FieldType::CollectionDouble => Some(FieldType::Double),
            FieldType::CollectionHalf => Some(FieldType::Half),
            FieldType::CollectionBoolean => Some(FieldType::Boolean),
            FieldType::CollectionDateTimeOffset => Some(FieldType::DateTimeOffset),
            FieldType::CollectionGuid => Some(FieldType::Guid),
            FieldType::CollectionInt8 => Some(FieldType::Int8),
            FieldType::CollectionInt16 => Some(FieldType::Int16),
            FieldType::CollectionBinary => Some(FieldType::Binary),
            FieldType::CollectionComplexType => Some(FieldType::ComplexType),
            _ => None,
        }
    }

    /// Whether this is a collection (`Edm.Collection(...)`) type.
    pub fn is_collection(&self) -> (r: bool)
        ensures
            r == self@.inner() is Some,
    {
        self.inner_type().is_some()
    }

    /// Whether this is a complex type (scalar or collection of complex).
    pub fn is_complex_type(&self) -> (r: bool)
        ensures
            r == self@.complex(),
    {
        matches!(self, FieldType::ComplexType | FieldType::CollectionComplexType)
    }

    /// Whether this type supports only `eq`/`ne` filters (ordering
    /// comparisons are ambiguous): `Edm.Duration` and `Edm.Binary` (scalar
    /// or collection forms).
    pub fn is_equality_only(&self) -> (r: bool)
        ensures
            r == self@.equality_only(),
    {
        matches!(self, FieldType::Duration | FieldType::Binary | FieldType::CollectionBinary)
    }

    /// Whether this type can back a vector field.
    pub fn is_vector_field_type(&self) -> (r: bool)
        ensures
            r == self@.vector(),
    {
        matches!(self, FieldType::CollectionSingle | FieldType::CollectionHalf)
    }

    pub fn duplicate(&self) -> (r: FieldType)
        ensures
            r@ == self@,
    {
        match self {
            FieldType::String => FieldType::String,
            FieldType::Int32 => FieldType::Int32,
            FieldType::Int64 => FieldType::Int64,
            FieldType::Single => FieldType::Single,
            FieldType::Double => FieldType::Double,
            FieldType::Boolean => FieldType::Boolean,
            FieldType::DateTimeOffset => FieldType::DateTimeOffset,
            FieldType::Guid => FieldType::Guid,
            FieldType::GeographyPoint => FieldType::GeographyPoint,
            FieldType::Int8 => FieldType::Int8,
            FieldType::Int16 => FieldType::Int16,
            FieldType::Time => FieldType::Time,
            FieldType::Duration => FieldType::Duration,
            FieldType::Binary => FieldType::Binary,
            FieldType::ComplexType => FieldType::ComplexType,
            FieldType::Half => FieldType::Half,
            FieldType::CollectionString => FieldType::CollectionString,
            FieldType::CollectionInt32 => FieldType::CollectionInt32,
            FieldType::CollectionInt64 => FieldType::CollectionInt64,
            FieldType::CollectionSingle => FieldType::CollectionSingle,
            FieldType::CollectionDouble => FieldType::CollectionDouble,
            FieldType::CollectionHalf => FieldType::CollectionHalf,
            FieldType::CollectionBoolean => FieldType::CollectionBoolean,
            FieldType::CollectionDateTimeOffset => FieldType::CollectionDateTimeOffset,
            FieldType::CollectionGuid => FieldType::CollectionGuid,
            FieldType::CollectionInt8 => FieldType::CollectionInt8,
            FieldType::CollectionInt16 => FieldType::CollectionInt16,
            FieldType::CollectionBinary => FieldType::CollectionBinary,
            FieldType::CollectionComplexType => FieldType::CollectionComplexType,
            FieldType::Unknown(raw) => FieldType::Unknown(raw.clone()),
        }
    }

    /// Whether two types are the same.
    pub fn same(&self, other: &FieldType) -> (r: bool)
        ensures
            r == (self@ == other@),
    {
        match (self, other) {
            (FieldType::String, FieldType::String) => true,
            (FieldType::Int32, FieldType::Int32) => true,
            (FieldType::Int64, FieldType::Int64) => true,
            (FieldType::Single, FieldType::Single) => true,
            (FieldType::Double, FieldType::Double) => true,
            (FieldType::Boolean, FieldType::Boolean) => true,
            (FieldType::DateTimeOffset, FieldType::DateTimeOffset) => true,
            (FieldType::Guid, FieldType::Guid) => true,
            (FieldType::GeographyPoint, FieldType::GeographyPoint) => true,
            (FieldType::Int8, FieldType::Int8) => true,
            (FieldType::Int16, FieldType::Int16) => true,
            (FieldType::Time, FieldType::Time) => true,
            (FieldType::Duration, FieldType::Duration) => true,
            (FieldType::Binary, FieldType::Binary) => true,
            (FieldType::ComplexType, FieldType::ComplexType) => true,
            (FieldType::Half, FieldType::Half) => true,
            (FieldType::CollectionString, FieldType::CollectionString) => true,
            (FieldType::CollectionInt32, FieldType::CollectionInt32) => true,
            (FieldType::CollectionInt64, FieldType::CollectionInt64) => true,
            (FieldType::CollectionSingle, FieldType::CollectionSingle) => true,
            (FieldType::CollectionDouble, FieldType::CollectionDouble) => true,
            (FieldType::CollectionHalf, FieldType::CollectionHalf) => true,
            (FieldType::CollectionBoolean, FieldType::CollectionBoolean) => true,
            (FieldType::CollectionDateTimeOffset, FieldType::CollectionDateTimeOffset) => true,
            (FieldType::CollectionGuid, FieldType::CollectionGuid) => true,
            (FieldType::CollectionInt8, FieldType::CollectionInt8) => true,
            (FieldType::CollectionInt16, FieldType::CollectionInt16) => true,
            (FieldType::CollectionBinary, FieldType::CollectionBinary) => true,
            (FieldType::CollectionComplexType, FieldType::CollectionComplexType) => true,
            (FieldType::Unknown(a), FieldType::Unknown(b)) => same_text(a.as_str(), b.as_str()),
            _ => false,
        }
    }
}

/// The canonical form of a type spelling: the SDK writes collection types as
/// `Collection(Edm.String)`, without the `Edm.` prefix.
pub open spec fn normalized_type(spelling: Seq<char>) -> Seq<char> {
    match after_prefix(spelling, "Collection("@) {
        Some(rest) => match before_suffix(rest, ")"@) {
            Some(inner) => "Edm.Collection("@ + inner + ")"@,
            None => spelling,
        },
        None => spelling,
    }
}

/// Normalizes a field type to the canonical `Edm.*` form. The SDK serializes
/// collection types as `Collection(Edm.String)` (without the `Edm.` prefix),
/// while the documented REST form is `Edm.Collection(Edm.String)`; both are
/// accepted and normalized so downstream code only handles one shape.
pub fn normalize_field_type(field_type: &str) -> (r: String)
    ensures
        r@ == normalized_type(field_type@),
{
    if let Some(rest) = strip_prefix(field_type, "Collection(") {
        if let Some(inner) = strip_suffix(rest.as_str(), ")") {
            return cat3("Edm.Collection(", inner.as_str(), ")");
        }
    }
    field_type.to_owned()
}

/// Reading a type's canonical spelling gives the type back; of an unknown type,
/// where its spelling is unknown.
pub proof fn law_type_name_round_trip(t: FieldTypeV)
    requires
        t is Unknown ==> type_named(t->Unknown_0) is Unknown,
    ensures
        type_named(t.name()) == t,
{
    reveal_strlit("Edm.String");
    assert("Edm.String"@.len() == 10);
    reveal_strlit("Edm.Int32");
    assert("Edm.Int32"@.len() == 9);
    reveal_strlit("Edm.Int64");
    assert("Edm.Int64"@.len() == 9);
    reveal_strlit("Edm.Single");
    assert("Edm.Single"@.len() == 10);
    reveal_strlit("Edm.Double");
    assert("Edm.Double"@.len() == 10);
    reveal_strlit("Edm.Boolean");
    assert("Edm.Boolean"@.len() == 11);
    reveal_strlit("Edm.DateTimeOffset");
    assert("Edm.DateTimeOffset"@.len() == 18);
    reveal_strlit("Edm.Guid");
    assert("Edm.Guid"@.len() == 8);
    reveal_strlit("Edm.GeographyPoint");
    assert("Edm.GeographyPoint"@.len() == 18);
    reveal_strlit("Edm.Int8");
    assert("Edm.Int8"@.len() == 8);
    reveal_strlit("Edm.Int16");
    assert("Edm.Int16"@.len() == 9);
    reveal_strlit("Edm.Time");
    assert("Edm.Time"@.len() == 8);
    reveal_strlit("Edm.Duration");
    assert("Edm.Duration"@.len() == 12);
    reveal_strlit("Edm.Binary");
    assert("Edm.Binary"@.len() == 10);
    reveal_strlit("Edm.ComplexType");
    assert("Edm.ComplexType"@.len() == 15);
    reveal_strlit("Edm.Half");
    assert("Edm.Half"@.len() == 8);
    reveal_strlit("Edm.Collection(Edm.String)");
    assert("Edm.Collection(Edm.String)"@.len() == 26);
    reveal_strlit("Edm.Collection(Edm.Int32)");
    assert("Edm.Collection(Edm.Int32)"@.len() == 25);
    reveal_strlit("Edm.Collection(Edm.Int64)");
    assert("Edm.Collection(Edm.Int64)"@.len() == 25);
    reveal_strlit("Edm.Collection(Edm.Single)");
    assert("Edm.Collection(Edm.Single)"@.len() == 26);
    reveal_strlit("Edm.Collection(Edm.Double)");
    assert("Edm.Collection(Edm.Double)"@.len() == 26);
    reveal_strlit("Edm.Collection(Edm.Half)");
    assert("Edm.Collection(Edm.Half)"@.len() == 24);
    reveal_strlit("Edm.Collection(Edm.Boolean)");
    assert("Edm.Collection(Edm.Boolean)"@.len() == 27);
    reveal_strlit("Edm.Collection(Edm.DateTimeOffset)");
    assert("Edm.Collection(Edm.DateTimeOffset)"@.len() == 34);
    reveal_strlit("Edm.Collection(Edm.Guid)");
    assert("Edm.Collection(Edm.Guid)"@.len() == 24);
    reveal_strlit("Edm.Collection(Edm.Int8)");
    assert("Edm.Collection(Edm.Int8)"@.len() == 24);
    reveal_strlit("Edm.Collection(Edm.Int16)");
    assert("Edm.Collection(Edm.Int16)"@.len() == 25);
    reveal_strlit("Edm.Collection(Edm.Binary)");
    assert("Edm.Collection(Edm.Binary)"@.len() == 26);
    reveal_strlit("Edm.Collection(Edm.ComplexType)");
    assert("Edm.Collection(Edm.ComplexType)"@.len() == 31);
    reveal_strlit("Edm.SByte");
    assert("Edm.SByte"@.len() == 9);
    reveal_strlit("Edm.Collection(Edm.SByte)");
    assert("Edm.Collection(Edm.SByte)"@.len() == 25);
    assert("Edm.String"@[5] != "Edm.Single"@[5]);
    assert("Edm.String"@[4] != "Edm.Double"@[4]);
    assert("Edm.String"@[4] != "Edm.Binary"@[4]);
    assert("Edm.Int32"@[7] != "Edm.Int64"@[7]);
    assert("Edm.Int32"@[7] != "Edm.Int16"@[7]);
    assert("Edm.Int32"@[4] != "Edm.SByte"@[4]);
    assert("Edm.Int64"@[7] != "Edm.Int16"@[7]);
    assert("Edm.Int64"@[4] != "Edm.SByte"@[4]);
    assert("Edm.Single"@[4] != "Edm.Double"@[4]);
    assert("Edm.Single"@[4] != "Edm.Binary"@[4]);
    assert("Edm.Double"@[4] != "Edm.Binary"@[4]);
    assert("Edm.DateTimeOffset"@[4] != "Edm.GeographyPoint"@[4]);
    assert("Edm.Guid"@[4] != "Edm.Int8"@[4]);
    assert("Edm.Guid"@[4] != "Edm.Time"@[4]);
    assert("Edm.Guid"@[4] != "Edm.Half"@[4]);
    assert("Edm.Int8"@[4] != "Edm.Time"@[4]);
    assert("Edm.Int8"@[4] != "Edm.Half"@[4]);
    assert("Edm.Int16"@[4] != "Edm.SByte"@[4]);
    assert("Edm.Time"@[4] != "Edm.Half"@[4]);
    assert("Edm.Collection(Edm.String)"@[20] != "Edm.Collection(Edm.Single)"@[20]);
    assert("Edm.Collection(Edm.String)"@[19] != "Edm.Collection(Edm.Double)"@[19]);
    assert("Edm.Collection(Edm.String)"@[19] != "Edm.Collection(Edm.Binary)"@[19]);
    assert("Edm.Collection(Edm.Int32)"@[22] != "Edm.Collection(Edm.Int64)"@[22]);
    assert("Edm.Collection(Edm.Int32)"@[22] != "Edm.Collection(Edm.Int16)"@[22]);
    assert("Edm.Collection(Edm.Int32)"@[19] != "Edm.Collection(Edm.SByte)"@[19]);
    assert("Edm.Collection(Edm.Int64)"@[22] != "Edm.Collection(Edm.Int16)"@[22]);
    assert("Edm.Collection(Edm.Int64)"@[19] != "Edm.Collection(Edm.SByte)"@[19]);
    assert("Edm.Collection(Edm.Single)"@[19] != "Edm.Collection(Edm.Double)"@[19]);
    assert("Edm.Collection(Edm.Single)"@[19] != "Edm.Collection(Edm.Binary)"@[19]);
    assert("Edm.Collection(Edm.Double)"@[19] != "Edm.Collection(Edm.Binary)"@[19]);
    assert("Edm.Collection(Edm.Half)"@[19] != "Edm.Collection(Edm.Guid)"@[19]);
    assert("Edm.Collection(Edm.Half)"@[19] != "Edm.Collection(Edm.Int8)"@[19]);
    assert("Edm.Collection(Edm.Guid)"@[19] != "Edm.Collection(Edm.Int8)"@[19]);
    assert("Edm.Collection(Edm.Int16)"@[19] != "Edm.Collection(Edm.SByte)"@[19]);
}

/// The element type of a collection is no collection, and every vector type is
/// a collection.
pub proof fn law_collections_do_not_nest(t: FieldTypeV)
    ensures
        t.inner() is Some ==> t.inner()->Some_0.inner() is None,
        t.vector() ==> t.inner() is Some,
        t.complex() && t.inner() is Some ==> t.inner()->Some_0.complex(),
{
}

} // verus!
