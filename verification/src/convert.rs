//! Value-marshaling model: the dispatch tables that decide how a
//! script value and a native domain variant convert into one another,
//! and the binary-safe encoding of opaque byte buffers.  The numeric
//! casts themselves and the userdata construction are the host's
//! work; the decisions and the byte encoding are decided here.

use vstd::prelude::*;
use vstd::string::StringExecFns;

use crate::errors::ConversionError;
use crate::ScriptValue;

verus! {

/// The kind of a script value, as the dispatch reads it.
#[derive(Clone, Copy, PartialEq, Eq, Debug)]
pub enum LuaKind {
    Nil,
    Boolean,
    LightUserData,
    Integer,
    Number,
    Vector,
    Str,
    Table,
    Function,
    Thread,
    UserData,
    Other,
}

/// The name of a script-value kind, as the scripting language spells
/// it (integers and numbers are both "number").
pub open spec fn spec_lua_kind_name(k: LuaKind) -> Seq<char> {
    match k {
        LuaKind::Nil => "nil"@,
        LuaKind::Boolean => "boolean"@,
        LuaKind::LightUserData => "lightuserdata"@,
        LuaKind::Integer => "number"@,
        LuaKind::Number => "number"@,
        LuaKind::Vector => "vector"@,
        LuaKind::Str => "string"@,
        LuaKind::Table => "table"@,
        LuaKind::Function => "function"@,
        LuaKind::Thread => "thread"@,
        LuaKind::UserData => "userdata"@,
        LuaKind::Other => "unknown"@,
    }
}

/// The name of a script-value kind.
pub fn lua_kind_name(k: LuaKind) -> (r: String)
    ensures
        r@ == spec_lua_kind_name(k),
{
    match k {
        LuaKind::Nil => String::from_str("nil"),
        LuaKind::Boolean => String::from_str("boolean"),
        LuaKind::LightUserData => String::from_str("lightuserdata"),
        LuaKind::Integer => String::from_str("number"),
        LuaKind::Number => String::from_str("number"),
        LuaKind::Vector => String::from_str("vector"),
        LuaKind::Str => String::from_str("string"),
        LuaKind::Table => String::from_str("table"),
        LuaKind::Function => String::from_str("function"),
        LuaKind::Thread => String::from_str("thread"),
        LuaKind::UserData => String::from_str("userdata"),
        LuaKind::Other => String::from_str("unknown"),
    }
}

/// The kind of a native domain variant.
#[derive(Clone, Copy, PartialEq, Eq, Debug)]
pub enum VariantKind {
    Bool,
    Int64,
    Int32,
    Float64,
    Float32,
    Str,
    Content,
    BinaryString,
    PhysicalProperties,
    Axes,
    Faces,
    CFrame,
    BrickColor,
    Color3,
    Color3uint8,
    ColorSequence,
    Enum,
    Font,
    NumberRange,
    NumberSequence,
    Ray,
    Rect,
    UDim,
    UDim2,
    Region3,
    Region3int16,
    Vector2,
    Vector2int16,
    Vector3,
    Vector3int16,
    OptionalCFrame,
    Other,
}

/// The name of a native variant kind, as the domain library spells
/// it.
pub open spec fn spec_variant_kind_name(t: VariantKind) -> Seq<char> {
    match t {
        VariantKind::Bool => "Bool"@,
        VariantKind::Int64 => "Int64"@,
        VariantKind::Int32 => "Int32"@,
        VariantKind::Float64 => "Float64"@,
        VariantKind::Float32 => "Float32"@,
        VariantKind::Str => "String"@,
        VariantKind::Content => "Content"@,
        VariantKind::BinaryString => "BinaryString"@,
        VariantKind::PhysicalProperties => "PhysicalProperties"@,
        VariantKind::Axes => "Axes"@,
        VariantKind::Faces => "Faces"@,
        VariantKind::CFrame => "CFrame"@,
        VariantKind::BrickColor => "BrickColor"@,
        VariantKind::Color3 => "Color3"@,
        VariantKind::Color3uint8 => "Color3uint8"@,
        VariantKind::ColorSequence => "ColorSequence"@,
        VariantKind::Enum => "Enum"@,
        VariantKind::Font => "Font"@,
        VariantKind::NumberRange => "NumberRange"@,
        VariantKind::NumberSequence => "NumberSequence"@,
        VariantKind::Ray => "Ray"@,
        VariantKind::Rect => "Rect"@,
        VariantKind::UDim => "UDim"@,
        VariantKind::UDim2 => "UDim2"@,
        VariantKind::Region3 => "Region3"@,
        VariantKind::Region3int16 => "Region3int16"@,
        VariantKind::Vector2 => "Vector2"@,
        VariantKind::Vector2int16 => "Vector2int16"@,
        VariantKind::Vector3 => "Vector3"@,
        VariantKind::Vector3int16 => "Vector3int16"@,
        VariantKind::OptionalCFrame => "OptionalCFrame"@,
        VariantKind::Other => "unknown"@,
    }
}

/// The name of a native variant kind.
pub fn variant_kind_name(t: VariantKind) -> (r: String)
    ensures
        r@ == spec_variant_kind_name(t),
{
    match t {
        VariantKind::Bool => String::from_str("Bool"),
        VariantKind::Int64 => String::from_str("Int64"),
        VariantKind::Int32 => String::from_str("Int32"),
        VariantKind::Float64 => String::from_str("Float64"),
        VariantKind::Float32 => String::from_str("Float32"),
        VariantKind::Str => String::from_str("String"),
        VariantKind::Content => String::from_str("Content"),
        VariantKind::BinaryString => String::from_str("BinaryString"),
        VariantKind::PhysicalProperties => String::from_str("PhysicalProperties"),
        VariantKind::Axes => String::from_str("Axes"),
        VariantKind::Faces => String::from_str("Faces"),
        VariantKind::CFrame => String::from_str("CFrame"),
        VariantKind::BrickColor => String::from_str("BrickColor"),
        VariantKind::Color3 => String::from_str("Color3"),
        VariantKind::Color3uint8 => String::from_str("Color3uint8"),
        VariantKind::ColorSequence => String::from_str("ColorSequence"),
        VariantKind::Enum => String::from_str("Enum"),
        VariantKind::Font => String::from_str("Font"),
        VariantKind::NumberRange => String::from_str("NumberRange"),
        VariantKind::NumberSequence => String::from_str("NumberSequence"),
        VariantKind::Ray => String::from_str("Ray"),
        VariantKind::Rect => String::from_str("Rect"),
        VariantKind::UDim => String::from_str("UDim"),
        VariantKind::UDim2 => String::from_str("UDim2"),
        VariantKind::Region3 => String::from_str("Region3"),
        VariantKind::Region3int16 => String::from_str("Region3int16"),
        VariantKind::Vector2 => String::from_str("Vector2"),
        VariantKind::Vector2int16 => String::from_str("Vector2int16"),
        VariantKind::Vector3 => String::from_str("Vector3"),
        VariantKind::Vector3int16 => String::from_str("Vector3int16"),
        VariantKind::OptionalCFrame => String::from_str("OptionalCFrame"),
        VariantKind::Other => String::from_str("unknown"),
    }
}

/// How a script value converts into a native variant of a requested
/// kind.
#[derive(Clone, Copy, PartialEq, Eq, Debug)]
pub enum ToVariantPlan {
    /// A primitive the host converts directly (booleans, numeric
    /// casts, plain strings).
    Direct,
    /// A string decoded from the binary-safe base64 form.
    DecodeBase64,
    /// Nil stands for the default physical properties.
    NilPhysicalDefault,
    /// Delegated to the userdata datatype conversion.
    ViaUserdata,
    /// No conversion exists; the error carries both kind names.
    Unsupported,
}

/// The dispatch table for converting a script value into a native
/// variant: which pairs of kinds convert, and how.
pub open spec fn spec_to_variant_plan(k: LuaKind, t: VariantKind) -> ToVariantPlan {
    match (k, t) {
        (LuaKind::Boolean, VariantKind::Bool) => ToVariantPlan::Direct,
        (LuaKind::Integer, VariantKind::Int64) => ToVariantPlan::Direct,
        (LuaKind::Integer, VariantKind::Int32) => ToVariantPlan::Direct,
        (LuaKind::Integer, VariantKind::Float64) => ToVariantPlan::Direct,
        (LuaKind::Integer, VariantKind::Float32) => ToVariantPlan::Direct,
        (LuaKind::Number, VariantKind::Int64) => ToVariantPlan::Direct,
        (LuaKind::Number, VariantKind::Int32) => ToVariantPlan::Direct,
        (LuaKind::Number, VariantKind::Float64) => ToVariantPlan::Direct,
        (LuaKind::Number, VariantKind::Float32) => ToVariantPlan::Direct,
        (LuaKind::Str, VariantKind::Str) => ToVariantPlan::Direct,
        (LuaKind::Str, VariantKind::Content) => ToVariantPlan::Direct,
        (LuaKind::Str, VariantKind::BinaryString) => ToVariantPlan::DecodeBase64,
        (LuaKind::Nil, VariantKind::PhysicalProperties) => ToVariantPlan::NilPhysicalDefault,
        (LuaKind::UserData, _) => ToVariantPlan::ViaUserdata,
        _ => ToVariantPlan::Unsupported,
    }
}

/// Decides how a script value of kind `k` converts into a native
/// variant of kind `t`, exactly as the dispatch table says.
pub fn to_variant_plan(k: LuaKind, t: VariantKind) -> (r: ToVariantPlan)
    ensures
        r == spec_to_variant_plan(k, t),
{
    match (k, t) {
        (LuaKind::Boolean, VariantKind::Bool) => ToVariantPlan::Direct,
        (LuaKind::Integer, VariantKind::Int64) => ToVariantPlan::Direct,
        (LuaKind::Integer, VariantKind::Int32) => ToVariantPlan::Direct,
        (LuaKind::Integer, VariantKind::Float64) => ToVariantPlan::Direct,
        (LuaKind::Integer, VariantKind::Float32) => ToVariantPlan::Direct,
        (LuaKind::Number, VariantKind::Int64) => ToVariantPlan::Direct,
        (LuaKind::Number, VariantKind::Int32) => ToVariantPlan::Direct,
        (LuaKind::Number, VariantKind::Float64) => ToVariantPlan::Direct,
        (LuaKind::Number, VariantKind::Float32) => ToVariantPlan::Direct,
        (LuaKind::Str, VariantKind::Str) => ToVariantPlan::Direct,
        (LuaKind::Str, VariantKind::Content) => ToVariantPlan::Direct,
        (LuaKind::Str, VariantKind::BinaryString) => ToVariantPlan::DecodeBase64,
        (LuaKind::Nil, VariantKind::PhysicalProperties) => ToVariantPlan::NilPhysicalDefault,
        (LuaKind::UserData, _) => ToVariantPlan::ViaUserdata,
        _ => ToVariantPlan::Unsupported,
    }
}

/// How a native variant converts into a script value when it is not a
/// userdata datatype.
#[derive(Clone, Copy, PartialEq, Eq, Debug)]
pub enum ToLuaPlan {
    /// A primitive the host converts directly (booleans, numbers,
    /// plain strings).
    Direct,
    /// A byte buffer encoded into the binary-safe base64 form.
    EncodeBase64,
    /// Default physical properties surface as nil.
    DefaultPhysicalNil,
    /// Only a userdata datatype can carry it, or nothing can.
    Unsupported,
}

/// The fallback table for converting a native variant into a script
/// value, used when the userdata datatype conversion declines.
pub open spec fn spec_to_lua_plan(t: VariantKind) -> ToLuaPlan {
    match t {
        VariantKind::Bool => ToLuaPlan::Direct,
        VariantKind::Int64 => ToLuaPlan::Direct,
        VariantKind::Int32 => ToLuaPlan::Direct,
        VariantKind::Float64 => ToLuaPlan::Direct,
        VariantKind::Float32 => ToLuaPlan::Direct,
        VariantKind::Str => ToLuaPlan::Direct,
        VariantKind::Content => ToLuaPlan::Direct,
        VariantKind::BinaryString => ToLuaPlan::EncodeBase64,
        VariantKind::PhysicalProperties => ToLuaPlan::DefaultPhysicalNil,
        _ => ToLuaPlan::Unsupported,
    }
}

/// Decides the fallback conversion of a native variant into a script
/// value, exactly as the fallback table says.
pub fn to_lua_plan(t: VariantKind) -> (r: ToLuaPlan)
    ensures
        r == spec_to_lua_plan(t),
{
    match t {
        VariantKind::Bool => ToLuaPlan::Direct,
        VariantKind::Int64 => ToLuaPlan::Direct,
        VariantKind::Int32 => ToLuaPlan::Direct,
        VariantKind::Float64 => ToLuaPlan::Direct,
        VariantKind::Float32 => ToLuaPlan::Direct,
        VariantKind::Str => ToLuaPlan::Direct,
        VariantKind::Content => ToLuaPlan::Direct,
        VariantKind::BinaryString => ToLuaPlan::EncodeBase64,
        VariantKind::PhysicalProperties => ToLuaPlan::DefaultPhysicalNil,
        _ => ToLuaPlan::Unsupported,
    }
}

/// Which variant kinds a userdata datatype converts into (the
/// datatype table, plus the two special-cased optional and physical
/// forms; the enum kind converts this way only, never back).
pub open spec fn spec_userdata_to_variant_supported(t: VariantKind) -> bool {
    match t {
        VariantKind::Axes => true,
        VariantKind::Faces => true,
        VariantKind::CFrame => true,
        VariantKind::BrickColor => true,
        VariantKind::Color3 => true,
        VariantKind::Color3uint8 => true,
        VariantKind::ColorSequence => true,
        VariantKind::Enum => true,
        VariantKind::Font => true,
        VariantKind::NumberRange => true,
        VariantKind::NumberSequence => true,
        VariantKind::Ray => true,
        VariantKind::Rect => true,
        VariantKind::UDim => true,
        VariantKind::UDim2 => true,
        VariantKind::Region3 => true,
        VariantKind::Region3int16 => true,
        VariantKind::Vector2 => true,
        VariantKind::Vector2int16 => true,
        VariantKind::Vector3 => true,
        VariantKind::Vector3int16 => true,
        VariantKind::OptionalCFrame => true,
        VariantKind::PhysicalProperties => true,
        _ => false,
    }
}

/// Whether a userdata datatype converts into this variant kind.
pub fn userdata_to_variant_supported(t: VariantKind) -> (r: bool)
    ensures
        r == spec_userdata_to_variant_supported(t),
{
    match t {
        VariantKind::Axes => true,
        VariantKind::Faces => true,
        VariantKind::CFrame => true,
        VariantKind::BrickColor => true,
        VariantKind::Color3 => true,
        VariantKind::Color3uint8 => true,
        VariantKind::ColorSequence => true,
        VariantKind::Enum => true,
        VariantKind::Font => true,
        VariantKind::NumberRange => true,
        VariantKind::NumberSequence => true,
        VariantKind::Ray => true,
        VariantKind::Rect => true,
        VariantKind::UDim => true,
        VariantKind::UDim2 => true,
        VariantKind::Region3 => true,
        VariantKind::Region3int16 => true,
        VariantKind::Vector2 => true,
        VariantKind::Vector2int16 => true,
        VariantKind::Vector3 => true,
        VariantKind::Vector3int16 => true,
        VariantKind::OptionalCFrame => true,
        VariantKind::PhysicalProperties => true,
        _ => false,
    }
}

/// Which variant kinds convert into a userdata datatype (as the
/// datatype table goes the other way: no enum — it has its own custom
/// route — and physical properties only when custom).
pub open spec fn spec_variant_to_userdata_supported(t: VariantKind) -> bool {
    match t {
        VariantKind::Axes => true,
        VariantKind::Faces => true,
        VariantKind::CFrame => true,
        VariantKind::BrickColor => true,
        VariantKind::Color3 => true,
        VariantKind::Color3uint8 => true,
        VariantKind::ColorSequence => true,
        VariantKind::Font => true,
        VariantKind::NumberRange => true,
        VariantKind::NumberSequence => true,
        VariantKind::Ray => true,
        VariantKind::Rect => true,
        VariantKind::UDim => true,
        VariantKind::UDim2 => true,
        VariantKind::Region3 => true,
        VariantKind::Region3int16 => true,
        VariantKind::Vector2 => true,
        VariantKind::Vector2int16 => true,
        VariantKind::Vector3 => true,
        VariantKind::Vector3int16 => true,
        VariantKind::OptionalCFrame => true,
        VariantKind::PhysicalProperties => true,
        _ => false,
    }
}

/// Whether this variant kind converts into a userdata datatype.
pub fn variant_to_userdata_supported(t: VariantKind) -> (r: bool)
    ensures
        r == spec_variant_to_userdata_supported(t),
{
    match t {
        VariantKind::Axes => true,
        VariantKind::Faces => true,
        VariantKind::CFrame => true,
        VariantKind::BrickColor => true,
        VariantKind::Color3 => true,
        VariantKind::Color3uint8 => true,
        VariantKind::ColorSequence => true,
        VariantKind::Font => true,
        VariantKind::NumberRange => true,
        VariantKind::NumberSequence => true,
        VariantKind::Ray => true,
        VariantKind::Rect => true,
        VariantKind::UDim => true,
        VariantKind::UDim2 => true,
        VariantKind::Region3 => true,
        VariantKind::Region3int16 => true,
        VariantKind::Vector2 => true,
        VariantKind::Vector2int16 => true,
        VariantKind::Vector3 => true,
        VariantKind::Vector3int16 => true,
        VariantKind::OptionalCFrame => true,
        VariantKind::PhysicalProperties => true,
        _ => false,
    }
}

/// The error a refused script-to-variant conversion carries: both
/// kind names, spelled by the verified name tables, and no detail.
/// Paired with `to_variant_plan`, which is `Unsupported` exactly off
/// the dispatch table, this fixes the whole error for every refused
/// pair.
pub fn to_variant_unsupported_error(k: LuaKind, t: VariantKind) -> (r: ConversionError)
    ensures
        r.from@ == spec_lua_kind_name(k),
        r.to@ == spec_variant_kind_name(t),
        r.detail is None,
{
    ConversionError { from: lua_kind_name(k), to: variant_kind_name(t), detail: None }
}

/// The error a userdata value gets when the requested variant kind
/// has no userdata-backed datatype: the target kind's name, the fixed
/// source name, and the fixed refusal detail, whatever the userdata
/// holds.
pub fn userdata_unsupported_error(t: VariantKind) -> (r: ConversionError)
    ensures
        r.from@ == "userdata"@,
        r.to@ == spec_variant_kind_name(t),
        r.detail matches Some(d) && d@ == "Type not supported"@,
{
    ConversionError {
        from: String::from_str("userdata"),
        to: variant_kind_name(t),
        detail: Some(String::from_str("Type not supported")),
    }
}

/// The error a native variant gets when no userdata datatype can
/// carry it: the source kind's name, the fixed target name, and the
/// fixed refusal detail.
pub fn from_variant_unsupported_error(t: VariantKind) -> (r: ConversionError)
    ensures
        r.from@ == spec_variant_kind_name(t),
        r.to@ == "userdata"@,
        r.detail matches Some(d) && d@ == "Type not supported"@,
{
    ConversionError {
        from: variant_kind_name(t),
        to: String::from_str("userdata"),
        detail: Some(String::from_str("Type not supported")),
    }
}

/// Why borrowing the expected datatype out of a userdata value
/// failed.
#[derive(Clone, PartialEq, Eq, Debug)]
pub enum UserdataFailure {
    /// The userdata holds a different datatype.
    TypeMismatch,
    /// Any other host error, with its text.
    Internal(String),
}

/// Shapes a userdata borrow failure into the conversion error the
/// caller reports: the target type name, the fixed source name, and a
/// detail naming the mismatch or carrying the internal text.
pub fn userdata_conversion_error(to: String, failure: UserdataFailure) -> (r: ConversionError)
    ensures
        r.to == to,
        r.from@ == "userdata"@,
        match failure {
            UserdataFailure::TypeMismatch => r.detail matches Some(d) && d@ == "Type mismatch"@,
            UserdataFailure::Internal(text) => r.detail matches Some(d) && d@ == "Internal error: "@
                + text@,
        },
{
    let from = String::from_str("userdata");
    match failure {
        UserdataFailure::TypeMismatch => ConversionError {
            from,
            to,
            detail: Some(String::from_str("Type mismatch")),
        },
        UserdataFailure::Internal(text) => {
            let mut d = String::from_str("Internal error: ");
            d.append(text.as_str());
            ConversionError { from, to, detail: Some(d) }
        },
    }
}

/// The base64 spelling (standard alphabet, no padding) of a byte
/// buffer.
pub uninterp spec fn b64_of(bytes: Seq<u8>) -> Seq<char>;

/// The length of the base64 spelling of `n` bytes: four characters
/// per three bytes, two or three more for a trailing partial group.
pub open spec fn b64_len(n: nat) -> nat {
    4 * (n / 3) + (if n % 3 == 0 {
        0nat
    } else if n % 3 == 1 {
        2nat
    } else {
        3nat
    })
}

/// Encodes a byte buffer as base64.
///
/// Relies on base64's `Engine::encode` with the `STANDARD_NO_PAD`
/// engine: the output is a function of the input bytes alone, and its
/// length follows the documented `encoded_len` formula without
/// padding.
#[verifier::external_body]
fn b64_encode(bytes: &Vec<u8>) -> (r: String)
    requires
        bytes@.len() <= usize::MAX / 4,
    ensures
        r@ == b64_of(bytes@),
        r@.len() == b64_len(bytes@.len()),
{
    base64::engine::Engine::encode(&base64::engine::general_purpose::STANDARD_NO_PAD, bytes)
}

#[verifier::external_type_specification]
#[verifier::external_body]
pub struct ExDecodeError(base64::DecodeError);

/// Decodes a base64 string back into bytes.
///
/// Relies on base64's `Engine::decode` with the `STANDARD_NO_PAD`
/// engine, which rejects padding and non-zero trailing bits: a
/// successful decode returns exactly the bytes whose (unique,
/// canonical) encoding is the input, and every encoder output decodes
/// successfully.
#[verifier::external_body]
fn b64_decode(s: &str) -> (r: Result<Vec<u8>, base64::DecodeError>)
    ensures
        r matches Ok(b) ==> s@ == b64_of(b@),
        r matches Ok(b) ==> forall|x: Seq<u8>| s@ == b64_of(x) ==> x == b@,
        r matches Err(e) ==> forall|x: Seq<u8>| s@ != b64_of(x),
{
    base64::engine::Engine::decode(&base64::engine::general_purpose::STANDARD_NO_PAD, s)
}

/// The binary-safe script spelling of an opaque byte buffer: a string
/// value holding the base64 form.
pub fn binary_to_script(bytes: &Vec<u8>) -> (r: ScriptValue)
    requires
        bytes@.len() <= usize::MAX / 4,
    ensures
        r matches ScriptValue::Str(s) && s@ == b64_of(bytes@),
{
    ScriptValue::Str(b64_encode(bytes))
}

/// Recovers the byte buffer from its binary-safe script spelling: the
/// exact bytes whose encoding the string is, or the conversion error
/// (source and target type names attached) when the value is not a
/// string or not a canonical encoding.
pub fn script_to_binary(v: &ScriptValue) -> (r: Result<Vec<u8>, ConversionError>)
    ensures
        forall|b: Seq<u8>|
            (v matches ScriptValue::Str(s) && s@ == #[trigger] b64_of(b)) ==> (r matches Ok(bb)
                && bb@ == b),
        r matches Ok(bb) ==> (v matches ScriptValue::Str(s) && s@ == b64_of(bb@)),
        r matches Err(e) ==> e.to@ == "BinaryString"@ && e.from@ == (match v {
            ScriptValue::Nil => "nil"@,
            ScriptValue::Bool(_) => "boolean"@,
            ScriptValue::Int(_) => "number"@,
            ScriptValue::Str(_) => "string"@,
        }),
{
    match v {
        ScriptValue::Str(s) => {
            match b64_decode(s.as_str()) {
                Ok(b) => Ok(b),
                Err(_) => Err(
                    ConversionError {
                        from: String::from_str("string"),
                        to: String::from_str("BinaryString"),
                        detail: None,
                    },
                ),
            }
        },
        ScriptValue::Nil => Err(
            ConversionError {
                from: String::from_str("nil"),
                to: String::from_str("BinaryString"),
                detail: None,
            },
        ),
        ScriptValue::Bool(_) => Err(
            ConversionError {
                from: String::from_str("boolean"),
                to: String::from_str("BinaryString"),
                detail: None,
            },
        ),
        ScriptValue::Int(_) => Err(
            ConversionError {
                from: String::from_str("number"),
                to: String::from_str("BinaryString"),
                detail: None,
            },
        ),
    }
}

} // verus!
