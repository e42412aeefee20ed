use lune_core::convert::{
    binary_to_script, from_variant_unsupported_error, lua_kind_name, script_to_binary,
    to_lua_plan, to_variant_plan, to_variant_unsupported_error, userdata_conversion_error,
    userdata_to_variant_supported, userdata_unsupported_error, variant_kind_name,
    variant_to_userdata_supported, LuaKind, ToLuaPlan, ToVariantPlan, UserdataFailure,
    VariantKind,
};
use lune_core::ScriptValue;

#[test]
fn binary_round_trips_through_base64() {
    let bytes = vec![104u8, 105, 33];
    let v = binary_to_script(&bytes);
    // Standard alphabet, no padding.
    assert_eq!(v, ScriptValue::Str(String::from("aGkh")));
    let back = script_to_binary(&v).unwrap();
    assert_eq!(back, bytes);
}

#[test]
fn binary_round_trips_arbitrary_bytes() {
    let bytes = vec![0u8, 255, 7, 128, 63];
    let v = binary_to_script(&bytes);
    assert_eq!(script_to_binary(&v).unwrap(), bytes);
}

#[test]
fn empty_buffer_encodes_to_empty_string() {
    let v = binary_to_script(&vec![]);
    assert_eq!(v, ScriptValue::Str(String::new()));
    assert_eq!(script_to_binary(&v).unwrap(), Vec::<u8>::new());
}

#[test]
fn invalid_base64_is_a_conversion_error() {
    let e = script_to_binary(&ScriptValue::Str(String::from("a"))).unwrap_err();
    assert_eq!(e.to, String::from("BinaryString"));
    assert_eq!(e.from, String::from("string"));
}

#[test]
fn non_string_value_is_a_conversion_error() {
    let e = script_to_binary(&ScriptValue::Bool(true)).unwrap_err();
    assert_eq!(e.to, String::from("BinaryString"));
    assert_eq!(e.from, String::from("boolean"));
}

#[test]
fn to_variant_table_matches_primitives() {
    assert_eq!(to_variant_plan(LuaKind::Boolean, VariantKind::Bool), ToVariantPlan::Direct);
    assert_eq!(to_variant_plan(LuaKind::Integer, VariantKind::Int32), ToVariantPlan::Direct);
    assert_eq!(to_variant_plan(LuaKind::Number, VariantKind::Float64), ToVariantPlan::Direct);
    assert_eq!(to_variant_plan(LuaKind::Str, VariantKind::Content), ToVariantPlan::Direct);
    assert_eq!(
        to_variant_plan(LuaKind::Str, VariantKind::BinaryString),
        ToVariantPlan::DecodeBase64
    );
    assert_eq!(
        to_variant_plan(LuaKind::Nil, VariantKind::PhysicalProperties),
        ToVariantPlan::NilPhysicalDefault
    );
    assert_eq!(
        to_variant_plan(LuaKind::UserData, VariantKind::CFrame),
        ToVariantPlan::ViaUserdata
    );
    assert_eq!(to_variant_plan(LuaKind::Table, VariantKind::Bool), ToVariantPlan::Unsupported);
    assert_eq!(to_variant_plan(LuaKind::Boolean, VariantKind::Int64), ToVariantPlan::Unsupported);
}

#[test]
fn to_lua_fallback_table() {
    assert_eq!(to_lua_plan(VariantKind::Bool), ToLuaPlan::Direct);
    assert_eq!(to_lua_plan(VariantKind::Int64), ToLuaPlan::Direct);
    assert_eq!(to_lua_plan(VariantKind::BinaryString), ToLuaPlan::EncodeBase64);
    assert_eq!(to_lua_plan(VariantKind::PhysicalProperties), ToLuaPlan::DefaultPhysicalNil);
    assert_eq!(to_lua_plan(VariantKind::CFrame), ToLuaPlan::Unsupported);
}

#[test]
fn enum_converts_into_variant_but_not_back() {
    assert!(userdata_to_variant_supported(VariantKind::Enum));
    assert!(!variant_to_userdata_supported(VariantKind::Enum));
    assert!(variant_to_userdata_supported(VariantKind::OptionalCFrame));
    assert!(!userdata_to_variant_supported(VariantKind::Bool));
    assert!(!variant_to_userdata_supported(VariantKind::BinaryString));
}

#[test]
fn kind_names_are_spelled_as_the_taxonomies_spell_them() {
    assert_eq!(lua_kind_name(LuaKind::Nil), String::from("nil"));
    assert_eq!(lua_kind_name(LuaKind::Boolean), String::from("boolean"));
    assert_eq!(lua_kind_name(LuaKind::Integer), String::from("number"));
    assert_eq!(lua_kind_name(LuaKind::Number), String::from("number"));
    assert_eq!(lua_kind_name(LuaKind::Str), String::from("string"));
    assert_eq!(lua_kind_name(LuaKind::Table), String::from("table"));
    assert_eq!(lua_kind_name(LuaKind::UserData), String::from("userdata"));
    assert_eq!(variant_kind_name(VariantKind::Str), String::from("String"));
    assert_eq!(variant_kind_name(VariantKind::BinaryString), String::from("BinaryString"));
    assert_eq!(variant_kind_name(VariantKind::Color3uint8), String::from("Color3uint8"));
    assert_eq!(variant_kind_name(VariantKind::OptionalCFrame), String::from("OptionalCFrame"));
}

#[test]
fn refused_pairs_carry_both_kind_names() {
    let e = to_variant_unsupported_error(LuaKind::Table, VariantKind::Bool);
    assert_eq!(e.from, String::from("table"));
    assert_eq!(e.to, String::from("Bool"));
    assert_eq!(e.detail, None);

    let e = to_variant_unsupported_error(LuaKind::Boolean, VariantKind::Int64);
    assert_eq!(e.from, String::from("boolean"));
    assert_eq!(e.to, String::from("Int64"));
    assert_eq!(e.detail, None);
}

#[test]
fn userdata_refusals_carry_the_fixed_detail() {
    let e = userdata_unsupported_error(VariantKind::BinaryString);
    assert_eq!(e.from, String::from("userdata"));
    assert_eq!(e.to, String::from("BinaryString"));
    assert_eq!(e.detail, Some(String::from("Type not supported")));

    let e = from_variant_unsupported_error(VariantKind::Region3);
    assert_eq!(e.from, String::from("Region3"));
    assert_eq!(e.to, String::from("userdata"));
    assert_eq!(e.detail, Some(String::from("Type not supported")));
}

#[test]
fn userdata_errors_carry_names_and_detail() {
    let e = userdata_conversion_error(String::from("CFrame"), UserdataFailure::TypeMismatch);
    assert_eq!(e.to, String::from("CFrame"));
    assert_eq!(e.from, String::from("userdata"));
    assert_eq!(e.detail, Some(String::from("Type mismatch")));

    let e = userdata_conversion_error(
        String::from("Font"),
        UserdataFailure::Internal(String::from("boom")),
    );
    assert_eq!(e.detail, Some(String::from("Internal error: boom")));
}
