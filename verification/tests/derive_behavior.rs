use gpui_preview::derive::{
    derive_previewable, DataDef, DeriveInput, DerivePlan, EnumPlan, VariantDef,
};
use gpui_preview::FieldValue;

// enum TestVariant { Alpha, Beta, Gamma } with #[derive(Previewable)]
fn test_variant() -> EnumPlan {
    let input = DeriveInput {
        ident: "TestVariant".to_string(),
        attrs: vec![],
        data: DataDef::Enum(vec![
            VariantDef { ident: "Alpha".to_string(), has_fields: false },
            VariantDef { ident: "Beta".to_string(), has_fields: false },
            VariantDef { ident: "Gamma".to_string(), has_fields: false },
        ]),
    };
    match derive_previewable(&input) {
        Ok(DerivePlan::Enum(plan)) => plan,
        other => panic!("expected an enum plan, got {:?}", other),
    }
}

#[test]
fn enum_variants() {
    let plan = test_variant();
    let names: Vec<&str> = plan.variants().iter().map(|s| s.as_str()).collect();
    assert_eq!(names, &["Alpha", "Beta", "Gamma"]);
}

#[test]
fn enum_to_variant_name() {
    let plan = test_variant();
    assert_eq!(plan.to_variant_name(0), "Alpha");
    assert_eq!(plan.to_variant_name(1), "Beta");
    assert_eq!(plan.to_variant_name(2), "Gamma");
}

#[test]
fn enum_from_variant_name() {
    let plan = test_variant();
    assert_eq!(plan.from_variant_name("Alpha"), Some(0));
    assert_eq!(plan.from_variant_name("Beta"), Some(1));
    assert_eq!(plan.from_variant_name("Unknown"), None);
}

#[test]
fn enum_get_field_returns_enum_value() {
    let plan = test_variant();
    let name = plan.to_variant_name(1).to_string();
    let reconstructed = plan.from_variant_name(&name);
    assert_eq!(reconstructed, Some(1));
    let _ = FieldValue::Enum(name);
}
