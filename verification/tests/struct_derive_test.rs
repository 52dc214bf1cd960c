use gpui_preview::derive::{
    derive_previewable, ComponentPlan, ControlPlan, DataDef, DeriveInput, DerivePlan, FieldAccess,
    FieldDef, FieldPlan, IntType, MetaItem, MetaValue, PathName, StructFields, TypeRef, ValueKind,
};
use gpui_preview::json::{JsonNumber, JsonValue};
use gpui_preview::{field_value_to_json, json_to_field_value, ControlKind, FieldValue, FloatBits};

fn ident(s: &str) -> PathName {
    PathName::Ident(s.to_string())
}

fn doc(s: &str) -> MetaItem {
    MetaItem::NameValue(ident("doc"), MetaValue::Str(s.to_string()))
}

fn preview(items: Vec<MetaItem>) -> MetaItem {
    MetaItem::List(ident("preview"), Some(items))
}

fn ty(name: &str) -> TypeRef {
    TypeRef::Path { last: name.to_string(), first_arg: None }
}

fn option_of(inner: TypeRef) -> TypeRef {
    TypeRef::Path { last: "Option".to_string(), first_arg: Some(Box::new(inner)) }
}

fn field(name: &str, attrs: Vec<MetaItem>, t: TypeRef) -> FieldDef {
    FieldDef { ident: name.to_string(), attrs, ty: t }
}

fn bits(x: f64) -> FloatBits {
    FloatBits { bits: x.to_bits() }
}

fn component(input: DeriveInput) -> ComponentPlan {
    match derive_previewable(&input) {
        Ok(DerivePlan::Component(plan)) => plan,
        other => panic!("expected a component plan, got {:?}", other),
    }
}

/// A test component.
/// #[preview(category = "Testing", no_register)]
fn test_component() -> ComponentPlan {
    component(DeriveInput {
        ident: "TestComponent".to_string(),
        attrs: vec![
            doc(" A test component."),
            preview(vec![
                MetaItem::NameValue(ident("category"), MetaValue::Str("Testing".to_string())),
                MetaItem::Path(ident("no_register")),
            ]),
        ],
        data: DataDef::Struct(StructFields::Named(vec![
            field("label", vec![doc(" A text field.")], ty("String")),
            field("enabled", vec![], ty("bool")),
            field("opacity", vec![], ty("f32")),
            field("big_float", vec![], ty("f64")),
            field("count", vec![], ty("u32")),
            field("signed", vec![], ty("i64")),
            field("variant", vec![], ty("TestVariant")),
            field("internal", vec![preview(vec![MetaItem::Path(ident("skip"))])], ty("usize")),
            field(
                "radius",
                vec![preview(vec![MetaItem::List(
                    ident("slider"),
                    Some(vec![
                        MetaItem::NameValue(ident("min"), MetaValue::Float(bits(0.0))),
                        MetaItem::NameValue(ident("max"), MetaValue::Float(bits(24.0))),
                    ]),
                )])],
                ty("f32"),
            ),
        ])),
    })
}

/// #[preview(no_register)] struct OptionalFields { name: Option<String>, flag: Option<bool> }
fn optional_fields() -> ComponentPlan {
    component(DeriveInput {
        ident: "OptionalFields".to_string(),
        attrs: vec![preview(vec![MetaItem::Path(ident("no_register"))])],
        data: DataDef::Struct(StructFields::Named(vec![
            field("name", vec![], option_of(ty("String"))),
            field("flag", vec![], option_of(ty("bool"))),
        ])),
    })
}

fn find<'a>(plan: &'a ComponentPlan, name: &str) -> &'a FieldPlan {
    plan.fields.iter().find(|f| f.name == name).unwrap()
}

#[test]
fn struct_name() {
    assert_eq!(test_component().name, "TestComponent");
}

#[test]
fn struct_category() {
    assert_eq!(test_component().category, "Testing");
}

#[test]
fn struct_description() {
    assert_eq!(test_component().description, "A test component.");
}

#[test]
fn uncategorized_default() {
    assert_eq!(optional_fields().category, "Uncategorized");
}

#[test]
fn field_list() {
    let plan = test_component();
    let names: Vec<_> = plan.fields.iter().map(|f| f.name.as_str()).collect();
    assert!(names.contains(&"label"));
    assert!(names.contains(&"enabled"));
    assert!(names.contains(&"opacity"));
    assert!(names.contains(&"big_float"));
    assert!(names.contains(&"count"));
    assert!(names.contains(&"signed"));
    assert!(names.contains(&"variant"));
    assert!(names.contains(&"radius"));
    assert!(!names.contains(&"internal"), "skipped field should not appear");
}

#[test]
fn field_doc_comment() {
    let plan = test_component();
    let label = find(&plan, "label");
    assert_eq!(label.doc, "A text field.");
}

#[test]
fn field_control_kinds() {
    let plan = test_component();
    assert!(matches!(find(&plan, "label").control, ControlPlan::TextInput));
    assert!(matches!(find(&plan, "enabled").control, ControlPlan::Toggle));
    assert!(matches!(find(&plan, "opacity").control, ControlPlan::NumberSlider { .. }));
    assert!(matches!(find(&plan, "big_float").control, ControlPlan::NumberSlider { .. }));
    assert!(matches!(find(&plan, "count").control, ControlPlan::NumberSlider { .. }));
    assert!(matches!(find(&plan, "signed").control, ControlPlan::NumberSlider { .. }));
    assert!(matches!(find(&plan, "variant").control, ControlPlan::Select));
}

#[test]
fn slider_attribute_bounds() {
    let plan = test_component();
    let radius = find(&plan, "radius");
    match &radius.control {
        ControlPlan::NumberSlider { min, max } => {
            assert_eq!(f64::from_bits(min.bits), 0.0);
            assert_eq!(f64::from_bits(max.bits), 24.0);
        }
        other => panic!("expected NumberSlider, got {:?}", other),
    }
}

#[test]
fn optional_control_kind() {
    let plan = optional_fields();
    let name = find(&plan, "name");
    assert!(matches!(name.control, ControlPlan::Optional(_)));
    if let ControlPlan::Optional(inner) = &name.control {
        assert!(matches!(**inner, ControlPlan::TextInput));
    }
}

#[test]
fn default_slider_bounds_for_numbers() {
    let plan = test_component();
    match &find(&plan, "count").control {
        ControlPlan::NumberSlider { min, max } => {
            assert_eq!(f64::from_bits(min.bits), 0.0);
            assert_eq!(f64::from_bits(max.bits), 100.0);
        }
        other => panic!("expected NumberSlider, got {:?}", other),
    }
}

#[test]
fn registration_follows_no_register() {
    assert!(!test_component().register);
    let plan = component(DeriveInput {
        ident: "Plain".to_string(),
        attrs: vec![],
        data: DataDef::Struct(StructFields::Named(vec![])),
    });
    assert!(plan.register);
    assert_eq!(plan.description, "");
}

#[test]
fn field_accessors_follow_types() {
    let plan = test_component();
    assert_eq!(find(&plan, "label").access, FieldAccess::Plain(ValueKind::Text));
    assert_eq!(find(&plan, "enabled").access, FieldAccess::Plain(ValueKind::Flag));
    assert_eq!(find(&plan, "opacity").access, FieldAccess::Plain(ValueKind::Float32));
    assert_eq!(find(&plan, "big_float").access, FieldAccess::Plain(ValueKind::Float64));
    assert_eq!(find(&plan, "count").access, FieldAccess::Plain(ValueKind::Integer(IntType::U32)));
    assert_eq!(find(&plan, "signed").access, FieldAccess::Plain(ValueKind::Integer(IntType::I64)));
    assert_eq!(find(&plan, "variant").access, FieldAccess::Plain(ValueKind::Enum));
    let opt = optional_fields();
    assert_eq!(find(&opt, "flag").access, FieldAccess::Optional(ValueKind::Flag));
}

#[test]
fn multi_line_doc_comments_are_joined() {
    let plan = component(DeriveInput {
        ident: "Card".to_string(),
        attrs: vec![doc(" First line. "), doc("   Second line."), MetaItem::Path(ident("doc"))],
        data: DataDef::Struct(StructFields::Named(vec![])),
    });
    assert_eq!(plan.description, "First line. Second line.");
}

#[test]
fn unnamed_struct_is_refused() {
    let input = DeriveInput {
        ident: "Tuple".to_string(),
        attrs: vec![],
        data: DataDef::Struct(StructFields::Unnamed),
    };
    let err = derive_previewable(&input).unwrap_err();
    assert_eq!(err.message(), "Previewable requires named fields");
}

#[test]
fn union_is_refused() {
    let input = DeriveInput { ident: "U".to_string(), attrs: vec![], data: DataDef::Union };
    let err = derive_previewable(&input).unwrap_err();
    assert_eq!(err.message(), "Previewable cannot be derived for unions");
}

#[test]
fn enum_with_data_variant_is_refused() {
    let input = DeriveInput {
        ident: "Foo".to_string(),
        attrs: vec![],
        data: DataDef::Enum(vec![
            gpui_preview::derive::VariantDef { ident: "A".to_string(), has_fields: false },
            gpui_preview::derive::VariantDef { ident: "B".to_string(), has_fields: true },
        ]),
    };
    match derive_previewable(&input) {
        Err(e @ gpui_preview::derive::DeriveError::VariantWithFields(_)) => {
            if let gpui_preview::derive::DeriveError::VariantWithFields(name) = &e {
                assert_eq!(name, "B");
            }
            assert_eq!(e.message(), "Previewable enums must have only unit variants (no fields)");
        }
        other => panic!("expected a refusal, got {:?}", other),
    }
}

#[test]
fn slider_bound_given_twice_takes_the_last_and_ints_are_ignored() {
    let plan = component(DeriveInput {
        ident: "S".to_string(),
        attrs: vec![],
        data: DataDef::Struct(StructFields::Named(vec![field(
            "size",
            vec![preview(vec![MetaItem::List(
                ident("slider"),
                Some(vec![
                    MetaItem::NameValue(ident("max"), MetaValue::Float(bits(5.0))),
                    MetaItem::NameValue(ident("max"), MetaValue::Float(bits(7.5))),
                    MetaItem::NameValue(ident("min"), MetaValue::Other),
                ]),
            )])],
            ty("u8"),
        )])),
    });
    match &plan.fields[0].control {
        ControlPlan::NumberSlider { min, max } => {
            assert_eq!(f64::from_bits(min.bits), 0.0);
            assert_eq!(f64::from_bits(max.bits), 7.5);
        }
        other => panic!("expected NumberSlider, got {:?}", other),
    }
}

#[test]
fn first_category_wins_and_unparsed_preview_is_ignored() {
    let plan = component(DeriveInput {
        ident: "C".to_string(),
        attrs: vec![
            MetaItem::List(ident("preview"), None),
            preview(vec![MetaItem::NameValue(ident("category"), MetaValue::Str("Layout".to_string()))]),
            preview(vec![MetaItem::NameValue(ident("category"), MetaValue::Str("Inputs".to_string()))]),
        ],
        data: DataDef::Struct(StructFields::Named(vec![])),
    });
    assert_eq!(plan.category, "Layout");
}

#[test]
fn non_path_types_are_unsupported() {
    let plan = component(DeriveInput {
        ident: "R".to_string(),
        attrs: vec![],
        data: DataDef::Struct(StructFields::Named(vec![
            field("r", vec![], TypeRef::Other),
            field("c", vec![], ty("Hsla")),
            field("o", vec![], option_of(option_of(ty("bool")))),
        ])),
    });
    assert!(matches!(plan.fields[0].control, ControlPlan::Unsupported));
    assert_eq!(plan.fields[0].access, FieldAccess::Plain(ValueKind::NotAPath));
    assert!(matches!(plan.fields[1].control, ControlPlan::Color));
    match &plan.fields[2].control {
        ControlPlan::Optional(inner) => match &**inner {
            ControlPlan::Optional(inner2) => assert!(matches!(**inner2, ControlPlan::Toggle)),
            other => panic!("expected nested optional, got {:?}", other),
        },
        other => panic!("expected optional, got {:?}", other),
    }
    // The accessors of `Option<Option<bool>>` treat the inner `Option` as an enum.
    assert_eq!(plan.fields[2].access, FieldAccess::Optional(ValueKind::Enum));
}

#[test]
fn accessors_accept_matching_values() {
    let opt = FieldAccess::Optional(ValueKind::Text);
    assert!(opt.accepts(&FieldValue::Absent));
    assert!(opt.accepts(&FieldValue::String("x".to_string())));
    assert!(!opt.accepts(&FieldValue::Bool(true)));
    let int = FieldAccess::Plain(ValueKind::Integer(IntType::U8));
    assert!(int.accepts(&FieldValue::Int(3)));
    assert!(!int.accepts(&FieldValue::Absent));
    assert!(!FieldAccess::Plain(ValueKind::NotAPath).accepts(&FieldValue::Int(3)));
    // Number fields take both kinds of number: floats from a slider, integers from a story.
    let float = FieldAccess::Plain(ValueKind::Float32);
    assert!(float.accepts(&FieldValue::Int(3)));
    assert!(float.accepts(&FieldValue::Float(FloatBits { bits: 1.5f64.to_bits() })));
    assert!(int.accepts(&FieldValue::Float(FloatBits { bits: 1.5f64.to_bits() })));
    assert!(!int.accepts(&FieldValue::String("3".to_string())));
    let opt_float = FieldAccess::Optional(ValueKind::Float64);
    assert!(opt_float.accepts(&FieldValue::Int(-2)));
    assert!(!opt_float.accepts(&FieldValue::Bool(false)));
    // Switching an optional integer field on starts it at its slider's minimum.
    let opt_int = FieldAccess::Optional(ValueKind::Integer(IntType::I32));
    assert!(opt_int.accepts(&FieldValue::Float(bits(0.0))));
    assert!(opt_int.accepts(&FieldValue::Absent));
}

#[test]
fn saved_integer_field_comes_back_under_its_slider() {
    let plan = component(DeriveInput {
        ident: "Counter".to_string(),
        attrs: vec![],
        data: DataDef::Struct(StructFields::Named(vec![
            field("count", vec![], ty("u32")),
            field("width", vec![], ty("f32")),
        ])),
    });
    // The control that the plan describes for the integer field.
    let (min, max) = match &plan.fields[0].control {
        ControlPlan::NumberSlider { min, max } => (*min, *max),
        other => panic!("expected a slider, got {:?}", other),
    };
    let control = ControlKind::NumberSlider { min, max };
    // The slider gives the saved integer back as a float, which the integer field takes.
    let json = field_value_to_json(&FieldValue::Int(42));
    let restored = json_to_field_value(&json, &control).unwrap();
    assert!(matches!(restored, FieldValue::Float(f) if f.bits == 42.0f64.to_bits()));
    assert!(plan.fields[0].access.accepts(&restored));
    // Under an optional slider the integer path is taken.
    let optional = ControlKind::Optional(Box::new(ControlKind::NumberSlider { min, max }));
    assert!(matches!(json_to_field_value(&json, &optional), Some(FieldValue::Int(42))));
    // A float field takes the integers that a story read under another control gives.
    let restored = json_to_field_value(&JsonValue::Number(JsonNumber::PosInt(12)), &ControlKind::Unsupported).unwrap();
    assert!(matches!(restored, FieldValue::Int(12)));
    assert!(plan.fields[1].access.accepts(&restored));
}
