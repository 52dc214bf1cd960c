use gpui_preview::json::{JsonNumber, JsonValue};
use gpui_preview::stories::{
    delete_story, loaded_stories, save_story, story_fields, story_names, AllStories, StoryFields,
};
use gpui_preview::text_map::TextMap;
use gpui_preview::{field_value_to_json, json_to_field_value, stories_path, ControlKind, FieldValue, FloatBits};

fn roundtrip(value: &FieldValue, control: &ControlKind) -> Option<FieldValue> {
    let json = field_value_to_json(value);
    json_to_field_value(&json, control)
}

fn float(x: f64) -> FieldValue {
    FieldValue::Float(FloatBits { bits: x.to_bits() })
}

#[test]
fn roundtrip_string() {
    let v = FieldValue::String("hello".to_string());
    let out = roundtrip(&v, &ControlKind::TextInput).unwrap();
    assert!(matches!(out, FieldValue::String(s) if s == "hello"));
}

#[test]
fn roundtrip_bool_true() {
    let v = FieldValue::Bool(true);
    let out = roundtrip(&v, &ControlKind::Toggle).unwrap();
    assert!(matches!(out, FieldValue::Bool(true)));
}

#[test]
fn roundtrip_bool_false() {
    let v = FieldValue::Bool(false);
    let out = roundtrip(&v, &ControlKind::Toggle).unwrap();
    assert!(matches!(out, FieldValue::Bool(false)));
}

#[test]
fn roundtrip_float() {
    let v = float(3.14);
    let out = roundtrip(
        &v,
        &ControlKind::NumberSlider {
            min: FloatBits { bits: 0.0f64.to_bits() },
            max: FloatBits { bits: 10.0f64.to_bits() },
        },
    )
    .unwrap();
    assert!(matches!(out, FieldValue::Float(f) if (f64::from_bits(f.bits) - 3.14).abs() < 1e-9));
}

#[test]
fn roundtrip_int() {
    let v = FieldValue::Int(42);
    // Generic number control (not NumberSlider) → Int path
    let out = roundtrip(&v, &ControlKind::Unsupported).unwrap();
    assert!(matches!(out, FieldValue::Int(42)));
}

#[test]
fn roundtrip_enum() {
    let v = FieldValue::Enum("Large".to_string());
    let out = roundtrip(&v, &ControlKind::Select(vec!["Small", "Large"])).unwrap();
    assert!(matches!(out, FieldValue::Enum(s) if s == "Large"));
}

#[test]
fn roundtrip_color() {
    let v = FieldValue::Color([255, 128, 0, 200]);
    let out = roundtrip(&v, &ControlKind::Color).unwrap();
    assert!(matches!(out, FieldValue::Color([255, 128, 0, 200])));
}

#[test]
fn roundtrip_none() {
    let v = FieldValue::Absent;
    let out = roundtrip(&v, &ControlKind::Optional(Box::new(ControlKind::TextInput))).unwrap();
    assert!(matches!(out, FieldValue::Absent));
}

#[test]
fn stories_path_is_in_preview_dir() {
    assert_eq!(stories_path(), ".preview/stories.json");
}

#[test]
fn int_under_slider_becomes_float() {
    // A slider reads every number as a float.
    let slider = ControlKind::NumberSlider { min: FloatBits { bits: 0 }, max: FloatBits { bits: 100.0f64.to_bits() } };
    let out = json_to_field_value(&JsonValue::Number(JsonNumber::PosInt(5)), &slider).unwrap();
    assert!(matches!(out, FieldValue::Float(f) if f.bits == 5.0f64.to_bits()));
    let out = json_to_field_value(&JsonValue::Number(JsonNumber::NegInt(-3)), &slider).unwrap();
    assert!(matches!(out, FieldValue::Float(f) if f.bits == (-3.0f64).to_bits()));
    let out = roundtrip(&FieldValue::Int(42), &slider).unwrap();
    assert!(matches!(out, FieldValue::Float(f) if f.bits == 42.0f64.to_bits()));
    // A float stays a float under a slider, whole or not.
    let out = roundtrip(&float(5.0), &slider).unwrap();
    assert!(matches!(out, FieldValue::Float(f) if f.bits == 5.0f64.to_bits()));
}

#[test]
fn negative_number_as_float() {
    let f = JsonNumber::NegInt(-3).as_f64().unwrap();
    assert_eq!(f.bits, (-3.0f64).to_bits());
    let f = JsonNumber::PosInt(7).as_f64().unwrap();
    assert_eq!(f.bits, 7.0f64.to_bits());
}

#[test]
fn large_unsigned_number_becomes_float() {
    let out = json_to_field_value(&JsonValue::Number(JsonNumber::PosInt(u64::MAX)), &ControlKind::Toggle).unwrap();
    assert!(matches!(out, FieldValue::Float(f) if f.bits == (u64::MAX as f64).to_bits()));
}

#[test]
fn non_finite_float_is_written_as_null() {
    assert!(matches!(field_value_to_json(&float(f64::NAN)), JsonValue::Null));
    assert!(matches!(field_value_to_json(&float(f64::INFINITY)), JsonValue::Null));
    assert!(matches!(field_value_to_json(&float(1.5)), JsonValue::Number(JsonNumber::Float(_))));
}

#[test]
fn negative_int_is_written_as_negative_number() {
    assert!(matches!(field_value_to_json(&FieldValue::Int(-7)), JsonValue::Number(JsonNumber::NegInt(-7))));
    assert!(matches!(field_value_to_json(&FieldValue::Int(7)), JsonValue::Number(JsonNumber::PosInt(7))));
}

#[test]
fn color_bytes_are_truncated_and_bad_arrays_refused() {
    let arr = |xs: Vec<JsonValue>| JsonValue::Array(xs);
    let n = |u: u64| JsonValue::Number(JsonNumber::PosInt(u));
    let out = json_to_field_value(&arr(vec![n(256), n(257), n(1), n(2)]), &ControlKind::Color).unwrap();
    assert!(matches!(out, FieldValue::Color([0, 1, 1, 2])));
    assert!(json_to_field_value(&arr(vec![n(1), n(2), n(3)]), &ControlKind::Color).is_none());
    assert!(json_to_field_value(
        &arr(vec![n(1), n(2), n(3), JsonValue::Number(JsonNumber::NegInt(-1))]),
        &ControlKind::Color
    )
    .is_none());
    assert!(json_to_field_value(&arr(vec![n(1), n(2), n(3), n(4)]), &ControlKind::TextInput).is_none());
}

#[test]
fn strings_and_nulls_under_other_controls() {
    let s = JsonValue::String("x".to_string());
    assert!(matches!(json_to_field_value(&s, &ControlKind::Toggle), Some(FieldValue::String(t)) if t == "x"));
    assert!(matches!(
        json_to_field_value(&s, &ControlKind::Optional(Box::new(ControlKind::Select(vec![])))),
        Some(FieldValue::Enum(t)) if t == "x"
    ));
    assert!(matches!(json_to_field_value(&JsonValue::Null, &ControlKind::TextInput), Some(FieldValue::Absent)));
    assert!(json_to_field_value(&JsonValue::Object(vec![]), &ControlKind::TextInput).is_none());
    // Numbers under an optional control take the integer path.
    let opt_slider = ControlKind::Optional(Box::new(ControlKind::NumberSlider {
        min: FloatBits { bits: 0 },
        max: FloatBits { bits: 0 },
    }));
    assert!(matches!(
        json_to_field_value(&JsonValue::Number(JsonNumber::PosInt(9)), &opt_slider),
        Some(FieldValue::Int(9))
    ));
}

fn fields_with(name: &str, value: &str) -> StoryFields {
    let mut f = TextMap::new();
    f.insert(name.to_string(), JsonValue::String(value.to_string()));
    f
}

#[test]
fn save_read_and_delete_stories() {
    let mut all: AllStories = TextMap::new();
    save_story(&mut all, "Button", "default".to_string(), fields_with("label", "Click me"));
    save_story(&mut all, "Button", "alt".to_string(), fields_with("label", "Other"));
    save_story(&mut all, "Card", "default".to_string(), fields_with("size", "medium"));
    let f = story_fields(&all, "Button", "default").unwrap();
    assert!(matches!(f.get("label"), Some(JsonValue::String(s)) if s == "Click me"));
    assert_eq!(story_names(&all, "Button"), vec!["alt".to_string(), "default".to_string()]);
    assert_eq!(story_names(&all, "Nothing"), Vec::<String>::new());

    // Saving under a taken name replaces the story.
    save_story(&mut all, "Button", "default".to_string(), fields_with("label", "New"));
    let f = story_fields(&all, "Button", "default").unwrap();
    assert!(matches!(f.get("label"), Some(JsonValue::String(s)) if s == "New"));
    assert_eq!(story_names(&all, "Button").len(), 2);

    delete_story(&mut all, "Button", "default");
    assert!(story_fields(&all, "Button", "default").is_none());
    assert_eq!(story_names(&all, "Button"), vec!["alt".to_string()]);
    delete_story(&mut all, "Button", "alt");
    // The component without stories loses its entry.
    assert!(!all.contains_key("Button"));
    assert!(all.contains_key("Card"));
    assert_eq!(all.len(), 1);
}

#[test]
fn versioned_format_is_preferred_over_flat() {
    let mut versioned: AllStories = TextMap::new();
    save_story(&mut versioned, "Button", "default".to_string(), fields_with("label", "Click me"));
    let mut flat: AllStories = TextMap::new();
    save_story(&mut flat, "Card", "default".to_string(), fields_with("size", "medium"));
    let (stories, migrated) = loaded_stories(Some(versioned), None);
    assert!(!migrated);
    assert!(stories.contains_key("Button"));
    let (stories, migrated) = loaded_stories(None, Some(flat));
    assert!(migrated);
    assert!(stories.contains_key("Card"));
    let (stories, migrated) = loaded_stories(None, None);
    assert!(!migrated);
    assert!(stories.is_empty());
}
