use gpui_preview::capture::{bgra_to_rgba, CapturedFrame};
use gpui_preview::navigation::{initial_selection, select_next, select_prev, sidebar_groups, ViewportPreset};
use gpui_preview::ordering::sorted_order;
use gpui_preview::panel::{
    confirmed_story_name, enum_or_empty, snapshot_values, story_assignments, text_or_empty, StoryPanel,
};
use gpui_preview::text::{text_contains, text_eq, text_less, trim};
use gpui_preview::text_map::TextMap;
use gpui_preview::{snapshot_fields, ControlKind, FieldMeta, FieldValue, FloatBits, Previewable};

/// A component written by hand the way the derive would write it.
#[derive(Clone, Debug, Default, PartialEq)]
struct Button {
    label: String,
    disabled: bool,
    size: Option<String>,
    count: u32,
}

impl Previewable for Button {
    fn name() -> &'static str {
        "Button"
    }

    fn default_preview() -> Self {
        Button::default()
    }

    fn fields() -> Vec<FieldMeta> {
        vec![
            FieldMeta { name: "label", doc: "", control: ControlKind::TextInput },
            FieldMeta { name: "disabled", doc: "", control: ControlKind::Toggle },
            FieldMeta {
                name: "size",
                doc: "",
                control: ControlKind::Optional(Box::new(ControlKind::TextInput)),
            },
            FieldMeta { name: "count", doc: "", control: ControlKind::Unsupported },
        ]
    }

    fn get_field(&self, name: &str) -> Option<FieldValue> {
        match name {
            "label" => Some(FieldValue::String(self.label.clone())),
            "disabled" => Some(FieldValue::Bool(self.disabled)),
            "size" => match &self.size {
                Some(s) => Some(FieldValue::String(s.clone())),
                None => Some(FieldValue::Absent),
            },
            "count" => Some(FieldValue::Int(self.count as i64)),
            _ => None,
        }
    }

    fn set_field(&self, name: &str, value: FieldValue) -> Self {
        let mut new = self.clone();
        match (name, value) {
            ("label", FieldValue::String(v)) => new.label = v,
            ("disabled", FieldValue::Bool(v)) => new.disabled = v,
            ("size", FieldValue::Absent) => new.size = None,
            ("size", FieldValue::String(v)) => new.size = Some(v),
            ("count", FieldValue::Int(v)) => new.count = v as u32,
            ("count", FieldValue::Float(v)) => new.count = f64::from_bits(v.bits) as u32,
            _ => {}
        }
        new
    }
}

/// Makes the assignments of a story on a component, in order.
fn apply_assignments(mut b: Button, a: &[(String, FieldValue)]) -> Button {
    for (name, value) in a {
        b = b.set_field(name, value.clone());
    }
    b
}

#[test]
fn snapshot_of_values_keeps_present_ones() {
    let fields = Button::fields();
    let values = vec![Some(FieldValue::String("x".to_string())), None, Some(FieldValue::Absent), None];
    let story = snapshot_values(&fields, &values);
    assert_eq!(story.len(), 2);
    assert!(story.contains_key("label"));
    assert!(story.contains_key("size"));
    assert!(!story.contains_key("disabled"));
}

#[test]
fn default_category_and_description() {
    assert_eq!(Button::category(), "Uncategorized");
    assert_eq!(Button::description(), "");
}

#[test]
fn saved_story_restores_values() {
    let fields = Button::fields();
    let edited = Button { label: "Go".to_string(), disabled: true, size: Some("L".to_string()), count: 3 };
    let snapshot = snapshot_fields(&edited, &fields);
    assert_eq!(snapshot.len(), 4);

    let mut panel = StoryPanel::new(TextMap::new());
    panel.load_entry("app::Button".to_string(), fields);
    assert!(panel.save_current_as_story("Primary".to_string(), snapshot));
    assert_eq!(panel.active_story.as_deref(), Some("Primary"));
    assert_eq!(panel.story_names(), vec!["Primary".to_string()]);

    panel.select_custom();
    assert!(panel.active_story.is_none());
    let a = panel.apply_story("Primary").unwrap();
    assert_eq!(panel.active_story.as_deref(), Some("Primary"));
    let restored = apply_assignments(Button::default_preview(), &a);
    assert_eq!(restored, edited);
    assert!(panel.apply_story("Missing").is_none());
}

#[test]
fn saved_story_restores_integer_under_slider() {
    // The control that the derive gives an integer field: a slider from 0 to 100.
    let mut fields = Button::fields();
    fields[3] = FieldMeta {
        name: "count",
        doc: "",
        control: ControlKind::NumberSlider {
            min: FloatBits { bits: 0.0f64.to_bits() },
            max: FloatBits { bits: 100.0f64.to_bits() },
        },
    };
    let edited = Button { count: 42, ..Button::default() };
    let snapshot = snapshot_fields(&edited, &fields);
    let mut panel = StoryPanel::new(TextMap::new());
    panel.load_entry("app::Button".to_string(), fields);
    assert!(panel.save_current_as_story("Answer".to_string(), snapshot));
    let a = panel.apply_story("Answer").unwrap();
    // The slider gives the integer back as a float; the integer field's setter takes it.
    assert!(a.iter().any(|(n, v)| n == "count" && matches!(v, FieldValue::Float(f) if f.bits == 42.0f64.to_bits())));
    let restored = apply_assignments(Button::default_preview(), &a);
    assert_eq!(restored.count, 42);
    assert_eq!(restored, edited);
}

#[test]
fn set_then_get_gives_the_value_back() {
    let b = Button::default();
    let values = [
        ("label", FieldValue::String("Go".to_string())),
        ("disabled", FieldValue::Bool(true)),
        ("size", FieldValue::String("L".to_string())),
        ("size", FieldValue::Absent),
        ("count", FieldValue::Int(7)),
    ];
    for (name, value) in values {
        let got = b.set_field(name, value.clone()).get_field(name).unwrap();
        assert_eq!(format!("{:?}", got), format!("{:?}", value));
    }
    // A value without an arm leaves the field as it was.
    assert_eq!(b.set_field("disabled", FieldValue::Int(1)), b);
}

#[test]
fn update_and_delete_active_story() {
    let fields = Button::fields();
    let mut panel = StoryPanel::new(TextMap::new());
    let b = Button::default();
    // Nothing is saved without a loaded component.
    assert!(!panel.save_current_as_story("x".to_string(), snapshot_fields(&b, &fields)));
    panel.load_entry("app::Button".to_string(), Button::fields());
    assert!(!panel.update_active_story(snapshot_fields(&b, &fields)));
    assert!(panel.save_current_as_story("A".to_string(), snapshot_fields(&b, &fields)));
    let changed = Button { label: "changed".to_string(), ..Button::default() };
    assert!(panel.update_active_story(snapshot_fields(&changed, &fields)));
    let a = panel.apply_story("A").unwrap();
    assert_eq!(apply_assignments(Button::default(), &a), changed);
    assert!(panel.delete_active_story());
    assert!(panel.active_story.is_none());
    assert!(panel.story_names().is_empty());
    assert!(!panel.delete_active_story());
    assert!(panel.reset_to_default());
}

#[test]
fn story_assignments_skip_mismatched_values() {
    let mut story = TextMap::new();
    story.insert("label".to_string(), gpui_preview::json::JsonValue::Bool(true));
    story.insert("count".to_string(), gpui_preview::json::JsonValue::Object(vec![]));
    let a = story_assignments(&story, &Button::fields());
    assert_eq!(a.len(), 1);
    assert_eq!(a[0].0, "label");
    assert!(matches!(a[0].1, FieldValue::Bool(true)));
}

#[test]
fn dialog_and_optional_defaults() {
    let mut panel = StoryPanel::new(TextMap::new());
    panel.toggle_save_dialog();
    assert!(panel.show_save_dialog);
    assert!(panel.close_save_dialog());
    assert!(!panel.close_save_dialog());
    let min = FloatBits { bits: 2.5f64.to_bits() };
    panel.load_entry(
        "c".to_string(),
        vec![
            FieldMeta {
                name: "r",
                doc: "",
                control: ControlKind::Optional(Box::new(ControlKind::NumberSlider { min, max: min })),
            },
            FieldMeta {
                name: "c",
                doc: "",
                control: ControlKind::Optional(Box::new(ControlKind::Color)),
            },
            FieldMeta { name: "t", doc: "", control: ControlKind::Toggle },
        ],
    );
    assert!(matches!(panel.optional_default("r"), Some(FieldValue::Float(f)) if f == min));
    assert!(matches!(panel.optional_default("c"), Some(FieldValue::Color([0, 0, 0, 255]))));
    assert!(panel.optional_default("t").is_none());
    assert!(panel.optional_default("missing").is_none());
}

#[test]
fn story_name_from_dialog_text() {
    assert_eq!(confirmed_story_name("  Primary Large \n"), Some("Primary Large".to_string()));
    assert_eq!(confirmed_story_name(" \t "), None);
}

#[test]
fn current_value_texts() {
    assert_eq!(text_or_empty(Some(FieldValue::String("a".to_string()))), "a");
    assert_eq!(text_or_empty(Some(FieldValue::Bool(true))), "");
    assert_eq!(enum_or_empty(Some(FieldValue::Enum("Ghost".to_string()))), "Ghost");
    assert_eq!(enum_or_empty(None), "");
}

#[test]
fn keyboard_navigation_wraps() {
    assert_eq!(select_next(Some(2), 3), Some(0));
    assert_eq!(select_next(Some(0), 3), Some(1));
    assert_eq!(select_next(None, 3), Some(0));
    assert_eq!(select_next(None, 0), None);
    assert_eq!(select_prev(Some(0), 3), Some(2));
    assert_eq!(select_prev(Some(2), 3), Some(1));
    assert_eq!(select_prev(None, 0), None);
    assert_eq!(select_prev(select_next(Some(1), 3), 3), Some(1));
    assert_eq!(initial_selection(0), None);
    assert_eq!(initial_selection(4), Some(0));
}

fn entry(cat: &str, name: &str) -> (String, String) {
    (cat.to_string(), name.to_string())
}

#[test]
fn entries_sort_by_category_then_name_stably() {
    let keys = vec![entry("Layout", "Card"), entry("Inputs", "Slider"), entry("Inputs", "Button"), entry("Layout", "Card")];
    assert_eq!(sorted_order(&keys), vec![2, 1, 0, 3]);
    assert_eq!(sorted_order(&vec![]), Vec::<usize>::new());
}

#[test]
fn sidebar_search_and_grouping() {
    let entries = vec![entry("Inputs", "Button"), entry("Inputs", "Toggle"), entry("Layout", "Card"), entry("Layout", "Stack")];
    let all = sidebar_groups(&entries, "");
    assert_eq!(all.len(), 2);
    assert_eq!(all[0].0, "Inputs");
    assert_eq!(all[0].1, vec![(0, "Button".to_string()), (1, "Toggle".to_string())]);
    assert_eq!(all[1].1, vec![(2, "Card".to_string()), (3, "Stack".to_string())]);

    let found = sidebar_groups(&entries, "  TA ");
    assert_eq!(found.len(), 1);
    assert_eq!(found[0].0, "Layout");
    assert_eq!(found[0].1, vec![(3, "Stack".to_string())]);

    let none = sidebar_groups(&entries, "zzz");
    assert!(none.is_empty());

    let split = vec![entry("A", "x"), entry("B", "y"), entry("A", "z")];
    let g = sidebar_groups(&split, "");
    assert_eq!(g.len(), 3);
}

#[test]
fn text_helpers() {
    assert_eq!(trim("  \u{2003}hi there\t\n"), "hi there");
    assert_eq!(trim("   "), "");
    assert!(text_eq("abc", "abc"));
    assert!(!text_eq("abc", "abd"));
    assert!(text_contains("button", "tto"));
    assert!(text_contains("button", ""));
    assert!(!text_contains("bu", "button"));
    assert!(text_less("Button", "Card"));
    assert!(text_less("Card", "Cards"));
    assert!(!text_less("b", "B"));
}

#[test]
fn frames_swap_blue_and_red() {
    let data = vec![1, 2, 3, 4, 5, 6, 7, 8, 9, 10];
    assert_eq!(bgra_to_rgba(&data), vec![3, 2, 1, 4, 7, 6, 5, 8, 9, 10]);
    let frame = CapturedFrame { width: 1, height: 1, data: vec![10, 20, 30, 40] };
    assert_eq!(frame.rgba_data(), vec![30, 20, 10, 40]);
    assert_eq!(bgra_to_rgba(&bgra_to_rgba(&data)), data);
}

#[test]
fn viewport_presets() {
    assert_eq!(ViewportPreset::Small.width(), Some(320));
    assert_eq!(ViewportPreset::Medium.width(), Some(640));
    assert_eq!(ViewportPreset::Large.width(), Some(960));
    assert_eq!(ViewportPreset::Full.width(), None);
    assert_eq!(ViewportPreset::Full.label(), "Full");
    assert_eq!(ViewportPreset::Small.label(), "S");
}
