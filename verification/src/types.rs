//! The values that flow between a component and its prop editor, and the
//! metadata that says which control edits each field.

use vstd::prelude::*;

verus! {

/// A 64-bit floating-point number, held as its IEEE-754 bit pattern.
/// The library moves such numbers around but never computes with them.
#[derive(Clone, Copy, Debug, PartialEq, Eq, Structural)]
pub struct FloatBits {
    pub bits: u64,
}

/// Whether the bit pattern is a finite number: its exponent field is not
/// the all-ones pattern that IEEE-754 reserves for infinities and NaNs.
pub open spec fn is_finite_bits(bits: u64) -> bool {
    (bits >> 52u64) & 0x7ffu64 != 0x7ffu64
}

impl FloatBits {
    /// `f64::is_finite` on the number that these bits encode.
    pub fn is_finite(&self) -> (r: bool)
        ensures
            r == is_finite_bits(self.bits),
    {
        (self.bits >> 52u64) & 0x7ffu64 != 0x7ffu64
    }
}

/// What kind of control to render in the prop editor.
#[derive(Debug)]
pub enum ControlKind {
    /// Single-line text input (for `String`).
    TextInput,
    /// Boolean toggle (for `bool`).
    Toggle,
    /// Numeric slider with min/max bounds (for floats and integers).
    NumberSlider { min: FloatBits, max: FloatBits },
    /// Select from named variants (for enums).
    Select(Vec<&'static str>),
    /// RGBA color picker.
    Color,
    /// Wraps another control, adding a None/Some toggle (for `Option<T>`).
    Optional(Box<ControlKind>),
    /// User-defined custom control.
    Custom(String),
    /// Fallback for unsupported types: displays the type name, no interaction.
    Unsupported,
}

impl Clone for ControlKind {
    fn clone(&self) -> (r: Self)
        decreases self,
    {
        match self {
            ControlKind::TextInput => ControlKind::TextInput,
            ControlKind::Toggle => ControlKind::Toggle,
            ControlKind::NumberSlider { min, max } => ControlKind::NumberSlider { min: *min, max: *max },
            ControlKind::Select(names) => ControlKind::Select(names.clone()),
            ControlKind::Color => ControlKind::Color,
            ControlKind::Optional(inner) => ControlKind::Optional(Box::new((**inner).clone())),
            ControlKind::Custom(name) => ControlKind::Custom(name.clone()),
            ControlKind::Unsupported => ControlKind::Unsupported,
        }
    }
}

/// Runtime values passed between the prop editor and the component.
#[derive(Clone, Debug)]
pub enum FieldValue {
    /// UTF-8 string value.
    String(String),
    /// Boolean value.
    Bool(bool),
    /// 64-bit floating-point value.
    Float(FloatBits),
    /// 64-bit signed integer value.
    Int(i64),
    /// Enum variant name.
    Enum(String),
    /// RGBA color as four bytes `[r, g, b, a]`.
    Color([u8; 4]),
    /// The `None` state of an `Option<T>` field.
    Absent,
}

/// Metadata about a single tweakable field.
#[derive(Clone, Debug)]
pub struct FieldMeta {
    /// Field name as it appears in source (the key for get/set).
    pub name: &'static str,
    /// Doc string shown as a tooltip in the prop editor.
    pub doc: &'static str,
    /// Control type to render for this field.
    pub control: ControlKind,
}

/// The abstract value of a `FieldValue`: texts as character sequences.
pub enum FieldData {
    Text(Seq<char>),
    Bool(bool),
    Float(FloatBits),
    Int(i64),
    Enum(Seq<char>),
    Color(u8, u8, u8, u8),
    Absent,
}

impl View for FieldValue {
    type V = FieldData;

    open spec fn view(&self) -> FieldData {
        match self {
            FieldValue::String(s) => FieldData::Text(s@),
            FieldValue::Bool(b) => FieldData::Bool(*b),
            FieldValue::Float(f) => FieldData::Float(*f),
            FieldValue::Int(i) => FieldData::Int(*i),
            FieldValue::Enum(s) => FieldData::Enum(s@),
            FieldValue::Color(c) => FieldData::Color(c[0], c[1], c[2], c[3]),
            FieldValue::Absent => FieldData::Absent,
        }
    }
}

/// The abstract value of an optional field value.
pub open spec fn opt_field_view(v: Option<FieldValue>) -> Option<FieldData> {
    match v {
        Some(x) => Some(x@),
        None => None,
    }
}

} // verus!
