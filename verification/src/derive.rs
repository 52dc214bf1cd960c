//! The analysis behind `#[derive(Previewable)]`: from a type definition
//! (its name, `#[preview(..)]` and doc attributes, fields and their types)
//! to what the generated implementation contains: the component's name,
//! category, description and registration, and for each field its name,
//! tooltip, control and how `get_field`/`set_field` read and write it; or,
//! for a unit-only enum, its variant names.

use vstd::prelude::*;
use crate::text::{text_eq, trim, trimmed};
use crate::json::{JsonNumber, JsonValue};
use crate::stories::{decoded, encodes, fits, lemma_json_round_trip};
use crate::types::{ControlKind, FieldData, FloatBits, is_finite_bits};

verus! {

/// The path of an attribute or meta item: a single plain identifier (what
/// `Path::is_ident` recognises), or any other path.
#[derive(Debug)]
pub enum PathName {
    Ident(String),
    Other,
}

/// The value of a `name = value` meta item.
#[derive(Debug)]
pub enum MetaValue {
    /// A string literal, with its value.
    Str(String),
    /// A float literal, with the value it parses to.
    Float(FloatBits),
    /// Any other expression.
    Other,
}

/// An attribute's meta, or one item of a parenthesized meta list.
#[derive(Debug)]
pub enum MetaItem {
    /// `path`
    Path(PathName),
    /// `path(..)`: the arguments, parsed as comma-separated meta items;
    /// `None` where they do not parse so.
    List(PathName, Option<Vec<MetaItem>>),
    /// `path = value`
    NameValue(PathName, MetaValue),
}

/// A field's type, as far as the derive looks at it.
#[derive(Debug)]
pub enum TypeRef {
    /// A path type: the name of its last segment, and the first generic
    /// argument of that segment where it is angle-bracketed and a type.
    Path { last: String, first_arg: Option<Box<TypeRef>> },
    /// Any type that is not a path (reference, tuple, array, ...).
    Other,
}

/// A named field of a struct.
#[derive(Debug)]
pub struct FieldDef {
    pub ident: String,
    pub attrs: Vec<MetaItem>,
    pub ty: TypeRef,
}

/// The fields of a struct.
#[derive(Debug)]
pub enum StructFields {
    Named(Vec<FieldDef>),
    Unnamed,
    Unit,
}

/// A variant of an enum.
#[derive(Debug)]
pub struct VariantDef {
    pub ident: String,
    pub has_fields: bool,
}

/// The body of the type definition.
#[derive(Debug)]
pub enum DataDef {
    Struct(StructFields),
    Enum(Vec<VariantDef>),
    Union,
}

/// A type definition that `#[derive(Previewable)]` is applied to.
#[derive(Debug)]
pub struct DeriveInput {
    pub ident: String,
    pub attrs: Vec<MetaItem>,
    pub data: DataDef,
}

/// Which control the prop editor shows for a field.
#[derive(Debug)]
pub enum ControlPlan {
    TextInput,
    Toggle,
    NumberSlider { min: FloatBits, max: FloatBits },
    Color,
    /// A select over the variant names of the field's enum type.
    Select,
    Optional(Box<ControlPlan>),
    Unsupported,
}

/// An integer field type.
#[derive(Clone, Copy, Debug, PartialEq, Eq, Structural)]
pub enum IntType {
    I8,
    I16,
    I32,
    I64,
    Isize,
    U8,
    U16,
    U32,
    U64,
    Usize,
}

/// How the generated accessors treat a value of a field's (inner) type.
#[derive(Clone, Copy, Debug, PartialEq, Eq, Structural)]
pub enum ValueKind {
    /// `String`: read and written as `FieldValue::String`.
    Text,
    /// `bool`: `FieldValue::Bool`.
    Flag,
    /// `f32`: read as `FieldValue::Float`; written from a float or an
    /// integer, narrowed to `f32`.
    Float32,
    /// `f64`: read as `FieldValue::Float`; written from a float or an
    /// integer.
    Float64,
    /// An integer type: read as `FieldValue::Int`; written from an integer
    /// or a float, cast to the type.
    Integer(IntType),
    /// `Hsla`: `FieldValue::Color`.
    Color,
    /// Any other path type, taken to be a `PreviewEnum`: `FieldValue::Enum`.
    Enum,
    /// Not a path type: never read, never written.
    NotAPath,
}

/// How the generated accessors treat a field.
#[derive(Clone, Copy, Debug, PartialEq, Eq, Structural)]
pub enum FieldAccess {
    Plain(ValueKind),
    /// `Option<T>`: `None` is `FieldValue::Absent`; a present value is
    /// treated as the inner type's values are.
    Optional(ValueKind),
}

/// What the derive generates for one field.
#[derive(Debug)]
pub struct FieldPlan {
    pub name: String,
    pub doc: String,
    pub control: ControlPlan,
    pub access: FieldAccess,
}

/// What the derive generates for a struct.
#[derive(Debug)]
pub struct ComponentPlan {
    pub name: String,
    pub category: String,
    pub description: String,
    /// Whether the component registers itself with the preview app.
    pub register: bool,
    pub fields: Vec<FieldPlan>,
}

/// What the derive generates for a unit-only enum.
#[derive(Debug)]
pub struct EnumPlan {
    pub name: String,
    pub variants: Vec<String>,
}

/// The outcome of the derive.
#[derive(Debug)]
pub enum DerivePlan {
    Component(ComponentPlan),
    Enum(EnumPlan),
}

/// Why the derive refuses a definition.
#[derive(Debug)]
pub enum DeriveError {
    /// A union was given.
    Union,
    /// A struct without named fields was given.
    UnnamedFields,
    /// An enum variant has fields; its name.
    VariantWithFields(String),
}

impl DeriveError {
    /// The compile error message.
    pub fn message(&self) -> (r: &'static str)
        ensures
            self is Union ==> r@ == "Previewable cannot be derived for unions"@,
            self is UnnamedFields ==> r@ == "Previewable requires named fields"@,
            self is VariantWithFields ==> r@ == "Previewable enums must have only unit variants (no fields)"@,
    {
        match self {
            DeriveError::Union => "Previewable cannot be derived for unions",
            DeriveError::UnnamedFields => "Previewable requires named fields",
            DeriveError::VariantWithFields(_) => "Previewable enums must have only unit variants (no fields)",
        }
    }
}

// ── Attribute helpers ──────────────────────────────────────────────────

/// The path is the single identifier `name`.
pub open spec fn is_ident(p: PathName, name: Seq<char>) -> bool {
    p matches PathName::Ident(s) && s@ == name
}

/// `Path::is_ident`.
pub fn path_is_ident(p: &PathName, name: &str) -> (r: bool)
    ensures
        r == is_ident(*p, name@),
{
    match p {
        PathName::Ident(s) => text_eq(s.as_str(), name),
        PathName::Other => false,
    }
}

/// The arguments of a `#[preview(..)]` attribute, where it is one and they
/// parse as comma-separated meta items.
pub open spec fn preview_args(attr: MetaItem) -> Option<Vec<MetaItem>> {
    match attr {
        MetaItem::List(p, args) => if is_ident(p, "preview"@) {
            args
        } else {
            None
        },
        _ => None,
    }
}

fn get_preview_args(attr: &MetaItem) -> (r: Option<&Vec<MetaItem>>)
    ensures
        r is Some == preview_args(*attr) is Some,
        r matches Some(a) ==> *a == preview_args(*attr)->0,
{
    match attr {
        MetaItem::List(p, args) => if path_is_ident(p, "preview") {
            match args {
                Some(a) => Some(a),
                None => None,
            }
        } else {
            None
        },
        _ => None,
    }
}

/// The meta item is the bare word `flag`.
pub open spec fn is_flag_item(m: MetaItem, flag: Seq<char>) -> bool {
    m matches MetaItem::Path(p) && is_ident(p, flag)
}

/// Some `#[preview(..)]` attribute holds the bare word `flag`.
pub open spec fn has_flag(attrs: Seq<MetaItem>, flag: Seq<char>) -> bool {
    exists|i: int, j: int|
        0 <= i < attrs.len() && preview_args(attrs[i]) is Some && 0 <= j < preview_args(attrs[i])->0@.len()
            && is_flag_item(#[trigger] preview_args(attrs[i])->0@[j], flag)
}

/// Whether some `#[preview(..)]` attribute holds the bare word `flag`
/// (such as `skip` or `no_register`).
pub fn has_preview_flag(attrs: &[MetaItem], flag: &str) -> (r: bool)
    ensures
        r == has_flag(attrs@, flag@),
{
    let n = attrs.len();
    for i in 0..n
        invariant
            n == attrs@.len(),
            forall|a: int, j: int|
                0 <= a < i && preview_args(attrs@[a]) is Some && 0 <= j < preview_args(attrs@[a])->0@.len()
                    ==> !is_flag_item(#[trigger] preview_args(attrs@[a])->0@[j], flag@),
    {
        match get_preview_args(&attrs[i]) {
            Some(args) => {
                let m = args.len();
                for j in 0..m
                    invariant
                        n == attrs@.len(),
                        i < n,
                        m == args@.len(),
                        preview_args(attrs@[i as int]) is Some,
                        *args == preview_args(attrs@[i as int])->0,
                        forall|b: int| 0 <= b < j ==> !is_flag_item(#[trigger] args@[b], flag@),
                {
                    match &args[j] {
                        MetaItem::Path(p) => {
                            if path_is_ident(p, flag) {
                                proof {
                                    assert(is_flag_item(preview_args(attrs@[i as int])->0@[j as int], flag@));
                                    assert(has_flag(attrs@, flag@));
                                }
                                return true;
                            }
                        },
                        _ => {},
                    }
                }
            },
            None => {},
        }
    }
    proof {
        assert forall|a: int, j: int|
            0 <= a < attrs@.len() && preview_args(attrs@[a]) is Some && 0 <= j < preview_args(attrs@[a])->0@.len()
                implies !is_flag_item(#[trigger] preview_args(attrs@[a])->0@[j], flag@) by {}
    }
    false
}

/// The first string value given to `key` in a list of meta items.
pub open spec fn kv_in(args: Seq<MetaItem>, key: Seq<char>) -> Option<Seq<char>>
    decreases args.len(),
{
    if args.len() == 0 {
        None
    } else {
        match args[0] {
            MetaItem::NameValue(p, MetaValue::Str(s)) => if is_ident(p, key) {
                Some(s@)
            } else {
                kv_in(args.drop_first(), key)
            },
            _ => kv_in(args.drop_first(), key),
        }
    }
}

/// The first string value given to `key` in a `#[preview(..)]` attribute.
pub open spec fn preview_kv(attrs: Seq<MetaItem>, key: Seq<char>) -> Option<Seq<char>>
    decreases attrs.len(),
{
    if attrs.len() == 0 {
        None
    } else {
        match preview_args(attrs[0]) {
            Some(args) => match kv_in(args@, key) {
                Some(v) => Some(v),
                None => preview_kv(attrs.drop_first(), key),
            },
            None => preview_kv(attrs.drop_first(), key),
        }
    }
}

fn kv_in_args(args: &Vec<MetaItem>, key: &str) -> (r: Option<String>)
    ensures
        r is Some == kv_in(args@, key@) is Some,
        r matches Some(s) ==> s@ == kv_in(args@, key@)->0,
{
    let n = args.len();
    proof {
        assert(args@.subrange(0, n as int) =~= args@);
    }
    let mut i: usize = 0;
    while i < n
        invariant
            n == args@.len(),
            i <= n,
            kv_in(args@, key@) == kv_in(args@.subrange(i as int, n as int), key@),
        decreases n - i,
    {
        let ghost rest = args@.subrange(i as int, n as int);
        proof {
            assert(rest.drop_first() =~= args@.subrange(i + 1, n as int));
            assert(rest[0] == args@[i as int]);
        }
        match &args[i] {
            MetaItem::NameValue(p, MetaValue::Str(s)) => {
                if path_is_ident(p, key) {
                    return Some(s.clone());
                }
            },
            _ => {},
        }
        i += 1;
    }
    None
}

/// `#[preview(key = "...")]`: the first string value given to `key`.
pub fn extract_preview_kv(attrs: &[MetaItem], key: &str) -> (r: Option<String>)
    ensures
        r is Some == preview_kv(attrs@, key@) is Some,
        r matches Some(s) ==> s@ == preview_kv(attrs@, key@)->0,
{
    let n = attrs.len();
    proof {
        assert(attrs@.subrange(0, n as int) =~= attrs@);
    }
    let mut i: usize = 0;
    while i < n
        invariant
            n == attrs@.len(),
            i <= n,
            preview_kv(attrs@, key@) == preview_kv(attrs@.subrange(i as int, n as int), key@),
        decreases n - i,
    {
        let ghost rest = attrs@.subrange(i as int, n as int);
        proof {
            assert(rest.drop_first() =~= attrs@.subrange(i + 1, n as int));
            assert(rest[0] == attrs@[i as int]);
        }
        match get_preview_args(&attrs[i]) {
            Some(args) => match kv_in_args(args, key) {
                Some(v) => {
                    return Some(v);
                },
                None => {},
            },
            None => {},
        }
        i += 1;
    }
    None
}

/// The bits of the float `0.0`.
pub open spec fn zero_bits() -> FloatBits {
    FloatBits { bits: 0 }
}

/// The bits of the float `100.0`.
pub open spec fn hundred_bits() -> FloatBits {
    FloatBits { bits: 0x4059_0000_0000_0000 }
}

/// The last float literal given to `key` in the arguments of `slider(..)`,
/// or `default` where there is none.
pub open spec fn bound_in(inner: Seq<MetaItem>, key: Seq<char>, default: FloatBits) -> FloatBits
    decreases inner.len(),
{
    if inner.len() == 0 {
        default
    } else {
        match inner.last() {
            MetaItem::NameValue(p, MetaValue::Float(f)) => if is_ident(p, key) {
                f
            } else {
                bound_in(inner.drop_last(), key, default)
            },
            _ => bound_in(inner.drop_last(), key, default),
        }
    }
}

/// The bounds of the first `slider(..)` item, with parsable arguments, of a
/// list of meta items: `min` and `max` default to 0 and 100.
pub open spec fn slider_in(args: Seq<MetaItem>) -> Option<(FloatBits, FloatBits)>
    decreases args.len(),
{
    if args.len() == 0 {
        None
    } else {
        match args[0] {
            MetaItem::List(p, Some(inner)) => if is_ident(p, "slider"@) {
                Some((bound_in(inner@, "min"@, zero_bits()), bound_in(inner@, "max"@, hundred_bits())))
            } else {
                slider_in(args.drop_first())
            },
            _ => slider_in(args.drop_first()),
        }
    }
}

/// The slider bounds of the first `#[preview(slider(..))]` attribute.
pub open spec fn preview_slider(attrs: Seq<MetaItem>) -> Option<(FloatBits, FloatBits)>
    decreases attrs.len(),
{
    if attrs.len() == 0 {
        None
    } else {
        match preview_args(attrs[0]) {
            Some(args) => match slider_in(args@) {
                Some(b) => Some(b),
                None => preview_slider(attrs.drop_first()),
            },
            None => preview_slider(attrs.drop_first()),
        }
    }
}

fn slider_bounds(inner: &Vec<MetaItem>) -> (r: (FloatBits, FloatBits))
    ensures
        r == (bound_in(inner@, "min"@, zero_bits()), bound_in(inner@, "max"@, hundred_bits())),
{
    let mut min = FloatBits { bits: 0 };
    let mut max = FloatBits { bits: 0x4059_0000_0000_0000 };
    let n = inner.len();
    for i in 0..n
        invariant
            n == inner@.len(),
            min == bound_in(inner@.subrange(0, i as int), "min"@, zero_bits()),
            max == bound_in(inner@.subrange(0, i as int), "max"@, hundred_bits()),
    {
        proof {
            reveal_strlit("min");
            reveal_strlit("max");
            assert("min"@[1] != "max"@[1]);
            let post = inner@.subrange(0, i + 1);
            assert(post.drop_last() =~= inner@.subrange(0, i as int));
            assert(post.last() == inner@[i as int]);
        }
        match &inner[i] {
            MetaItem::NameValue(p, MetaValue::Float(f)) => {
                if path_is_ident(p, "min") {
                    min = *f;
                } else if path_is_ident(p, "max") {
                    max = *f;
                }
            },
            _ => {},
        }
    }
    proof {
        assert(inner@.subrange(0, n as int) =~= inner@);
    }
    (min, max)
}

fn slider_in_args(args: &Vec<MetaItem>) -> (r: Option<(FloatBits, FloatBits)>)
    ensures
        r == slider_in(args@),
{
    let n = args.len();
    proof {
        assert(args@.subrange(0, n as int) =~= args@);
    }
    let mut i: usize = 0;
    while i < n
        invariant
            n == args@.len(),
            i <= n,
            slider_in(args@) == slider_in(args@.subrange(i as int, n as int)),
        decreases n - i,
    {
        let ghost rest = args@.subrange(i as int, n as int);
        proof {
            assert(rest.drop_first() =~= args@.subrange(i + 1, n as int));
            assert(rest[0] == args@[i as int]);
        }
        match &args[i] {
            MetaItem::List(p, Some(inner)) => {
                if path_is_ident(p, "slider") {
                    return Some(slider_bounds(inner));
                }
            },
            _ => {},
        }
        i += 1;
    }
    None
}

/// `#[preview(slider(min = .., max = ..))]`: the bounds of the first slider
/// item whose arguments parse; a bound that is not given is 0 or 100, and
/// a bound given more than once takes its last value.
pub fn extract_slider_attr(attrs: &[MetaItem]) -> (r: Option<(FloatBits, FloatBits)>)
    ensures
        r == preview_slider(attrs@),
{
    let n = attrs.len();
    proof {
        assert(attrs@.subrange(0, n as int) =~= attrs@);
    }
    let mut i: usize = 0;
    while i < n
        invariant
            n == attrs@.len(),
            i <= n,
            preview_slider(attrs@) == preview_slider(attrs@.subrange(i as int, n as int)),
        decreases n - i,
    {
        let ghost rest = attrs@.subrange(i as int, n as int);
        proof {
            assert(rest.drop_first() =~= attrs@.subrange(i + 1, n as int));
            assert(rest[0] == attrs@[i as int]);
        }
        match get_preview_args(&attrs[i]) {
            Some(args) => match slider_in_args(args) {
                Some(b) => {
                    return Some(b);
                },
                None => {},
            },
            None => {},
        }
        i += 1;
    }
    None
}

/// The trimmed texts of the `#[doc = "..."]` attributes, in order.
pub open spec fn doc_lines(attrs: Seq<MetaItem>) -> Seq<Seq<char>>
    decreases attrs.len(),
{
    if attrs.len() == 0 {
        Seq::empty()
    } else {
        let rest = doc_lines(attrs.drop_last());
        match attrs.last() {
            MetaItem::NameValue(p, MetaValue::Str(s)) => if is_ident(p, "doc"@) {
                rest.push(trimmed(s@))
            } else {
                rest
            },
            _ => rest,
        }
    }
}

/// Texts joined with single spaces between them.
pub open spec fn joined(lines: Seq<Seq<char>>) -> Seq<char>
    decreases lines.len(),
{
    if lines.len() == 0 {
        Seq::empty()
    } else if lines.len() == 1 {
        lines[0]
    } else {
        joined(lines.drop_last()) + seq![' '] + lines.last()
    }
}

/// The doc comment: the trimmed lines of the doc attributes, joined with
/// spaces.
pub fn extract_doc_comment(attrs: &[MetaItem]) -> (r: String)
    ensures
        r@ == joined(doc_lines(attrs@)),
{
    let mut out = String::new();
    let mut count: usize = 0;
    let n = attrs.len();
    for i in 0..n
        invariant
            n == attrs@.len(),
            count == doc_lines(attrs@.subrange(0, i as int)).len(),
            count <= i,
            out@ == joined(doc_lines(attrs@.subrange(0, i as int))),
    {
        let ghost pre = attrs@.subrange(0, i as int);
        let ghost post = attrs@.subrange(0, i + 1);
        proof {
            assert(post.drop_last() =~= pre);
            assert(post.last() == attrs@[i as int]);
        }
        match &attrs[i] {
            MetaItem::NameValue(p, MetaValue::Str(s)) => {
                if path_is_ident(p, "doc") {
                    let line = trim(s.as_str());
                    if count > 0 {
                        out.append(" ");
                        proof {
                            reveal_strlit(" ");
                        }
                    }
                    out.append(line);
                    proof {
                        let lines = doc_lines(post);
                        assert(lines.drop_last() =~= doc_lines(pre));
                        if count > 0 {
                            assert(out@ =~= joined(lines));
                        } else {
                            assert(out@ =~= joined(lines));
                        }
                    }
                    count += 1;
                }
            },
            _ => {},
        }
    }
    proof {
        assert(attrs@.subrange(0, n as int) =~= attrs@);
    }
    out
}

// ── Types ──────────────────────────────────────────────────────────────

/// The name of a type's last path segment, where it is a path type.
pub open spec fn last_segment(ty: TypeRef) -> Option<Seq<char>> {
    match ty {
        TypeRef::Path { last, .. } => Some(last@),
        TypeRef::Other => None,
    }
}

/// The `T` of `Option<T>` (a path whose last segment is `Option` with a
/// first angle-bracketed type argument).
pub open spec fn option_inner(ty: TypeRef) -> Option<TypeRef> {
    match ty {
        TypeRef::Path { last, first_arg } => if last@ == "Option"@ {
            match first_arg {
                Some(b) => Some(*b),
                None => None,
            }
        } else {
            None
        },
        TypeRef::Other => None,
    }
}

/// `last_segment_name`.
pub fn last_segment_name(ty: &TypeRef) -> (r: Option<String>)
    ensures
        r is Some == last_segment(*ty) is Some,
        r matches Some(s) ==> s@ == last_segment(*ty)->0,
{
    match ty {
        TypeRef::Path { last, .. } => Some(last.clone()),
        TypeRef::Other => None,
    }
}

/// `extract_option_inner`.
pub fn extract_option_inner(ty: &TypeRef) -> (r: Option<&TypeRef>)
    ensures
        r is Some == option_inner(*ty) is Some,
        r matches Some(t) ==> *t == option_inner(*ty)->0,
{
    match ty {
        TypeRef::Path { last, first_arg } => if text_eq(last.as_str(), "Option") {
            match first_arg {
                Some(b) => Some(&**b),
                None => None,
            }
        } else {
            None
        },
        TypeRef::Other => None,
    }
}

/// The integer type of that name, if it is one.
pub open spec fn int_type_named(name: Seq<char>) -> Option<IntType> {
    if name == "i8"@ {
        Some(IntType::I8)
    } else if name == "i16"@ {
        Some(IntType::I16)
    } else if name == "i32"@ {
        Some(IntType::I32)
    } else if name == "i64"@ {
        Some(IntType::I64)
    } else if name == "isize"@ {
        Some(IntType::Isize)
    } else if name == "u8"@ {
        Some(IntType::U8)
    } else if name == "u16"@ {
        Some(IntType::U16)
    } else if name == "u32"@ {
        Some(IntType::U32)
    } else if name == "u64"@ {
        Some(IntType::U64)
    } else if name == "usize"@ {
        Some(IntType::Usize)
    } else {
        None
    }
}

/// The name of an integer type as it is written in source.
pub open spec fn int_type_name(t: IntType) -> Seq<char> {
    match t {
        IntType::I8 => seq!['i', '8'],
        IntType::I16 => seq!['i', '1', '6'],
        IntType::I32 => seq!['i', '3', '2'],
        IntType::I64 => seq!['i', '6', '4'],
        IntType::Isize => seq!['i', 's', 'i', 'z', 'e'],
        IntType::U8 => seq!['u', '8'],
        IntType::U16 => seq!['u', '1', '6'],
        IntType::U32 => seq!['u', '3', '2'],
        IntType::U64 => seq!['u', '6', '4'],
        IntType::Usize => seq!['u', 's', 'i', 'z', 'e'],
    }
}

/// The ten integer type names, and no other name, are integer types: a
/// field whose type is one of them gets a slider from 0 to 100 and
/// accessors that read and write integers.
pub proof fn lemma_integer_types(t: IntType, name: Seq<char>, ty: TypeRef)
    ensures
        int_type_named(int_type_name(t)) == Some(t),
        int_type_named(name) matches Some(u) ==> name == int_type_name(u),
        last_segment(ty) == Some(int_type_name(t)) ==> {
            &&& scalar_kind(ty) == ValueKind::Integer(t)
            &&& access_of(ty) == FieldAccess::Plain(ValueKind::Integer(t))
            &&& control_of(ty) == ControlPlan::NumberSlider {
                min: FloatBits { bits: 0 },
                max: FloatBits { bits: 0x4059_0000_0000_0000 },
            }
        },
{
    reveal_strlit("i8");
    reveal_strlit("i16");
    reveal_strlit("i32");
    reveal_strlit("i64");
    reveal_strlit("isize");
    reveal_strlit("u8");
    reveal_strlit("u16");
    reveal_strlit("u32");
    reveal_strlit("u64");
    reveal_strlit("usize");
    reveal_strlit("String");
    reveal_strlit("bool");
    reveal_strlit("f32");
    reveal_strlit("f64");
    reveal_strlit("Hsla");
    reveal_strlit("Option");
    match t {
        IntType::I8 => {
            assert(int_type_name(t) =~= "i8"@);
        },
        IntType::I16 => {
            assert(int_type_name(t) =~= "i16"@);
            assert("i16"@[0] != "f32"@[0]);
            assert("i16"@[0] != "f64"@[0]);
        },
        IntType::I32 => {
            assert(int_type_name(t) =~= "i32"@);
            assert("i32"@[1] != "i16"@[1]);
            assert("i32"@[0] != "f32"@[0]);
            assert("i32"@[0] != "f64"@[0]);
        },
        IntType::I64 => {
            assert(int_type_name(t) =~= "i64"@);
            assert("i64"@[1] != "i16"@[1]);
            assert("i64"@[1] != "i32"@[1]);
            assert("i64"@[0] != "f32"@[0]);
            assert("i64"@[0] != "f64"@[0]);
        },
        IntType::Isize => {
            assert(int_type_name(t) =~= "isize"@);
        },
        IntType::U8 => {
            assert(int_type_name(t) =~= "u8"@);
            assert("u8"@[0] != "i8"@[0]);
        },
        IntType::U16 => {
            assert(int_type_name(t) =~= "u16"@);
            assert("u16"@[0] != "i16"@[0]);
            assert("u16"@[0] != "i32"@[0]);
            assert("u16"@[0] != "i64"@[0]);
            assert("u16"@[0] != "f32"@[0]);
            assert("u16"@[0] != "f64"@[0]);
        },
        IntType::U32 => {
            assert(int_type_name(t) =~= "u32"@);
            assert("u32"@[0] != "i16"@[0]);
            assert("u32"@[0] != "i32"@[0]);
            assert("u32"@[0] != "i64"@[0]);
            assert("u32"@[1] != "u16"@[1]);
            assert("u32"@[0] != "f32"@[0]);
            assert("u32"@[0] != "f64"@[0]);
        },
        IntType::U64 => {
            assert(int_type_name(t) =~= "u64"@);
            assert("u64"@[0] != "i16"@[0]);
            assert("u64"@[0] != "i32"@[0]);
            assert("u64"@[0] != "i64"@[0]);
            assert("u64"@[1] != "u16"@[1]);
            assert("u64"@[1] != "u32"@[1]);
            assert("u64"@[0] != "f32"@[0]);
            assert("u64"@[0] != "f64"@[0]);
        },
        IntType::Usize => {
            assert(int_type_name(t) =~= "usize"@);
            assert("usize"@[0] != "isize"@[0]);
        },
    }
}

fn int_type_of(name: &str) -> (r: Option<IntType>)
    ensures
        r == int_type_named(name@),
{
    if text_eq(name, "i8") {
        Some(IntType::I8)
    } else if text_eq(name, "i16") {
        Some(IntType::I16)
    } else if text_eq(name, "i32") {
        Some(IntType::I32)
    } else if text_eq(name, "i64") {
        Some(IntType::I64)
    } else if text_eq(name, "isize") {
        Some(IntType::Isize)
    } else if text_eq(name, "u8") {
        Some(IntType::U8)
    } else if text_eq(name, "u16") {
        Some(IntType::U16)
    } else if text_eq(name, "u32") {
        Some(IntType::U32)
    } else if text_eq(name, "u64") {
        Some(IntType::U64)
    } else if text_eq(name, "usize") {
        Some(IntType::Usize)
    } else {
        None
    }
}

/// The value kind of a type, read from the name of its last segment.
pub open spec fn scalar_kind(ty: TypeRef) -> ValueKind {
    match last_segment(ty) {
        None => ValueKind::NotAPath,
        Some(name) => if name == "String"@ {
            ValueKind::Text
        } else if name == "bool"@ {
            ValueKind::Flag
        } else if name == "f32"@ {
            ValueKind::Float32
        } else if name == "f64"@ {
            ValueKind::Float64
        } else if int_type_named(name) is Some {
            ValueKind::Integer(int_type_named(name)->0)
        } else if name == "Hsla"@ {
            ValueKind::Color
        } else {
            ValueKind::Enum
        },
    }
}

fn scalar_kind_of(ty: &TypeRef) -> (r: ValueKind)
    ensures
        r == scalar_kind(*ty),
{
    match ty {
        TypeRef::Other => ValueKind::NotAPath,
        TypeRef::Path { last, .. } => {
            let name = last.as_str();
            if text_eq(name, "String") {
                ValueKind::Text
            } else if text_eq(name, "bool") {
                ValueKind::Flag
            } else if text_eq(name, "f32") {
                ValueKind::Float32
            } else if text_eq(name, "f64") {
                ValueKind::Float64
            } else {
                match int_type_of(name) {
                    Some(t) => ValueKind::Integer(t),
                    None => if text_eq(name, "Hsla") {
                        ValueKind::Color
                    } else {
                        ValueKind::Enum
                    },
                }
            }
        },
    }
}

/// How the accessors treat a field of type `ty` (`type_to_get` and
/// `type_to_set`).
pub open spec fn access_of(ty: TypeRef) -> FieldAccess {
    match option_inner(ty) {
        Some(inner) => FieldAccess::Optional(scalar_kind(inner)),
        None => FieldAccess::Plain(scalar_kind(ty)),
    }
}

/// How the generated `get_field` and `set_field` treat a field of this type.
pub fn type_to_access(ty: &TypeRef) -> (r: FieldAccess)
    ensures
        r == access_of(*ty),
{
    match extract_option_inner(ty) {
        Some(inner) => FieldAccess::Optional(scalar_kind_of(inner)),
        None => FieldAccess::Plain(scalar_kind_of(ty)),
    }
}

/// The control for a field of type `ty` (`type_to_control`): optional
/// types get an optional control around their inner type's.
pub open spec fn control_of(ty: TypeRef) -> ControlPlan
    decreases ty,
{
    match ty {
        TypeRef::Path { last, first_arg } => if last@ == "Option"@ && first_arg is Some {
            ControlPlan::Optional(Box::new(control_of(*first_arg->0)))
        } else {
            let name = last@;
            if name == "String"@ {
                ControlPlan::TextInput
            } else if name == "bool"@ {
                ControlPlan::Toggle
            } else if name == "f32"@ || name == "f64"@ || int_type_named(name) is Some {
                ControlPlan::NumberSlider { min: zero_bits(), max: hundred_bits() }
            } else if name == "Hsla"@ {
                ControlPlan::Color
            } else {
                ControlPlan::Select
            }
        },
        TypeRef::Other => ControlPlan::Unsupported,
    }
}

/// `type_to_control`.
pub fn type_to_control(ty: &TypeRef) -> (r: ControlPlan)
    ensures
        r == control_of(*ty),
    decreases ty,
{
    match ty {
        TypeRef::Other => ControlPlan::Unsupported,
        TypeRef::Path { last, first_arg } => {
            let name = last.as_str();
            if text_eq(name, "Option") && first_arg.is_some() {
                match first_arg {
                    Some(inner) => ControlPlan::Optional(Box::new(type_to_control(&**inner))),
                    None => ControlPlan::Unsupported,
                }
            } else if text_eq(name, "String") {
                ControlPlan::TextInput
            } else if text_eq(name, "bool") {
                ControlPlan::Toggle
            } else if text_eq(name, "f32") || text_eq(name, "f64") || int_type_of(name).is_some() {
                ControlPlan::NumberSlider {
                    min: FloatBits { bits: 0 },
                    max: FloatBits { bits: 0x4059_0000_0000_0000 },
                }
            } else if text_eq(name, "Hsla") {
                ControlPlan::Color
            } else {
                ControlPlan::Select
            }
        },
    }
}

// ── Struct and enum analysis ───────────────────────────────────────────

/// The abstract value of a field plan.
pub struct FieldPlanView {
    pub name: Seq<char>,
    pub doc: Seq<char>,
    pub control: ControlPlan,
    pub access: FieldAccess,
}

impl View for FieldPlan {
    type V = FieldPlanView;

    open spec fn view(&self) -> FieldPlanView {
        FieldPlanView { name: self.name@, doc: self.doc@, control: self.control, access: self.access }
    }
}

/// The plan of one field: its name, its doc comment as tooltip, the slider
/// that `#[preview(slider(..))]` asks for or else the control of its type,
/// and the accessors of its type.
pub open spec fn field_plan(f: FieldDef) -> FieldPlanView {
    FieldPlanView {
        name: f.ident@,
        doc: joined(doc_lines(f.attrs@)),
        control: match preview_slider(f.attrs@) {
            Some(b) => ControlPlan::NumberSlider { min: b.0, max: b.1 },
            None => control_of(f.ty),
        },
        access: access_of(f.ty),
    }
}

/// The plans of the fields not marked `#[preview(skip)]`, in order.
pub open spec fn field_plans(fields: Seq<FieldDef>) -> Seq<FieldPlanView>
    decreases fields.len(),
{
    if fields.len() == 0 {
        Seq::empty()
    } else {
        let rest = field_plans(fields.drop_last());
        if has_flag(fields.last().attrs@, "skip"@) {
            rest
        } else {
            rest.push(field_plan(fields.last()))
        }
    }
}

/// The abstract value of a list of field plans.
pub open spec fn plans_view(p: Seq<FieldPlan>) -> Seq<FieldPlanView> {
    p.map_values(|x: FieldPlan| x@)
}

/// The category text of a component that names none.
pub open spec fn default_category() -> Seq<char> {
    "Uncategorized"@
}

/// The plan of one field.
fn plan_field(f: &FieldDef) -> (r: FieldPlan)
    ensures
        r@ == field_plan(*f),
{
    let doc = extract_doc_comment(f.attrs.as_slice());
    let control = match extract_slider_attr(f.attrs.as_slice()) {
        Some((min, max)) => ControlPlan::NumberSlider { min, max },
        None => type_to_control(&f.ty),
    };
    FieldPlan { name: f.ident.clone(), doc, control, access: type_to_access(&f.ty) }
}

/// What the derive generates for a struct: a plan for one with named
/// fields, an error for one without.
pub fn derive_struct(input: &DeriveInput, data: &StructFields) -> (r: Result<ComponentPlan, DeriveError>)
    ensures
        !(data is Named) ==> r matches Err(DeriveError::UnnamedFields),
        data matches StructFields::Named(fields) ==> (r matches Ok(plan)
            && plan.name@ == input.ident@
            && plan.category@ == (match preview_kv(input.attrs@, "category"@) {
                Some(c) => c,
                None => default_category(),
            })
            && plan.description@ == joined(doc_lines(input.attrs@))
            && plan.register == !has_flag(input.attrs@, "no_register"@)
            && plans_view(plan.fields@) == field_plans(fields@)),
{
    let fields = match data {
        StructFields::Named(fields) => fields,
        _ => {
            return Err(DeriveError::UnnamedFields);
        },
    };
    let register = !has_preview_flag(input.attrs.as_slice(), "no_register");
    let category = match extract_preview_kv(input.attrs.as_slice(), "category") {
        Some(c) => c,
        None => String::from_str("Uncategorized"),
    };
    let description = extract_doc_comment(input.attrs.as_slice());
    let mut plans: Vec<FieldPlan> = Vec::new();
    let n = fields.len();
    for i in 0..n
        invariant
            n == fields@.len(),
            plans_view(plans@) == field_plans(fields@.subrange(0, i as int)),
    {
        let ghost pre = fields@.subrange(0, i as int);
        let ghost post = fields@.subrange(0, i + 1);
        proof {
            assert(post.drop_last() =~= pre);
            assert(post.last() == fields@[i as int]);
        }
        let f = &fields[i];
        if !has_preview_flag(f.attrs.as_slice(), "skip") {
            let ghost before = plans@;
            plans.push(plan_field(f));
            proof {
                assert(plans_view(plans@) =~= plans_view(before).push(field_plan(fields@[i as int])));
            }
        }
    }
    proof {
        assert(fields@.subrange(0, n as int) =~= fields@);
    }
    Ok(ComponentPlan { name: input.ident.clone(), category, description, register, fields: plans })
}

/// The position of the first variant that has fields, if any.
pub open spec fn first_with_fields(vs: Seq<VariantDef>) -> Option<int> {
    if exists|i: int| 0 <= i < vs.len() && vs[i].has_fields {
        Some(choose|i: int| 0 <= i < vs.len() && vs[i].has_fields && forall|j: int| 0 <= j < i ==> !vs[j].has_fields)
    } else {
        None
    }
}

/// The variants have different names, as Rust requires of an enum.
pub open spec fn distinct_idents(vs: Seq<VariantDef>) -> bool {
    forall|a: int, b: int| 0 <= a < b < vs.len() ==> vs[a].ident@ != vs[b].ident@
}

/// No variant name occurs twice.
pub open spec fn distinct_variant_names(names: Seq<String>) -> bool {
    forall|a: int, b: int| 0 <= a < b < names.len() ==> names[a]@ != names[b]@
}

/// What the derive generates for an enum: its variant names, in order,
/// when every variant is a unit variant; else the first variant with fields
/// is reported.
pub fn derive_enum(input: &DeriveInput, variants: &Vec<VariantDef>) -> (r: Result<EnumPlan, DeriveError>)
    ensures
        first_with_fields(variants@) is None ==> (r matches Ok(plan) && plan.name@ == input.ident@
            && plan.variants@.len() == variants@.len()
            && forall|i: int| 0 <= i < variants@.len() ==> #[trigger] plan.variants@[i]@ == variants@[i].ident@),
        first_with_fields(variants@) matches Some(k) ==> (r matches Err(DeriveError::VariantWithFields(v))
            && v@ == variants@[k].ident@),
        r matches Ok(plan) ==> (distinct_idents(variants@) ==> distinct_variant_names(plan.variants@)),
{
    let mut names: Vec<String> = Vec::new();
    let n = variants.len();
    for i in 0..n
        invariant
            n == variants@.len(),
            names@.len() == i,
            forall|j: int| 0 <= j < i ==> !variants@[j].has_fields,
            forall|j: int| 0 <= j < i ==> #[trigger] names@[j]@ == variants@[j].ident@,
    {
        if variants[i].has_fields {
            proof {
                let k = first_with_fields(variants@)->0;
                assert(variants@[i as int].has_fields);
                assert(k == i as int);
            }
            return Err(DeriveError::VariantWithFields(variants[i].ident.clone()));
        }
        names.push(variants[i].ident.clone());
    }
    Ok(EnumPlan { name: input.ident.clone(), variants: names })
}

/// `#[derive(Previewable)]`: a component plan for a struct with named
/// fields, an enum plan for a unit-only enum, and an error otherwise.
pub fn derive_previewable(input: &DeriveInput) -> (r: Result<DerivePlan, DeriveError>)
    ensures
        input.data is Union ==> r matches Err(DeriveError::Union),
        input.data matches DataDef::Struct(f) && !(f is Named) ==> r matches Err(DeriveError::UnnamedFields),
        input.data matches DataDef::Struct(StructFields::Named(fields)) ==> (r matches Ok(DerivePlan::Component(plan))
            && plan.name@ == input.ident@
            && plan.category@ == (match preview_kv(input.attrs@, "category"@) {
                Some(c) => c,
                None => default_category(),
            })
            && plan.description@ == joined(doc_lines(input.attrs@))
            && plan.register == !has_flag(input.attrs@, "no_register"@)
            && plans_view(plan.fields@) == field_plans(fields@)),
        input.data matches DataDef::Enum(vs) ==> (first_with_fields(vs@) is None ==> (r matches Ok(DerivePlan::Enum(plan))
            && plan.name@ == input.ident@
            && plan.variants@.len() == vs@.len()
            && forall|i: int| 0 <= i < vs@.len() ==> #[trigger] plan.variants@[i]@ == vs@[i].ident@)),
        input.data matches DataDef::Enum(vs) ==> (first_with_fields(vs@) matches Some(k) ==> (r matches Err(DeriveError::VariantWithFields(v))
            && v@ == vs@[k].ident@)),
{
    match &input.data {
        DataDef::Struct(data) => match derive_struct(input, data) {
            Ok(plan) => Ok(DerivePlan::Component(plan)),
            Err(e) => Err(e),
        },
        DataDef::Enum(vs) => match derive_enum(input, vs) {
            Ok(plan) => Ok(DerivePlan::Enum(plan)),
            Err(e) => Err(e),
        },
        DataDef::Union => Err(DeriveError::Union),
    }
}

/// The position of the first variant named `name`, if any.
pub open spec fn variant_position(variants: Seq<String>, name: Seq<char>) -> Option<int> {
    if exists|i: int| 0 <= i < variants.len() && variants[i]@ == name {
        Some(choose|i: int| 0 <= i < variants.len() && variants[i]@ == name && forall|j: int| 0 <= j < i ==> variants[j]@ != name)
    } else {
        None
    }
}

impl EnumPlan {
    /// `PreviewEnum::variants`: the variant names in declaration order.
    pub fn variants(&self) -> (r: &Vec<String>)
        ensures
            r@ == self.variants@,
    {
        &self.variants
    }

    /// `PreviewEnum::to_variant_name` for the variant at `index`.
    pub fn to_variant_name(&self, index: usize) -> (r: &String)
        requires
            index < self.variants@.len(),
        ensures
            r@ == self.variants@[index as int]@,
    {
        &self.variants[index]
    }

    /// `PreviewEnum::from_variant_name`: the position of the variant named
    /// `name`, if there is one.
    pub fn from_variant_name(&self, name: &str) -> (r: Option<usize>)
        ensures
            r is Some == variant_position(self.variants@, name@) is Some,
            r matches Some(i) ==> i == variant_position(self.variants@, name@)->0,
    {
        let n = self.variants.len();
        for i in 0..n
            invariant
                n == self.variants@.len(),
                forall|j: int| 0 <= j < i ==> self.variants@[j]@ != name@,
        {
            if text_eq(self.variants[i].as_str(), name) {
                proof {
                    let k = variant_position(self.variants@, name@)->0;
                    assert(self.variants@[i as int]@ == name@);
                    assert(k == i as int);
                }
                return Some(i);
            }
        }
        None
    }
}

/// For an enum whose variant names differ (which `derive_enum` keeps from
/// the enum's definition), naming a variant and looking the name up gives
/// the same variant back; and a name is found exactly when it is one of the
/// variant names, compared character by character.
pub proof fn lemma_variant_name_round_trip(variants: Seq<String>, i: int, name: Seq<char>)
    requires
        0 <= i < variants.len(),
        distinct_variant_names(variants),
    ensures
        variant_position(variants, variants[i]@) == Some(i),
        variant_position(variants, name) is Some <==> exists|k: int| 0 <= k < variants.len() && variants[k]@ == name,
{
    assert(variants[i]@ == variants[i]@);
}

/// The values that the generated `set_field` has an arm for, on a field with
/// these accessors. An enum value is matched by any such arm; the arm writes
/// it only where its name is a variant of the field's type.
pub open spec fn accepts(access: FieldAccess, v: crate::types::FieldData) -> bool {
    match access {
        FieldAccess::Plain(k) => kind_accepts(k, v),
        FieldAccess::Optional(k) => v is Absent || kind_accepts(k, v),
    }
}

/// The values taken by a field of value kind `k`. Number fields take both
/// kinds of number: an integer field takes the floats that its slider
/// gives (cut to an integer of its type), and a float field the integers
/// that a story written by hand may hold.
pub open spec fn kind_accepts(k: ValueKind, v: crate::types::FieldData) -> bool {
    match k {
        ValueKind::Float32 | ValueKind::Float64 | ValueKind::Integer(_) => v is Float || v is Int,
        _ => kind_reads(k, v),
    }
}

/// The values that the generated `get_field` can give for a field with
/// these accessors.
pub open spec fn reads_as(access: FieldAccess, v: crate::types::FieldData) -> bool {
    match access {
        FieldAccess::Plain(k) => kind_reads(k, v),
        FieldAccess::Optional(k) => v is Absent || kind_reads(k, v),
    }
}

/// The values read from a field of value kind `k`.
pub open spec fn kind_reads(k: ValueKind, v: crate::types::FieldData) -> bool {
    match k {
        ValueKind::Text => v is Text,
        ValueKind::Flag => v is Bool,
        ValueKind::Float32 => v is Float,
        ValueKind::Float64 => v is Float,
        ValueKind::Integer(_) => v is Int,
        ValueKind::Color => v is Color,
        ValueKind::Enum => v is Enum,
        ValueKind::NotAPath => false,
    }
}

/// Every value that `get_field` reads from a field, `set_field` has an arm
/// for; and an optional field both reads and takes the absent value.
pub proof fn lemma_read_values_are_taken(access: FieldAccess, v: FieldData)
    ensures
        reads_as(access, v) ==> accepts(access, v),
        access is Optional ==> reads_as(access, FieldData::Absent) && accepts(access, FieldData::Absent),
{
}

// ── What the generated accessors store ─────────────────────────────────

/// What a field holds, as far as the library states it: a text, a flag,
/// the bits of an `f64`, an integer, the variant name of an enum value, or
/// the `None` of an optional field.
pub enum Held {
    Text(Seq<char>),
    Flag(bool),
    Float(FloatBits),
    Int(int),
    Variant(Seq<char>),
    Absent,
}

/// The integers that `i as T` keeps unchanged for the integer type `t`
/// and that `as i64` then gives back: those in the type's range, and for
/// `u64` every `i64` (its bits are kept both ways).
pub open spec fn int_fits(t: IntType, i: int) -> bool {
    match t {
        IntType::I8 => i8::MIN <= i <= i8::MAX,
        IntType::I16 => i16::MIN <= i <= i16::MAX,
        IntType::I32 => i32::MIN <= i <= i32::MAX,
        IntType::I64 => true,
        IntType::Isize => isize::MIN <= i <= isize::MAX,
        IntType::U8 => 0 <= i <= u8::MAX,
        IntType::U16 => 0 <= i <= u16::MAX,
        IntType::U32 => 0 <= i <= u32::MAX,
        IntType::U64 => true,
        IntType::Usize => 0 <= i <= usize::MAX,
    }
}

/// The integer that `i as T` gives for the integer type `t`.
pub open spec fn int_cast(t: IntType, i: i64) -> int {
    match t {
        IntType::I8 => (i as i8) as int,
        IntType::I16 => (i as i16) as int,
        IntType::I32 => (i as i32) as int,
        IntType::I64 => i as int,
        IntType::Isize => (i as isize) as int,
        IntType::U8 => (i as u8) as int,
        IntType::U16 => (i as u16) as int,
        IntType::U32 => (i as u32) as int,
        IntType::U64 => (i as u64) as int,
        IntType::Usize => (i as usize) as int,
    }
}

/// What the generated `set_field` leaves in a field of value kind `k` that
/// held `h`, when handed `v`; `variants` are the variant names of an enum
/// field's type. A value without an arm leaves the field as it was, and so
/// does an enum name that is no variant. `None` where what is stored comes
/// out of a floating-point conversion, which the library does not compute:
/// into an `f32` or an `Hsla` color, from a float into an integer field, or
/// from an integer into an `f64` field.
pub open spec fn kind_set(k: ValueKind, h: Held, v: FieldData, variants: Seq<Seq<char>>) -> Option<Held> {
    if !kind_accepts(k, v) {
        Some(h)
    } else {
        match v {
            FieldData::Text(s) => Some(Held::Text(s)),
            FieldData::Bool(b) => Some(Held::Flag(b)),
            FieldData::Float(f) => if k is Float64 {
                Some(Held::Float(f))
            } else {
                None
            },
            FieldData::Int(i) => match k {
                ValueKind::Integer(t) => Some(Held::Int(int_cast(t, i))),
                _ => None,
            },
            FieldData::Enum(s) => if variants.contains(s) {
                Some(Held::Variant(s))
            } else {
                Some(h)
            },
            _ => None,
        }
    }
}

/// What the generated `set_field` leaves in a field with these accessors
/// (see `kind_set`); the absent value clears an optional field.
pub open spec fn set_held(access: FieldAccess, h: Held, v: FieldData, variants: Seq<Seq<char>>) -> Option<Held> {
    match access {
        FieldAccess::Plain(k) => kind_set(k, h, v, variants),
        FieldAccess::Optional(k) => if v is Absent {
            Some(Held::Absent)
        } else {
            kind_set(k, h, v, variants)
        },
    }
}

/// What the generated `get_field` reads from a field of value kind `k` that
/// holds `h` (an enum value reads as the name of its variant); `None` for an
/// `f32` or color field, whose reading is a floating-point conversion, and
/// where `h` is not what such a field holds.
pub open spec fn kind_get(k: ValueKind, h: Held) -> Option<FieldData> {
    match (k, h) {
        (ValueKind::Text, Held::Text(s)) => Some(FieldData::Text(s)),
        (ValueKind::Flag, Held::Flag(b)) => Some(FieldData::Bool(b)),
        (ValueKind::Float64, Held::Float(f)) => Some(FieldData::Float(f)),
        (ValueKind::Integer(_), Held::Int(n)) => Some(FieldData::Int(n as i64)),
        (ValueKind::Enum, Held::Variant(s)) => Some(FieldData::Enum(s)),
        _ => None,
    }
}

/// What the generated `get_field` reads from a field with these accessors;
/// an optional field that holds `None` reads as the absent value.
pub open spec fn get_held(access: FieldAccess, h: Held) -> Option<FieldData> {
    match access {
        FieldAccess::Plain(k) => kind_get(k, h),
        FieldAccess::Optional(k) => if h is Absent {
            Some(FieldData::Absent)
        } else {
            kind_get(k, h)
        },
    }
}

/// Setting a field to a value that `get_field` could read from it, and then
/// reading it, gives that value back: a text, a flag, an `f64`, an integer
/// of the field's type, a variant name of its enum, or the absent value of
/// an optional field. `f32` and color fields are left out, as their setters
/// store a floating-point conversion; so are integers that the field's type
/// cannot hold (`get_field` never reads those).
pub proof fn lemma_set_then_get(access: FieldAccess, h: Held, v: FieldData, variants: Seq<Seq<char>>)
    requires
        reads_as(access, v),
        !(access_kind(access) is Float32),
        !(access_kind(access) is Color),
        access_kind(access) matches ValueKind::Integer(t) && v matches FieldData::Int(i) ==> int_fits(t, i as int),
        v matches FieldData::Enum(s) ==> variants.contains(s),
    ensures
        set_held(access, h, v, variants) matches Some(h2) && get_held(access, h2) == Some(v),
{
    if let FieldData::Int(i) = v {
        if let ValueKind::Integer(t) = access_kind(access) {
            if t is U64 {
                assert(((i as u64) as i64) == i) by (bit_vector);
            }
        }
    }
}

/// A value that a field's setter has no arm for, and an enum name that is
/// no variant of the field's type, leave the field as it was.
pub proof fn lemma_set_refused_keeps(access: FieldAccess, h: Held, v: FieldData, variants: Seq<Seq<char>>)
    requires
        !accepts(access, v) || (v matches FieldData::Enum(s) && !variants.contains(s)),
    ensures
        set_held(access, h, v, variants) == Some(h),
{
}

/// A story saved from a derived component restores each field: setting the
/// value that the story gives a field (see `lemma_story_restores_field`)
/// and reading the field gives back the value it held, for the fields and
/// values that `lemma_set_then_get` covers. An integer directly under a
/// slider is left out: the story gives it back as a float, which the
/// integer field's setter cuts to an integer, a floating-point conversion.
pub proof fn lemma_story_restores_held(
    f: FieldDef,
    c: ControlKind,
    v: FieldData,
    j: JsonValue,
    h: Held,
    variants: Seq<Seq<char>>,
)
    requires
        realizes(c, field_plan(f).control),
        control_keeps_kind(field_plan(f)),
        reads_as(field_plan(f).access, v),
        encodes(j, v),
        v matches FieldData::Float(x) ==> is_finite_bits(x.bits),
        !(v is Int && c is NumberSlider),
        !(access_kind(field_plan(f).access) is Float32),
        !(access_kind(field_plan(f).access) is Color),
        access_kind(field_plan(f).access) matches ValueKind::Integer(t) && v matches FieldData::Int(i) ==> int_fits(
            t,
            i as int,
        ),
        v matches FieldData::Enum(s) ==> variants.contains(s),
    ensures
        decoded(j, c) matches Some(w) && set_held(field_plan(f).access, h, w, variants) matches Some(h2)
            && get_held(field_plan(f).access, h2) == Some(v),
{
    lemma_story_restores_field(f, c, v, j);
    lemma_set_then_get(field_plan(f).access, h, v, variants);
}

/// Whether the prop editor's control `c` is the one that plan `p`
/// describes (a select with whatever variant names the type lists).
pub open spec fn realizes(c: ControlKind, p: ControlPlan) -> bool
    decreases p,
{
    match p {
        ControlPlan::TextInput => c is TextInput,
        ControlPlan::Toggle => c is Toggle,
        ControlPlan::NumberSlider { min, max } => c matches ControlKind::NumberSlider { min: a, max: b } && a == min
            && b == max,
        ControlPlan::Color => c is Color,
        ControlPlan::Select => c is Select,
        ControlPlan::Optional(pi) => match c {
            ControlKind::Optional(ci) => realizes(*ci, *pi),
            _ => false,
        },
        ControlPlan::Unsupported => c is Unsupported,
    }
}

/// The control under all optional wrappers.
pub open spec fn base_plan(p: ControlPlan) -> ControlPlan
    decreases p,
{
    match p {
        ControlPlan::Optional(inner) => base_plan(*inner),
        _ => p,
    }
}

/// The value kind of a field's accessors (for an optional field, that of
/// its inner type).
pub open spec fn access_kind(a: FieldAccess) -> ValueKind {
    match a {
        FieldAccess::Plain(k) => k,
        FieldAccess::Optional(k) => k,
    }
}

/// Whether a field's control, under its optional wrappers, is a select for
/// an enum field and a color picker for a color field. It is not where
/// `#[preview(slider(..))]` puts a slider on such a field, nor where an
/// optional field's inner type is an optional of anything but an enum
/// (the accessors then take the inner `Option` for an enum).
pub open spec fn control_keeps_kind(p: FieldPlanView) -> bool {
    &&& access_kind(p.access) is Enum ==> base_plan(p.control) is Select
    &&& access_kind(p.access) is Color ==> base_plan(p.control) is Color
}

proof fn lemma_realized_control_fits(v: FieldData, c: ControlKind, p: ControlPlan)
    requires
        realizes(c, p),
        v is Text ==> !(base_plan(p) is Select),
        v is Enum ==> base_plan(p) is Select,
        v is Color ==> base_plan(p) is Color,
        v matches FieldData::Float(x) ==> is_finite_bits(x.bits),
        v is Int ==> !(c is NumberSlider),
    ensures
        fits(v, c),
    decreases p,
{
    if !(v is Int) {
        match p {
            ControlPlan::Optional(pi) => match c {
                ControlKind::Optional(ci) => lemma_realized_control_fits(v, *ci, *pi),
                _ => {},
            },
            _ => {},
        }
    }
}

/// The value that a story gives back for a field that held `v` and is
/// edited with control `c`: `v` itself, but for an integer directly under a
/// slider, which comes back as the float of that integer (what
/// `serde_json`'s `as_f64` gives for it).
pub open spec fn story_form(v: FieldData, c: ControlKind) -> FieldData {
    match v {
        FieldData::Int(i) => if c is NumberSlider {
            FieldData::Float(JsonNumber::spec_from_i64(i).spec_as_f64()->0)
        } else {
            v
        },
        _ => v,
    }
}

/// A story saved from a derived component gives each field back what it
/// held: the JSON form of any value that `get_field` reads from a field
/// decodes, under the field's control, to that value (to the float of an
/// integer under a slider), and `set_field` has an arm that takes it.
/// Floats that are not finite are left out (their JSON form is `null`),
/// and so are the fields whose control cannot hold their enum or color
/// values (see `control_keeps_kind`).
pub proof fn lemma_story_restores_field(f: FieldDef, c: ControlKind, v: FieldData, j: JsonValue)
    requires
        realizes(c, field_plan(f).control),
        control_keeps_kind(field_plan(f)),
        reads_as(field_plan(f).access, v),
        encodes(j, v),
        v matches FieldData::Float(x) ==> is_finite_bits(x.bits),
    ensures
        decoded(j, c) == Some(story_form(v, c)),
        accepts(field_plan(f).access, story_form(v, c)),
{
    let p = field_plan(f);
    if v is Int && c is NumberSlider {
        return;
    }
    if v is Text {
        reveal_strlit("String");
        reveal_strlit("Option");
        assert("String"@ != "Option"@) by {
            assert("String"@[0] != "Option"@[0]);
        }
        if preview_slider(f.attrs@) is None {
            match option_inner(f.ty) {
                Some(inner) => {
                    assert(last_segment(inner) == Some("String"@));
                    assert(base_plan(control_of(f.ty)) == base_plan(control_of(inner)));
                },
                None => {
                    assert(last_segment(f.ty) == Some("String"@));
                    assert(control_of(f.ty) == ControlPlan::TextInput);
                },
            }
        }
        assert(!(base_plan(p.control) is Select));
    }
    lemma_realized_control_fits(v, c, p.control);
    lemma_json_round_trip(v, j, c);
}

impl FieldAccess {
    /// Whether `set_field` with this value has an arm for the field.
    pub fn accepts(&self, v: &crate::types::FieldValue) -> (r: bool)
        ensures
            r == accepts(*self, v@),
    {
        let k = match self {
            FieldAccess::Plain(k) => *k,
            FieldAccess::Optional(k) => {
                if let crate::types::FieldValue::Absent = v {
                    return true;
                }
                *k
            },
        };
        match k {
            ValueKind::Text => matches!(v, crate::types::FieldValue::String(_)),
            ValueKind::Flag => matches!(v, crate::types::FieldValue::Bool(_)),
            ValueKind::Float32 | ValueKind::Float64 | ValueKind::Integer(_) => matches!(
                v,
                crate::types::FieldValue::Float(_) | crate::types::FieldValue::Int(_)
            ),
            ValueKind::Color => matches!(v, crate::types::FieldValue::Color(_)),
            ValueKind::Enum => matches!(v, crate::types::FieldValue::Enum(_)),
            ValueKind::NotAPath => false,
        }
    }
}

} // verus!
