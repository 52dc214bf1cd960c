//! The traits that previewable components and their enum fields implement.

use vstd::prelude::*;
use crate::types::{FieldMeta, FieldValue};

verus! {

/// Describes how a component can be previewed. Implementations are written
/// by users (or generated from the analysis in `derive`); nothing is
/// assumed of what their `get_field` and `set_field` return.
pub trait Previewable: 'static + Sized + Clone {
    /// Human-readable name shown in the sidebar.
    fn name() -> &'static str;

    /// Grouping in the sidebar (e.g. "Inputs", "Layout").
    fn category() -> (r: &'static str)
        default_ensures
            r@ == uncategorized_text(),
    {
        let r = "Uncategorized";
        proof {
            reveal_strlit("Uncategorized");
            assert(r@ =~= uncategorized_text());
        }
        r
    }

    /// Description shown below the component name.
    fn description() -> (r: &'static str)
        default_ensures
            r@ == Seq::<char>::empty(),
    {
        let r = "";
        proof {
            reveal_strlit("");
        }
        r
    }

    /// A default instance used as the starting state.
    fn default_preview() -> Self;

    /// Metadata about each tweakable field.
    fn fields() -> Vec<FieldMeta>;

    /// The current value of a field by name.
    fn get_field(&self, name: &str) -> Option<FieldValue>;

    /// A new instance with one field set from a value.
    fn set_field(&self, name: &str, value: FieldValue) -> Self;
}

/// The category of a component that names none.
pub open spec fn uncategorized_text() -> Seq<char> {
    seq!['U', 'n', 'c', 'a', 't', 'e', 'g', 'o', 'r', 'i', 'z', 'e', 'd']
}

/// Enums used as field types of previewable components.
pub trait PreviewEnum: 'static + Sized + Clone {
    /// The variant names, in declaration order.
    fn variants() -> &'static [&'static str];

    /// The name of this value's variant.
    fn to_variant_name(&self) -> &'static str;

    /// The value whose variant has the given name.
    fn from_variant_name(name: &str) -> Option<Self>;
}

} // verus!
