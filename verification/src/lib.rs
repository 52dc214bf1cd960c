//! A component preview library: the data model of preview controls and field
//! values, the JSON form in which stories are kept, the store of stories, the
//! navigation and search of the component list, and the analysis that the
//! `Previewable` derive performs on a type definition.

pub mod text;
pub mod types;
pub mod json;
pub mod stories;
pub mod text_map;
pub mod ordering;
pub mod traits;
pub mod panel;
pub mod navigation;
pub mod capture;
pub mod derive;

pub use capture::CapturedFrame;
pub use derive::derive_previewable;
pub use panel::snapshot_fields;
pub use stories::{field_value_to_json, json_to_field_value, stories_path};
pub use traits::{PreviewEnum, Previewable};
pub use types::{ControlKind, FieldMeta, FieldValue, FloatBits};
