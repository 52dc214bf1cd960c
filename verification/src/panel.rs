//! The story panel's decisions: which stories a component has, what saving,
//! updating, deleting and applying a story change, and which field values a
//! story restores.

use vstd::prelude::*;
use vstd::string::*;
use crate::derive::{
    access_kind, accepts, control_of, field_plan, last_segment, option_inner, preview_slider, realizes,
    scalar_kind, FieldDef, ValueKind,
};
use crate::json::JsonValue;
use crate::stories::{
    AllStories, StoryFields, book, book_delete, book_save, decoded, delete_story, encodes,
    field_value_to_json, fits, json_to_field_value, save_story, stories_of, story_fields,
    story_names,
};
use crate::text::{lex_less, text_eq, trim, trimmed};
use crate::text_map::TextMap;
use crate::traits::Previewable;
use crate::types::{ControlKind, FieldData, FieldMeta, FieldValue, is_finite_bits};

verus! {

/// Some field of `fields` has the name `name`.
pub open spec fn has_field_named(fields: Seq<FieldMeta>, name: Seq<char>) -> bool {
    exists|i: int| 0 <= i < fields.len() && #[trigger] fields[i].name@ == name
}

/// The value recorded for each field name when the values `values` of the
/// fields `fields` are saved in order: a later present value replaces an
/// earlier one of the same name; an absent one records nothing.
pub open spec fn recorded(fields: Seq<FieldMeta>, values: Seq<Option<FieldValue>>) -> Map<Seq<char>, FieldData>
    decreases fields.len(),
{
    if fields.len() == 0 || values.len() == 0 {
        Map::empty()
    } else {
        let m = recorded(fields.drop_last(), values.drop_last());
        match values.last() {
            Some(v) => m.insert(fields.last().name@, v@),
            None => m,
        }
    }
}

/// `story` holds exactly the JSON form of each recorded value.
pub open spec fn is_snapshot(
    fields: Seq<FieldMeta>,
    values: Seq<Option<FieldValue>>,
    story: Map<Seq<char>, JsonValue>,
) -> bool {
    &&& story.dom() == recorded(fields, values).dom()
    &&& forall|k: Seq<char>| #[trigger] story.contains_key(k) ==> encodes(story[k], recorded(fields, values)[k])
}

/// The names of the fields differ.
pub open spec fn distinct_names(fields: Seq<FieldMeta>) -> bool {
    forall|a: int, b: int| 0 <= a < b < fields.len() ==> fields[a].name@ != fields[b].name@
}

/// The value that a story gives the field `f`, if any.
pub open spec fn assignment(story: Map<Seq<char>, JsonValue>, f: FieldMeta) -> Option<FieldData> {
    if story.contains_key(f.name@) {
        decoded(story[f.name@], f.control)
    } else {
        None
    }
}

/// The field assignments that applying `story` makes, in field order.
pub open spec fn assignments(story: Map<Seq<char>, JsonValue>, fields: Seq<FieldMeta>) -> Seq<(Seq<char>, FieldData)>
    decreases fields.len(),
{
    if fields.len() == 0 {
        Seq::empty()
    } else {
        let rest = assignments(story, fields.drop_last());
        match assignment(story, fields.last()) {
            Some(v) => rest.push((fields.last().name@, v)),
            None => rest,
        }
    }
}

/// Applying a story assigns every field for which the story holds JSON that
/// decodes under the field's control, with the decoded value.
pub proof fn lemma_assignments_complete(story: Map<Seq<char>, JsonValue>, fields: Seq<FieldMeta>, i: int)
    requires
        0 <= i < fields.len(),
        story.contains_key(fields[i].name@),
        decoded(story[fields[i].name@], fields[i].control) is Some,
    ensures
        assignments(story, fields).contains(
            (fields[i].name@, decoded(story[fields[i].name@], fields[i].control)->0),
        ),
    decreases fields.len(),
{
    let rest = assignments(story, fields.drop_last());
    if i < fields.len() - 1 {
        assert(fields.drop_last()[i] == fields[i]);
        lemma_assignments_complete(story, fields.drop_last(), i);
        let k = choose|k: int| 0 <= k < rest.len() && rest[k] == (fields[i].name@, decoded(story[fields[i].name@], fields[i].control)->0);
        assert(assignments(story, fields)[k] == rest[k]);
    } else {
        assert(fields.last() == fields[i]);
        assert(assignments(story, fields).last() == (fields[i].name@, decoded(story[fields[i].name@], fields[i].control)->0));
    }
}

/// Every assignment that applying a story makes is of a field for which the
/// story holds JSON that decodes under the field's control, with the
/// decoded value; and there is one assignment per such field, in field
/// order, so no more than there are fields.
pub proof fn lemma_assignments_sound(story: Map<Seq<char>, JsonValue>, fields: Seq<FieldMeta>, k: int)
    requires
        0 <= k < assignments(story, fields).len(),
    ensures
        assignments(story, fields).len() <= fields.len(),
        exists|i: int|
            0 <= i < fields.len() && story.contains_key(fields[i].name@)
                && #[trigger] decoded(story[fields[i].name@], fields[i].control) == Some(assignments(story, fields)[k].1)
                && assignments(story, fields)[k].0 == fields[i].name@,
    decreases fields.len(),
{
    let rest = assignments(story, fields.drop_last());
    lemma_assignments_len(story, fields);
    if k < rest.len() {
        lemma_assignments_sound(story, fields.drop_last(), k);
        let i = choose|i: int|
            0 <= i < fields.drop_last().len() && story.contains_key(fields.drop_last()[i].name@)
                && #[trigger] decoded(story[fields.drop_last()[i].name@], fields.drop_last()[i].control) == Some(rest[k].1)
                && rest[k].0 == fields.drop_last()[i].name@;
        assert(fields.drop_last()[i] == fields[i]);
        assert(assignments(story, fields)[k] == rest[k]);
        assert(decoded(story[fields[i].name@], fields[i].control) == Some(assignments(story, fields)[k].1));
    } else {
        let i = fields.len() - 1;
        assert(fields.last() == fields[i]);
        assert(decoded(story[fields[i].name@], fields[i].control) == Some(assignments(story, fields)[k].1));
    }
}

/// Applying a story makes, in field order, one assignment for each field
/// whose name the story holds with JSON that decodes under the field's
/// control, of the decoded value, and no other.
pub proof fn lemma_assignments_are_decoded_fields(story: Map<Seq<char>, JsonValue>, fields: Seq<FieldMeta>)
    ensures
        assignments(story, fields) == fields.filter_map(
            |f: FieldMeta|
                if story.contains_key(f.name@) {
                    match decoded(story[f.name@], f.control) {
                        Some(v) => Some((f.name@, v)),
                        None => None,
                    }
                } else {
                    None
                },
        ),
    decreases fields.len(),
{
    if fields.len() > 0 {
        lemma_assignments_are_decoded_fields(story, fields.drop_last());
        let rest = assignments(story, fields.drop_last());
        match assignment(story, fields.last()) {
            Some(v) => {
                assert(rest.push((fields.last().name@, v)) =~= rest + seq![(fields.last().name@, v)]);
            },
            None => {},
        }
    }
}

proof fn lemma_assignments_len(story: Map<Seq<char>, JsonValue>, fields: Seq<FieldMeta>)
    ensures
        assignments(story, fields).len() <= fields.len(),
    decreases fields.len(),
{
    if fields.len() > 0 {
        lemma_assignments_len(story, fields.drop_last());
    }
}

/// The abstract value of a list of assignments.
pub open spec fn assignments_view(a: Seq<(String, FieldValue)>) -> Seq<(Seq<char>, FieldData)> {
    a.map_values(|p: (String, FieldValue)| (p.0@, p.1@))
}

/// A story of the given field values (one value, or none, per field):
/// each present value's JSON form under its field's name.
pub fn snapshot_values(fields: &[FieldMeta], values: &Vec<Option<FieldValue>>) -> (r: StoryFields)
    requires
        fields@.len() == values@.len(),
    ensures
        is_snapshot(fields@, values@, r@),
{
    let mut map: StoryFields = TextMap::new();
    let n = fields.len();
    for i in 0..n
        invariant
            n == fields@.len(),
            n == values@.len(),
            is_snapshot(fields@.subrange(0, i as int), values@.subrange(0, i as int), map@),
    {
        let ghost pre_f = fields@.subrange(0, i as int);
        let ghost pre_v = values@.subrange(0, i as int);
        let ghost post_f = fields@.subrange(0, i + 1);
        let ghost post_v = values@.subrange(0, i + 1);
        proof {
            assert(post_f.drop_last() =~= pre_f);
            assert(post_v.drop_last() =~= pre_v);
            assert(post_f.last() == fields@[i as int]);
            assert(post_v.last() == values@[i as int]);
        }
        match &values[i] {
            Some(value) => {
                map.insert(String::from_str(fields[i].name), field_value_to_json(value));
                proof {
                    assert(map@.dom() =~= recorded(post_f, post_v).dom());
                }
            },
            None => {},
        }
    }
    proof {
        assert(fields@.subrange(0, n as int) =~= fields@);
        assert(values@.subrange(0, n as int) =~= values@);
    }
    map
}

/// Snapshot current field values from an instance into a story: the value
/// that `get_field` gives for each field's name, asked once per field in
/// order, in the form `snapshot_values` makes of it. What `get_field`
/// returns is the implementation's.
pub fn snapshot_fields<T: Previewable>(instance: &T, fields: &[FieldMeta]) -> (r: StoryFields)
    ensures
        exists|values: Seq<Option<FieldValue>>|
            {
                &&& values.len() == fields@.len()
                &&& forall|i: int|
                    0 <= i < fields@.len() ==> call_ensures(
                        T::get_field,
                        (instance, fields@[i].name),
                        #[trigger] values[i],
                    )
                &&& is_snapshot(fields@, values, r@)
            },
{
    let mut values: Vec<Option<FieldValue>> = Vec::new();
    let n = fields.len();
    for i in 0..n
        invariant
            n == fields@.len(),
            values@.len() == i,
            forall|k: int| 0 <= k < i ==> call_ensures(T::get_field, (instance, fields@[k].name), #[trigger] values@[k]),
    {
        values.push(instance.get_field(fields[i].name));
    }
    let r = snapshot_values(fields, &values);
    proof {
        assert(values@.len() == fields@.len() && is_snapshot(fields@, values@, r@));
    }
    r
}

/// The field assignments that applying a story makes: for each field, in
/// order, the value decoded from the story's JSON for it, where the story
/// has one that fits the field's control.
pub fn story_assignments(story: &StoryFields, fields: &[FieldMeta]) -> (r: Vec<(String, FieldValue)>)
    ensures
        assignments_view(r@) == assignments(story@, fields@),
{
    let mut r: Vec<(String, FieldValue)> = Vec::new();
    let n = fields.len();
    for i in 0..n
        invariant
            n == fields@.len(),
            assignments_view(r@) == assignments(story@, fields@.subrange(0, i as int)),
    {
        let f = &fields[i];
        let ghost pre = fields@.subrange(0, i as int);
        let ghost post = fields@.subrange(0, i + 1);
        proof {
            assert(post.drop_last() =~= pre);
            assert(post.last() == fields@[i as int]);
        }
        match story.get(f.name) {
            Some(json) => match json_to_field_value(json, &f.control) {
                Some(v) => {
                    r.push((String::from_str(f.name), v));
                    proof {
                        assert(assignments_view(r@) =~= assignments_view(r@.drop_last()).push((f.name@, r@.last().1@)));
                    }
                },
                None => {},
            },
            None => {},
        }
    }
    proof {
        assert(fields@.subrange(0, n as int) =~= fields@);
    }
    r
}

proof fn lemma_recorded_names(fields: Seq<FieldMeta>, values: Seq<Option<FieldValue>>, k: Seq<char>)
    requires
        recorded(fields, values).contains_key(k),
    ensures
        exists|j: int| 0 <= j < fields.len() && #[trigger] fields[j].name@ == k,
    decreases fields.len(),
{
    if fields.len() > 0 && values.len() > 0 {
        let pf = fields.drop_last();
        let pv = values.drop_last();
        if recorded(pf, pv).contains_key(k) {
            lemma_recorded_names(pf, pv, k);
            let j = choose|j: int| 0 <= j < pf.len() && #[trigger] pf[j].name@ == k;
            assert(fields[j].name@ == k);
        } else {
            assert(fields[fields.len() - 1].name@ == k);
        }
    }
}

proof fn lemma_recorded_distinct(fields: Seq<FieldMeta>, values: Seq<Option<FieldValue>>, i: int)
    requires
        fields.len() == values.len(),
        distinct_names(fields),
        0 <= i < fields.len(),
    ensures
        recorded(fields, values).contains_key(fields[i].name@) == values[i] is Some,
        values[i] matches Some(v) ==> recorded(fields, values)[fields[i].name@] == v@,
    decreases fields.len(),
{
    let n = fields.len() as int;
    let pf = fields.drop_last();
    let pv = values.drop_last();
    assert(distinct_names(pf)) by {
        assert forall|a: int, b: int| 0 <= a < b < pf.len() implies pf[a].name@ != pf[b].name@ by {
            assert(pf[a] == fields[a] && pf[b] == fields[b]);
        }
    }
    if i < n - 1 {
        lemma_recorded_distinct(pf, pv, i);
        assert(pf[i] == fields[i] && pv[i] == values[i]);
        assert(fields[i].name@ != fields.last().name@);
    } else {
        let k = fields[i].name@;
        if recorded(pf, pv).contains_key(k) {
            lemma_recorded_names(pf, pv, k);
            let j = choose|j: int| 0 <= j < pf.len() && #[trigger] pf[j].name@ == k;
            assert(fields[j].name@ == k);
        }
    }
}

/// A story saved from a component's field values gives back, for each
/// field, the value it had, wherever that value fits the field's control,
/// and no value for a field that had none (field names being distinct, as
/// those of a struct are).
pub proof fn lemma_saved_story_restores(
    fields: Seq<FieldMeta>,
    values: Seq<Option<FieldValue>>,
    story: Map<Seq<char>, JsonValue>,
    i: int,
)
    requires
        fields.len() == values.len(),
        distinct_names(fields),
        is_snapshot(fields, values, story),
        0 <= i < fields.len(),
    ensures
        values[i] is Some && fits(values[i]->0@, fields[i].control) ==> assignment(story, fields[i]) == Some(values[i]->0@),
        values[i] is None ==> assignment(story, fields[i]) is None,
{
    lemma_recorded_distinct(fields, values, i);
    let k = fields[i].name@;
    if values[i] is Some {
        assert(story.contains_key(k));
        crate::stories::lemma_json_round_trip(values[i]->0@, story[k], fields[i].control);
    } else {
        assert(!story.contains_key(k));
    }
}

/// The default value that an optional field's inner control starts from
/// when the field is switched from absent to present.
pub open spec fn optional_default(inner: ControlKind) -> FieldData {
    match inner {
        ControlKind::TextInput => FieldData::Text(Seq::empty()),
        ControlKind::Toggle => FieldData::Bool(false),
        ControlKind::NumberSlider { min, .. } => FieldData::Float(min),
        ControlKind::Color => FieldData::Color(0, 0, 0, 255),
        _ => FieldData::Text(Seq::empty()),
    }
}

/// Switching an optional field on always makes it present: the value it
/// starts from is never the absent value. It is the empty text for a text
/// input, off for a toggle, the minimum for a slider and opaque black for a
/// color picker, and it fits its control wherever a value can: under any control
/// but a select (which gets the empty text) or an optional one, and under a
/// slider whose minimum is a finite number.
pub proof fn lemma_optional_default_present(c: ControlKind)
    ensures
        !(optional_default(c) is Absent),
        c is TextInput ==> optional_default(c) == FieldData::Text(Seq::empty()),
        c is Toggle ==> optional_default(c) == FieldData::Bool(false),
        c matches ControlKind::NumberSlider { min, .. } ==> optional_default(c) == FieldData::Float(min),
        c is Color ==> optional_default(c) == FieldData::Color(0, 0, 0, 255),
        !(c is Select) && !(c is Optional) && (c matches ControlKind::NumberSlider { min, .. } ==> is_finite_bits(
            min.bits,
        )) ==> fits(optional_default(c), c),
{
}

/// On a field of a derived component whose control is optional, the value
/// that switching it on starts from is one its setter takes, unless the
/// field's inner type is an enum (whose select starts from the empty text)
/// or not a path type.
pub proof fn lemma_optional_default_taken(f: FieldDef, c: ControlKind)
    requires
        realizes(c, field_plan(f).control),
        c is Optional,
        !(access_kind(field_plan(f).access) is Enum),
        !(access_kind(field_plan(f).access) is NotAPath),
    ensures
        accepts(field_plan(f).access, optional_default(*c->Optional_0)),
{
    let inner = *c->Optional_0;
    reveal_strlit("Option");
    reveal_strlit("String");
    reveal_strlit("bool");
    reveal_strlit("f32");
    reveal_strlit("f64");
    reveal_strlit("Hsla");
    assert(preview_slider(f.attrs@) is None);
    assert(option_inner(f.ty) is Some);
    let ity = option_inner(f.ty)->0;
    assert(field_plan(f).control == control_of(f.ty));
    assert(control_of(f.ty) == crate::derive::ControlPlan::Optional(Box::new(control_of(ity))));
    assert(realizes(inner, control_of(ity)));
    assert(last_segment(ity) is Some);
    let name = last_segment(ity)->0;
    assert("String"@ != "Option"@) by {
        assert("String"@[0] != "Option"@[0]);
    }
    assert("bool"@ != "Option"@) by {
        assert("bool"@[0] != "Option"@[0]);
    }
    assert("f32"@ != "Option"@) by {
        assert("f32"@.len() != "Option"@.len());
    }
    assert("f64"@ != "Option"@) by {
        assert("f64"@.len() != "Option"@.len());
    }
    assert("Hsla"@ != "Option"@) by {
        assert("Hsla"@.len() != "Option"@.len());
    }
    match scalar_kind(ity) {
        ValueKind::Text => {
            assert(name == "String"@);
            assert(control_of(ity) == crate::derive::ControlPlan::TextInput);
        },
        ValueKind::Flag => {
            assert(name == "bool"@);
            assert(control_of(ity) == crate::derive::ControlPlan::Toggle);
        },
        ValueKind::Float32 => {
            assert(name == "f32"@);
            assert(control_of(ity) is NumberSlider);
        },
        ValueKind::Float64 => {
            assert(name == "f64"@);
            assert(control_of(ity) is NumberSlider);
        },
        ValueKind::Integer(t) => {
            crate::derive::lemma_integer_types(t, name, ity);
            assert(crate::derive::int_type_named(name) == Some(t));
            assert(control_of(ity) is NumberSlider);
        },
        ValueKind::Color => {
            assert(name == "Hsla"@);
            assert(control_of(ity) == crate::derive::ControlPlan::Color);
        },
        _ => {},
    }
}

/// The first field of `fields` named `name`, if any.
pub open spec fn first_named(fields: Seq<FieldMeta>, name: Seq<char>) -> Option<int> {
    if has_field_named(fields, name) {
        Some(choose|i: int| 0 <= i < fields.len() && fields[i].name@ == name && forall|j: int| 0 <= j < i ==> fields[j].name@ != name)
    } else {
        None
    }
}

/// The story name that the save dialog's text gives: the text without
/// surrounding white space, unless nothing is left.
pub fn confirmed_story_name(input: &str) -> (r: Option<String>)
    ensures
        trimmed(input@).len() == 0 ==> r is None,
        trimmed(input@).len() != 0 ==> (r matches Some(s) && s@ == trimmed(input@)),
{
    let t = trim(input);
    if t.unicode_len() == 0 {
        None
    } else {
        Some(String::from_str(t))
    }
}

/// The text of a text value, or the empty text.
pub fn text_or_empty(v: Option<FieldValue>) -> (r: String)
    ensures
        r@ == (match opt_view_text(v) {
            Some(s) => s,
            None => Seq::empty(),
        }),
{
    match v {
        Some(FieldValue::String(s)) => s,
        _ => String::new(),
    }
}

/// The variant name of an enum value, or the empty text.
pub fn enum_or_empty(v: Option<FieldValue>) -> (r: String)
    ensures
        r@ == (match v {
            Some(FieldValue::Enum(s)) => s@,
            _ => Seq::empty(),
        }),
{
    match v {
        Some(FieldValue::Enum(s)) => s,
        _ => String::new(),
    }
}

/// The text held by a text value.
pub open spec fn opt_view_text(v: Option<FieldValue>) -> Option<Seq<char>> {
    match v {
        Some(FieldValue::String(s)) => Some(s@),
        _ => None,
    }
}

/// The state of the story panel: the component being previewed, its
/// fields, all stories, the story being shown and whether the save dialog
/// is open.
pub struct StoryPanel {
    pub component: Option<String>,
    pub fields: Vec<FieldMeta>,
    pub stories: AllStories,
    pub active_story: Option<String>,
    pub show_save_dialog: bool,
}

impl StoryPanel {
    /// A panel with the given stories and no component loaded.
    pub fn new(stories: AllStories) -> (p: StoryPanel)
        ensures
            p.component is None,
            p.fields@.len() == 0,
            p.stories@ == stories@,
            p.active_story is None,
            !p.show_save_dialog,
    {
        StoryPanel {
            component: None,
            fields: Vec::new(),
            stories,
            active_story: None,
            show_save_dialog: false,
        }
    }

    /// Shows another component: its fields, no active story, dialog closed.
    pub fn load_entry(&mut self, component: String, fields: Vec<FieldMeta>)
        ensures
            final(self).component == Some(component),
            final(self).fields == fields,
            final(self).stories == old(self).stories,
            final(self).active_story is None,
            !final(self).show_save_dialog,
    {
        self.component = Some(component);
        self.fields = fields;
        self.active_story = None;
        self.show_save_dialog = false;
    }

    /// Saves the current field values as the story `name` of the loaded
    /// component, makes it the active story and closes the dialog. Returns
    /// whether it saved (nothing happens without a loaded component).
    pub fn save_current_as_story(&mut self, name: String, snapshot: StoryFields) -> (saved: bool)
        ensures
            saved == old(self).component is Some,
            !saved ==> *final(self) == *old(self),
            saved ==> {
                &&& book(final(self).stories@) == book_save(book(old(self).stories@), old(self).component->0@, name@, snapshot)
                &&& final(self).active_story == Some(name)
                &&& !final(self).show_save_dialog
                &&& final(self).component == old(self).component
                &&& final(self).fields == old(self).fields
            },
    {
        match &self.component {
            None => false,
            Some(c) => {
                save_story(&mut self.stories, c.as_str(), name.clone(), snapshot);
                self.active_story = Some(name);
                self.show_save_dialog = false;
                true
            },
        }
    }

    /// Saves the current field values over the active story. Returns
    /// whether it saved (nothing happens without an active story or a
    /// loaded component).
    pub fn update_active_story(&mut self, snapshot: StoryFields) -> (saved: bool)
        ensures
            saved == (old(self).component is Some && old(self).active_story is Some),
            !saved ==> *final(self) == *old(self),
            saved ==> {
                let s = old(self).active_story->0;
                &&& book(final(self).stories@) == book_save(book(old(self).stories@), old(self).component->0@, s@, snapshot)
                &&& final(self).active_story == Some(s)
                &&& !final(self).show_save_dialog
                &&& final(self).component == old(self).component
                &&& final(self).fields == old(self).fields
            },
    {
        match &self.active_story {
            None => false,
            Some(name) => {
                let name = name.clone();
                self.save_current_as_story(name, snapshot)
            },
        }
    }

    /// Deletes the active story of the loaded component (and the
    /// component's entry when no story is left), leaving no active story.
    /// Returns whether it deleted; the component then goes back to its
    /// default values.
    pub fn delete_active_story(&mut self) -> (deleted: bool)
        ensures
            deleted == (old(self).component is Some && old(self).active_story is Some),
            !deleted ==> *final(self) == *old(self),
            deleted ==> {
                &&& book(final(self).stories@) == book_delete(book(old(self).stories@), old(self).component->0@, old(self).active_story->0@)
                &&& final(self).active_story is None
                &&& final(self).component == old(self).component
                &&& final(self).fields == old(self).fields
                &&& final(self).show_save_dialog == old(self).show_save_dialog
            },
    {
        if self.component.is_none() {
            return false;
        }
        let name = match self.active_story.take() {
            None => {
                return false;
            },
            Some(n) => n,
        };
        match &self.component {
            Some(c) => {
                delete_story(&mut self.stories, c.as_str(), name.as_str());
                true
            },
            None => false,
        }
    }

    /// Shows the story `name`: it becomes active, the dialog closes, and the
    /// field assignments that restore it are returned (to be made on the
    /// component's default instance). Nothing happens, and `None` comes
    /// back, without a loaded component or a story of that name.
    pub fn apply_story(&mut self, name: &str) -> (r: Option<Vec<(String, FieldValue)>>)
        ensures
            r is Some == (old(self).component is Some && stories_of(book(old(self).stories@), old(self).component->0@).contains_key(name@)),
            r is None ==> *final(self) == *old(self),
            r matches Some(a) ==> {
                &&& assignments_view(a@) == assignments(
                    stories_of(book(old(self).stories@), old(self).component->0@)[name@]@,
                    old(self).fields@,
                )
                &&& final(self).active_story matches Some(s) && s@ == name@
                &&& !final(self).show_save_dialog
                &&& final(self).stories == old(self).stories
                &&& final(self).component == old(self).component
                &&& final(self).fields == old(self).fields
            },
    {
        let a = match &self.component {
            None => {
                return None;
            },
            Some(c) => match story_fields(&self.stories, c.as_str(), name) {
                None => {
                    return None;
                },
                Some(story) => story_assignments(story, self.fields.as_slice()),
            },
        };
        self.active_story = Some(String::from_str(name));
        self.show_save_dialog = false;
        Some(a)
    }

    /// The names of the loaded component's stories, in ascending order.
    pub fn story_names(&self) -> (r: Vec<String>)
        ensures
            self.component is None ==> r@.len() == 0,
            self.component matches Some(c) ==> {
                &&& r@.len() == stories_of(book(self.stories@), c@).len()
                &&& forall|i: int| 0 <= i < r@.len() ==> stories_of(book(self.stories@), c@).contains_key(#[trigger] r@[i]@)
                &&& forall|k: Seq<char>| stories_of(book(self.stories@), c@).contains_key(k) ==> exists|i: int| 0 <= i < r@.len() && #[trigger] r@[i]@ == k
                &&& forall|a: int, b: int| 0 <= a < b < r@.len() ==> lex_less(r@[a]@, r@[b]@)
            },
    {
        match &self.component {
            None => Vec::new(),
            Some(c) => story_names(&self.stories, c.as_str()),
        }
    }

    /// Goes back to the component's default values: no story is active.
    /// Returns whether a component is loaded (and is to be reset).
    pub fn reset_to_default(&mut self) -> (reset: bool)
        ensures
            reset == old(self).component is Some,
            !reset ==> *final(self) == *old(self),
            reset ==> *final(self) == (StoryPanel { active_story: None, ..*old(self) }),
    {
        if self.component.is_none() {
            return false;
        }
        self.active_story = None;
        true
    }

    /// Keeps the current values but shows no story as active.
    pub fn select_custom(&mut self)
        ensures
            *final(self) == (StoryPanel { active_story: None, ..*old(self) }),
    {
        self.active_story = None;
    }

    /// Opens the save dialog when closed, closes it when open.
    pub fn toggle_save_dialog(&mut self)
        ensures
            *final(self) == (StoryPanel { show_save_dialog: !old(self).show_save_dialog, ..*old(self) }),
    {
        self.show_save_dialog = !self.show_save_dialog;
    }

    /// Closes the save dialog; returns whether it was open.
    pub fn close_save_dialog(&mut self) -> (closed: bool)
        ensures
            closed == old(self).show_save_dialog,
            *final(self) == (StoryPanel { show_save_dialog: false, ..*old(self) }),
    {
        let was = self.show_save_dialog;
        self.show_save_dialog = false;
        was
    }

    /// The value that switching the optional field `name` on starts from:
    /// the default of its inner control. `None` when no field has that name
    /// or the first one of that name is not optional.
    pub fn optional_default(&self, name: &str) -> (r: Option<FieldValue>)
        ensures
            first_named(self.fields@, name@) is None ==> r is None,
            first_named(self.fields@, name@) matches Some(i) ==> match self.fields@[i].control {
                ControlKind::Optional(inner) => (r matches Some(v) && v@ == optional_default(*inner)),
                _ => r is None,
            },
    {
        let n = self.fields.len();
        let mut i: usize = 0;
        while i < n
            invariant
                n == self.fields@.len(),
                i <= n,
                forall|j: int| 0 <= j < i ==> self.fields@[j].name@ != name@,
            decreases n - i,
        {
            if text_eq(self.fields[i].name, name) {
                proof {
                    assert(has_field_named(self.fields@, name@));
                    let f = first_named(self.fields@, name@)->0;
                    assert(f == i as int);
                }
                return match &self.fields[i].control {
                    ControlKind::Optional(inner) => Some(
                        match &**inner {
                            ControlKind::TextInput => FieldValue::String(String::new()),
                            ControlKind::Toggle => FieldValue::Bool(false),
                            ControlKind::NumberSlider { min, .. } => FieldValue::Float(*min),
                            ControlKind::Color => FieldValue::Color([0u8, 0u8, 0u8, 255u8]),
                            _ => FieldValue::String(String::new()),
                        },
                    ),
                    _ => None,
                };
            }
            i += 1;
        }
        None
    }
}

} // verus!
