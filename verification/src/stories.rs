//! Stories: named presets of field values, kept as JSON per component.
//! This module holds the conversion between field values and their JSON
//! form, the place of the stories file and the version of its format.

use vstd::prelude::*;
use vstd::string::*;
use crate::json::{JsonNumber, JsonValue};
use crate::ordering::{pair_less, pair_key, sorted_order};
use crate::text::{lex_less, lemma_lex_less_irreflexive, lemma_lex_less_total};
use crate::text_map::TextMap;
use crate::types::{ControlKind, FieldData, FieldValue, is_finite_bits, opt_field_view};

verus! {

/// The version of the stories file format that is written.
pub const CURRENT_VERSION: u32 = 1;

/// The path of the stories file, relative to the working directory.
pub open spec fn stories_path_text() -> Seq<char> {
    seq!['.', 'p', 'r', 'e', 'v', 'i', 'e', 'w', '/', 's', 't', 'o', 'r', 'i', 'e', 's', '.', 'j', 's', 'o', 'n']
}

/// Where stories are persisted: `.preview/stories.json`.
pub fn stories_path() -> (p: &'static str)
    ensures
        p@ == stories_path_text(),
{
    let p = ".preview/stories.json";
    proof {
        reveal_strlit(".preview/stories.json");
        assert(p@ =~= stories_path_text());
    }
    p
}

/// `j` is the JSON form that `field_value_to_json` gives for `v`.
pub open spec fn encodes(j: JsonValue, v: FieldData) -> bool {
    match v {
        FieldData::Text(s) => j matches JsonValue::String(t) && t@ == s,
        FieldData::Bool(b) => j == JsonValue::Bool(b),
        FieldData::Float(f) => if is_finite_bits(f.bits) {
            j == JsonValue::Number(JsonNumber::Float(f))
        } else {
            j == JsonValue::Null
        },
        FieldData::Int(i) => j == JsonValue::Number(JsonNumber::spec_from_i64(i)),
        FieldData::Enum(s) => j matches JsonValue::String(t) && t@ == s,
        FieldData::Color(r, g, b, a) => j matches JsonValue::Array(arr) && arr@.len() == 4
            && arr@[0] == JsonValue::Number(JsonNumber::PosInt(r as u64))
            && arr@[1] == JsonValue::Number(JsonNumber::PosInt(g as u64))
            && arr@[2] == JsonValue::Number(JsonNumber::PosInt(b as u64))
            && arr@[3] == JsonValue::Number(JsonNumber::PosInt(a as u64)),
        FieldData::Absent => j == JsonValue::Null,
    }
}

/// The byte that `n as u8` gives for a JSON array element holding the
/// non-negative integer `n`.
pub open spec fn low_byte(u: u64) -> u8 {
    (u % 256) as u8
}

/// The color held by a four-element JSON array whose elements are all
/// non-negative integers; `None` for any other array.
pub open spec fn color_of(arr: Seq<JsonValue>) -> Option<FieldData> {
    if arr.len() == 4 && arr[0].spec_as_u64() is Some && arr[1].spec_as_u64() is Some
        && arr[2].spec_as_u64() is Some && arr[3].spec_as_u64() is Some {
        Some(
            FieldData::Color(
                low_byte(arr[0].spec_as_u64()->0),
                low_byte(arr[1].spec_as_u64()->0),
                low_byte(arr[2].spec_as_u64()->0),
                low_byte(arr[3].spec_as_u64()->0),
            ),
        )
    } else {
        None
    }
}

/// The field value that a story's JSON `j` gives for a field edited with
/// control `c`, or `None` where the two do not fit together. A slider
/// reads every number as a float.
pub open spec fn decoded(j: JsonValue, c: ControlKind) -> Option<FieldData>
    decreases c,
{
    match j {
        JsonValue::String(s) => match c {
            ControlKind::TextInput => Some(FieldData::Text(s@)),
            ControlKind::Select(_) => Some(FieldData::Enum(s@)),
            ControlKind::Optional(inner) => decoded(j, *inner),
            _ => Some(FieldData::Text(s@)),
        },
        JsonValue::Bool(b) => Some(FieldData::Bool(b)),
        JsonValue::Number(n) => match c {
            ControlKind::NumberSlider { .. } => match n.spec_as_f64() {
                Some(f) => Some(FieldData::Float(f)),
                None => None,
            },
            _ => match n.spec_as_i64() {
                Some(i) => Some(FieldData::Int(i)),
                None => match n.spec_as_f64() {
                    Some(f) => Some(FieldData::Float(f)),
                    None => None,
                },
            },
        },
        JsonValue::Array(arr) => match c {
            ControlKind::Color => color_of(arr@),
            ControlKind::Optional(inner) => decoded(j, *inner),
            _ => None,
        },
        JsonValue::Null => Some(FieldData::Absent),
        JsonValue::Object(_) => match c {
            ControlKind::Optional(inner) => decoded(j, *inner),
            _ => None,
        },
    }
}

/// The field value `v` comes back unchanged from its JSON form when it is
/// read for a field edited with control `c`.
pub open spec fn fits(v: FieldData, c: ControlKind) -> bool
    decreases c,
{
    match v {
        FieldData::Text(_) => match c {
            ControlKind::Select(_) => false,
            ControlKind::Optional(inner) => fits(v, *inner),
            _ => true,
        },
        FieldData::Bool(_) => true,
        FieldData::Float(f) => is_finite_bits(f.bits),
        FieldData::Int(_) => !(c is NumberSlider),
        FieldData::Enum(_) => match c {
            ControlKind::Select(_) => true,
            ControlKind::Optional(inner) => fits(v, *inner),
            _ => false,
        },
        FieldData::Color(..) => match c {
            ControlKind::Color => true,
            ControlKind::Optional(inner) => fits(v, *inner),
            _ => false,
        },
        FieldData::Absent => true,
    }
}

/// The JSON form of a field value.
pub fn field_value_to_json(value: &FieldValue) -> (j: JsonValue)
    ensures
        encodes(j, value@),
{
    match value {
        FieldValue::String(s) => JsonValue::String(s.clone()),
        FieldValue::Bool(b) => JsonValue::Bool(*b),
        FieldValue::Float(f) => if f.is_finite() {
            JsonValue::Number(JsonNumber::Float(*f))
        } else {
            JsonValue::Null
        },
        FieldValue::Int(i) => JsonValue::Number(JsonNumber::from_i64(*i)),
        FieldValue::Enum(s) => JsonValue::String(s.clone()),
        FieldValue::Color(c) => {
            let mut arr: Vec<JsonValue> = Vec::new();
            arr.push(JsonValue::Number(JsonNumber::PosInt(c[0] as u64)));
            arr.push(JsonValue::Number(JsonNumber::PosInt(c[1] as u64)));
            arr.push(JsonValue::Number(JsonNumber::PosInt(c[2] as u64)));
            arr.push(JsonValue::Number(JsonNumber::PosInt(c[3] as u64)));
            JsonValue::Array(arr)
        },
        FieldValue::Absent => JsonValue::Null,
    }
}

/// The color held by a JSON array, for a color control.
fn array_to_color(arr: &Vec<JsonValue>) -> (r: Option<FieldValue>)
    ensures
        opt_field_view(r) == color_of(arr@),
{
    if arr.len() != 4 {
        return None;
    }
    let r0 = arr[0].as_u64();
    let r1 = arr[1].as_u64();
    let r2 = arr[2].as_u64();
    let r3 = arr[3].as_u64();
    match (r0, r1, r2, r3) {
        (Some(a), Some(b), Some(c), Some(d)) => {
            let rgba: [u8; 4] = [(a % 256) as u8, (b % 256) as u8, (c % 256) as u8, (d % 256) as u8];
            Some(FieldValue::Color(rgba))
        },
        _ => None,
    }
}

/// The field value that a story's JSON gives for a field edited with
/// `control`, or `None` where the JSON does not fit the control (a slider
/// reads every number as a float).
pub fn json_to_field_value(json: &JsonValue, control: &ControlKind) -> (r: Option<FieldValue>)
    ensures
        opt_field_view(r) == decoded(*json, *control),
    decreases control,
{
    match json {
        JsonValue::String(s) => match control {
            ControlKind::TextInput => Some(FieldValue::String(s.clone())),
            ControlKind::Select(_) => Some(FieldValue::Enum(s.clone())),
            ControlKind::Optional(inner) => json_to_field_value(json, inner),
            _ => Some(FieldValue::String(s.clone())),
        },
        JsonValue::Bool(b) => Some(FieldValue::Bool(*b)),
        JsonValue::Number(n) => match control {
            ControlKind::NumberSlider { .. } => match n.as_f64() {
                Some(f) => Some(FieldValue::Float(f)),
                None => None,
            },
            _ => match n.as_i64() {
                Some(i) => Some(FieldValue::Int(i)),
                None => match n.as_f64() {
                    Some(f) => Some(FieldValue::Float(f)),
                    None => None,
                },
            },
        },
        JsonValue::Array(arr) => match control {
            ControlKind::Color => array_to_color(arr),
            ControlKind::Optional(inner) => json_to_field_value(json, inner),
            _ => None,
        },
        JsonValue::Null => Some(FieldValue::Absent),
        JsonValue::Object(_) => match control {
            ControlKind::Optional(inner) => json_to_field_value(json, inner),
            _ => None,
        },
    }
}

/// Reading back the JSON form of a field value gives the value itself
/// exactly when the value fits the field's control: text for anything but
/// a select, enum names for selects, colors for color pickers (each also
/// inside an optional control), finite floats anywhere, integers anywhere
/// but directly under a slider (which reads every number as a float), and
/// booleans and the absent value anywhere.
pub proof fn lemma_json_round_trip(v: FieldData, j: JsonValue, c: ControlKind)
    requires
        encodes(j, v),
    ensures
        decoded(j, c) == Some(v) <==> fits(v, c),
    decreases c,
{
    match c {
        ControlKind::Optional(inner) => {
            lemma_json_round_trip(v, j, *inner);
        },
        _ => {},
    }
    match v {
        FieldData::Color(r, g, b, a) => {
            assert((r as u64) % 256 == r as u64);
            assert((g as u64) % 256 == g as u64);
            assert((b as u64) % 256 == b as u64);
            assert((a as u64) % 256 == a as u64);
        },
        FieldData::Int(i) => {
            if c is NumberSlider {
                assert(decoded(j, c) is Some ==> decoded(j, c)->0 is Float);
            }
        },
        _ => {},
    }
}

/// Per-story field values: field name to JSON value.
pub type StoryFields = TextMap<JsonValue>;

/// All stories of one component: story name to field values.
pub type StoryMap = TextMap<StoryFields>;

/// All stories of all components: component id to its stories.
pub type AllStories = TextMap<StoryMap>;

/// The abstract content of a store of stories: for each component id, its
/// stories by name.
pub type Book = Map<Seq<char>, Map<Seq<char>, StoryFields>>;

/// The abstract content of a store.
pub open spec fn book(all: Map<Seq<char>, StoryMap>) -> Book {
    all.map_values(|m: StoryMap| m@)
}

/// The stories of a component (none when it has no entry).
pub open spec fn stories_of(b: Book, component: Seq<char>) -> Map<Seq<char>, StoryFields> {
    if b.contains_key(component) {
        b[component]
    } else {
        Map::empty()
    }
}

/// The store after saving `fields` as story `story` of `component`.
pub open spec fn book_save(b: Book, component: Seq<char>, story: Seq<char>, fields: StoryFields) -> Book {
    b.insert(component, stories_of(b, component).insert(story, fields))
}

/// The store after deleting story `story` of `component`: a component left
/// without stories loses its entry.
pub open spec fn book_delete(b: Book, component: Seq<char>, story: Seq<char>) -> Book {
    if !b.contains_key(component) {
        b
    } else if b[component].remove(story) == Map::<Seq<char>, StoryFields>::empty() {
        b.remove(component)
    } else {
        b.insert(component, b[component].remove(story))
    }
}

/// The stories that loading the stories file gives: those of the versioned
/// format when the text parsed as such, else those of the old flat format
/// (then `true`: the file is migrated), else none.
pub fn loaded_stories(versioned: Option<AllStories>, flat: Option<AllStories>) -> (r: (AllStories, bool))
    ensures
        versioned is Some ==> r.0 == versioned->0 && !r.1,
        versioned is None && flat is Some ==> r.0 == flat->0 && r.1,
        versioned is None && flat is None ==> r.0@ == Map::<Seq<char>, StoryMap>::empty() && !r.1,
{
    match versioned {
        Some(v) => (v, false),
        None => match flat {
            Some(f) => (f, true),
            None => (TextMap::new(), false),
        },
    }
}

/// Every component that has an entry has at least one story.
pub open spec fn no_empty_entries(b: Book) -> bool {
    forall|c: Seq<char>| #[trigger] b.contains_key(c) ==> b[c] != Map::<Seq<char>, StoryFields>::empty()
}

/// A saved story is read back as saved, next to the component's other
/// stories, which stay as they were.
pub proof fn lemma_read_after_save(b: Book, component: Seq<char>, story: Seq<char>, fields: StoryFields)
    ensures
        stories_of(book_save(b, component, story, fields), component) == stories_of(b, component).insert(story, fields),
        stories_of(book_save(b, component, story, fields), component).contains_key(story),
        stories_of(book_save(b, component, story, fields), component)[story] == fields,
{
}

/// Saving a story of one component leaves every other component's
/// stories as they were.
pub proof fn lemma_save_keeps_other_components(
    b: Book,
    component: Seq<char>,
    other: Seq<char>,
    story: Seq<char>,
    fields: StoryFields,
)
    requires
        other != component,
    ensures
        stories_of(book_save(b, component, story, fields), other) == stories_of(b, other),
{
}

/// Saving under a name that is taken replaces that story: the last save wins.
pub proof fn lemma_save_replaces(b: Book, component: Seq<char>, story: Seq<char>, first: StoryFields, second: StoryFields)
    ensures
        book_save(book_save(b, component, story, first), component, story, second) == book_save(b, component, story, second),
{
    assert(stories_of(b, component).insert(story, first).insert(story, second) =~= stories_of(b, component).insert(story, second));
    assert(book_save(book_save(b, component, story, first), component, story, second) =~= book_save(b, component, story, second));
}

/// Deleting a story removes exactly that story of that component; no other
/// story of any component changes.
pub proof fn lemma_delete_removes_story(b: Book, component: Seq<char>, story: Seq<char>, other: Seq<char>)
    ensures
        stories_of(book_delete(b, component, story), component) == stories_of(b, component).remove(story),
        other != component ==> stories_of(book_delete(b, component, story), other) == stories_of(b, other),
{
    if !b.contains_key(component) {
        assert(Map::<Seq<char>, StoryFields>::empty().remove(story) =~= Map::<Seq<char>, StoryFields>::empty());
    }
}

/// Deleting a story just saved leaves the component's stories as they were
/// before the save, less any older story of that name.
pub proof fn lemma_delete_after_save(b: Book, component: Seq<char>, story: Seq<char>, fields: StoryFields)
    ensures
        stories_of(book_delete(book_save(b, component, story, fields), component, story), component)
            == stories_of(b, component).remove(story),
{
    lemma_delete_removes_story(book_save(b, component, story, fields), component, story, component);
    assert(stories_of(b, component).insert(story, fields).remove(story) =~= stories_of(b, component).remove(story));
}

/// Saving and deleting never leave a component with an entry but no
/// stories.
pub proof fn lemma_no_empty_entries_kept(b: Book, component: Seq<char>, story: Seq<char>, fields: StoryFields)
    requires
        no_empty_entries(b),
    ensures
        no_empty_entries(book_save(b, component, story, fields)),
        no_empty_entries(book_delete(b, component, story)),
{
    let saved = book_save(b, component, story, fields);
    assert forall|c: Seq<char>| #[trigger] saved.contains_key(c) implies saved[c] != Map::<Seq<char>, StoryFields>::empty() by {
        if c == component {
            assert(saved[c].contains_key(story));
        }
    }
}

/// Saves `fields` as the story `story` of `component`, creating the
/// component's entry where it has none and replacing a story of that name.
pub fn save_story(all: &mut AllStories, component: &str, story: String, fields: StoryFields)
    ensures
        book(final(all)@) == book_save(book(old(all)@), component@, story@, fields),
{
    let ghost story_key = story@;
    let mut stories = match all.remove(component) {
        Some(m) => m,
        None => TextMap::new(),
    };
    stories.insert(story, fields);
    all.insert(String::from_str(component), stories);
    proof {
        assert(book(final(all)@) =~= book_save(book(old(all)@), component@, story_key, fields));
    }
}

/// Removes the story `story` of `component`; a component left without
/// stories is removed as a whole.
pub fn delete_story(all: &mut AllStories, component: &str, story: &str)
    ensures
        book(final(all)@) == book_delete(book(old(all)@), component@, story@),
{
    let ghost old_all = all@;
    match all.remove(component) {
        Some(mut stories) => {
            stories.remove(story);
            if stories.is_empty() {
                proof {
                    assert(book(all@) =~= book_delete(book(old_all), component@, story@));
                }
            } else {
                all.insert(String::from_str(component), stories);
                proof {
                    assert(book(all@) =~= book_delete(book(old_all), component@, story@));
                }
            }
        },
        None => {
            proof {
                assert(book(all@) =~= book_delete(book(old_all), component@, story@));
            }
        },
    }
}

/// The field values of one story, if the component has a story of that name.
pub fn story_fields<'a>(all: &'a AllStories, component: &str, story: &str) -> (r: Option<&'a StoryFields>)
    ensures
        r is Some == stories_of(book(all@), component@).contains_key(story@),
        r matches Some(f) ==> *f == stories_of(book(all@), component@)[story@],
{
    match all.get(component) {
        Some(stories) => stories.get(story),
        None => None,
    }
}

/// The names of the stories of `component`, each once, in ascending order.
pub fn story_names(all: &AllStories, component: &str) -> (r: Vec<String>)
    ensures
        r@.len() == stories_of(book(all@), component@).len(),
        forall|i: int| 0 <= i < r@.len() ==> stories_of(book(all@), component@).contains_key(#[trigger] r@[i]@),
        forall|k: Seq<char>| stories_of(book(all@), component@).contains_key(k) ==> exists|i: int| 0 <= i < r@.len() && #[trigger] r@[i]@ == k,
        forall|a: int, b: int| 0 <= a < b < r@.len() ==> lex_less(r@[a]@, r@[b]@),
{
    match all.get(component) {
        None => {
            let r: Vec<String> = Vec::new();
            proof {
                assert(stories_of(book(all@), component@) =~= Map::<Seq<char>, StoryFields>::empty());
            }
            r
        },
        Some(stories) => {
            let names = stories.keys();
            let n = names.len();
            let mut keys: Vec<(String, String)> = Vec::new();
            for i in 0..n
                invariant
                    n == names@.len(),
                    keys@.len() == i,
                    forall|j: int| #![trigger keys@[j]] 0 <= j < i ==> keys@[j].0@ == names@[j]@ && keys@[j].1@ == Seq::<char>::empty(),
            {
                keys.push((names[i].clone(), String::new()));
            }
            let order = sorted_order(&keys);
            let mut r: Vec<String> = Vec::new();
            for i in 0..n
                invariant
                    n == names@.len(),
                    n == keys@.len(),
                    n == order@.len(),
                    forall|j: int| 0 <= j < n ==> order@[j] < n,
                    forall|j: int| 0 <= j < n ==> #[trigger] keys@[j].0@ == names@[j]@,
                    r@.len() == i,
                    forall|j: int| 0 <= j < i ==> #[trigger] r@[j]@ == names@[order@[j] as int]@,
            {
                r.push(keys[order[i]].0.clone());
            }
            proof {
                assert forall|k: Seq<char>| stories_of(book(all@), component@).contains_key(k) implies exists|i: int| 0 <= i < r@.len() && #[trigger] r@[i]@ == k by {
                    let j = choose|j: int| 0 <= j < names@.len() && #[trigger] names@[j]@ == k;
                    assert(order@.contains(j as usize));
                    let p = choose|p: int| 0 <= p < n && order@[p] == j;
                    assert(r@[p]@ == k);
                }
                assert forall|a: int, b: int| 0 <= a < b < r@.len() implies lex_less(r@[a]@, r@[b]@) by {
                    let ka = pair_key(keys@[order@[a] as int]);
                    let kb = pair_key(keys@[order@[b] as int]);
                    assert(!pair_less(kb, ka));
                    assert(order@[a] != order@[b]);
                    assert(names@[order@[a] as int]@ != names@[order@[b] as int]@);
                    lemma_lex_less_total(r@[a]@, r@[b]@);
                    lemma_lex_less_irreflexive(Seq::<char>::empty());
                }
            }
            r
        },
    }
}

} // verus!
