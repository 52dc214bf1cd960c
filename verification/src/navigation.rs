//! The component list of the preview app: keyboard navigation, and the
//! sidebar's search and grouping by category.

use vstd::prelude::*;
use crate::text::{
    lemma_lex_less_total, lemma_lex_less_transitive, lex_less, lowercase, occurs_in, text_contains,
    text_eq, to_lowercase, trim, trimmed,
};

verus! {

/// The component selected after "next": the one after the active one,
/// wrapping around, or the first when none is active. `None` (nothing
/// happens) when there are no components.
pub fn select_next(active: Option<usize>, len: usize) -> (r: Option<usize>)
    requires
        active matches Some(i) ==> i < len,
    ensures
        len == 0 ==> r is None,
        len > 0 ==> r == Some(match active {
            Some(i) => ((i + 1) % (len as int)) as usize,
            None => 0usize,
        }),
{
    if len == 0 {
        return None;
    }
    match active {
        Some(i) => Some((i + 1) % len),
        None => Some(0),
    }
}

/// The component selected after "previous": the one before the active one,
/// wrapping around, or the first when none is active. `None` (nothing
/// happens) when there are no components.
pub fn select_prev(active: Option<usize>, len: usize) -> (r: Option<usize>)
    requires
        active matches Some(i) ==> i < len && i + len <= usize::MAX,
    ensures
        len == 0 ==> r is None,
        len > 0 ==> r == Some(match active {
            Some(i) => ((i + len - 1) % (len as int)) as usize,
            None => 0usize,
        }),
{
    if len == 0 {
        return None;
    }
    match active {
        Some(i) => Some((i + len - 1) % len),
        None => Some(0),
    }
}

/// The component selected when the app starts: the first, if any.
pub fn initial_selection(len: usize) -> (r: Option<usize>)
    ensures
        r == (if len > 0 {
            Some(0usize)
        } else {
            None
        }),
{
    if len > 0 {
        Some(0)
    } else {
        None
    }
}

/// "Next" then "previous" comes back to the same component, and so does
/// "previous" then "next"; both stay within the list.
pub proof fn lemma_next_prev_inverse(i: usize, len: usize)
    requires
        i < len,
    ensures
        ((i + 1) % (len as int)) < len,
        ((i + len - 1) % (len as int)) < len,
        ((((i + 1) % (len as int)) + len - 1) % (len as int)) == i,
        ((((i + len - 1) % (len as int)) + 1) % (len as int)) == i,
{
    let n = len as int;
    let ii = i as int;
    if ii + 1 < n {
        assert((ii + 1) % n == ii + 1) by (nonlinear_arith)
            requires
                0 <= ii + 1 < n,
        ;
        assert((ii + 1 + n - 1) % n == ii) by (nonlinear_arith)
            requires
                0 <= ii < n,
        ;
    } else {
        assert((ii + 1) % n == 0) by (nonlinear_arith)
            requires
                ii + 1 == n,
                n > 0,
        ;
        assert((0 + n - 1) % n == ii) by (nonlinear_arith)
            requires
                ii + 1 == n,
                n > 0,
        ;
    }
    if ii > 0 {
        assert((ii + n - 1) % n == ii - 1) by (nonlinear_arith)
            requires
                0 < ii < n,
        ;
        assert((ii - 1 + 1) % n == ii) by (nonlinear_arith)
            requires
                0 <= ii < n,
        ;
    } else {
        assert((ii + n - 1) % n == n - 1) by (nonlinear_arith)
            requires
                ii == 0,
                n > 0,
        ;
        assert((n - 1 + 1) % n == 0) by (nonlinear_arith)
            requires
                n > 0,
        ;
    }
}

/// A component is shown under the search query `q` (already trimmed and
/// lower-cased) when the query is empty or occurs in its lower-cased name.
pub open spec fn shown(q: Seq<char>, name: Seq<char>) -> bool {
    q.len() == 0 || occurs_in(lowercase(name), q)
}

/// The search ignores case: whether a name is shown depends on the name only
/// through its lower-case form, so two names with the same lower-case form
/// are shown under the same queries; every name is shown under the empty
/// query, and a name is shown under any other exactly when the query
/// occurs in its lower-case form.
pub proof fn lemma_search_ignores_case(q: Seq<char>, a: Seq<char>, b: Seq<char>)
    ensures
        lowercase(a) == lowercase(b) ==> (shown(q, a) <==> shown(q, b)),
        q.len() == 0 ==> shown(q, a),
        q.len() > 0 ==> (shown(q, a) <==> occurs_in(lowercase(a), q)),
{
}

/// The sidebar's groups for the entries `(category, name)`, in order: each
/// group is a maximal run of consecutive shown entries of one category,
/// holding the positions and names of its entries.
pub open spec fn groups(entries: Seq<(Seq<char>, Seq<char>)>, q: Seq<char>) -> Seq<(Seq<char>, Seq<(usize, Seq<char>)>)>
    decreases entries.len(),
{
    if entries.len() == 0 {
        Seq::empty()
    } else {
        let g = groups(entries.drop_last(), q);
        let e = entries.last();
        let idx = (entries.len() - 1) as usize;
        if !shown(q, e.1) {
            g
        } else if g.len() > 0 && g.last().0 == e.0 {
            g.update(g.len() - 1, (g.last().0, g.last().1.push((idx, e.1))))
        } else {
            g.push((e.0, seq![(idx, e.1)]))
        }
    }
}

/// The items of the groups, group after group.
pub open spec fn group_items(g: Seq<(Seq<char>, Seq<(usize, Seq<char>)>)>) -> Seq<(usize, Seq<char>)>
    decreases g.len(),
{
    if g.len() == 0 {
        Seq::empty()
    } else {
        group_items(g.drop_last()) + g.last().1
    }
}

/// The position and name of entry `k` when the search query `q` shows it.
pub open spec fn shown_item(entries: Seq<(Seq<char>, Seq<char>)>, q: Seq<char>, k: int) -> Option<(usize, Seq<char>)> {
    if shown(q, entries[k].1) {
        Some((k as usize, entries[k].1))
    } else {
        None
    }
}

/// The sidebar lists every entry that the search shows, and only those,
/// each once and in the order of the entries: read group after group, its
/// items are the positions and names of the shown entries.
pub proof fn lemma_groups_list_shown_entries(entries: Seq<(Seq<char>, Seq<char>)>, q: Seq<char>)
    ensures
        group_items(groups(entries, q)) == Seq::new(entries.len(), |k: int| k).filter_map(
            |k: int| shown_item(entries, q, k),
        ),
{
    lemma_groups_list_prefix(entries, q, entries.len() as int);
    assert(entries.subrange(0, entries.len() as int) =~= entries);
}

proof fn lemma_groups_list_prefix(entries: Seq<(Seq<char>, Seq<char>)>, q: Seq<char>, m: int)
    requires
        0 <= m <= entries.len(),
    ensures
        group_items(groups(entries.subrange(0, m), q)) == Seq::new(m as nat, |k: int| k).filter_map(
            |k: int| shown_item(entries, q, k),
        ),
    decreases m,
{
    let f = |k: int| shown_item(entries, q, k);
    if m == 0 {
        assert(Seq::new(0, |k: int| k).filter_map(f) =~= Seq::empty());
    } else {
        lemma_groups_list_prefix(entries, q, m - 1);
        let pre = entries.subrange(0, m);
        assert(pre.drop_last() =~= entries.subrange(0, m - 1));
        let idx = Seq::new(m as nat, |k: int| k);
        assert(idx.drop_last() =~= Seq::new((m - 1) as nat, |k: int| k));
        assert(idx.last() == m - 1);
        assert(pre.last() == entries[m - 1]);
        let g = groups(entries.subrange(0, m - 1), q);
        let e = pre.last();
        if shown(q, e.1) {
            let x = ((m - 1) as usize, e.1);
            if g.len() > 0 && g.last().0 == e.0 {
                let r = g.update(g.len() - 1, (g.last().0, g.last().1.push(x)));
                assert(r.drop_last() =~= g.drop_last());
                assert(group_items(r) =~= group_items(g) + seq![x]);
            } else {
                let r = g.push((e.0, seq![x]));
                assert(r.drop_last() =~= g);
            }
        }
    }
}

/// The sidebar's groups are never empty, two neighbouring groups never
/// share a category, and every listed item is a shown entry of the group's
/// category, named as that entry.
pub proof fn lemma_groups_shape(entries: Seq<(Seq<char>, Seq<char>)>, q: Seq<char>)
    requires
        entries.len() <= usize::MAX,
    ensures
        forall|i: int| 0 <= i < groups(entries, q).len() ==> #[trigger] groups(entries, q)[i].1.len() > 0,
        forall|i: int| 0 < i < groups(entries, q).len() ==> #[trigger] groups(entries, q)[i].0 != groups(entries, q)[i - 1].0,
        forall|i: int, j: int| 0 <= i < groups(entries, q).len() && 0 <= j < groups(entries, q)[i].1.len() ==> {
            let item = #[trigger] groups(entries, q)[i].1[j];
            &&& item.0 < entries.len()
            &&& entries[item.0 as int].0 == groups(entries, q)[i].0
            &&& entries[item.0 as int].1 == item.1
            &&& shown(q, item.1)
        },
    decreases entries.len(),
{
    if entries.len() > 0 {
        let prev = entries.drop_last();
        lemma_groups_shape(prev, q);
        let g = groups(prev, q);
        let r = groups(entries, q);
        assert forall|i: int, j: int| 0 <= i < r.len() && 0 <= j < r[i].1.len() implies {
            let item = #[trigger] r[i].1[j];
            &&& item.0 < entries.len()
            &&& entries[item.0 as int].0 == r[i].0
            &&& entries[item.0 as int].1 == item.1
            &&& shown(q, item.1)
        } by {
            if i < g.len() && j < g[i].1.len() {
                let item = g[i].1[j];
                assert(r[i].1[j] == item);
                assert(entries[item.0 as int] == prev[item.0 as int]);
            } else {
                let last = (entries.len() - 1) as usize;
                assert(r[i].1[j] == (last, entries.last().1));
            }
        }
        assert forall|i: int| 0 < i < r.len() implies #[trigger] r[i].0 != r[i - 1].0 by {
            if i < g.len() {
                assert(r[i].0 == g[i].0);
                assert(r[i - 1].0 == g[i - 1].0);
            }
        }
        assert forall|i: int| 0 <= i < r.len() implies #[trigger] r[i].1.len() > 0 by {
            if i < g.len() {
                assert(r[i].1.len() >= g[i].1.len());
            }
        }
    }
}

/// When the entries come sorted by category (as the app sorts them), the
/// groups' categories strictly increase: each category has one group.
pub proof fn lemma_sorted_entries_group_once(entries: Seq<(Seq<char>, Seq<char>)>, q: Seq<char>)
    requires
        entries.len() <= usize::MAX,
        forall|a: int, b: int| 0 <= a < b < entries.len() ==> !lex_less(entries[b].0, entries[a].0),
    ensures
        forall|i: int, j: int| 0 <= i < j < groups(entries, q).len() ==> lex_less(groups(entries, q)[i].0, groups(entries, q)[j].0),
    decreases entries.len(),
{
    if entries.len() > 0 {
        let prev = entries.drop_last();
        assert forall|a: int, b: int| 0 <= a < b < prev.len() implies !lex_less(prev[b].0, prev[a].0) by {
            assert(prev[a] == entries[a] && prev[b] == entries[b]);
        }
        lemma_sorted_entries_group_once(prev, q);
        lemma_groups_shape(prev, q);
        let g = groups(prev, q);
        let r = groups(entries, q);
        let e = entries.last();
        if shown(q, e.1) && !(g.len() > 0 && g.last().0 == e.0) && g.len() > 0 {
            // The new group's category follows the last group's.
            let c = g.last().0;
            let item = g.last().1[0];
            assert(g.last().1.len() > 0);
            assert(entries[item.0 as int].0 == c);
            assert(item.0 < prev.len());
            assert(!lex_less(e.0, c));
            lemma_lex_less_total(c, e.0);
            assert(lex_less(c, e.0));
            assert forall|i: int, j: int| 0 <= i < j < r.len() implies lex_less(r[i].0, r[j].0) by {
                if j == r.len() - 1 {
                    if i < g.len() - 1 {
                        lemma_lex_less_transitive(g[i].0, c, e.0);
                    }
                } else {
                    assert(r[i] == g[i] && r[j] == g[j]);
                }
            }
        } else if shown(q, e.1) && g.len() > 0 && g.last().0 == e.0 {
            assert forall|i: int, j: int| 0 <= i < j < r.len() implies lex_less(r[i].0, r[j].0) by {
                assert(r[i].0 == g[i].0 && r[j].0 == g[j].0);
            }
        }
    }
}

/// The abstract value of the entries.
pub open spec fn entries_view(entries: Seq<(String, String)>) -> Seq<(Seq<char>, Seq<char>)> {
    entries.map_values(|e: (String, String)| (e.0@, e.1@))
}

/// The abstract value of built groups.
pub open spec fn groups_view(g: Seq<(String, Vec<(usize, String)>)>) -> Seq<(Seq<char>, Seq<(usize, Seq<char>)>)> {
    g.map_values(|x: (String, Vec<(usize, String)>)| (x.0@, x.1@.map_values(|y: (usize, String)| (y.0, y.1@))))
}

/// The sidebar: the entries (sorted by category and name) that match the
/// search text, grouped by category. The search text is trimmed and
/// lower-cased, and matched against the lower-cased names.
pub fn sidebar_groups(entries: &Vec<(String, String)>, query: &str) -> (r: Vec<(String, Vec<(usize, String)>)>)
    ensures
        groups_view(r@) == groups(entries_view(entries@), lowercase(trimmed(query@))),
{
    let q = to_lowercase(trim(query));
    let empty_query = q.as_str().unicode_len() == 0;
    let ghost qv = q@;
    let mut groups_out: Vec<(String, Vec<(usize, String)>)> = Vec::new();
    let n = entries.len();
    for idx in 0..n
        invariant
            n == entries@.len(),
            qv == lowercase(trimmed(query@)),
            qv == q@,
            empty_query == (qv.len() == 0),
            groups_view(groups_out@) == groups(entries_view(entries@).subrange(0, idx as int), qv),
    {
        let ghost pre = entries_view(entries@).subrange(0, idx as int);
        let ghost post = entries_view(entries@).subrange(0, idx + 1);
        proof {
            assert(post.drop_last() =~= pre);
            assert(post.last() == (entries@[idx as int].0@, entries@[idx as int].1@));
        }
        let name = entries[idx].1.as_str();
        let show = if empty_query {
            true
        } else {
            let lower = to_lowercase(name);
            text_contains(lower.as_str(), q.as_str())
        };
        if show {
            let cat = entries[idx].0.as_str();
            let len = groups_out.len();
            let same = len > 0 && text_eq(groups_out[len - 1].0.as_str(), cat);
            if same {
                let ghost before = groups_out@;
                let mut last = groups_out.pop().unwrap();
                let ghost old_items = last.1@;
                last.1.push((idx, entries[idx].1.clone()));
                let ghost new_last = last;
                groups_out.push(last);
                proof {
                    let gv = groups_view(before);
                    let f = |y: (usize, String)| (y.0, y.1@);
                    assert(new_last.1@.map_values(f) =~= old_items.map_values(f).push((idx, entries@[idx as int].1@)));
                    assert(before.last().1@ == old_items);
                    assert(groups_view(groups_out@) =~= gv.update(
                        gv.len() - 1,
                        (gv.last().0, gv.last().1.push((idx, entries@[idx as int].1@))),
                    ));
                }
            } else {
                let mut items: Vec<(usize, String)> = Vec::new();
                items.push((idx, entries[idx].1.clone()));
                let ghost before = groups_out@;
                let ghost new_items = items@;
                groups_out.push((entries[idx].0.clone(), items));
                proof {
                    let f = |y: (usize, String)| (y.0, y.1@);
                    assert(new_items.map_values(f) =~= seq![(idx, entries@[idx as int].1@)]);
                    assert(groups_view(groups_out@) =~= groups_view(before).push(
                        (entries@[idx as int].0@, seq![(idx, entries@[idx as int].1@)]),
                    ));
                }
            }
        }
    }
    proof {
        assert(entries_view(entries@).subrange(0, n as int) =~= entries_view(entries@));
    }
    groups_out
}

/// The canvas width presets of the toolbar above the preview.
#[derive(Clone, Copy, Debug, PartialEq, Eq, Structural)]
pub enum ViewportPreset {
    Small,
    Medium,
    Large,
    Full,
}

impl ViewportPreset {
    /// The canvas width in pixels: 320, 640 or 960; `None` for filling the
    /// available space.
    pub fn width(&self) -> (r: Option<u32>)
        ensures
            r == (match *self {
                ViewportPreset::Small => Some(320u32),
                ViewportPreset::Medium => Some(640u32),
                ViewportPreset::Large => Some(960u32),
                ViewportPreset::Full => None,
            }),
    {
        match self {
            ViewportPreset::Small => Some(320),
            ViewportPreset::Medium => Some(640),
            ViewportPreset::Large => Some(960),
            ViewportPreset::Full => None,
        }
    }

    /// The toolbar label: S, M, L or Full.
    pub fn label(&self) -> (r: &'static str)
        ensures
            *self == ViewportPreset::Small ==> r@ == "S"@,
            *self == ViewportPreset::Medium ==> r@ == "M"@,
            *self == ViewportPreset::Large ==> r@ == "L"@,
            *self == ViewportPreset::Full ==> r@ == "Full"@,
    {
        match self {
            ViewportPreset::Small => "S",
            ViewportPreset::Medium => "M",
            ViewportPreset::Large => "L",
            ViewportPreset::Full => "Full",
        }
    }
}

} // verus!
