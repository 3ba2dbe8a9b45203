//! Marker manager: CRUD, ordering and lookup.
//!
//! The manager is used from a single thread (the editor and the live mode
//! read it); it is not meant to be shared between threads without a lock.

use vstd::prelude::*;

use crate::markers::model::{Marker, MarkerType};
use crate::timecode::Timecode;

verus! {

// ------------------------------------------------------------------ model

/// `s` with `m` inserted right after the last element whose time is not
/// later than `m`'s (stable insertion from the end).
pub open spec fn insert_by_time(s: Seq<Marker>, m: Marker) -> Seq<Marker>
    decreases s.len(),
{
    if s.len() == 0 {
        seq![m]
    } else if s.last().time_ns <= m.time_ns {
        s.push(m)
    } else {
        insert_by_time(s.drop_last(), m).push(s.last())
    }
}

/// Stable sort by `time_ns`: markers with equal times keep their order.
pub open spec fn sorted_by_time(s: Seq<Marker>) -> Seq<Marker>
    decreases s.len(),
{
    if s.len() == 0 {
        s
    } else {
        insert_by_time(sorted_by_time(s.drop_last()), s.last())
    }
}

/// Times never decrease along `s`.
pub open spec fn is_time_ordered(s: Seq<Marker>) -> bool {
    forall|i: int, j: int| 0 <= i <= j < s.len() ==> s[i].time_ns <= s[j].time_ns
}

/// Index of the first marker of `s` with the given id, or -1.
pub open spec fn index_of_id(s: Seq<Marker>, id: u32) -> int
    decreases s.len(),
{
    if s.len() == 0 {
        -1
    } else if index_of_id(s.drop_last(), id) >= 0 {
        index_of_id(s.drop_last(), id)
    } else if s.last().id == id {
        s.len() - 1
    } else {
        -1
    }
}

/// Largest id of `s` (0 for an empty sequence).
pub open spec fn max_id(s: Seq<Marker>) -> u32
    decreases s.len(),
{
    if s.len() == 0 {
        0
    } else if max_id(s.drop_last()) >= s.last().id {
        max_id(s.drop_last())
    } else {
        s.last().id
    }
}

/// `m` is the marker that `Marker::new` builds from these fields.
pub open spec fn is_new_marker(
    m: Marker,
    id: u32,
    name: Seq<char>,
    time_ns: i64,
    timecode: Timecode,
    cue_number: u32,
    executor: u32,
    marker_type: MarkerType,
) -> bool {
    &&& m.id == id
    &&& m.name@ == name
    &&& m.time_ns == time_ns
    &&& m.timecode == timecode
    &&& m.cue_number == cue_number
    &&& m.executor == executor
    &&& m.marker_type == marker_type
    &&& m.color is None
    &&& m.comment is None
}

/// No two markers of `s` share an id.
pub open spec fn distinct_ids(s: Seq<Marker>) -> bool {
    forall|i: int, j: int| 0 <= i < j < s.len() ==> s[i].id != s[j].id
}

/// Every id of `s` is below `bound`.
pub open spec fn ids_below(s: Seq<Marker>, bound: u32) -> bool {
    forall|i: int| 0 <= i < s.len() ==> #[trigger] s[i].id < bound
}

// ------------------------------------------------------------------ lemmas

proof fn lemma_insert_at(s: Seq<Marker>, m: Marker, j: int)
    requires
        0 <= j <= s.len(),
        forall|k: int| j <= k < s.len() ==> #[trigger] s[k].time_ns > m.time_ns,
        j > 0 ==> s[j - 1].time_ns <= m.time_ns,
    ensures
        insert_by_time(s, m) == s.take(j).push(m) + s.skip(j),
    decreases s.len(),
{
    if s.len() == 0 {
        assert(s.take(j).push(m) + s.skip(j) =~= seq![m]);
    } else if s.last().time_ns <= m.time_ns {
        assert(j == s.len());
        assert(s.take(j).push(m) + s.skip(j) =~= s.push(m));
    } else {
        let t = s.drop_last();
        lemma_insert_at(t, m, j);
        assert(t.take(j).push(m) + t.skip(j) + seq![s.last()] =~= s.take(j).push(m) + s.skip(j));
        assert((t.take(j).push(m) + t.skip(j)).push(s.last()) =~= t.take(j).push(m) + t.skip(j)
            + seq![s.last()]);
    }
}

proof fn lemma_insert_ordered(s: Seq<Marker>, m: Marker)
    requires
        is_time_ordered(s),
    ensures
        is_time_ordered(insert_by_time(s, m)),
        insert_by_time(s, m).to_multiset() == s.to_multiset().insert(m),
        insert_by_time(s, m).len() == s.len() + 1,
    decreases s.len(),
{
    broadcast use vstd::seq_lib::group_to_multiset_ensures;

    if s.len() == 0 {
        assert(seq![m] =~= Seq::<Marker>::empty().push(m));
    } else if s.last().time_ns <= m.time_ns {
    } else {
        let t = s.drop_last();
        lemma_insert_ordered(t, m);
        let u = insert_by_time(t, m);
        assert(s =~= t.push(s.last()));
        assert forall|i: int, j: int| 0 <= i <= j < u.push(s.last()).len() implies u.push(
            s.last(),
        )[i].time_ns <= u.push(s.last())[j].time_ns by {
            if j == u.len() && i < u.len() {
                assert(u.to_multiset().contains(u[i]));
                assert(t.to_multiset().insert(m).contains(u[i]));
                if u[i] != m {
                    assert(t.to_multiset().contains(u[i]));
                    assert(t.contains(u[i]));
                    let k = choose|k: int| 0 <= k < t.len() && t[k] == u[i];
                    assert(s[k] == t[k]);
                }
            }
        }
    }
}

/// Law: the stable sort by time orders the markers by time and keeps exactly
/// the same markers (as a multiset).
pub proof fn law_sort_orders_and_permutes(s: Seq<Marker>)
    ensures
        is_time_ordered(sorted_by_time(s)),
        sorted_by_time(s).to_multiset() == s.to_multiset(),
        sorted_by_time(s).len() == s.len(),
    decreases s.len(),
{
    broadcast use vstd::seq_lib::group_to_multiset_ensures;

    if s.len() > 0 {
        law_sort_orders_and_permutes(s.drop_last());
        lemma_insert_ordered(sorted_by_time(s.drop_last()), s.last());
        assert(s =~= s.drop_last().push(s.last()));
    }
}

/// Law: sorting markers that are already in time order changes nothing.
pub proof fn law_sort_keeps_ordered(s: Seq<Marker>)
    requires
        is_time_ordered(s),
    ensures
        sorted_by_time(s) == s,
    decreases s.len(),
{
    if s.len() > 0 {
        law_sort_keeps_ordered(s.drop_last());
        assert(s.drop_last().len() == 0 || s.drop_last().last().time_ns <= s.last().time_ns);
        assert(s.drop_last().push(s.last()) =~= s);
    }
}

proof fn lemma_index_of_id(s: Seq<Marker>, id: u32)
    ensures
        -1 <= index_of_id(s, id) < s.len(),
        index_of_id(s, id) >= 0 ==> s[index_of_id(s, id)].id == id,
        index_of_id(s, id) >= 0 ==> forall|k: int|
            0 <= k < index_of_id(s, id) ==> #[trigger] s[k].id != id,
        index_of_id(s, id) < 0 ==> forall|k: int| 0 <= k < s.len() ==> #[trigger] s[k].id != id,
    decreases s.len(),
{
    if s.len() > 0 {
        lemma_index_of_id(s.drop_last(), id);
        assert forall|k: int| 0 <= k < s.len() - 1 implies s[k] == s.drop_last()[k] by {}
    }
}

pub(crate) proof fn lemma_index_of_id_prefix(s: Seq<Marker>, id: u32, i: int)
    requires
        0 <= i <= s.len(),
        forall|k: int| 0 <= k < i ==> #[trigger] s[k].id != id,
    ensures
        i < s.len() && s[i].id == id ==> index_of_id(s, id) == i,
        i == s.len() ==> index_of_id(s, id) == -1,
    decreases s.len(),
{
    lemma_index_of_id(s, id);
    if s.len() > 0 {
        if i < s.len() && s[i].id == id {
            if i < s.len() - 1 {
                lemma_index_of_id_prefix(s.drop_last(), id, i);
            } else {
                lemma_index_of_id_prefix(s.drop_last(), id, i);
            }
        } else if i == s.len() {
            lemma_index_of_id_prefix(s.drop_last(), id, i - 1);
        }
    }
}

proof fn lemma_max_id(s: Seq<Marker>)
    ensures
        forall|i: int| 0 <= i < s.len() ==> #[trigger] s[i].id <= max_id(s),
        s.len() > 0 ==> exists|i: int| 0 <= i < s.len() && #[trigger] s[i].id == max_id(s),
    decreases s.len(),
{
    if s.len() > 0 {
        lemma_max_id(s.drop_last());
        assert forall|i: int| 0 <= i < s.len() implies #[trigger] s[i].id <= max_id(s) by {
            if i < s.len() - 1 {
                assert(s[i] == s.drop_last()[i]);
            }
        }
        if max_id(s.drop_last()) >= s.last().id && s.len() > 1 {
            let i = choose|i: int| 0 <= i < s.drop_last().len() && #[trigger] s.drop_last()[i].id
                == max_id(s.drop_last());
            assert(s[i] == s.drop_last()[i]);
        } else {
            assert(s[s.len() - 1].id == max_id(s));
        }
    }
}


/// Law: a marker added with an id above every id already present is the one
/// a lookup by that id finds after the re-sort.
pub proof fn law_added_marker_is_found(s: Seq<Marker>, m: Marker)
    requires
        ids_below(s, m.id),
    ensures
        index_of_id(sorted_by_time(s.push(m)), m.id) >= 0,
        sorted_by_time(s.push(m))[index_of_id(sorted_by_time(s.push(m)), m.id)] == m,
{
    broadcast use vstd::seq_lib::group_to_multiset_ensures;

    let t = sorted_by_time(s.push(m));
    law_sort_orders_and_permutes(s.push(m));
    assert(s.push(m)[s.len() as int] == m);
    assert(s.push(m).to_multiset().contains(m));
    assert(t.contains(m));
    let j = choose|j: int| 0 <= j < t.len() && t[j] == m;
    lemma_index_of_id(t, m.id);
    if index_of_id(t, m.id) < 0 {
        assert(t[j].id != m.id);
    }
    let k = index_of_id(t, m.id);
    assert(t.to_multiset().contains(t[k]));
    assert(s.push(m).contains(t[k]));
    let q = choose|q: int| 0 <= q < s.push(m).len() && s.push(m)[q] == t[k];
    if q < s.len() {
        assert(s[q] == s.push(m)[q]);
        assert(s[q].id < m.id);
    }
}

/// Law: adding a marker with an id above every id present keeps every id
/// below the next one.
pub proof fn law_add_keeps_ids_below(s: Seq<Marker>, m: Marker)
    requires
        ids_below(s, m.id),
        m.id < u32::MAX,
    ensures
        ids_below(sorted_by_time(s.push(m)), (m.id + 1) as u32),
{
    broadcast use vstd::seq_lib::group_to_multiset_ensures;

    let t = sorted_by_time(s.push(m));
    law_sort_orders_and_permutes(s.push(m));
    assert forall|i: int| 0 <= i < t.len() implies #[trigger] t[i].id < m.id + 1 by {
        assert(t.to_multiset().contains(t[i]));
        assert(s.push(m).contains(t[i]));
        let q = choose|q: int| 0 <= q < s.push(m).len() && s.push(m)[q] == t[i];
        if q < s.len() {
            assert(s[q] == s.push(m)[q]);
        }
    }
}

/// Law: after removing an id, no marker with that id is left.
pub proof fn law_removed_marker_is_gone(s: Seq<Marker>, id: u32)
    ensures
        index_of_id(s.filter(|m: Marker| m.id != id), id) == -1,
{
    let t = s.filter(|m: Marker| m.id != id);
    assert forall|k: int| 0 <= k < t.len() implies #[trigger] t[k].id != id by {
        s.lemma_filter_pred(|m: Marker| m.id != id, k);
    }
    lemma_index_of_id_prefix(t, id, t.len() as int);
}

/// Law: `max_id` is the largest id present: no marker's id is above it,
/// and some marker has it when there is a marker.
pub proof fn law_max_id_is_largest(s: Seq<Marker>)
    ensures
        forall|i: int| 0 <= i < s.len() ==> #[trigger] s[i].id <= max_id(s),
        s.len() > 0 ==> exists|i: int| 0 <= i < s.len() && #[trigger] s[i].id == max_id(s),
        s.len() == 0 ==> max_id(s) == 0,
{
    lemma_max_id(s);
}

/// Law: `with_markers` continues the ids above the largest one present.
pub proof fn law_with_markers_ids_below(s: Seq<Marker>)
    requires
        max_id(s) < u32::MAX,
    ensures
        ids_below(s, if s.len() == 0 { 1 } else { (max_id(s) + 1) as u32 }),
{
    lemma_max_id(s);
}

/// Reordering markers (the same markers, as a multiset) keeps their ids
/// distinct.
proof fn lemma_permutation_keeps_distinct_ids(u: Seq<Marker>, t: Seq<Marker>)
    requires
        distinct_ids(u),
        t.to_multiset() == u.to_multiset(),
    ensures
        distinct_ids(t),
{
    broadcast use vstd::seq_lib::group_to_multiset_ensures;

    assert(u.no_duplicates()) by {
        assert forall|i: int, j: int| 0 <= i < u.len() && 0 <= j < u.len() && i != j implies u[i]
            != u[j] by {
            if i < j {
                assert(u[i].id != u[j].id);
            } else {
                assert(u[j].id != u[i].id);
            }
        }
    }
    u.lemma_multiset_has_no_duplicates();
    t.lemma_multiset_has_no_duplicates_conv();
    assert forall|i: int, j: int| 0 <= i < j < t.len() implies t[i].id != t[j].id by {
        assert(t.to_multiset().contains(t[i]));
        assert(t.to_multiset().contains(t[j]));
        assert(u.contains(t[i]));
        assert(u.contains(t[j]));
        let p = choose|p: int| 0 <= p < u.len() && u[p] == t[i];
        let q = choose|q: int| 0 <= q < u.len() && u[q] == t[j];
        assert(t[i] != t[j]);
        if p < q {
            assert(u[p].id != u[q].id);
        } else {
            assert(u[q].id != u[p].id);
        }
    }
}

/// Reordering markers keeps every id below a bound.
proof fn lemma_permutation_keeps_ids_below(u: Seq<Marker>, t: Seq<Marker>, bound: u32)
    requires
        ids_below(u, bound),
        t.to_multiset() == u.to_multiset(),
    ensures
        ids_below(t, bound),
{
    broadcast use vstd::seq_lib::group_to_multiset_ensures;

    assert forall|i: int| 0 <= i < t.len() implies #[trigger] t[i].id < bound by {
        assert(t.to_multiset().contains(t[i]));
        assert(u.contains(t[i]));
    }
}

/// Law: sorting markers by time (as `with_markers` does) keeps their ids
/// distinct.
pub proof fn law_sort_keeps_distinct_ids(s: Seq<Marker>)
    requires
        distinct_ids(s),
    ensures
        distinct_ids(sorted_by_time(s)),
{
    law_sort_orders_and_permutes(s);
    lemma_permutation_keeps_distinct_ids(s, sorted_by_time(s));
}

/// Law: adding a marker whose id is above every id present (as `add` does
/// with its counter) keeps the ids distinct.
pub proof fn law_add_keeps_distinct_ids(s: Seq<Marker>, m: Marker)
    requires
        distinct_ids(s),
        ids_below(s, m.id),
    ensures
        distinct_ids(sorted_by_time(s.push(m))),
{
    let p = s.push(m);
    assert forall|i: int, j: int| 0 <= i < j < p.len() implies p[i].id != p[j].id by {
        assert(p[i] == s[i]);
        if j < s.len() {
            assert(p[j] == s[j]);
        } else {
            assert(s[i].id < m.id);
        }
    }
    law_sort_keeps_distinct_ids(p);
}

/// Law: updating a marker without changing its id keeps the ids distinct.
pub proof fn law_update_keeps_distinct_ids(s: Seq<Marker>, i: int, m: Marker)
    requires
        distinct_ids(s),
        0 <= i < s.len(),
        m.id == s[i].id,
    ensures
        distinct_ids(sorted_by_time(s.update(i, m))),
{
    let p = s.update(i, m);
    assert forall|a: int, b: int| 0 <= a < b < p.len() implies p[a].id != p[b].id by {
        assert(p[a].id == s[a].id);
        assert(p[b].id == s[b].id);
    }
    law_sort_keeps_distinct_ids(p);
}

/// Law: removing the markers of an id keeps the other ids distinct.
pub proof fn law_remove_keeps_distinct_ids(s: Seq<Marker>, id: u32)
    requires
        distinct_ids(s),
    ensures
        distinct_ids(s.filter(|m: Marker| m.id != id)),
    decreases s.len(),
{
    let pred = |m: Marker| m.id != id;
    if s.len() > 0 {
        let d = s.drop_last();
        assert(d.push(s.last()) =~= s);
        assert(distinct_ids(d)) by {
            assert forall|a: int, b: int| 0 <= a < b < d.len() implies d[a].id != d[b].id by {
                assert(d[a] == s[a] && d[b] == s[b]);
            }
        }
        law_remove_keeps_distinct_ids(d, id);
        d.lemma_filter_push(s.last(), pred);
        let f = d.filter(pred);
        if pred(s.last()) {
            assert forall|a: int, b: int| 0 <= a < b < f.push(s.last()).len() implies f.push(
                s.last(),
            )[a].id != f.push(s.last())[b].id by {
                if b == f.len() {
                    assert(f.contains(f[a]));
                    d.lemma_filter_contains_rev(pred, f[a]);
                    let k = choose|k: int| 0 <= k < d.len() && d[k] == f[a];
                    assert(s[k] == d[k]);
                    assert(s[k].id != s[s.len() - 1].id);
                } else {
                    assert(f.push(s.last())[a] == f[a]);
                    assert(f.push(s.last())[b] == f[b]);
                }
            }
        }
    } else {
        reveal(Seq::filter);
    }
}

/// Law: removing one marker from a list in time order leaves it in time
/// order.
proof fn lemma_remove_keeps_ordered(s: Seq<Marker>, i: int)
    requires
        is_time_ordered(s),
        0 <= i < s.len(),
    ensures
        is_time_ordered(s.remove(i)),
{
    let t = s.remove(i);
    assert forall|a: int, b: int| 0 <= a <= b < t.len() implies t[a].time_ns <= t[b].time_ns by {
        let a2 = if a < i { a } else { a + 1 };
        let b2 = if b < i { b } else { b + 1 };
        assert(t[a] == s[a2]);
        assert(t[b] == s[b2]);
    }
}

/// Stable sort of a list of markers by time (equal times keep their order).
fn sort_markers_by_time(markers: &mut Vec<Marker>)
    ensures
        final(markers)@ == sorted_by_time(old(markers)@),
{
    let ghost orig = markers@;
    let n = markers.len();
    let mut i: usize = 0;
    while i < n
        invariant
            n == markers@.len(),
            n == orig.len(),
            i <= n,
            markers@.take(i as int) == sorted_by_time(orig.take(i as int)),
            markers@.skip(i as int) == orig.skip(i as int),
        decreases n - i,
    {
        let mut j = i;
        while j > 0 && markers[j - 1].time_ns > markers[i].time_ns
            invariant
                j <= i < n == markers@.len(),
                forall|k: int|
                    j <= k < i ==> #[trigger] markers@[k].time_ns > markers@[i as int].time_ns,
            decreases j,
        {
            j -= 1;
        }
        let ghost prefix = markers@.take(i as int);
        let ghost x = markers@[i as int];
        proof {
            lemma_insert_at(prefix, x, j as int);
            assert(orig.take(i + 1).drop_last() =~= orig.take(i as int));
            assert(orig.take(i + 1).last() == orig[i as int]);
            assert(orig[i as int] == orig.skip(i as int)[0]);
            assert(x == markers@.skip(i as int)[0]);
        }
        let ghost before = markers@;
        let item = markers.remove(i);
        markers.insert(j, item);
        proof {
            assert(markers@ == before.remove(i as int).insert(j as int, x));
            assert forall|k: int| i + 1 <= k < n implies #[trigger] markers@[k] == orig[k] by {
                assert(markers@[k] == before.remove(i as int)[k - 1]);
                assert(before.skip(i as int)[k - i] == orig.skip(i as int)[k - i]);
            }
            assert(markers@.take(i + 1) =~= prefix.take(j as int).push(x) + prefix.skip(
                j as int,
            ));
            assert(markers@.skip(i + 1) =~= orig.skip(i + 1));
        }
        i += 1;
    }
    proof {
        assert(markers@ =~= markers@.take(n as int));
        assert(orig =~= orig.take(n as int));
    }
}

// --------------------------------------------------------------- manager

/// The markers of a project, with automatic ids, always in time order.
#[derive(Debug)]
pub struct MarkerManager {
    markers: Vec<Marker>,
    next_id: u32,
}

impl View for MarkerManager {
    type V = Seq<Marker>;

    closed spec fn view(&self) -> Seq<Marker> {
        self.markers@
    }
}

impl Default for MarkerManager {
    fn default() -> (r: MarkerManager)
        ensures
            r@ == Seq::<Marker>::empty(),
            r.next_id_spec() == 0,
    {
        MarkerManager::new()
    }
}

impl MarkerManager {
    /// The markers are in time order, whatever the operations.
    #[verifier::type_invariant]
    spec fn in_time_order(self) -> bool {
        is_time_ordered(self.markers@)
    }

    /// The id the next `add` assigns.
    pub closed spec fn next_id_spec(&self) -> u32 {
        self.next_id
    }

    /// An empty manager; the first id it assigns is 0.
    pub fn new() -> (r: Self)
        ensures
            r@ == Seq::<Marker>::empty(),
            r.next_id_spec() == 0,
    {
        MarkerManager { markers: Vec::new(), next_id: 0 }
    }

    /// A manager over an existing list, sorted by time (stably), with the id
    /// counter set to the largest id + 1 (1 for an empty list).
    pub fn with_markers(markers: Vec<Marker>) -> (r: Self)
        requires
            max_id(markers@) < u32::MAX,
        ensures
            r@ == sorted_by_time(markers@),
            r.next_id_spec() == if markers@.len() == 0 {
                1
            } else {
                (max_id(markers@) + 1) as u32
            },
            ids_below(r@, r.next_id_spec()),
            distinct_ids(markers@) ==> distinct_ids(r@),
    {
        let mut max: u32 = 0;
        let mut i: usize = 0;
        while i < markers.len()
            invariant
                i <= markers.len(),
                max == max_id(markers@.take(i as int)),
                max_id(markers@) < u32::MAX,
            decreases markers.len() - i,
        {
            proof {
                assert(markers@.take(i + 1).drop_last() =~= markers@.take(i as int));
            }
            if markers[i].id > max {
                max = markers[i].id;
            }
            i += 1;
        }
        proof {
            assert(markers@.take(markers@.len() as int) =~= markers@);
        }
        let next_id = if markers.len() == 0 {
            1
        } else {
            max + 1
        };
        let mut sorted = markers;
        sort_markers_by_time(&mut sorted);
        proof {
            law_sort_orders_and_permutes(markers@);
            law_with_markers_ids_below(markers@);
            lemma_permutation_keeps_ids_below(markers@, sorted@, next_id);
            if distinct_ids(markers@) {
                law_sort_keeps_distinct_ids(markers@);
            }
        }
        MarkerManager { markers: sorted, next_id }
    }

    /// The markers, in timeline order (times never decrease).
    pub fn markers(&self) -> (r: &[Marker])
        ensures
            r@ == self@,
            is_time_ordered(r@),
    {
        proof {
            use_type_invariant(self);
        }
        self.markers.as_slice()
    }

    /// Adds a marker with the next id and re-sorts by time; returns the id.
    pub fn add(
        &mut self,
        name: &str,
        time_ns: i64,
        timecode: Timecode,
        cue_number: u32,
        executor: u32,
        marker_type: MarkerType,
    ) -> (id: u32)
        requires
            old(self).next_id_spec() < u32::MAX,
        ensures
            id == old(self).next_id_spec(),
            final(self).next_id_spec() == old(self).next_id_spec() + 1,
            exists|m: Marker|
                #[trigger] is_new_marker(
                    m,
                    id,
                    name@,
                    time_ns,
                    timecode,
                    cue_number,
                    executor,
                    marker_type,
                ) && final(self)@ == sorted_by_time(old(self)@.push(m)),
            ids_below(old(self)@, old(self).next_id_spec()) ==> ids_below(
                final(self)@,
                final(self).next_id_spec(),
            ),
            distinct_ids(old(self)@) && ids_below(old(self)@, old(self).next_id_spec())
                ==> distinct_ids(final(self)@),
    {
        proof {
            use_type_invariant(&*self);
        }
        let id = self.next_id;
        self.next_id = self.next_id + 1;
        let m = Marker::new(id, name, time_ns, timecode, cue_number, executor, marker_type);
        let mut v: Vec<Marker> = Vec::new();
        std::mem::swap(&mut v, &mut self.markers);
        let ghost pushed = v@.push(m);
        v.push(m);
        sort_markers_by_time(&mut v);
        proof {
            law_sort_orders_and_permutes(pushed);
            assert(is_new_marker(m, id, name@, time_ns, timecode, cue_number, executor, marker_type));
            if ids_below(old(self)@, id) {
                law_add_keeps_ids_below(old(self)@, m);
                if distinct_ids(old(self)@) {
                    law_add_keeps_distinct_ids(old(self)@, m);
                }
            }
        }
        self.markers = v;
        id
    }

    /// Updates the first marker with the given id by passing it through `f`,
    /// then re-sorts by time. Returns `false` (and changes nothing) when no
    /// marker has that id.
    pub fn update<F: FnOnce(Marker) -> Marker>(&mut self, id: u32, f: F) -> (r: bool)
        requires
            forall|m: Marker| #[trigger] f.requires((m,)),
        ensures
            r == (index_of_id(old(self)@, id) >= 0),
            !r ==> final(self)@ == old(self)@,
            r ==> exists|m: Marker|
                #[trigger] f.ensures((old(self)@[index_of_id(old(self)@, id)],), m)
                    && final(self)@ == sorted_by_time(
                    old(self)@.update(index_of_id(old(self)@, id), m),
                ),
            final(self).next_id_spec() == old(self).next_id_spec(),
            distinct_ids(old(self)@) && (forall|x: Marker, m: Marker|
                #[trigger] f.ensures((x,), m) ==> m.id == x.id) ==> distinct_ids(final(self)@),
    {
        proof {
            use_type_invariant(&*self);
        }
        let mut v: Vec<Marker> = Vec::new();
        std::mem::swap(&mut v, &mut self.markers);
        let ghost orig = v@;
        let mut i: usize = 0;
        while i < v.len()
            invariant
                v@ == orig,
                orig == old(self)@,
                is_time_ordered(orig),
                self.next_id == old(self).next_id,
                forall|m: Marker| #[trigger] f.requires((m,)),
                i <= orig.len(),
                forall|k: int| 0 <= k < i ==> #[trigger] orig[k].id != id,
            decreases orig.len() - i,
        {
            if v[i].id == id {
                proof {
                    lemma_index_of_id_prefix(orig, id, i as int);
                }
                let item = v.remove(i);
                let changed = f(item);
                v.insert(i, changed);
                proof {
                    assert(v@ =~= orig.update(i as int, changed));
                }
                let ghost updated = v@;
                sort_markers_by_time(&mut v);
                proof {
                    law_sort_orders_and_permutes(updated);
                    if distinct_ids(orig) && changed.id == orig[i as int].id {
                        law_update_keeps_distinct_ids(orig, i as int, changed);
                    }
                }
                self.markers = v;
                return true;
            }
            i += 1;
        }
        proof {
            lemma_index_of_id_prefix(orig, id, i as int);
        }
        self.markers = v;
        false
    }

    /// Removes every marker with the given id; `false` when there was none.
    pub fn remove(&mut self, id: u32) -> (r: bool)
        ensures
            final(self)@ == old(self)@.filter(|m: Marker| m.id != id),
            r == (final(self)@.len() != old(self)@.len()),
            final(self).next_id_spec() == old(self).next_id_spec(),
            distinct_ids(old(self)@) ==> distinct_ids(final(self)@),
            ids_below(old(self)@, old(self).next_id_spec()) ==> ids_below(
                final(self)@,
                final(self).next_id_spec(),
            ),
    {
        proof {
            use_type_invariant(&*self);
        }
        let mut v: Vec<Marker> = Vec::new();
        std::mem::swap(&mut v, &mut self.markers);
        let ghost orig = v@;
        let ghost keep = |m: Marker| m.id != id;
        let before = v.len();
        let mut i: usize = 0;
        let ghost mut k: int = 0;
        while i < v.len()
            invariant
                0 <= i <= k <= orig.len(),
                orig == old(self)@,
                is_time_ordered(v@),
                v@.take(i as int) == orig.take(k).filter(keep),
                v@.skip(i as int) == orig.skip(k),
                v@.len() - i == orig.len() - k,
                keep == (|m: Marker| m.id != id),
            decreases v@.len() - i,
        {
            let ghost cur = v@;
            proof {
                reveal(Seq::filter);
                assert(orig.take(k + 1).drop_last() =~= orig.take(k));
                assert(orig.take(k + 1).last() == orig[k]);
                assert(cur[i as int] == cur.skip(i as int)[0]);
                assert(orig[k] == orig.skip(k)[0]);
            }
            if v[i].id == id {
                v.remove(i);
                proof {
                    lemma_remove_keeps_ordered(cur, i as int);
                    assert(v@.take(i as int) =~= cur.take(i as int));
                    assert(v@.skip(i as int) =~= cur.skip(i + 1));
                    assert(cur.skip(i + 1) =~= cur.skip(i as int).skip(1));
                    assert(orig.skip(k + 1) =~= orig.skip(k).skip(1));
                    k = k + 1;
                }
            } else {
                proof {
                    assert(v@.take(i + 1) =~= cur.take(i as int).push(cur[i as int]));
                    assert(cur.skip(i + 1) =~= cur.skip(i as int).skip(1));
                    assert(orig.skip(k + 1) =~= orig.skip(k).skip(1));
                    k = k + 1;
                }
                i += 1;
            }
        }
        proof {
            assert(v@ =~= v@.take(i as int));
            assert(orig.take(k) =~= orig);
            if distinct_ids(orig) {
                law_remove_keeps_distinct_ids(orig, id);
            }
            assert forall|j: int| 0 <= j < v@.len() implies #[trigger] v@[j].id < self.next_id
                || !ids_below(orig, self.next_id) by {
                if ids_below(orig, self.next_id) {
                    assert(v@.contains(v@[j]));
                    orig.lemma_filter_contains_rev(keep, v@[j]);
                }
            }
        }
        let changed = v.len() != before;
        self.markers = v;
        changed
    }

    /// The first marker with the given id.
    pub fn get(&self, id: u32) -> (r: Option<&Marker>)
        ensures
            index_of_id(self@, id) < 0 ==> r is None,
            index_of_id(self@, id) >= 0 ==> (r matches Some(m) && *m == self@[index_of_id(self@, id)]),
    {
        let mut i: usize = 0;
        while i < self.markers.len()
            invariant
                i <= self.markers@.len(),
                forall|k: int| 0 <= k < i ==> #[trigger] self.markers@[k].id != id,
            decreases self.markers@.len() - i,
        {
            if self.markers[i].id == id {
                proof {
                    lemma_index_of_id_prefix(self.markers@, id, i as int);
                }
                return Some(&self.markers[i]);
            }
            i += 1;
        }
        proof {
            lemma_index_of_id_prefix(self.markers@, id, i as int);
        }
        None
    }

    /// The next free id (without consuming it).
    pub fn peek_next_id(&self) -> (r: u32)
        ensures
            r == self.next_id_spec(),
    {
        self.next_id
    }

    /// Stable sort of the markers by time (equal times keep their order);
    /// the markers are always in time order, so nothing moves.
    pub fn sort_by_time(&mut self)
        ensures
            final(self)@ == sorted_by_time(old(self)@),
            final(self)@ == old(self)@,
            final(self).next_id_spec() == old(self).next_id_spec(),
    {
        proof {
            use_type_invariant(&*self);
            law_sort_keeps_ordered(self.markers@);
        }
        let mut v: Vec<Marker> = Vec::new();
        std::mem::swap(&mut v, &mut self.markers);
        let ghost orig = v@;
        sort_markers_by_time(&mut v);
        proof {
            law_sort_orders_and_permutes(orig);
        }
        self.markers = v;
    }
}

/// Law: whatever the operations, the markers come back in time order
/// (`markers()` states it on every call); in particular `with_markers`
/// sorts the list it is given.
pub proof fn law_with_markers_sorts(s: Seq<Marker>)
    ensures
        is_time_ordered(sorted_by_time(s)),
        sorted_by_time(s).to_multiset() == s.to_multiset(),
{
    law_sort_orders_and_permutes(s);
}

} // verus!
