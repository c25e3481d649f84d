use vstd::prelude::*;

use crate::json::{entries_model, items_model, lemma_array_model, lemma_object_model, Json, JsonValue};
use crate::order::{
    lemma_text_lt_asymmetric, lemma_text_lt_irreflexive, lemma_text_lt_total, lemma_text_lt_transitive, name_lt, text_lt,
};
use crate::paths::{join_dots, join_path, texts};
use crate::text::{copy_string, same_text};
use crate::tree_diff::DiffTag;

verus! {

// ---------------------------------------------------------------------------
// Tables from a path to a sorted list of paths
// ---------------------------------------------------------------------------

/// A table from dotted paths to lists of dotted paths.
pub type Table = Vec<(String, Vec<String>)>;

/// The model of a table: each key with its list.
pub open spec fn table_model(t: Seq<(String, Vec<String>)>) -> Seq<(Seq<char>, Seq<Seq<char>>)> {
    Seq::new(t.len(), |i: int| (t[i].0@, texts(t[i].1@)))
}

/// Every element comes strictly before the next: sorted, without repeats.
pub open spec fn strictly_sorted(l: Seq<Seq<char>>) -> bool {
    forall|i: int, j: int| 0 <= i < j < l.len() ==> text_lt(#[trigger] l[i], #[trigger] l[j])
}

/// The keys are distinct and every list is non-empty and strictly sorted.
pub open spec fn table_wf(t: Seq<(Seq<char>, Seq<Seq<char>>)>) -> bool {
    &&& forall|i: int, j: int| 0 <= i < j < t.len() ==> (#[trigger] t[i]).0 != (#[trigger] t[j]).0
    &&& forall|i: int| 0 <= i < t.len() ==> strictly_sorted(#[trigger] t[i].1) && t[i].1.len() > 0
}

/// The list stored under `k`.
pub open spec fn table_get(t: Seq<(Seq<char>, Seq<Seq<char>>)>, k: Seq<char>) -> Option<Seq<Seq<char>>>
    decreases t.len(),
{
    if t.len() == 0 {
        None
    } else if t[0].0 == k {
        Some(t[0].1)
    } else {
        table_get(t.drop_first(), k)
    }
}

/// The paths stored under `k`, as a set.
pub open spec fn targets(t: Seq<(Seq<char>, Seq<Seq<char>>)>, k: Seq<char>) -> Set<Seq<char>> {
    match table_get(t, k) {
        Some(l) => l.to_set(),
        None => Set::empty(),
    }
}

pub proof fn lemma_table_get(t: Seq<(Seq<char>, Seq<Seq<char>>)>, k: Seq<char>)
    ensures
        match table_get(t, k) {
            Some(l) => exists|i: int| 0 <= i < t.len() && t[i].0 == k && t[i].1 == l && forall|j: int| 0 <= j < i ==> t[j].0 != k,
            None => forall|i: int| 0 <= i < t.len() ==> t[i].0 != k,
        },
    decreases t.len(),
{
    if t.len() > 0 {
        if t[0].0 == k {
            assert(t[0].0 == k);
        } else {
            lemma_table_get(t.drop_first(), k);
            match table_get(t.drop_first(), k) {
                Some(l) => {
                    let i = choose|i: int|
                        0 <= i < t.drop_first().len() && t.drop_first()[i].0 == k && t.drop_first()[i].1 == l
                            && forall|j: int| 0 <= j < i ==> t.drop_first()[j].0 != k;
                    assert(t[i + 1] == t.drop_first()[i]);
                    assert forall|j: int| 0 <= j < i + 1 implies t[j].0 != k by {
                        if j > 0 {
                            assert(t[j] == t.drop_first()[j - 1]);
                        }
                    }
                },
                None => {
                    assert forall|i: int| 0 <= i < t.len() implies t[i].0 != k by {
                        if i > 0 {
                            assert(t[i] == t.drop_first()[i - 1]);
                        }
                    }
                },
            }
        }
    }
}

/// In a table with distinct keys, the entry at `i` is what its key finds.
pub proof fn lemma_table_get_at(t: Seq<(Seq<char>, Seq<Seq<char>>)>, i: int)
    requires
        table_wf(t),
        0 <= i < t.len(),
    ensures
        table_get(t, t[i].0) == Some(t[i].1),
{
    lemma_table_get(t, t[i].0);
    match table_get(t, t[i].0) {
        Some(l) => {
            let j = choose|j: int|
                0 <= j < t.len() && t[j].0 == t[i].0 && t[j].1 == l && forall|m: int| 0 <= m < j ==> t[m].0 != t[i].0;
            if j < i {
                assert(t[j].0 != t[i].0);
            } else if j > i {
            }
        },
        None => {},
    }
}

fn find_key(t: &Table, k: &String) -> (r: Option<usize>)
    ensures
        match r {
            Some(i) => i < t@.len() && t@[i as int].0@ == k@ && table_get(table_model(t@), k@) == Some(texts(t@[i as int].1@)),
            None => table_get(table_model(t@), k@) is None,
        },
{
    let ghost m = table_model(t@);
    let mut i: usize = 0;
    while i < t.len()
        invariant
            i <= t.len(),
            m == table_model(t@),
            forall|j: int| 0 <= j < i ==> m[j].0 != k@,
        decreases t.len() - i,
    {
        if same_text(&t[i].0, k) {
            proof {
                lemma_table_get(m, k@);
                assert(m[i as int].0 == k@);
                match table_get(m, k@) {
                    Some(l) => {
                        let j = choose|j: int|
                            0 <= j < m.len() && m[j].0 == k@ && m[j].1 == l && forall|q: int| 0 <= q < j ==> m[q].0 != k@;
                        if j < i {
                        } else if j > i {
                        }
                    },
                    None => {},
                }
            }
            return Some(i);
        }
        i += 1;
    }
    proof {
        lemma_table_get(m, k@);
        match table_get(m, k@) {
            Some(l) => {
                let j = choose|j: int|
                    0 <= j < m.len() && m[j].0 == k@ && m[j].1 == l && forall|q: int| 0 <= q < j ==> m[q].0 != k@;
            },
            None => {},
        }
    }
    None
}

/// The list stored under `k` in the table, if any.
pub fn table_lookup<'a>(t: &'a Table, k: &String) -> (r: Option<&'a Vec<String>>)
    ensures
        match r {
            Some(l) => table_get(table_model(t@), k@) == Some(texts(l@)),
            None => table_get(table_model(t@), k@) is None,
        },
{
    match find_key(t, k) {
        Some(i) => Some(&t[i].1),
        None => None,
    }
}

// ---------------------------------------------------------------------------
// Adding one path to a sorted list
// ---------------------------------------------------------------------------

/// Adds `x` to the strictly sorted list `l`, keeping it strictly sorted.
fn insert_sorted(l: &mut Vec<String>, x: &String)
    requires
        strictly_sorted(texts(old(l)@)),
    ensures
        strictly_sorted(texts(final(l)@)),
        texts(final(l)@).to_set() == texts(old(l)@).to_set().insert(x@),
        final(l)@.len() > 0,
{
    let ghost s = texts(l@);
    let mut j: usize = 0;
    while j < l.len() && name_lt(&l[j], x)
        invariant
            j <= l@.len(),
            s == texts(l@),
            strictly_sorted(s),
            forall|k: int| 0 <= k < j ==> text_lt(s[k], x@),
        decreases l.len() - j,
    {
        j += 1;
    }
    if j < l.len() && same_text(&l[j], x) {
        proof {
            assert(s[j as int] == x@);
            assert(s.to_set().insert(x@) =~= s.to_set());
        }
        return;
    }
    let c = copy_string(x);
    l.insert(j, c);
    proof {
        let u = texts(l@);
        assert(u =~= s.insert(j as int, x@));
        if j < s.len() {
            assert(!text_lt(s[j as int], x@));
            assert(s[j as int] != x@);
            lemma_text_lt_total(s[j as int], x@);
        }
        assert forall|a: int, b: int| 0 <= a < b < u.len() implies text_lt(#[trigger] u[a], #[trigger] u[b]) by {
            if b < j {
                assert(u[a] == s[a] && u[b] == s[b]);
            } else if b == j {
                assert(u[a] == s[a]);
            } else if a < j {
                assert(u[a] == s[a] && u[b] == s[b - 1]);
                if a + 1 < b {
                    assert(text_lt(s[a], x@));
                    assert(text_lt(x@, s[j as int]));
                    lemma_text_lt_transitive(s[a], x@, s[j as int]);
                    if j < b - 1 {
                        lemma_text_lt_transitive(s[a], s[j as int], s[b - 1]);
                    }
                } else {
                    lemma_text_lt_transitive(s[a], x@, s[j as int]);
                }
            } else if a == j {
                assert(u[b] == s[b - 1]);
                if b - 1 > j {
                    lemma_text_lt_transitive(x@, s[j as int], s[b - 1]);
                }
            } else {
                assert(u[a] == s[a - 1] && u[b] == s[b - 1]);
            }
        }
        assert(u.to_set() =~= s.to_set().insert(x@)) by {
            assert forall|y: Seq<char>| u.to_set().contains(y) implies s.to_set().insert(x@).contains(y) by {
                let k = choose|k: int| 0 <= k < u.len() && u[k] == y;
                if k < j {
                    assert(s[k] == y);
                } else if k > j {
                    assert(s[k - 1] == y);
                }
            }
            assert forall|y: Seq<char>| s.to_set().insert(x@).contains(y) implies u.to_set().contains(y) by {
                if y == x@ {
                    assert(u[j as int] == y);
                } else {
                    let k = choose|k: int| 0 <= k < s.len() && s[k] == y;
                    if k < j {
                        assert(u[k] == y);
                    } else {
                        assert(u[k + 1] == y);
                    }
                }
            }
        }
    }
}

// ---------------------------------------------------------------------------
// Adding one edge to a table
// ---------------------------------------------------------------------------

/// Adds `v` to the list stored under `k`, creating the list if needed.
fn table_add(t: &mut Table, k: &String, v: &String)
    requires
        table_wf(table_model(old(t)@)),
    ensures
        table_wf(table_model(final(t)@)),
        forall|key: Seq<char>|
            (#[trigger] table_get(table_model(final(t)@), key)) is Some <==> (table_get(
                table_model(old(t)@),
                key,
            ) is Some || key == k@),
        forall|key: Seq<char>|
            #[trigger] targets(table_model(final(t)@), key) == if key == k@ {
                targets(table_model(old(t)@), key).insert(v@)
            } else {
                targets(table_model(old(t)@), key)
            },
{
    let ghost m0 = table_model(t@);
    match find_key(t, k) {
        Some(i) => {
            let mut entry = t.remove(i);
            proof {
                assert(texts(entry.1@) == m0[i as int].1);
            }
            insert_sorted(&mut entry.1, v);
            t.insert(i, entry);
            proof {
                let m1 = table_model(t@);
                assert(m1 =~= m0.update(i as int, (k@, m1[i as int].1)));
                assert forall|key: Seq<char>| #[trigger] table_get(m1, key) == if key == k@ {
                    Some(m1[i as int].1)
                } else {
                    table_get(m0, key)
                } by {
                    lemma_table_get(m0, key);
                    lemma_table_get(m1, key);
                    lemma_table_get_at(m0, i as int);
                    if key == k@ {
                        lemma_table_get_at(m1, i as int);
                    } else {
                        match table_get(m0, key) {
                            Some(l) => {
                                let j = choose|j: int|
                                    0 <= j < m0.len() && m0[j].0 == key && m0[j].1 == l && forall|q: int| 0 <= q < j ==> m0[q].0 != key;
                                assert(m1[j] == m0[j]);
                                lemma_table_get_at(m1, j);
                            },
                            None => {
                                assert forall|q: int| 0 <= q < m1.len() implies m1[q].0 != key by {
                                    assert(m1[q].0 == m0[q].0);
                                }
                            },
                        }
                    }
                }
            }
        },
        None => {
            let mut l: Vec<String> = Vec::new();
            l.push(copy_string(v));
            t.push((copy_string(k), l));
            proof {
                let m1 = table_model(t@);
                assert(texts(t@[m0.len() as int].1@) =~= seq![v@]);
                assert(m1 =~= m0.push((k@, seq![v@])));
                assert(strictly_sorted(seq![v@]));
                assert forall|y: Seq<char>| seq![v@].to_set().contains(y) <==> y == v@ by {
                    if y == v@ {
                        assert(seq![v@][0] == y);
                    }
                }
                assert(seq![v@].to_set() =~= Set::<Seq<char>>::empty().insert(v@));
                lemma_table_get(m0, k@);
                assert forall|key: Seq<char>| #[trigger] table_get(m1, key) == if key == k@ {
                    Some(seq![v@])
                } else {
                    table_get(m0, key)
                } by {
                    lemma_table_get(m0, key);
                    lemma_table_get(m1, key);
                    if key == k@ {
                        lemma_table_get_at(m1, m0.len() as int);
                    } else {
                        match table_get(m0, key) {
                            Some(l) => {
                                let j = choose|j: int|
                                    0 <= j < m0.len() && m0[j].0 == key && m0[j].1 == l && forall|q: int| 0 <= q < j ==> m0[q].0 != key;
                                assert(m1[j] == m0[j]);
                                lemma_table_get_at(m1, j);
                            },
                            None => {
                                assert forall|q: int| 0 <= q < m1.len() implies m1[q].0 != key by {
                                    if q < m0.len() {
                                        assert(m1[q] == m0[q]);
                                    }
                                }
                            },
                        }
                    }
                }
            }
        },
    }
}

// ---------------------------------------------------------------------------
// The dependency index
// ---------------------------------------------------------------------------

/// Which option reads which: for each dotted path, the paths it reads
/// (`dependencies`) and the paths that read it (`dependents`).
pub struct DepsIndex {
    pub dependencies: Table,
    pub dependents: Table,
}

impl DepsIndex {
    /// Both tables have distinct keys and sorted, repeat-free lists.
    pub open spec fn wf(&self) -> bool {
        table_wf(table_model(self.dependencies@)) && table_wf(table_model(self.dependents@))
    }

    pub open spec fn deps_of(&self, k: Seq<char>) -> Set<Seq<char>> {
        targets(table_model(self.dependencies@), k)
    }

    pub open spec fn revs_of(&self, k: Seq<char>) -> Set<Seq<char>> {
        targets(table_model(self.dependents@), k)
    }

    /// An index with no edges.
    pub fn new() -> (r: DepsIndex)
        ensures
            r.wf(),
            table_model(r.dependencies@).len() == 0,
            table_model(r.dependents@).len() == 0,
    {
        DepsIndex { dependencies: Vec::new(), dependents: Vec::new() }
    }

    /// The paths that `path` reads, if it reads any.
    pub fn dependencies_of(&self, path: &String) -> (r: Option<&Vec<String>>)
        ensures
            match r {
                Some(l) => table_get(table_model(self.dependencies@), path@) == Some(texts(l@)),
                None => table_get(table_model(self.dependencies@), path@) is None,
            },
    {
        table_lookup(&self.dependencies, path)
    }

    /// The paths that read `path`, if any does.
    pub fn dependents_of(&self, path: &String) -> (r: Option<&Vec<String>>)
        ensures
            match r {
                Some(l) => table_get(table_model(self.dependents@), path@) == Some(texts(l@)),
                None => table_get(table_model(self.dependents@), path@) is None,
            },
    {
        table_lookup(&self.dependents, path)
    }

    /// Records that `from` reads `to`.
    pub fn add_edge(&mut self, from: &String, to: &String)
        requires
            old(self).wf(),
        ensures
            final(self).wf(),
            forall|k: Seq<char>|
                #[trigger] final(self).deps_of(k) == if k == from@ {
                    old(self).deps_of(k).insert(to@)
                } else {
                    old(self).deps_of(k)
                },
            forall|k: Seq<char>|
                #[trigger] final(self).revs_of(k) == if k == to@ {
                    old(self).revs_of(k).insert(from@)
                } else {
                    old(self).revs_of(k)
                },
            forall|k: Seq<char>|
                (#[trigger] table_get(table_model(final(self).dependencies@), k)) is Some <==> (
                table_get(table_model(old(self).dependencies@), k) is Some || k == from@),
            forall|k: Seq<char>|
                (#[trigger] table_get(table_model(final(self).dependents@), k)) is Some <==> (
                table_get(table_model(old(self).dependents@), k) is Some || k == to@),
    {
        table_add(&mut self.dependencies, from, to);
        table_add(&mut self.dependents, to, from);
    }
}

// ---------------------------------------------------------------------------
// Reading the index from the dependency listing
// ---------------------------------------------------------------------------

/// The value of the first entry named `key`.
pub open spec fn field(entries: Seq<(Seq<char>, Json)>, key: Seq<char>) -> Option<Json>
    decreases entries.len(),
{
    if entries.len() == 0 {
        None
    } else if entries[0].0 == key {
        Some(entries[0].1)
    } else {
        field(entries.drop_first(), key)
    }
}

/// The strings among `items`, in order; other values are skipped.
pub open spec fn string_items(items: Seq<Json>) -> Seq<Seq<char>>
    decreases items.len(),
{
    if items.len() == 0 {
        seq![]
    } else {
        let rest = string_items(items.drop_last());
        match items.last() {
            Json::Str(s) => rest.push(s),
            _ => rest,
        }
    }
}

/// The dotted path held in a field that is a list of strings.
pub open spec fn path_field(entries: Seq<(Seq<char>, Json)>, key: Seq<char>) -> Option<Seq<char>> {
    match field(entries, key) {
        Some(Json::Array(items)) => Some(join_dots(string_items(items))),
        _ => None,
    }
}

/// The edge recorded by one entry of the listing: `accessor` reads
/// `accessed`, when both fields are lists.
pub open spec fn edge_of(entry: Json) -> Option<(Seq<char>, Seq<char>)> {
    match entry {
        Json::Object(m) => match (path_field(m, "accessor"@), path_field(m, "accessed"@)) {
            (Some(a), Some(b)) => Some((a, b)),
            _ => None,
        },
        _ => None,
    }
}

/// The edges of a listing of entries, in order.
pub open spec fn edges_of(entries: Seq<Json>) -> Seq<(Seq<char>, Seq<char>)>
    decreases entries.len(),
{
    if entries.len() == 0 {
        seq![]
    } else {
        let rest = edges_of(entries.drop_last());
        match edge_of(entries.last()) {
            Some(e) => rest.push(e),
            None => rest,
        }
    }
}

/// The edges of the dependency listing: a list of entries; anything else has none.
pub open spec fn dep_edges(v: Json) -> Seq<(Seq<char>, Seq<char>)> {
    match v {
        Json::Array(entries) => edges_of(entries),
        _ => seq![],
    }
}

/// The index holds exactly the edges `e`: each path maps to the set of
/// paths it reads and to the set of paths that read it, and has a list
/// exactly when that set is non-empty.
pub open spec fn indexes(d: DepsIndex, e: Seq<(Seq<char>, Seq<char>)>) -> bool {
    &&& d.wf()
    &&& forall|k: Seq<char>|
        #[trigger] d.deps_of(k) == Set::new(|b: Seq<char>| e.contains((k, b)))
    &&& forall|k: Seq<char>|
        #[trigger] d.revs_of(k) == Set::new(|a: Seq<char>| e.contains((a, k)))
    &&& forall|k: Seq<char>|
        (#[trigger] table_get(table_model(d.dependencies@), k)) is Some <==> exists|b: Seq<char>|
            e.contains((k, b))
    &&& forall|k: Seq<char>|
        (#[trigger] table_get(table_model(d.dependents@), k)) is Some <==> exists|a: Seq<char>|
            e.contains((a, k))
}

fn field_of<'a>(entries: &'a Vec<(String, JsonValue)>, key: &String) -> (r: Option<&'a JsonValue>)
    ensures
        match r {
            Some(v) => field(entries_model(entries@), key@) == Some(v.model()),
            None => field(entries_model(entries@), key@) is None,
        },
{
    let ghost m = entries_model(entries@);
    let mut i: usize = 0;
    proof {
        assert(m.skip(0) =~= m);
    }
    while i < entries.len()
        invariant
            i <= entries.len(),
            m == entries_model(entries@),
            field(m, key@) == field(m.skip(i as int), key@),
        decreases entries.len() - i,
    {
        proof {
            assert(m.skip(i as int)[0] == m[i as int]);
            assert(m.skip(i as int).drop_first() =~= m.skip(i + 1));
        }
        if same_text(&entries[i].0, key) {
            return Some(&entries[i].1);
        }
        i += 1;
    }
    None
}

fn string_items_of(items: &Vec<JsonValue>) -> (out: Vec<String>)
    ensures
        texts(out@) == string_items(items_model(items@)),
{
    let ghost m = items_model(items@);
    let mut out: Vec<String> = Vec::new();
    let mut i: usize = 0;
    while i < items.len()
        invariant
            i <= items.len(),
            m == items_model(items@),
            texts(out@) == string_items(m.take(i as int)),
        decreases items.len() - i,
    {
        proof {
            assert(m.take(i + 1).drop_last() =~= m.take(i as int));
            assert(m.take(i + 1).last() == items@[i as int].model());
        }
        match &items[i] {
            JsonValue::Str(s) => {
                out.push(copy_string(s));
                proof {
                    assert(texts(out@) =~= string_items(m.take(i + 1)));
                }
            },
            _ => {},
        }
        i += 1;
    }
    proof {
        assert(m.take(items.len() as int) =~= m);
    }
    out
}

fn path_field_of(entries: &Vec<(String, JsonValue)>, key: &String) -> (r: Option<String>)
    ensures
        match r {
            Some(p) => path_field(entries_model(entries@), key@) == Some(p@),
            None => path_field(entries_model(entries@), key@) is None,
        },
{
    match field_of(entries, key) {
        Some(JsonValue::Array(items)) => {
            proof {
                lemma_array_model(items);
            }
            let segs = string_items_of(items);
            Some(join_path(&segs))
        },
        _ => None,
    }
}

fn edge_of_entry(entry: &JsonValue) -> (r: Option<(String, String)>)
    ensures
        match r {
            Some(e) => edge_of(entry.model()) == Some((e.0@, e.1@)),
            None => edge_of(entry.model()) is None,
        },
{
    match entry {
        JsonValue::Object(m) => {
            proof {
                lemma_object_model(m);
            }
            let accessor = path_field_of(m, &String::from_str("accessor"));
            let accessed = path_field_of(m, &String::from_str("accessed"));
            match (accessor, accessed) {
                (Some(a), Some(b)) => Some((a, b)),
                _ => None,
            }
        },
        _ => None,
    }
}

/// Build the dependency index from the listing of which option reads which.
pub fn build_deps_index(deps_json: &JsonValue) -> (d: DepsIndex)
    ensures
        indexes(d, dep_edges(deps_json.model())),
{
    let mut d = DepsIndex::new();
    let ghost mut seen: Seq<(Seq<char>, Seq<char>)> = seq![];
    match deps_json {
        JsonValue::Array(entries) => {
            proof {
                lemma_array_model(entries);
            }
            let ghost m = items_model(entries@);
            let mut i: usize = 0;
            proof {
                lemma_indexes_empty(d);
                assert(m.take(0) =~= Seq::<Json>::empty());
            }
            while i < entries.len()
                invariant
                    i <= entries.len(),
                    m == items_model(entries@),
                    seen == edges_of(m.take(i as int)),
                    indexes(d, seen),
                decreases entries.len() - i,
            {
                proof {
                    assert(m.take(i + 1).drop_last() =~= m.take(i as int));
                    assert(m.take(i + 1).last() == entries@[i as int].model());
                }
                match edge_of_entry(&entries[i]) {
                    Some(e) => {
                        let ghost before = d;
                        d.add_edge(&e.0, &e.1);
                        proof {
                            let s2 = seen.push((e.0@, e.1@));
                            lemma_indexes_push(before, d, seen, e.0@, e.1@);
                            seen = s2;
                        }
                    },
                    None => {},
                }
                i += 1;
            }
            proof {
                assert(m.take(entries.len() as int) =~= m);
            }
        },
        _ => {
            proof {
                lemma_indexes_empty(d);
            }
        },
    }
    d
}

proof fn lemma_indexes_empty(d: DepsIndex)
    requires
        d.wf(),
        table_model(d.dependencies@).len() == 0,
        table_model(d.dependents@).len() == 0,
    ensures
        indexes(d, seq![]),
{
    assert forall|k: Seq<char>| #[trigger] d.deps_of(k) == Set::new(|b: Seq<char>| seq![].contains((k, b))) by {
        assert(Set::new(|b: Seq<char>| Seq::<(Seq<char>, Seq<char>)>::empty().contains((k, b))) =~= Set::empty());
    }
    assert forall|k: Seq<char>| #[trigger] d.revs_of(k) == Set::new(|a: Seq<char>| seq![].contains((a, k))) by {
        assert(Set::new(|a: Seq<char>| Seq::<(Seq<char>, Seq<char>)>::empty().contains((a, k))) =~= Set::empty());
    }
}

proof fn lemma_indexes_push(before: DepsIndex, after: DepsIndex, e: Seq<(Seq<char>, Seq<char>)>, a: Seq<char>, b: Seq<char>)
    requires
        indexes(before, e),
        after.wf(),
        forall|k: Seq<char>|
            #[trigger] after.deps_of(k) == if k == a {
                before.deps_of(k).insert(b)
            } else {
                before.deps_of(k)
            },
        forall|k: Seq<char>|
            #[trigger] after.revs_of(k) == if k == b {
                before.revs_of(k).insert(a)
            } else {
                before.revs_of(k)
            },
        forall|k: Seq<char>|
            (#[trigger] table_get(table_model(after.dependencies@), k)) is Some <==> (table_get(
                table_model(before.dependencies@),
                k,
            ) is Some || k == a),
        forall|k: Seq<char>|
            (#[trigger] table_get(table_model(after.dependents@), k)) is Some <==> (table_get(
                table_model(before.dependents@),
                k,
            ) is Some || k == b),
    ensures
        indexes(after, e.push((a, b))),
{
    let e2 = e.push((a, b));
    assert forall|p: (Seq<char>, Seq<char>)| #[trigger] e2.contains(p) <==> (e.contains(p) || p == (a, b)) by {
        if e2.contains(p) {
            let i = choose|i: int| 0 <= i < e2.len() && e2[i] == p;
            if i < e.len() {
                assert(e[i] == p);
            }
        }
        if e.contains(p) {
            let i = choose|i: int| 0 <= i < e.len() && e[i] == p;
            assert(e2[i] == p);
        }
        if p == (a, b) {
            assert(e2[e.len() as int] == p);
        }
    }
    assert forall|k: Seq<char>| #[trigger] after.deps_of(k) == Set::new(|x: Seq<char>| e2.contains((k, x))) by {
        assert(before.deps_of(k) == Set::new(|x: Seq<char>| e.contains((k, x))));
        assert(after.deps_of(k) =~= Set::new(|x: Seq<char>| e2.contains((k, x))));
    }
    assert forall|k: Seq<char>| #[trigger] after.revs_of(k) == Set::new(|x: Seq<char>| e2.contains((x, k))) by {
        assert(before.revs_of(k) == Set::new(|x: Seq<char>| e.contains((x, k))));
        assert(after.revs_of(k) =~= Set::new(|x: Seq<char>| e2.contains((x, k))));
    }
    assert forall|k: Seq<char>|
        (#[trigger] table_get(table_model(after.dependencies@), k)) is Some <==> exists|x: Seq<char>|
            e2.contains((k, x)) by {
        if table_get(table_model(before.dependencies@), k) is Some {
            let x = choose|x: Seq<char>| e.contains((k, x));
            assert(e2.contains((k, x)));
        }
        if k == a {
            assert(e2.contains((k, b)));
        }
        if exists|x: Seq<char>| e2.contains((k, x)) {
            let x = choose|x: Seq<char>| e2.contains((k, x));
            if e.contains((k, x)) {
                assert(table_get(table_model(before.dependencies@), k) is Some);
            }
        }
    }
    assert forall|k: Seq<char>|
        (#[trigger] table_get(table_model(after.dependents@), k)) is Some <==> exists|x: Seq<char>|
            e2.contains((x, k)) by {
        if table_get(table_model(before.dependents@), k) is Some {
            let x = choose|x: Seq<char>| e.contains((x, k));
            assert(e2.contains((x, k)));
        }
        if k == b {
            assert(e2.contains((a, k)));
        }
        if exists|x: Seq<char>| e2.contains((x, k)) {
            let x = choose|x: Seq<char>| e2.contains((x, k));
            if e.contains((x, k)) {
                assert(table_get(table_model(before.dependents@), k) is Some);
            }
        }
    }
}

// ---------------------------------------------------------------------------
// Merging and comparing indices
// ---------------------------------------------------------------------------

pub proof fn lemma_table_get_push(t: Seq<(Seq<char>, Seq<Seq<char>>)>, x: (Seq<char>, Seq<Seq<char>>), k: Seq<char>)
    ensures
        table_get(t.push(x), k) == match table_get(t, k) {
            Some(l) => Some(l),
            None => if x.0 == k {
                Some(x.1)
            } else {
                None
            },
        },
    decreases t.len(),
{
    if t.len() > 0 {
        assert(t.push(x)[0] == t[0]);
        assert(t.push(x).drop_first() =~= t.drop_first().push(x));
        lemma_table_get_push(t.drop_first(), x, k);
    } else {
        assert(t.push(x)[0] == x);
        assert(t.push(x).drop_first() =~= t);
    }
}

/// Adds every edge of `other` to `t`.
fn table_merge(t: &mut Table, other: &Table)
    requires
        table_wf(table_model(old(t)@)),
        table_wf(table_model(other@)),
    ensures
        table_wf(table_model(final(t)@)),
        forall|key: Seq<char>|
            #[trigger] targets(table_model(final(t)@), key) == targets(table_model(old(t)@), key).union(
                targets(table_model(other@), key),
            ),
        forall|key: Seq<char>|
            (#[trigger] table_get(table_model(final(t)@), key)) is Some <==> (table_get(
                table_model(old(t)@),
                key,
            ) is Some || table_get(table_model(other@), key) is Some),
{
    let ghost t0 = table_model(t@);
    let ghost om = table_model(other@);
    let mut i: usize = 0;
    proof {
        assert(om.take(0) =~= Seq::<(Seq<char>, Seq<Seq<char>>)>::empty());
        assert forall|key: Seq<char>| #[trigger] targets(table_model(t@), key) == targets(t0, key).union(
            targets(om.take(0), key),
        ) by {
            assert(targets(t0, key).union(Set::empty()) =~= targets(t0, key));
        }
    }
    while i < other.len()
        invariant
            i <= other.len(),
            om == table_model(other@),
            table_wf(om),
            table_wf(table_model(t@)),
            forall|key: Seq<char>|
                #[trigger] targets(table_model(t@), key) == targets(t0, key).union(targets(om.take(i as int), key)),
            forall|key: Seq<char>|
                (#[trigger] table_get(table_model(t@), key)) is Some <==> (table_get(t0, key) is Some
                    || table_get(om.take(i as int), key) is Some),
        decreases other.len() - i,
    {
        let k = &other[i].0;
        let list = &other[i].1;
        let ghost before = table_model(t@);
        proof {
            assert(om[i as int].1.len() > 0);
            assert(texts(list@) == om[i as int].1);
        }
        let mut j: usize = 0;
        while j < list.len()
            invariant
                i < other.len(),
                j <= list.len(),
                k == &other@[i as int].0,
                list == &other@[i as int].1,
                table_wf(table_model(t@)),
                forall|key: Seq<char>|
                    #[trigger] targets(table_model(t@), key) == if key == k@ {
                        targets(before, key).union(texts(list@).take(j as int).to_set())
                    } else {
                        targets(before, key)
                    },
                forall|key: Seq<char>|
                    (#[trigger] table_get(table_model(t@), key)) is Some <==> (table_get(before, key) is Some || (
                    key == k@ && j > 0)),
            decreases list.len() - j,
        {
            let ghost mid = table_model(t@);
            table_add(t, k, &list[j]);
            proof {
                let tl = texts(list@);
                assert(tl.take(j + 1) =~= tl.take(j as int).push(list@[j as int]@));
                let tj1 = tl.take(j + 1);
                let tj = tl.take(j as int);
                let x = list@[j as int]@;
                assert forall|y: Seq<char>| tj1.to_set().contains(y) <==> tj.to_set().insert(x).contains(y) by {
                    if tj1.to_set().contains(y) {
                        let q = choose|q: int| 0 <= q < tj1.len() && #[trigger] tj1[q] == y;
                        if q < j {
                            assert(tj[q] == y);
                        }
                    }
                    if tj.to_set().contains(y) {
                        let q = choose|q: int| 0 <= q < tj.len() && #[trigger] tj[q] == y;
                        assert(tj1[q] == y);
                    }
                    if y == x {
                        assert(tj1[j as int] == y);
                    }
                }
                assert(tj1.to_set() =~= tj.to_set().insert(x));
                assert forall|key: Seq<char>| #[trigger] targets(table_model(t@), key) == if key == k@ {
                    targets(before, key).union(tl.take(j + 1).to_set())
                } else {
                    targets(before, key)
                } by {
                    if key == k@ {
                        assert(targets(mid, key).insert(list@[j as int]@) =~= targets(before, key).union(
                            tl.take(j + 1).to_set(),
                        ));
                    }
                }
            }
            j += 1;
        }
        proof {
            let tl = texts(list@);
            assert(tl.take(list.len() as int) =~= tl);
            assert(om.take(i + 1) =~= om.take(i as int).push(om[i as int]));
            assert forall|key: Seq<char>| #[trigger] table_get(om.take(i + 1), key) == match table_get(om.take(i as int), key) {
                Some(l) => Some(l),
                None => if om[i as int].0 == key {
                    Some(om[i as int].1)
                } else {
                    None
                },
            } by {
                lemma_table_get_push(om.take(i as int), om[i as int], key);
            }
            assert forall|key: Seq<char>|
                #[trigger] targets(table_model(t@), key) == targets(t0, key).union(targets(om.take(i + 1), key)) by {
                lemma_table_get(om.take(i as int), key);
                if key == k@ {
                    // The keys of `other` are distinct, so `k` is not among the first `i`.
                    assert(table_get(om.take(i as int), key) is None) by {
                        if table_get(om.take(i as int), key) is Some {
                            let q = choose|q: int|
                                0 <= q < om.take(i as int).len() && om.take(i as int)[q].0 == key && om.take(i as int)[q].1
                                    == table_get(om.take(i as int), key)->0 && forall|r: int|
                                    0 <= r < q ==> om.take(i as int)[r].0 != key;
                            assert(om[q].0 == om[i as int].0);
                        }
                    }
                    assert(targets(om.take(i + 1), key) == tl.to_set());
                    assert(targets(table_model(t@), key) =~= targets(t0, key).union(targets(om.take(i + 1), key)));
                } else {
                    assert(targets(om.take(i + 1), key) == targets(om.take(i as int), key));
                }
            }
        }
        i += 1;
    }
    proof {
        assert(om.take(other.len() as int) =~= om);
    }
}

/// `r` holds the edges of `a` and of `b`: it is well formed, each path's
/// lists are the union of its lists in `a` and `b`, and a path has a list
/// in `r` exactly when it has one in `a` or in `b`.
pub open spec fn merged(a: DepsIndex, b: DepsIndex, r: DepsIndex) -> bool {
    &&& r.wf()
    &&& forall|k: Seq<char>| #[trigger] r.deps_of(k) == a.deps_of(k).union(b.deps_of(k))
    &&& forall|k: Seq<char>| #[trigger] r.revs_of(k) == a.revs_of(k).union(b.revs_of(k))
    &&& forall|k: Seq<char>|
        (#[trigger] table_get(table_model(r.dependencies@), k)) is Some <==> (table_get(table_model(a.dependencies@), k)
            is Some || table_get(table_model(b.dependencies@), k) is Some)
    &&& forall|k: Seq<char>|
        (#[trigger] table_get(table_model(r.dependents@), k)) is Some <==> (table_get(table_model(a.dependents@), k)
            is Some || table_get(table_model(b.dependents@), k) is Some)
}

/// Merge two dependency indices by uniting all their edges.
pub fn merge_deps_indices(a: DepsIndex, b: DepsIndex) -> (r: DepsIndex)
    requires
        a.wf(),
        b.wf(),
    ensures
        merged(a, b, r),
{
    let mut dependencies = a.dependencies;
    let mut dependents = a.dependents;
    table_merge(&mut dependencies, &b.dependencies);
    table_merge(&mut dependents, &b.dependents);
    DepsIndex { dependencies, dependents }
}

/// Whether two lists hold the same strings in the same order.
pub fn strings_equal(a: &Vec<String>, b: &Vec<String>) -> (r: bool)
    ensures
        r == (texts(a@) == texts(b@)),
{
    if a.len() != b.len() {
        proof {
            assert(texts(a@).len() != texts(b@).len());
        }
        return false;
    }
    let mut i: usize = 0;
    while i < a.len()
        invariant
            i <= a.len(),
            a.len() == b.len(),
            forall|k: int| 0 <= k < i ==> a@[k]@ == b@[k]@,
        decreases a.len() - i,
    {
        if !same_text(&a[i], &b[i]) {
            proof {
                assert(texts(a@)[i as int] != texts(b@)[i as int]);
            }
            return false;
        }
        i += 1;
    }
    proof {
        assert(texts(a@) =~= texts(b@));
    }
    true
}

fn same_list(a: Option<&Vec<String>>, b: Option<&Vec<String>>) -> (r: bool)
    ensures
        r == (match a {
            Some(x) => Some(texts(x@)),
            None => None,
        } == match b {
            Some(y) => Some(texts(y@)),
            None => None,
        }),
{
    match (a, b) {
        (None, None) => true,
        (Some(x), Some(y)) => strings_equal(x, y),
        _ => false,
    }
}

/// Whether a path has the same dependencies and dependents in both indices.
pub fn deps_match(old_deps: &DepsIndex, new_deps: &DepsIndex, path: &str) -> (r: bool)
    ensures
        r == (table_get(table_model(old_deps.dependencies@), path@) == table_get(
            table_model(new_deps.dependencies@),
            path@,
        ) && table_get(table_model(old_deps.dependents@), path@) == table_get(
            table_model(new_deps.dependents@),
            path@,
        )),
{
    let p = String::from_str(path);
    let old_d = old_deps.dependencies_of(&p);
    let new_d = new_deps.dependencies_of(&p);
    let old_r = old_deps.dependents_of(&p);
    let new_r = new_deps.dependents_of(&p);
    same_list(old_d, new_d) && same_list(old_r, new_r)
}

/// Whether `x` is one of the strings of `l`.
pub fn list_contains(l: &Vec<String>, x: &String) -> (r: bool)
    ensures
        r == texts(l@).contains(x@),
{
    let mut i: usize = 0;
    while i < l.len()
        invariant
            i <= l.len(),
            forall|k: int| 0 <= k < i ==> l@[k]@ != x@,
        decreases l.len() - i,
    {
        if same_text(&l[i], x) {
            proof {
                assert(texts(l@)[i as int] == x@);
            }
            return true;
        }
        i += 1;
    }
    proof {
        if texts(l@).contains(x@) {
            let k = choose|k: int| 0 <= k < texts(l@).len() && texts(l@)[k] == x@;
            assert(l@[k]@ == x@);
        }
    }
    false
}

/// Whether `x` is in the optional list.
pub open spec fn in_list(l: Option<Seq<Seq<char>>>, x: Seq<char>) -> bool {
    match l {
        Some(s) => s.contains(x),
        None => false,
    }
}

/// The tag of a dependency: removed if only the old list has it, added if
/// only the new one does, unchanged otherwise.
pub open spec fn dep_tag(in_old: bool, in_new: bool) -> DiffTag {
    if in_old && !in_new {
        DiffTag::Removed
    } else if !in_old && in_new {
        DiffTag::Added
    } else {
        DiffTag::Unchanged
    }
}

pub open spec fn opt_texts(l: Option<&Vec<String>>) -> Option<Seq<Seq<char>>> {
    match l {
        Some(v) => Some(texts(v@)),
        None => None,
    }
}

fn opt_contains(l: Option<&Vec<String>>, x: &String) -> (r: bool)
    ensures
        r == in_list(opt_texts(l), x@),
{
    match l {
        Some(v) => list_contains(v, x),
        None => false,
    }
}

/// Compute per-dep diff tags by comparing old and new dep lists.
pub fn compute_dep_diff_tags(items: &Vec<String>, old_items: Option<&Vec<String>>, new_items: Option<&Vec<String>>) -> (tags: Vec<DiffTag>)
    ensures
        tags@.len() == items@.len(),
        forall|i: int|
            0 <= i < items@.len() ==> #[trigger] tags@[i] == dep_tag(
                in_list(opt_texts(old_items), items@[i]@),
                in_list(opt_texts(new_items), items@[i]@),
            ),
{
    let mut tags: Vec<DiffTag> = Vec::new();
    let mut i: usize = 0;
    while i < items.len()
        invariant
            i <= items.len(),
            tags@.len() == i,
            forall|k: int|
                0 <= k < i ==> #[trigger] tags@[k] == dep_tag(
                    in_list(opt_texts(old_items), items@[k]@),
                    in_list(opt_texts(new_items), items@[k]@),
                ),
        decreases items.len() - i,
    {
        let in_old = opt_contains(old_items, &items[i]);
        let in_new = opt_contains(new_items, &items[i]);
        let tag = if in_old && !in_new {
            DiffTag::Removed
        } else if !in_old && in_new {
            DiffTag::Added
        } else {
            DiffTag::Unchanged
        };
        tags.push(tag);
        i += 1;
    }
    tags
}

/// The two tables agree: `a` reads `b` exactly when `a` is among the
/// paths that read `b`.
pub proof fn lemma_index_symmetric(d: DepsIndex, e: Seq<(Seq<char>, Seq<char>)>, a: Seq<char>, b: Seq<char>)
    requires
        indexes(d, e),
    ensures
        d.deps_of(a).contains(b) <==> d.revs_of(b).contains(a),
        d.deps_of(a).contains(b) <==> e.contains((a, b)),
{
    assert(d.deps_of(a) == Set::new(|x: Seq<char>| e.contains((a, x))));
    assert(d.revs_of(b) == Set::new(|y: Seq<char>| e.contains((y, b))));
}

/// Merging keeps the tables in agreement.
pub proof fn lemma_merge_symmetric(a: DepsIndex, b: DepsIndex, r: DepsIndex, x: Seq<char>, y: Seq<char>)
    requires
        forall|p: Seq<char>, q: Seq<char>| a.deps_of(p).contains(q) <==> a.revs_of(q).contains(p),
        forall|p: Seq<char>, q: Seq<char>| b.deps_of(p).contains(q) <==> b.revs_of(q).contains(p),
        forall|k: Seq<char>| #[trigger] r.deps_of(k) == a.deps_of(k).union(b.deps_of(k)),
        forall|k: Seq<char>| #[trigger] r.revs_of(k) == a.revs_of(k).union(b.revs_of(k)),
    ensures
        r.deps_of(x).contains(y) <==> r.revs_of(y).contains(x),
{
    assert(r.deps_of(x) == a.deps_of(x).union(b.deps_of(x)));
    assert(r.revs_of(y) == a.revs_of(y).union(b.revs_of(y)));
    assert(a.deps_of(x).contains(y) <==> a.revs_of(y).contains(x));
    assert(b.deps_of(x).contains(y) <==> b.revs_of(y).contains(x));
}

/// Two strictly sorted lists that hold the same paths are the same list.
pub proof fn lemma_sorted_unique(l1: Seq<Seq<char>>, l2: Seq<Seq<char>>)
    requires
        strictly_sorted(l1),
        strictly_sorted(l2),
        l1.to_set() == l2.to_set(),
    ensures
        l1 == l2,
    decreases l1.len(),
{
    if l1.len() == 0 {
        if l2.len() > 0 {
            assert(l2.to_set().contains(l2[0]));
        }
        assert(l2.len() == 0);
        assert(l1 =~= l2);
    } else {
        assert(l1.to_set().contains(l1[0]));
        assert(l2.len() > 0);
        let x = l1[0];
        let y = l2[0];
        assert(l2.to_set().contains(y));
        let j = choose|j: int| 0 <= j < l2.len() && l2[j] == x;
        let i = choose|i: int| 0 <= i < l1.len() && l1[i] == y;
        if x != y {
            assert(j > 0 && i > 0);
            assert(text_lt(l2[0], l2[j]));
            assert(text_lt(l1[0], l1[i]));
            lemma_text_lt_asymmetric(x, y);
        }
        let t1 = l1.drop_first();
        let t2 = l2.drop_first();
        assert(strictly_sorted(t1)) by {
            assert forall|p: int, q: int| 0 <= p < q < t1.len() implies text_lt(#[trigger] t1[p], #[trigger] t1[q]) by {
                assert(t1[p] == l1[p + 1] && t1[q] == l1[q + 1]);
            }
        }
        assert(strictly_sorted(t2)) by {
            assert forall|p: int, q: int| 0 <= p < q < t2.len() implies text_lt(#[trigger] t2[p], #[trigger] t2[q]) by {
                assert(t2[p] == l2[p + 1] && t2[q] == l2[q + 1]);
            }
        }
        assert(t1.to_set() =~= t2.to_set()) by {
            assert forall|z: Seq<char>| t1.to_set().contains(z) implies t2.to_set().contains(z) by {
                let p = choose|p: int| 0 <= p < t1.len() && t1[p] == z;
                assert(l1[p + 1] == z);
                assert(text_lt(l1[0], l1[p + 1]));
                assert(l1.to_set().contains(z));
                let q = choose|q: int| 0 <= q < l2.len() && l2[q] == z;
                if q == 0 {
                    lemma_text_lt_irreflexive(x);
                }
                assert(t2[q - 1] == z);
            }
            assert forall|z: Seq<char>| t2.to_set().contains(z) implies t1.to_set().contains(z) by {
                let p = choose|p: int| 0 <= p < t2.len() && t2[p] == z;
                assert(l2[p + 1] == z);
                assert(text_lt(l2[0], l2[p + 1]));
                assert(l2.to_set().contains(z));
                let q = choose|q: int| 0 <= q < l1.len() && l1[q] == z;
                if q == 0 {
                    lemma_text_lt_irreflexive(x);
                }
                assert(t1[q - 1] == z);
            }
        }
        lemma_sorted_unique(t1, t2);
        assert(l1 =~= seq![x] + t1);
        assert(l2 =~= seq![y] + t2);
    }
}

proof fn lemma_table_list_sorted(t: Seq<(Seq<char>, Seq<Seq<char>>)>, k: Seq<char>)
    requires
        table_wf(t),
    ensures
        table_get(t, k) matches Some(l) ==> strictly_sorted(l),
{
    lemma_table_get(t, k);
    if table_get(t, k) is Some {
        let i = choose|i: int|
            0 <= i < t.len() && t[i].0 == k && t[i].1 == table_get(t, k)->0 && forall|j: int| 0 <= j < i ==> t[j].0 != k;
        assert(strictly_sorted(t[i].1));
    }
}

/// Merging two indices in either order gives the same index, path by path:
/// the same paths have lists, and under each path the same sorted list.
pub proof fn lemma_merge_either_order(a: DepsIndex, b: DepsIndex, r1: DepsIndex, r2: DepsIndex)
    requires
        merged(a, b, r1),
        merged(b, a, r2),
    ensures
        forall|k: Seq<char>|
            #[trigger] table_get(table_model(r1.dependencies@), k) == table_get(table_model(r2.dependencies@), k),
        forall|k: Seq<char>|
            #[trigger] table_get(table_model(r1.dependents@), k) == table_get(table_model(r2.dependents@), k),
{
    assert forall|k: Seq<char>|
        #[trigger] table_get(table_model(r1.dependencies@), k) == table_get(table_model(r2.dependencies@), k) by {
        let t1 = table_model(r1.dependencies@);
        let t2 = table_model(r2.dependencies@);
        assert(table_get(t1, k) is Some <==> table_get(t2, k) is Some);
        assert(r1.deps_of(k) == a.deps_of(k).union(b.deps_of(k)));
        assert(r2.deps_of(k) == b.deps_of(k).union(a.deps_of(k)));
        assert(r1.deps_of(k) =~= r2.deps_of(k));
        lemma_table_list_sorted(t1, k);
        lemma_table_list_sorted(t2, k);
        if table_get(t1, k) is Some {
            lemma_sorted_unique(table_get(t1, k)->0, table_get(t2, k)->0);
        }
    }
    assert forall|k: Seq<char>|
        #[trigger] table_get(table_model(r1.dependents@), k) == table_get(table_model(r2.dependents@), k) by {
        let t1 = table_model(r1.dependents@);
        let t2 = table_model(r2.dependents@);
        assert(table_get(t1, k) is Some <==> table_get(t2, k) is Some);
        assert(r1.revs_of(k) == a.revs_of(k).union(b.revs_of(k)));
        assert(r2.revs_of(k) == b.revs_of(k).union(a.revs_of(k)));
        assert(r1.revs_of(k) =~= r2.revs_of(k));
        lemma_table_list_sorted(t1, k);
        lemma_table_list_sorted(t2, k);
        if table_get(t1, k) is Some {
            lemma_sorted_unique(table_get(t1, k)->0, table_get(t2, k)->0);
        }
    }
}

} // verus!
