use vstd::prelude::*;

verus! {

/// A JSON document as the tracking data holds it.
///
/// Numbers are kept as their decimal text, exactly as they are printed;
/// objects keep their entries in the order in which they are walked.
pub enum JsonValue {
    Null,
    Bool(bool),
    Number(String),
    Str(String),
    Array(Vec<JsonValue>),
    Object(Vec<(String, JsonValue)>),
}

/// The mathematical model of a JSON document.
pub enum Json {
    Null,
    Bool(bool),
    Number(Seq<char>),
    Str(Seq<char>),
    Array(Seq<Json>),
    Object(Seq<(Seq<char>, Json)>),
}

impl JsonValue {
    /// The model of this document.
    pub open spec fn model(&self) -> Json
        decreases self,
    {
        match self {
            JsonValue::Null => Json::Null,
            JsonValue::Bool(b) => Json::Bool(*b),
            JsonValue::Number(n) => Json::Number(n@),
            JsonValue::Str(s) => Json::Str(s@),
            JsonValue::Array(items) => Json::Array(
                Seq::new(
                    items.len() as nat,
                    |i: int|
                        if 0 <= i < items.len() {
                            items@[i].model()
                        } else {
                            Json::Null
                        },
                ),
            ),
            JsonValue::Object(entries) => Json::Object(
                Seq::new(
                    entries.len() as nat,
                    |i: int|
                        if 0 <= i < entries.len() {
                            (entries@[i].0@, entries@[i].1.model())
                        } else {
                            (Seq::empty(), Json::Null)
                        },
                ),
            ),
        }
    }
}

/// The models of a list of documents.
pub open spec fn items_model(items: Seq<JsonValue>) -> Seq<Json> {
    Seq::new(items.len(), |i: int| items[i].model())
}

/// The models of a list of object entries.
pub open spec fn entries_model(entries: Seq<(String, JsonValue)>) -> Seq<(Seq<char>, Json)> {
    Seq::new(entries.len(), |i: int| (entries[i].0@, entries[i].1.model()))
}

pub proof fn lemma_array_model(items: &Vec<JsonValue>)
    ensures
        JsonValue::Array(*items).model() == Json::Array(items_model(items@)),
{
    let m = JsonValue::Array(*items).model();
    if let Json::Array(s) = m {
        assert(s =~= items_model(items@));
    }
}

pub proof fn lemma_object_model(entries: &Vec<(String, JsonValue)>)
    ensures
        JsonValue::Object(*entries).model() == Json::Object(entries_model(entries@)),
{
    let m = JsonValue::Object(*entries).model();
    if let Json::Object(s) = m {
        assert(s =~= entries_model(entries@));
    }
}

/// Nesting depth of a document: scalars have depth zero.
pub open spec fn json_depth(v: Json) -> nat
    decreases v, 0nat,
{
    match v {
        Json::Array(items) => 1 + items_depth(items),
        Json::Object(entries) => 1 + entries_depth(entries),
        _ => 0,
    }
}

/// The greatest depth among `items`.
pub open spec fn items_depth(items: Seq<Json>) -> nat
    decreases items, 0nat,
{
    if items.len() == 0 {
        0
    } else {
        let a = items_depth(items.drop_last());
        let b = json_depth(items.last());
        if a >= b {
            a
        } else {
            b
        }
    }
}

/// The greatest depth among the values of `entries`.
pub open spec fn entries_depth(entries: Seq<(Seq<char>, Json)>) -> nat
    decreases entries, 0nat,
{
    if entries.len() == 0 {
        0
    } else {
        let a = entries_depth(entries.drop_last());
        let b = json_depth(entries.last().1);
        if a >= b {
            a
        } else {
            b
        }
    }
}

pub proof fn lemma_items_depth(items: Seq<Json>, i: int)
    requires
        0 <= i < items.len(),
    ensures
        json_depth(items[i]) <= items_depth(items),
        forall|k: int| 0 <= k <= items.len() ==> #[trigger] items_depth(items.take(k)) <= items_depth(items),
    decreases items.len(),
{
    if i < items.len() - 1 {
        lemma_items_depth(items.drop_last(), i);
    }
    assert forall|k: int| 0 <= k <= items.len() implies #[trigger] items_depth(items.take(k)) <= items_depth(items) by {
        lemma_items_take_depth(items, k);
    }
}

proof fn lemma_items_take_depth(items: Seq<Json>, k: int)
    requires
        0 <= k <= items.len(),
    ensures
        items_depth(items.take(k)) <= items_depth(items),
    decreases items.len(),
{
    if k == items.len() {
        assert(items.take(k) =~= items);
    } else {
        assert(items.drop_last().take(k) =~= items.take(k));
        lemma_items_take_depth(items.drop_last(), k);
    }
}

pub proof fn lemma_entries_depth(entries: Seq<(Seq<char>, Json)>, i: int)
    requires
        0 <= i < entries.len(),
    ensures
        json_depth(entries[i].1) <= entries_depth(entries),
        forall|k: int| 0 <= k <= entries.len() ==> #[trigger] entries_depth(entries.take(k)) <= entries_depth(entries),
    decreases entries.len(),
{
    if i < entries.len() - 1 {
        lemma_entries_depth(entries.drop_last(), i);
    }
    assert forall|k: int| 0 <= k <= entries.len() implies #[trigger] entries_depth(entries.take(k)) <= entries_depth(entries) by {
        lemma_entries_take_depth(entries, k);
    }
}

proof fn lemma_entries_take_depth(entries: Seq<(Seq<char>, Json)>, k: int)
    requires
        0 <= k <= entries.len(),
    ensures
        entries_depth(entries.take(k)) <= entries_depth(entries),
    decreases entries.len(),
{
    if k == entries.len() {
        assert(entries.take(k) =~= entries);
    } else {
        assert(entries.drop_last().take(k) =~= entries.take(k));
        lemma_entries_take_depth(entries.drop_last(), k);
    }
}

/// A deep copy of a document.
pub fn copy_json(v: &JsonValue) -> (out: JsonValue)
    ensures
        out.model() == v.model(),
    decreases v,
{
    match v {
        JsonValue::Null => JsonValue::Null,
        JsonValue::Bool(b) => JsonValue::Bool(*b),
        JsonValue::Number(n) => JsonValue::Number(crate::text::copy_string(n)),
        JsonValue::Str(s) => JsonValue::Str(crate::text::copy_string(s)),
        JsonValue::Array(items) => {
            let out = copy_items(items);
            proof {
                lemma_array_model(items);
                lemma_array_model(&out);
            }
            JsonValue::Array(out)
        },
        JsonValue::Object(entries) => {
            let out = copy_entries(entries);
            proof {
                lemma_object_model(entries);
                lemma_object_model(&out);
            }
            JsonValue::Object(out)
        },
    }
}

/// A deep copy of a list of documents.
pub fn copy_items(items: &Vec<JsonValue>) -> (out: Vec<JsonValue>)
    ensures
        items_model(out@) == items_model(items@),
    decreases items,
{
    let mut out: Vec<JsonValue> = Vec::new();
    let mut i: usize = 0;
    while i < items.len()
        invariant
            i <= items.len(),
            out@.len() == i,
            forall|k: int| 0 <= k < i ==> (#[trigger] out@[k]).model() == items@[k].model(),
        decreases items.len() - i,
    {
        let c = copy_json(&items[i]);
        out.push(c);
        i += 1;
    }
    proof {
        assert(items_model(out@) =~= items_model(items@));
    }
    out
}

/// A deep copy of a list of object entries.
pub fn copy_entries(entries: &Vec<(String, JsonValue)>) -> (out: Vec<(String, JsonValue)>)
    ensures
        entries_model(out@) == entries_model(entries@),
    decreases entries,
{
    let mut out: Vec<(String, JsonValue)> = Vec::new();
    let mut i: usize = 0;
    while i < entries.len()
        invariant
            i <= entries.len(),
            out@.len() == i,
            forall|k: int|
                0 <= k < i ==> (#[trigger] out@[k]).0@ == entries@[k].0@ && out@[k].1.model()
                    == entries@[k].1.model(),
        decreases entries.len() - i,
    {
        let k = crate::text::copy_string(&entries[i].0);
        let c = copy_json(&entries[i].1);
        out.push((k, c));
        i += 1;
    }
    proof {
        assert(entries_model(out@) =~= entries_model(entries@));
    }
    out
}

/// Whether two documents are equal.
pub fn json_equal(a: &JsonValue, b: &JsonValue) -> (r: bool)
    ensures
        r == (a.model() == b.model()),
    decreases a,
{
    match (a, b) {
        (JsonValue::Null, JsonValue::Null) => true,
        (JsonValue::Bool(x), JsonValue::Bool(y)) => *x == *y,
        (JsonValue::Number(x), JsonValue::Number(y)) => x.eq(y),
        (JsonValue::Str(x), JsonValue::Str(y)) => x.eq(y),
        (JsonValue::Array(x), JsonValue::Array(y)) => {
            proof {
                lemma_array_model(x);
                lemma_array_model(y);
            }
            items_equal(x, y)
        },
        (JsonValue::Object(x), JsonValue::Object(y)) => {
            proof {
                lemma_object_model(x);
                lemma_object_model(y);
            }
            entries_equal(x, y)
        },
        _ => false,
    }
}

/// Whether two lists of documents are equal.
pub fn items_equal(x: &Vec<JsonValue>, y: &Vec<JsonValue>) -> (r: bool)
    ensures
        r == (items_model(x@) == items_model(y@)),
    decreases x,
{
    if x.len() != y.len() {
        proof {
            assert(items_model(x@).len() != items_model(y@).len());
        }
        return false;
    }
    let mut i: usize = 0;
    while i < x.len()
        invariant
            i <= x.len() == y.len(),
            forall|k: int| 0 <= k < i ==> (#[trigger] x@[k]).model() == y@[k].model(),
        decreases x.len() - i,
    {
        if !json_equal(&x[i], &y[i]) {
            proof {
                assert(items_model(x@)[i as int] != items_model(y@)[i as int]);
            }
            return false;
        }
        i += 1;
    }
    proof {
        assert(items_model(x@) =~= items_model(y@));
    }
    true
}

/// Whether two lists of object entries are equal.
pub fn entries_equal(x: &Vec<(String, JsonValue)>, y: &Vec<(String, JsonValue)>) -> (r: bool)
    ensures
        r == (entries_model(x@) == entries_model(y@)),
    decreases x,
{
    if x.len() != y.len() {
        proof {
            assert(entries_model(x@).len() != entries_model(y@).len());
        }
        return false;
    }
    let mut i: usize = 0;
    while i < x.len()
        invariant
            i <= x.len() == y.len(),
            forall|k: int|
                0 <= k < i ==> (#[trigger] x@[k]).0@ == y@[k].0@ && x@[k].1.model() == y@[k].1.model(),
        decreases x.len() - i,
    {
        if !x[i].0.eq(&y[i].0) || !json_equal(&x[i].1, &y[i].1) {
            proof {
                assert(entries_model(x@)[i as int] != entries_model(y@)[i as int]);
            }
            return false;
        }
        i += 1;
    }
    proof {
        assert(entries_model(x@) =~= entries_model(y@));
    }
    true
}

} // verus!
