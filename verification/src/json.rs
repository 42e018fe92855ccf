//! JSON documents and their canonical form.
use crate::text::{blank, chars_of, same_text};
use vstd::prelude::*;

verus! {

/// A JSON document.
#[derive(Debug)]
pub enum Json {
    Null,
    Bool(bool),
    /// A number that fits in 64 unsigned bits.
    Uint(u64),
    /// Any other number, as written.
    Number(String),
    Text(String),
    Array(Vec<Json>),
    /// Fields in the order in which they were added. Where a key occurs more
    /// than once, its last occurrence counts.
    Object(Vec<(String, Json)>),
}

/// The contents of a JSON document.
pub enum JsonView {
    Null,
    Bool(bool),
    Uint(u64),
    Number(Seq<char>),
    Text(Seq<char>),
    Array(Seq<JsonView>),
    Object(Seq<(Seq<char>, JsonView)>),
}

/// The fields of an object.
pub type Fields = Seq<(Seq<char>, JsonView)>;

impl Json {
    /// The contents of the document.
    pub open spec fn view(&self) -> JsonView
        decreases self,
    {
        match self {
            Json::Null => JsonView::Null,
            Json::Bool(b) => JsonView::Bool(*b),
            Json::Uint(n) => JsonView::Uint(*n),
            Json::Number(s) => JsonView::Number(s@),
            Json::Text(s) => JsonView::Text(s@),
            Json::Array(v) => JsonView::Array(
                Seq::new(
                    v@.len(),
                    |i: int|
                        if 0 <= i < v@.len() {
                            v@[i].view()
                        } else {
                            JsonView::Null
                        },
                ),
            ),
            Json::Object(v) => JsonView::Object(
                Seq::new(
                    v@.len(),
                    |i: int|
                        if 0 <= i < v@.len() {
                            (v@[i].0@, v@[i].1.view())
                        } else {
                            (seq![], JsonView::Null)
                        },
                ),
            ),
        }
    }
}

// ---------------------------------------------------------------------------
// Access
// ---------------------------------------------------------------------------

/// The value of a field: that of its last occurrence.
pub open spec fn field(fields: Fields, key: Seq<char>) -> Option<JsonView>
    decreases fields.len(),
{
    if fields.len() == 0 {
        None
    } else if fields.last().0 == key {
        Some(fields.last().1)
    } else {
        field(fields.drop_last(), key)
    }
}

/// The value of a member of an object; `None` for any other document.
pub open spec fn member(j: JsonView, key: Seq<char>) -> Option<JsonView> {
    match j {
        JsonView::Object(fields) => field(fields, key),
        _ => None,
    }
}

/// The member `key` when it is an unsigned integer.
pub open spec fn uint_member(j: JsonView, key: Seq<char>) -> Option<u64> {
    match member(j, key) {
        Some(JsonView::Uint(n)) => Some(n),
        _ => None,
    }
}

/// The member `key` when it is a text.
pub open spec fn text_member(j: JsonView, key: Seq<char>) -> Option<Seq<char>> {
    match member(j, key) {
        Some(JsonView::Text(s)) => Some(s),
        _ => None,
    }
}

/// Whether two optional texts agree.
pub open spec fn text_is(a: Option<&String>, b: Option<Seq<char>>) -> bool {
    match (a, b) {
        (Some(s), Some(t)) => s@ == t,
        (None, None) => true,
        _ => false,
    }
}

impl Json {
    /// The member `key` of an object.
    pub fn get(&self, key: &str) -> (res: Option<&Json>)
        ensures
            res is Some == member(self@, key@) is Some,
            res matches Some(v) ==> member(self@, key@) == Some(v@),
    {
        match self {
            Json::Object(fields) => {
                let ghost all = self@->Object_0;
                let mut i: usize = fields.len();
                assert(all.take(i as int) == all);
                while i > 0
                    invariant
                        i <= fields@.len(),
                        all.len() == fields@.len(),
                        self@ == JsonView::Object(all),
                        forall|j: int|
                            0 <= j < all.len() ==> #[trigger] all[j] == (
                                fields@[j].0@,
                                fields@[j].1@,
                            ),
                        field(all, key@) == field(all.take(i as int), key@),
                    decreases i,
                {
                    assert(all.take(i as int).last() == all[i - 1]);
                    assert(all.take(i as int).drop_last() == all.take(i - 1));
                    if same_text(fields[i - 1].0.as_str(), key) {
                        return Some(&fields[i - 1].1);
                    }
                    i -= 1;
                }
                None
            },
            _ => None,
        }
    }

    /// The member `key` when it is an unsigned integer.
    pub fn get_uint(&self, key: &str) -> (res: Option<u64>)
        ensures
            res == uint_member(self@, key@),
    {
        match self.get(key) {
            Some(Json::Uint(n)) => Some(*n),
            _ => None,
        }
    }

    /// The member `key` when it is a text.
    pub fn get_text(&self, key: &str) -> (res: Option<&String>)
        ensures
            text_is(res, text_member(self@, key@)),
    {
        match self.get(key) {
            Some(Json::Text(s)) => Some(s),
            _ => None,
        }
    }
}

// ---------------------------------------------------------------------------
// The order of keys
// ---------------------------------------------------------------------------

/// Whether `a` comes before `b` in the order of code points.
pub open spec fn text_lt(a: Seq<char>, b: Seq<char>) -> bool
    decreases a.len(),
{
    if b.len() == 0 {
        false
    } else if a.len() == 0 {
        true
    } else {
        a[0] < b[0] || (a[0] == b[0] && text_lt(a.drop_first(), b.drop_first()))
    }
}

proof fn lemma_lt_irreflexive(a: Seq<char>)
    ensures
        !text_lt(a, a),
    decreases a.len(),
{
    if a.len() > 0 {
        lemma_lt_irreflexive(a.drop_first());
    }
}

proof fn lemma_lt_transitive(a: Seq<char>, b: Seq<char>, c: Seq<char>)
    requires
        text_lt(a, b),
        text_lt(b, c),
    ensures
        text_lt(a, c),
    decreases a.len(),
{
    if a.len() > 0 && a[0] == b[0] && b[0] == c[0] {
        lemma_lt_transitive(a.drop_first(), b.drop_first(), c.drop_first());
    }
}

proof fn lemma_lt_total(a: Seq<char>, b: Seq<char>)
    ensures
        text_lt(a, b) || text_lt(b, a) || a == b,
    decreases a.len(),
{
    if a.len() > 0 && b.len() > 0 {
        if a[0] == b[0] {
            lemma_lt_total(a.drop_first(), b.drop_first());
            if a.drop_first() == b.drop_first() {
                assert(a == seq![a[0]] + a.drop_first());
                assert(b == seq![b[0]] + b.drop_first());
            }
        }
    } else {
        assert(a.len() == 0 && b.len() == 0 ==> a == b);
    }
}

fn text_less(a: &str, b: &str) -> (res: bool)
    ensures
        res == text_lt(a@, b@),
{
    let x = chars_of(a);
    let y = chars_of(b);
    let mut i: usize = 0;
    assert(x@.skip(0) == a@);
    assert(y@.skip(0) == b@);
    loop
        invariant
            i <= x@.len(),
            i <= y@.len(),
            text_lt(x@.skip(i as int), y@.skip(i as int)) == text_lt(a@, b@),
        decreases x@.len() - i,
    {
        if i >= y.len() {
            return false;
        }
        if i >= x.len() {
            return true;
        }
        assert(x@.skip(i as int).drop_first() == x@.skip(i + 1));
        assert(y@.skip(i as int).drop_first() == y@.skip(i + 1));
        if x[i] < y[i] {
            return true;
        }
        if x[i] != y[i] {
            return false;
        }
        i += 1;
    }
}

// ---------------------------------------------------------------------------
// Canonical form
// ---------------------------------------------------------------------------

/// Sets a field in a list that is sorted by key, in its place.
pub open spec fn upsert(sorted: Fields, key: Seq<char>, value: JsonView) -> Fields
    decreases sorted.len(),
{
    if sorted.len() == 0 {
        seq![(key, value)]
    } else if sorted.last().0 == key {
        sorted.drop_last().push((key, value))
    } else if text_lt(sorted.last().0, key) {
        sorted.push((key, value))
    } else {
        upsert(sorted.drop_last(), key, value).push(sorted.last())
    }
}

/// The canonical form of a document: every object has its keys sorted, at all
/// depths.
pub open spec fn canonical(j: JsonView) -> JsonView
    decreases j,
{
    match j {
        JsonView::Array(items) => JsonView::Array(
            Seq::new(
                items.len(),
                |i: int|
                    if 0 <= i < items.len() {
                        canonical(items[i])
                    } else {
                        JsonView::Null
                    },
            ),
        ),
        JsonView::Object(fields) => JsonView::Object(canonical_fields(fields)),
        _ => j,
    }
}

/// The fields in canonical form, sorted by key, each key once.
pub open spec fn canonical_fields(fields: Fields) -> Fields
    decreases fields,
{
    if fields.len() == 0 {
        seq![]
    } else {
        upsert(
            canonical_fields(fields.drop_last()),
            fields.last().0,
            canonical(fields.last().1),
        )
    }
}


/// The exec fields seen as contents.
pub open spec fn fields_view(v: Seq<(String, Json)>) -> Fields {
    Seq::new(v.len(), |i: int| (v[i].0@, v[i].1@))
}

proof fn lemma_upsert_split(sorted: Fields, key: Seq<char>, value: JsonView, i: int)
    requires
        0 <= i <= sorted.len(),
        forall|j: int|
            i <= j < sorted.len() ==> (#[trigger] sorted[j]).0 != key && !text_lt(sorted[j].0, key),
    ensures
        upsert(sorted, key, value) == upsert(sorted.take(i), key, value) + sorted.skip(i),
    decreases sorted.len(),
{
    let s = sorted.drop_last();
    let last = sorted.last();
    if i == sorted.len() {
        assert(sorted.take(i) == sorted);
        assert(upsert(sorted, key, value) + sorted.skip(i) == upsert(sorted, key, value));
    } else {
        assert(sorted[sorted.len() - 1] == last);
        assert(s.take(i) == sorted.take(i));
        assert forall|j: int| i <= j < s.len() implies (#[trigger] s[j]).0 != key && !text_lt(
            s[j].0,
            key,
        ) by {
            assert(sorted[j] == s[j]);
        }
        lemma_upsert_split(s, key, value, i);
        assert(sorted.skip(i) == s.skip(i).push(last));
        assert(upsert(s, key, value).push(last) == upsert(sorted.take(i), key, value)
            + sorted.skip(i));
    }
}

/// Sets a field in a list that is sorted by key.
fn set_field(sorted: &mut Vec<(String, Json)>, key: String, value: Json)
    ensures
        fields_view(final(sorted)@) == upsert(fields_view(old(sorted)@), key@, value@),
{
    let ghost before = fields_view(sorted@);
    let mut i: usize = sorted.len();
    while i > 0 && !same_text(sorted[i - 1].0.as_str(), key.as_str()) && !text_less(
        sorted[i - 1].0.as_str(),
        key.as_str(),
    )
        invariant
            i <= sorted@.len(),
            before == fields_view(sorted@),
            forall|j: int|
                i <= j < before.len() ==> (#[trigger] before[j]).0 != key@ && !text_lt(
                    before[j].0,
                    key@,
                ),
        decreases i,
    {
        assert(before[i - 1].0 == sorted@[i - 1].0@);
        i -= 1;
    }
    proof {
        lemma_upsert_split(before, key@, value@, i as int);
    }
    let ghost head = before.take(i as int);
    let ghost tail = before.skip(i as int);
    let ghost entry = (key@, value@);
    if i > 0 && same_text(sorted[i - 1].0.as_str(), key.as_str()) {
        let _ = sorted.remove(i - 1);
        assert(head.last() == before[i - 1]);
        assert(upsert(head, key@, value@) == head.drop_last().push(entry));
        sorted.insert(i - 1, (key, value));
        assert(fields_view(sorted@) == head.drop_last().push(entry) + tail);
    } else {
        if i > 0 {
            assert(head.last() == before[i - 1]);
        }
        assert(upsert(head, key@, value@) == head.push(entry));
        sorted.insert(i, (key, value));
        assert(fields_view(sorted@) == head.push(entry) + tail);
    }
}

/// The canonical form of a document.
pub fn canonical_json(value: &Json) -> (res: Json)
    ensures
        res@ == canonical(value@),
    decreases value,
{
    match value {
        Json::Null => Json::Null,
        Json::Bool(b) => Json::Bool(*b),
        Json::Uint(n) => Json::Uint(*n),
        Json::Number(s) => Json::Number(s.clone()),
        Json::Text(s) => Json::Text(s.clone()),
        Json::Array(items) => {
            let mut out: Vec<Json> = Vec::new();
            let mut i: usize = 0;
            while i < items.len()
                invariant
                    i <= items@.len(),
                    out@.len() == i,
                    value == Json::Array(*items),
                    forall|j: int| 0 <= j < i ==> (#[trigger] out@[j])@ == canonical(items@[j]@),
                decreases items@.len() - i,
            {
                assert(decreases_to!(value => value->Array_0@[i as int]));
                out.push(canonical_json(&items[i]));
                i += 1;
            }
            let res = Json::Array(out);
            assert(res@->Array_0 == canonical(value@)->Array_0);
            res
        },
        Json::Object(fields) => {
            let mut out: Vec<(String, Json)> = Vec::new();
            let ghost all = fields_view(fields@);
            let mut i: usize = 0;
            assert(all.take(0) == Seq::<(Seq<char>, JsonView)>::empty());
            assert(fields_view(out@) == canonical_fields(all.take(0)));
            while i < fields.len()
                invariant
                    i <= fields@.len(),
                    value == Json::Object(*fields),
                    all == fields_view(fields@),
                    fields_view(out@) == canonical_fields(all.take(i as int)),
                decreases fields@.len() - i,
            {
                assert(decreases_to!(value => value->Object_0@[i as int].1));
                let child = canonical_json(&fields[i].1);
                set_field(&mut out, fields[i].0.clone(), child);
                assert(all.take(i + 1).last() == all[i as int]);
                assert(all.take(i + 1).drop_last() == all.take(i as int));
                i += 1;
            }
            assert(all.take(i as int) == all);
            assert(value@ == JsonView::Object(all)) by {
                assert(value@->Object_0 == all);
            }
            let res = Json::Object(out);
            assert(res@->Object_0 == fields_view(out@));
            res
        },
    }
}

/// The fields other than `key`.
pub open spec fn without(fields: Fields, key: Seq<char>) -> Fields
    decreases fields.len(),
{
    if fields.len() == 0 {
        seq![]
    } else if fields.last().0 == key {
        without(fields.drop_last(), key)
    } else {
        without(fields.drop_last(), key).push(fields.last())
    }
}

/// A document without its member `key`.
pub open spec fn strip(j: JsonView, key: Seq<char>) -> JsonView {
    match j {
        JsonView::Object(fields) => JsonView::Object(without(fields, key)),
        _ => j,
    }
}

/// The canonical form of a document without its member `key`.
pub fn canonical_without(value: &Json, key: &str) -> (res: Json)
    ensures
        res@ == canonical(strip(value@, key@)),
{
    match value {
        Json::Object(fields) => {
            let mut out: Vec<(String, Json)> = Vec::new();
            let ghost all = fields_view(fields@);
            let mut i: usize = 0;
            assert(all.take(0) == Seq::<(Seq<char>, JsonView)>::empty());
            assert(fields_view(out@) == canonical_fields(without(all.take(0), key@)));
            while i < fields.len()
                invariant
                    i <= fields@.len(),
                    all == fields_view(fields@),
                    fields_view(out@) == canonical_fields(without(all.take(i as int), key@)),
                decreases fields@.len() - i,
            {
                assert(all.take(i + 1).last() == all[i as int]);
                assert(all.take(i + 1).drop_last() == all.take(i as int));
                if !same_text(fields[i].0.as_str(), key) {
                    let child = canonical_json(&fields[i].1);
                    set_field(&mut out, fields[i].0.clone(), child);
                    let ghost kept = without(all.take(i as int), key@);
                    assert(kept.push(all[i as int]).drop_last() == kept);
                }
                i += 1;
            }
            assert(all.take(i as int) == all);
            assert(value@ == JsonView::Object(all)) by {
                assert(value@->Object_0 == all);
            }
            let res = Json::Object(out);
            assert(res@->Object_0 == fields_view(out@));
            res
        },
        _ => canonical_json(value),
    }
}


// ---------------------------------------------------------------------------
// Laws of the canonical form
// ---------------------------------------------------------------------------

/// Whether the keys ascend strictly.
pub open spec fn sorted_keys(fields: Fields) -> bool {
    forall|i: int, j: int|
        0 <= i < j < fields.len() ==> text_lt((#[trigger] fields[i]).0, (#[trigger] fields[j]).0)
}

/// The canonical form of an optional value.
pub open spec fn canonical_option(v: Option<JsonView>) -> Option<JsonView> {
    match v {
        Some(x) => Some(canonical(x)),
        None => None,
    }
}

/// Whether the field at `i` is the one that counts for its key.
pub open spec fn current(fields: Fields, i: int) -> bool {
    forall|j: int| i < j < fields.len() ==> (#[trigger] fields[j]).0 != fields[i].0
}

/// Whether two documents are equal up to the order of fields in objects, at
/// all depths.
pub open spec fn same_document(a: JsonView, b: JsonView) -> bool
    decreases a,
{
    match (a, b) {
        (JsonView::Array(s), JsonView::Array(t)) => {
            &&& s.len() == t.len()
            &&& forall|i: int| 0 <= i < s.len() ==> same_document(#[trigger] s[i], t[i])
        },
        (JsonView::Object(s), JsonView::Object(t)) => {
            &&& forall|i: int|
                0 <= i < s.len() && #[trigger] current(s, i) ==> exists|j: int|
                    0 <= j < t.len() && #[trigger] current(t, j) && s[i].0 == t[j].0
                        && same_document(s[i].1, t[j].1)
            &&& forall|j: int| 0 <= j < t.len() ==> field(s, (#[trigger] t[j]).0) is Some
        },
        _ => a == b,
    }
}

proof fn lemma_field_present(fields: Fields, i: int)
    requires
        0 <= i < fields.len(),
    ensures
        field(fields, fields[i].0) is Some,
        current(fields, i) ==> field(fields, fields[i].0) == Some(fields[i].1),
    decreases fields.len(),
{
    let f = fields.drop_last();
    if i < f.len() && fields.last().0 != fields[i].0 {
        assert(f[i] == fields[i]);
        assert(current(fields, i) ==> current(f, i)) by {
            if current(fields, i) {
                assert forall|j: int| i < j < f.len() implies (#[trigger] f[j]).0 != f[i].0 by {
                    assert(fields[j].0 != fields[i].0);
                }
            }
        }
        lemma_field_present(f, i);
    } else if i < f.len() {
        assert(fields[fields.len() - 1].0 == fields[i].0);
    }
}

proof fn lemma_field_at(fields: Fields, key: Seq<char>) -> (i: int)
    requires
        field(fields, key) is Some,
    ensures
        0 <= i < fields.len(),
        fields[i].0 == key,
        current(fields, i),
        field(fields, key) == Some(fields[i].1),
    decreases fields.len(),
{
    let f = fields.drop_last();
    if fields.last().0 == key {
        fields.len() - 1
    } else {
        let i = lemma_field_at(f, key);
        assert(f[i] == fields[i]);
        assert forall|j: int| i < j < fields.len() implies (#[trigger] fields[j]).0
            != fields[i].0 by {
            if j < f.len() {
                assert(f[j].0 != f[i].0);
            }
        }
        i
    }
}

proof fn lemma_upsert(s: Fields, key: Seq<char>, value: JsonView, q: Seq<char>)
    requires
        sorted_keys(s),
    ensures
        sorted_keys(upsert(s, key, value)),
        upsert(s, key, value).len() > 0,
        field(upsert(s, key, value), q) == if q == key {
            Some(value)
        } else {
            field(s, q)
        },
        forall|bound: Seq<char>|
            text_lt(key, bound) && (s.len() > 0 ==> text_lt(s.last().0, bound)) ==> text_lt(
                #[trigger] upsert(s, key, value).last().0,
                bound,
            ),
    decreases s.len(),
{
    let u = upsert(s, key, value);
    if s.len() > 0 {
        let d = s.drop_last();
        let last = s.last();
        assert(sorted_keys(d)) by {
            assert forall|i: int, j: int| 0 <= i < j < d.len() implies text_lt(
                (#[trigger] d[i]).0,
                (#[trigger] d[j]).0,
            ) by {
                assert(text_lt(s[i].0, s[j].0));
            }
        }
        if last.0 == key {
            assert(u.drop_last() == d);
            assert forall|i: int, j: int| 0 <= i < j < u.len() implies text_lt(
                (#[trigger] u[i]).0,
                (#[trigger] u[j]).0,
            ) by {
                assert(text_lt(s[i].0, s[j].0));
            }
        } else if text_lt(last.0, key) {
            assert(u.drop_last() == s);
            assert forall|i: int, j: int| 0 <= i < j < u.len() implies text_lt(
                (#[trigger] u[i]).0,
                (#[trigger] u[j]).0,
            ) by {
                if j < s.len() {
                    assert(text_lt(s[i].0, s[j].0));
                } else if i < s.len() - 1 {
                    assert(text_lt(s[i].0, s[s.len() - 1].0));
                    lemma_lt_transitive(s[i].0, last.0, key);
                }
            }
        } else {
            lemma_upsert(d, key, value, q);
            lemma_lt_total(last.0, key);
            let v = upsert(d, key, value);
            assert(u.drop_last() == v);
            if d.len() > 0 {
                assert(text_lt(s[d.len() - 1].0, s[s.len() - 1].0));
            }
            assert(text_lt(v.last().0, last.0));
            assert forall|i: int, j: int| 0 <= i < j < u.len() implies text_lt(
                (#[trigger] u[i]).0,
                (#[trigger] u[j]).0,
            ) by {
                if j < v.len() {
                    assert(text_lt(v[i].0, v[j].0));
                } else if i < v.len() - 1 {
                    assert(text_lt(v[i].0, v[v.len() - 1].0));
                    lemma_lt_transitive(v[i].0, v.last().0, last.0);
                }
            }
            lemma_lt_irreflexive(key);
        }
    } else {
        assert(u.drop_last() == s);
    }
}

/// The canonical form of fields has ascending keys, each once, and holds under
/// every key the canonical form of the value that counts for that key.
pub proof fn law_canonical_fields(fields: Fields, key: Seq<char>)
    ensures
        sorted_keys(canonical_fields(fields)),
        field(canonical_fields(fields), key) == canonical_option(field(fields, key)),
    decreases fields.len(),
{
    if fields.len() > 0 {
        law_canonical_fields(fields.drop_last(), key);
        lemma_upsert(
            canonical_fields(fields.drop_last()),
            fields.last().0,
            canonical(fields.last().1),
            key,
        );
    }
}

proof fn lemma_sorted_unique(s: Fields, t: Fields)
    requires
        sorted_keys(s),
        sorted_keys(t),
        forall|k: Seq<char>| #[trigger] field(s, k) == field(t, k),
    ensures
        s == t,
    decreases s.len(),
{
    if s.len() == 0 {
        if t.len() > 0 {
            lemma_field_present(t, t.len() - 1);
            assert(field(s, t[t.len() - 1].0) is None);
        }
        assert(s == t);
    } else {
        let a = s.last();
        assert(s[s.len() - 1] == a);
        lemma_field_present(s, s.len() - 1);
        assert(field(t, a.0) is Some);
        let i = lemma_field_at(t, a.0);
        let b = t.last();
        assert(t[t.len() - 1] == b);
        lemma_field_present(t, t.len() - 1);
        assert(field(s, b.0) is Some);
        let j = lemma_field_at(s, b.0);
        if a.0 != b.0 {
            assert(text_lt(t[i].0, t[t.len() - 1].0));
            assert(text_lt(s[j].0, s[s.len() - 1].0));
            lemma_lt_transitive(a.0, b.0, a.0);
            lemma_lt_irreflexive(a.0);
        }
        assert(field(s, a.0) == Some(a.1));
        assert(a == b);
        let d = s.drop_last();
        let e = t.drop_last();
        assert forall|p: int, q: int| 0 <= p < q < d.len() implies text_lt(
            (#[trigger] d[p]).0,
            (#[trigger] d[q]).0,
        ) by {
            assert(text_lt(s[p].0, s[q].0));
        }
        assert forall|p: int, q: int| 0 <= p < q < e.len() implies text_lt(
            (#[trigger] e[p]).0,
            (#[trigger] e[q]).0,
        ) by {
            assert(text_lt(t[p].0, t[q].0));
        }
        assert forall|k: Seq<char>| #[trigger] field(d, k) == field(e, k) by {
            assert(field(s, k) == field(t, k));
            if k == a.0 {
                if field(d, k) is Some {
                    let p = lemma_field_at(d, k);
                    assert(text_lt(s[p].0, s[s.len() - 1].0));
                    lemma_lt_irreflexive(k);
                }
                if field(e, k) is Some {
                    let p = lemma_field_at(e, k);
                    assert(text_lt(t[p].0, t[t.len() - 1].0));
                    lemma_lt_irreflexive(k);
                }
            }
        }
        lemma_sorted_unique(d, e);
        assert(s == d.push(a));
        assert(t == e.push(b));
    }
}

proof fn lemma_same_fields(s: Fields, t: Fields, key: Seq<char>)
    requires
        same_document(JsonView::Object(s), JsonView::Object(t)),
    ensures
        canonical_option(field(s, key)) == canonical_option(field(t, key)),
    decreases s, 1int,
{
    if field(s, key) is Some {
        let i = lemma_field_at(s, key);
        let j = choose|j: int|
            0 <= j < t.len() && #[trigger] current(t, j) && s[i].0 == t[j].0 && same_document(
                s[i].1,
                t[j].1,
            );
        lemma_field_present(t, j);
        assert(decreases_to!(s => s[i].1));
        law_canonical_ignores_field_order(s[i].1, t[j].1);
    } else if field(t, key) is Some {
        let j = lemma_field_at(t, key);
        assert(field(s, t[j].0) is Some);
    }
}

/// Documents that differ only in the order of fields have one canonical form.
pub proof fn law_canonical_ignores_field_order(a: JsonView, b: JsonView)
    requires
        same_document(a, b),
    ensures
        canonical(a) == canonical(b),
    decreases a, 2int,
{
    match (a, b) {
        (JsonView::Array(s), JsonView::Array(t)) => {
            assert forall|i: int| 0 <= i < s.len() implies canonical(#[trigger] s[i]) == canonical(
                t[i],
            ) by {
                law_canonical_ignores_field_order(s[i], t[i]);
            }
            assert(canonical(a)->Array_0 == canonical(b)->Array_0);
        },
        (JsonView::Object(s), JsonView::Object(t)) => {
            law_canonical_fields(s, seq![]);
            law_canonical_fields(t, seq![]);
            assert forall|k: Seq<char>| #[trigger]
                field(canonical_fields(s), k) == field(canonical_fields(t), k) by {
                law_canonical_fields(s, k);
                law_canonical_fields(t, k);
                lemma_same_fields(s, t, k);
            }
            lemma_sorted_unique(canonical_fields(s), canonical_fields(t));
        },
        _ => {},
    }
}

/// A member that is stripped is gone, and every other member stays.
pub proof fn law_strip(j: JsonView, key: Seq<char>, other: Seq<char>)
    ensures
        member(strip(j, key), other) == if other == key {
            None
        } else {
            member(j, other)
        },
{
    if let JsonView::Object(fields) = j {
        lemma_without(fields, key, other);
    }
}

proof fn lemma_without(fields: Fields, key: Seq<char>, other: Seq<char>)
    ensures
        field(without(fields, key), other) == if other == key {
            None
        } else {
            field(fields, other)
        },
    decreases fields.len(),
{
    if fields.len() > 0 {
        let d = fields.drop_last();
        lemma_without(d, key, other);
        assert(without(d, key).push(fields.last()).drop_last() == without(d, key));
    }
}

/// Two documents that differ only in the order of fields still have one
/// canonical form when the same member is stripped from both.
pub proof fn law_stripped_canonical_ignores_field_order(a: JsonView, b: JsonView, key: Seq<char>)
    requires
        same_document(a, b),
    ensures
        canonical(strip(a, key)) == canonical(strip(b, key)),
{
    match (a, b) {
        (JsonView::Object(s), JsonView::Object(t)) => {
            let u = without(s, key);
            let v = without(t, key);
            law_canonical_fields(u, seq![]);
            law_canonical_fields(v, seq![]);
            assert forall|k: Seq<char>| #[trigger]
                field(canonical_fields(u), k) == field(canonical_fields(v), k) by {
                law_canonical_fields(u, k);
                law_canonical_fields(v, k);
                lemma_without(s, key, k);
                lemma_without(t, key, k);
                lemma_same_fields(s, t, k);
            }
            lemma_sorted_unique(canonical_fields(u), canonical_fields(v));
        },
        _ => {
            law_canonical_ignores_field_order(a, b);
        },
    }
}


// ---------------------------------------------------------------------------
// Setting fields
// ---------------------------------------------------------------------------

/// The index of the last occurrence of a key, or -1.
pub open spec fn position(fields: Fields, key: Seq<char>) -> int
    decreases fields.len(),
{
    if fields.len() == 0 {
        -1
    } else if fields.last().0 == key {
        fields.len() - 1
    } else {
        position(fields.drop_last(), key)
    }
}

/// The fields with `key` set to `value`, in its place, or at the end when the
/// key is new.
pub open spec fn put(fields: Fields, key: Seq<char>, value: JsonView) -> Fields {
    let i = position(fields, key);
    if i < 0 {
        fields.push((key, value))
    } else {
        fields.update(i, (key, value))
    }
}

proof fn lemma_position(fields: Fields, key: Seq<char>)
    ensures
        -1 <= position(fields, key) < fields.len(),
        position(fields, key) >= 0 ==> fields[position(fields, key)].0 == key && field(fields, key)
            == Some(fields[position(fields, key)].1),
        position(fields, key) < 0 ==> field(fields, key) is None,
        forall|j: int|
            position(fields, key) < j < fields.len() ==> (#[trigger] fields[j]).0 != key,
    decreases fields.len(),
{
    if fields.len() > 0 && fields.last().0 != key {
        let f = fields.drop_last();
        lemma_position(f, key);
        assert forall|j: int| position(fields, key) < j < fields.len() implies (
        #[trigger] fields[j]).0 != key by {
            if j < f.len() {
                assert(f[j] == fields[j]);
            }
        }
    }
}

proof fn lemma_field_split(fields: Fields, tail: Fields, key: Seq<char>)
    ensures
        field(fields + tail, key) == if field(tail, key) is Some {
            field(tail, key)
        } else {
            field(fields, key)
        },
    decreases tail.len(),
{
    if tail.len() == 0 {
        assert(fields + tail == fields);
    } else {
        let all = fields + tail;
        assert(all.last() == tail.last());
        assert(all.drop_last() == fields + tail.drop_last());
        lemma_field_split(fields, tail.drop_last(), key);
    }
}

proof fn lemma_without_split(fields: Fields, tail: Fields, key: Seq<char>)
    ensures
        without(fields + tail, key) == without(fields, key) + without(tail, key),
    decreases tail.len(),
{
    if tail.len() == 0 {
        assert(fields + tail == fields);
        assert(without(fields, key) + without(tail, key) == without(fields, key));
    } else {
        let all = fields + tail;
        assert(all.last() == tail.last());
        assert(all.drop_last() == fields + tail.drop_last());
        lemma_without_split(fields, tail.drop_last(), key);
        let d = without(tail.drop_last(), key);
        assert(without(fields, key) + d.push(tail.last()) == (without(fields, key) + d).push(
            tail.last(),
        ));
    }
}

/// A field that was set holds the value, every other field keeps its value,
/// and the fields other than `key` are the same as before.
pub proof fn law_put(fields: Fields, key: Seq<char>, value: JsonView, other: Seq<char>)
    ensures
        field(put(fields, key, value), other) == if other == key {
            Some(value)
        } else {
            field(fields, other)
        },
        without(put(fields, key, value), key) == without(fields, key),
{
    let i = position(fields, key);
    lemma_position(fields, key);
    if i < 0 {
        let f = fields.push((key, value));
        assert(f.drop_last() == fields);
    } else {
        let head = fields.take(i);
        let tail = fields.skip(i + 1);
        let old_one: Fields = seq![fields[i]];
        let new_one: Fields = seq![(key, value)];
        assert(fields == head + (old_one + tail));
        assert(put(fields, key, value) == head + (new_one + tail));
        lemma_position(tail, key);
        if position(tail, key) >= 0 {
            assert(tail[position(tail, key)] == fields[i + 1 + position(tail, key)]);
        }
        reveal_with_fuel(field, 2);
        reveal_with_fuel(without, 2);
        assert(old_one.drop_last() == Seq::<(Seq<char>, JsonView)>::empty());
        assert(new_one.drop_last() == Seq::<(Seq<char>, JsonView)>::empty());
        assert(field(old_one, other) == if other == key {
            Some(fields[i].1)
        } else {
            None
        });
        assert(field(new_one, other) == if other == key {
            Some(value)
        } else {
            None
        });
        lemma_field_split(head, old_one + tail, other);
        lemma_field_split(head, new_one + tail, other);
        lemma_field_split(old_one, tail, other);
        lemma_field_split(new_one, tail, other);
        lemma_without_split(head, old_one + tail, key);
        lemma_without_split(head, new_one + tail, key);
        lemma_without_split(old_one, tail, key);
        lemma_without_split(new_one, tail, key);
        assert(without(old_one, key) == without(new_one, key));
    }
}

proof fn lemma_position_put(fields: Fields, key: Seq<char>, value: JsonView, other: Seq<char>)
    requires
        position(fields, key) >= 0,
    ensures
        position(put(fields, key, value), other) == position(fields, other),
{
    let f = put(fields, key, value);
    lemma_position(fields, key);
    lemma_position(fields, other);
    lemma_position(f, other);
    let a = position(fields, other);
    let b = position(f, other);
    assert(forall|j: int| 0 <= j < f.len() ==> (#[trigger] f[j]).0 == fields[j].0);
    if a < b {
        assert(fields[b].0 != other);
    }
    if b < a {
        assert(f[a].0 != other);
    }
}

/// Of two values that are set for one key, the second counts.
pub(crate) proof fn lemma_put_again(fields: Fields, key: Seq<char>, first: JsonView, second: JsonView)
    requires
        field(fields, key) is Some,
    ensures
        put(put(fields, key, first), key, second) == put(fields, key, second),
{
    lemma_position(fields, key);
    lemma_position_put(fields, key, first, key);
    assert(put(put(fields, key, first), key, second) == put(fields, key, second));
}

/// Fields with different keys can be set in any order.
pub(crate) proof fn lemma_put_apart(
    fields: Fields,
    key: Seq<char>,
    value: JsonView,
    other: Seq<char>,
    other_value: JsonView,
)
    requires
        field(fields, key) is Some,
        field(fields, other) is Some,
        key != other,
    ensures
        put(put(fields, key, value), other, other_value) == put(
            put(fields, other, other_value),
            key,
            value,
        ),
{
    lemma_position(fields, key);
    lemma_position(fields, other);
    lemma_position_put(fields, key, value, other);
    lemma_position_put(fields, other, other_value, key);
    assert(put(put(fields, key, value), other, other_value) == put(
        put(fields, other, other_value),
        key,
        value,
    ));
}

/// Sets a field.
pub fn put_field(fields: &mut Vec<(String, Json)>, key: &str, value: Json)
    ensures
        fields_view(final(fields)@) == put(fields_view(old(fields)@), key@, value@),
{
    let ghost all = fields_view(fields@);
    let mut i: usize = fields.len();
    assert(all.take(i as int) == all);
    while i > 0
        invariant
            i <= fields@.len(),
            all == fields_view(fields@),
            fields@ == old(fields)@,
            position(all, key@) == position(all.take(i as int), key@),
        decreases i,
    {
        assert(all.take(i as int).last() == all[i - 1]);
        assert(all.take(i as int).drop_last() == all.take(i - 1));
        i -= 1;
        if same_text(fields[i].0.as_str(), key) {
            fields.set(i, (key.to_owned(), value));
            assert(fields_view(fields@) == all.update(i as int, (key@, value@)));
            return ;
        }
    }
    fields.push((key.to_owned(), value));
    assert(fields_view(fields@) == all.push((key@, value@)));
}

// ---------------------------------------------------------------------------
// Text form
// ---------------------------------------------------------------------------

/// A parsed `serde_json` value, which is only carried from one call to the
/// next.
#[verifier::external_type_specification]
#[verifier::external_body]
pub struct ExValue(serde_json::Value);

/// What `serde_json` reads from a text: the document that the whole text is,
/// or nothing when it is not one JSON document.
pub uninterp spec fn json_document(text: Seq<char>) -> Option<JsonView>;

/// How `serde_json` writes a document, without white space.
pub uninterp spec fn json_text(j: JsonView) -> Seq<char>;

/// The deepest nesting that `serde_json` reads.
pub const MAX_DEPTH: usize = 127;

/// Whether arrays and objects are nested at most `depth` deep.
pub open spec fn nested_within(j: JsonView, depth: nat) -> bool
    decreases j,
{
    match j {
        JsonView::Array(items) => depth > 0 && forall|i: int|
            0 <= i < items.len() ==> nested_within(#[trigger] items[i], (depth - 1) as nat),
        JsonView::Object(fields) => depth > 0 && forall|i: int|
            0 <= i < fields.len() ==> nested_within((#[trigger] fields[i]).1, (depth - 1) as nat),
        _ => true,
    }
}

impl Json {
    /// Decides whether arrays and objects are nested at most `depth` deep.
    pub fn is_nested_within(&self, depth: usize) -> (res: bool)
        ensures
            res == nested_within(self@, depth as nat),
        decreases self,
    {
        match self {
            Json::Array(items) => {
                if depth == 0 {
                    return false;
                }
                let ghost all = self@->Array_0;
                let mut i: usize = 0;
                while i < items.len()
                    invariant
                        depth > 0,
                        i <= items@.len(),
                        *self == Json::Array(*items),
                        self@ == JsonView::Array(all),
                        all.len() == items@.len(),
                        forall|j: int| 0 <= j < all.len() ==> #[trigger] all[j] == items@[j]@,
                        forall|j: int|
                            0 <= j < i ==> nested_within(#[trigger] all[j], (depth - 1) as nat),
                    decreases items@.len() - i,
                {
                    assert(decreases_to!(self => self->Array_0@[i as int]));
                    if !items[i].is_nested_within(depth - 1) {
                        proof {
                            if nested_within(self@, depth as nat) {
                                assert(self@->Array_0 == all);
                                assert(nested_within(all[i as int], (depth - 1) as nat));
                            }
                        }
                        return false;
                    }
                    i += 1;
                }
                true
            },
            Json::Object(fields) => {
                if depth == 0 {
                    return false;
                }
                let ghost all = self@->Object_0;
                let mut i: usize = 0;
                while i < fields.len()
                    invariant
                        depth > 0,
                        i <= fields@.len(),
                        *self == Json::Object(*fields),
                        self@ == JsonView::Object(all),
                        all.len() == fields@.len(),
                        forall|j: int|
                            0 <= j < all.len() ==> #[trigger] all[j] == (
                                fields@[j].0@,
                                fields@[j].1@,
                            ),
                        forall|j: int|
                            0 <= j < i ==> nested_within((#[trigger] all[j]).1, (depth - 1) as nat),
                    decreases fields@.len() - i,
                {
                    assert(decreases_to!(self => self->Object_0@[i as int].1));
                    if !fields[i].1.is_nested_within(depth - 1) {
                        proof {
                            if nested_within(self@, depth as nat) {
                                assert(self@->Object_0 == all);
                                assert(nested_within(all[i as int].1, (depth - 1) as nat));
                            }
                        }
                        return false;
                    }
                    i += 1;
                }
                true
            },
            _ => true,
        }
    }
}

/// The key with which `serde_json`, with its feature `raw_value`, marks an object
/// that stands for the document in its text, when it is the first key.
pub open spec fn marker() -> Seq<char> {
    "$serde_json::private::RawValue"@
}

/// Whether no object has a key twice or starts with the marker, and every number
/// is written the way `serde_json` writes what it reads from it.
pub open spec fn settled(j: JsonView) -> bool
    decreases j,
{
    match j {
        JsonView::Number(t) => json_document(t) == Some(JsonView::Number(t)),
        JsonView::Array(items) => forall|i: int|
            0 <= i < items.len() ==> settled(#[trigger] items[i]),
        JsonView::Object(fields) => {
            &&& fields.len() > 0 ==> fields[0].0 != marker()
            &&& forall|i: int| 0 <= i < fields.len() ==> current(fields, i)
            &&& forall|i: int| 0 <= i < fields.len() ==> settled((#[trigger] fields[i]).1)
        },
        _ => true,
    }
}

/// Setting a field to a settled value keeps an object settled.
pub(crate) proof fn lemma_put_settled(fields: Fields, key: Seq<char>, value: JsonView, depth: nat)
    requires
        settled(JsonView::Object(fields)),
        nested_within(JsonView::Object(fields), depth),
        settled(value),
        nested_within(value, (depth - 1) as nat),
        key != marker(),
    ensures
        settled(JsonView::Object(put(fields, key, value))),
        nested_within(JsonView::Object(put(fields, key, value)), depth),
{
    let i = position(fields, key);
    lemma_position(fields, key);
    let f = put(fields, key, value);
    let whole = JsonView::Object(fields);
    assert(whole->Object_0 == fields);
    assert(forall|i: int| 0 <= i < fields.len() ==> current(fields, i));
    assert forall|j: int| 0 <= j < f.len() implies settled((#[trigger] f[j]).1) && nested_within(
        f[j].1,
        (depth - 1) as nat,
    ) by {
        if j < fields.len() {
            assert(settled(fields[j].1));
        }
    }
    assert forall|j: int| 0 <= j < f.len() implies current(f, j) by {
        if j < fields.len() {
            assert(current(fields, j));
        }
        assert forall|k: int| j < k < f.len() implies (#[trigger] f[k]).0 != f[j].0 by {
            if k < fields.len() {
                assert(fields[k].0 != fields[j].0);
            }
        }
    }
}

/// Turns a `serde_json::Value` into a document, part for part; `Number::as_u64`
/// tells unsigned integers from other numbers. Nothing is claimed of it here:
/// the contract of [`read_json`] speaks of what it gives.
#[verifier::external_body]
fn from_value(v: serde_json::Value) -> Json {
    match v {
        serde_json::Value::Null => Json::Null,
        serde_json::Value::Bool(b) => Json::Bool(b),
        serde_json::Value::Number(n) => match n.as_u64() {
            Some(u) => Json::Uint(u),
            None => Json::Number(n.to_string()),
        },
        serde_json::Value::String(s) => Json::Text(s),
        serde_json::Value::Array(a) => Json::Array(a.into_iter().map(from_value).collect()),
        serde_json::Value::Object(m) => Json::Object(
            m.into_iter().map(|(k, x)| (k, from_value(x))).collect(),
        ),
    }
}

/// Turns a document into a `serde_json::Value`, part for part; the text of a
/// number goes through `serde_json::from_str`, and becomes null when it is no
/// number. Nothing is claimed of it here: the contract of [`write_json`] speaks
/// of what becomes of it.
#[verifier::external_body]
fn to_value(j: &Json) -> serde_json::Value {
    match j {
        Json::Null => serde_json::Value::Null,
        Json::Bool(b) => serde_json::Value::Bool(*b),
        Json::Uint(u) => serde_json::Value::Number((*u).into()),
        Json::Number(t) => serde_json::from_str(t).map_or(
            serde_json::Value::Null,
            serde_json::Value::Number,
        ),
        Json::Text(s) => serde_json::Value::String(s.clone()),
        Json::Array(a) => serde_json::Value::Array(a.iter().map(to_value).collect()),
        Json::Object(f) => serde_json::Value::Object(
            f.iter().map(|(k, x)| (k.clone(), to_value(x))).collect(),
        ),
    }
}

/// Calls `serde_json::from_str` for a `serde_json::Value`, which reads a text
/// that is one JSON document and nothing else. The contract names what is read.
/// It says that what is read is settled: a map holds every key once, an object
/// that starts with the marker is read as what it stands for, and the text of a
/// number that is no unsigned integer reads as that number again. How deep the
/// document is nested is left unsaid.
#[verifier::external_body]
pub(crate) fn read_json(text: &str) -> (res: Option<Json>)
    ensures
        res is Some == json_document(text@) is Some,
        res matches Some(j) ==> json_document(text@) == Some(j@) && settled(j@),
{
    serde_json::from_str(text).ok().map(from_value)
}

/// Calls the compact `Display` form of `serde_json::Value`. The contract names
/// the text. It says that the text is one line, as every control character in
/// it is escaped, and that it is not blank. It says that reading the text gives
/// the document back, for a settled document that is not nested too deep to be
/// read.
#[verifier::external_body]
pub(crate) fn write_json(j: &Json) -> (res: String)
    ensures
        res@ == json_text(j@),
        forall|i: int| 0 <= i < res@.len() ==> #[trigger] res@[i] >= ' ',
        !blank(res@),
        settled(j@) && nested_within(j@, MAX_DEPTH as nat) ==> json_document(res@) == Some(j@),
{
    to_value(j).to_string()
}

// ---------------------------------------------------------------------------
// Laws of documents
// ---------------------------------------------------------------------------

/// A document that is neither an array nor an object is its own canonical form.
pub proof fn law_scalar_is_canonical(j: JsonView)
    requires
        !(j is Array),
        !(j is Object),
    ensures
        canonical(j) == j,
{
}

/// An array keeps its items, each in canonical form and in its place; an object
/// stays an object, with its keys ascending, and has the canonical form of each
/// of its members and no other member.
pub proof fn law_canonical_keeps_parts(j: JsonView, i: int, key: Seq<char>)
    ensures
        j matches JsonView::Array(items) ==> canonical(j) is Array && canonical(j)->Array_0.len()
            == items.len() && (0 <= i < items.len() ==> canonical(j)->Array_0[i] == canonical(
            items[i],
        )),
        j is Object ==> canonical(j) is Object && sorted_keys(canonical(j)->Object_0),
        member(j, key) is Some ==> member(canonical(j), key) == Some(
            canonical(member(j, key)->0),
        ),
        member(j, key) is None ==> member(canonical(j), key) is None,
{
    if let JsonView::Object(fields) = j {
        law_canonical_fields(fields, key);
    }
}

/// The canonical form loses nothing: documents with one canonical form differ
/// only in the order of fields.
pub proof fn law_canonical_loses_nothing(a: JsonView, b: JsonView)
    requires
        canonical(a) == canonical(b),
    ensures
        same_document(a, b),
    decreases a,
{
    match (a, b) {
        (JsonView::Array(s), JsonView::Array(t)) => {
            assert(canonical(a)->Array_0.len() == s.len());
            assert(canonical(b)->Array_0.len() == t.len());
            assert forall|i: int| 0 <= i < s.len() implies same_document(#[trigger] s[i], t[i]) by {
                assert(canonical(a)->Array_0[i] == canonical(s[i]));
                assert(canonical(b)->Array_0[i] == canonical(t[i]));
                law_canonical_loses_nothing(s[i], t[i]);
            }
        },
        (JsonView::Object(s), JsonView::Object(t)) => {
            assert(canonical_fields(s) == canonical_fields(t));
            assert forall|i: int| 0 <= i < s.len() && #[trigger] current(s, i) implies exists|
                j: int,
            |
                0 <= j < t.len() && #[trigger] current(t, j) && s[i].0 == t[j].0 && same_document(
                    s[i].1,
                    t[j].1,
                ) by {
                lemma_field_present(s, i);
                law_canonical_fields(s, s[i].0);
                law_canonical_fields(t, s[i].0);
                let j = lemma_field_at(t, s[i].0);
                assert(decreases_to!(a => s[i].1));
                law_canonical_loses_nothing(s[i].1, t[j].1);
                assert(current(t, j));
            }
            assert forall|j: int| 0 <= j < t.len() implies field(s, (#[trigger] t[j]).0) is Some by {
                lemma_field_present(t, j);
                law_canonical_fields(s, t[j].0);
                law_canonical_fields(t, t[j].0);
            }
        },
        _ => {},
    }
}

/// A document and its canonical form differ only in the order of fields, and the
/// canonical form of a canonical form is the same.
pub proof fn law_canonical_of_canonical(j: JsonView)
    ensures
        canonical(canonical(j)) == canonical(j),
        same_document(j, canonical(j)),
    decreases j,
{
    match j {
        JsonView::Array(items) => {
            assert forall|i: int| 0 <= i < items.len() implies canonical(
                canonical(#[trigger] items[i]),
            ) == canonical(items[i]) by {
                law_canonical_of_canonical(items[i]);
            }
            assert(canonical(canonical(j))->Array_0 == canonical(j)->Array_0);
        },
        JsonView::Object(fields) => {
            let once = canonical_fields(fields);
            let twice = canonical_fields(once);
            law_canonical_fields(fields, seq![]);
            law_canonical_fields(once, seq![]);
            assert forall|k: Seq<char>| #[trigger] field(twice, k) == field(once, k) by {
                law_canonical_fields(fields, k);
                law_canonical_fields(once, k);
                if field(fields, k) is Some {
                    let i = lemma_field_at(fields, k);
                    assert(decreases_to!(j => fields[i].1));
                    law_canonical_of_canonical(fields[i].1);
                }
            }
            lemma_sorted_unique(twice, once);
        },
        _ => {},
    }
    law_canonical_loses_nothing(j, canonical(j));
}

/// Documents that differ only in the order of fields have the same members, with
/// values that again differ only in the order of fields; arrays have the same
/// items in the same places; and any other documents are equal.
pub proof fn law_same_document_has_same_parts(a: JsonView, b: JsonView, key: Seq<char>, i: int)
    requires
        same_document(a, b),
    ensures
        a is Object == b is Object,
        a is Array == b is Array,
        a is Null || a is Bool || a is Uint || a is Number || a is Text ==> a == b,
        member(a, key) is Some == member(b, key) is Some,
        member(a, key) is Some ==> same_document(member(a, key)->0, member(b, key)->0),
        a is Array ==> a->Array_0.len() == b->Array_0.len(),
        a is Array && 0 <= i < a->Array_0.len() ==> same_document(a->Array_0[i], b->Array_0[i]),
{
    if let (JsonView::Object(s), JsonView::Object(t)) = (a, b) {
        lemma_same_fields(s, t, key);
        if field(s, key) is Some {
            law_canonical_loses_nothing(field(s, key)->0, field(t, key)->0);
        }
    }
}

/// Where a key occurs more than once, its last occurrence counts; a key that does
/// not occur has no value.
pub proof fn law_last_occurrence_counts(fields: Fields, key: Seq<char>, i: int)
    requires
        forall|j: int| i < j < fields.len() ==> (#[trigger] fields[j]).0 != key,
        i < fields.len(),
    ensures
        i >= 0 && fields[i].0 == key ==> field(fields, key) == Some(fields[i].1),
        i < 0 ==> field(fields, key) is None,
{
    lemma_position(fields, key);
    if i >= 0 && fields[i].0 == key {
        assert(current(fields, i));
        lemma_field_present(fields, i);
    }
    if i < 0 {
        assert(position(fields, key) < 0) by {
            if position(fields, key) >= 0 {
                assert(fields[position(fields, key)].0 != key);
            }
        }
    }
}

/// Texts are ordered by the first place in which they differ, by code point, and
/// a text comes before every longer text that it begins.
pub proof fn law_first_difference_decides(a: Seq<char>, b: Seq<char>, i: int)
    requires
        0 <= i <= a.len(),
        i < b.len(),
        a.take(i) == b.take(i),
    ensures
        i == a.len() || a[i] < b[i] ==> text_lt(a, b) && !text_lt(b, a),
    decreases i,
{
    if i > 0 {
        assert(a[0] == a.take(i)[0] && b[0] == b.take(i)[0]);
        assert(i < a.len() ==> a.drop_first()[i - 1] == a[i]);
        assert(b.drop_first()[i - 1] == b[i]);
        assert(a.drop_first().take(i - 1) == a.take(i).drop_first());
        assert(b.drop_first().take(i - 1) == b.take(i).drop_first());
        law_first_difference_decides(a.drop_first(), b.drop_first(), i - 1);
    }
}

/// A field that was there is set in its place and the keys stay as they are; a
/// new field comes after all others.
pub proof fn law_put_in_place(fields: Fields, key: Seq<char>, value: JsonView, i: int)
    requires
        0 <= i < fields.len(),
    ensures
        put(fields, key, value)[i].0 == fields[i].0,
        fields[i].0 != key ==> put(fields, key, value)[i] == fields[i],
        field(fields, key) is Some ==> put(fields, key, value).len() == fields.len(),
        field(fields, key) is None ==> put(fields, key, value) == fields.push((key, value)),
{
    lemma_position(fields, key);
}

/// A member is an unsigned integer or a text when its value is one.
pub proof fn law_typed_members(j: JsonView, key: Seq<char>, n: u64, s: Seq<char>)
    ensures
        uint_member(j, key) == Some(n) <==> member(j, key) == Some(JsonView::Uint(n)),
        text_member(j, key) == Some(s) <==> member(j, key) == Some(JsonView::Text(s)),
        !(j is Object) ==> member(j, key) is None,
{
}

/// The contents of a document are what it holds: a value that is neither an array
/// nor an object as it is, an array item for item, and an object field for field.
pub proof fn law_contents(j: Json, i: int)
    ensures
        j is Null ==> j@ is Null,
        j matches Json::Bool(b) ==> j@ == JsonView::Bool(b),
        j matches Json::Uint(n) ==> j@ == JsonView::Uint(n),
        j matches Json::Number(s) ==> j@ == JsonView::Number(s@),
        j matches Json::Text(s) ==> j@ == JsonView::Text(s@),
        j matches Json::Array(v) ==> j@ is Array && j@->Array_0.len() == v@.len() && (0 <= i
            < v@.len() ==> j@->Array_0[i] == v@[i]@),
        j matches Json::Object(v) ==> j@ is Object && j@->Object_0 == fields_view(v@)
            && fields_view(v@).len() == v@.len() && (0 <= i < v@.len() ==> fields_view(v@)[i] == (
            v@[i].0@,
            v@[i].1@,
        )),
{
    if let Json::Object(v) = j {
        assert(j@->Object_0 == fields_view(v@));
    }
}

/// A document that is wrapped in an array or an object is nested one deeper, and a
/// part of a document one less; what is neither an array nor an object is not
/// nested at all.
pub proof fn law_nesting(j: JsonView, key: Seq<char>, depth: nat, i: int)
    ensures
        !(j is Array) && !(j is Object) ==> nested_within(j, depth),
        j is Array || j is Object ==> !nested_within(j, 0),
        nested_within(JsonView::Array(seq![j]), depth + 1) <==> nested_within(j, depth),
        nested_within(JsonView::Object(seq![(key, j)]), depth + 1) <==> nested_within(j, depth),
        j is Array && nested_within(j, depth + 1) && 0 <= i < j->Array_0.len() ==> nested_within(
            j->Array_0[i],
            depth,
        ),
        j is Object && nested_within(j, depth + 1) && 0 <= i < j->Object_0.len() ==> nested_within(
            j->Object_0[i].1,
            depth,
        ),
{
    let a = JsonView::Array(seq![j]);
    let o = JsonView::Object(seq![(key, j)]);
    assert(a->Array_0[0] == j);
    assert(o->Object_0[0] == (key, j));
    reveal_with_fuel(nested_within, 2);
    assert(((depth + 1) as nat - 1) as nat == depth);
    if nested_within(a, depth + 1) {
        assert(nested_within(a->Array_0[0], depth));
    }
    if nested_within(o, depth + 1) {
        assert(nested_within(o->Object_0[0].1, depth));
    }
}

} // verus!
