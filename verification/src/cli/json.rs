//! The request a command line sends, as the JSON value it is: objects in
//! the order their fields were written, and a field written twice holding
//! the last value written.

use vstd::prelude::*;

verus! {

/// A JSON value.
#[derive(Debug)]
pub enum Json {
    Null,
    Bool(bool),
    Number(i128),
    Text(String),
    List(Vec<Json>),
    Object(Vec<(String, Json)>),
}

/// A JSON value as a mathematical value.
pub enum JsonView {
    Null,
    Bool(bool),
    Number(int),
    Text(Seq<char>),
    List(Seq<JsonView>),
    Object(Seq<(Seq<char>, JsonView)>),
}

impl Json {
    pub open spec fn view_of(self) -> JsonView
        decreases self,
    {
        match self {
            Json::Null => JsonView::Null,
            Json::Bool(b) => JsonView::Bool(b),
            Json::Number(n) => JsonView::Number(n as int),
            Json::Text(s) => JsonView::Text(s@),
            Json::List(items) => {
                proof {
                    assert(decreases_to!(self => items));
                    assert(decreases_to!(items => items@));
                }
                JsonView::List(list_view(items@))
            },
            Json::Object(fields) => {
                proof {
                    assert(decreases_to!(self => fields));
                    assert(decreases_to!(fields => fields@));
                }
                JsonView::Object(fields_view(fields@))
            },
        }
    }
}

/// The values of a list, each as a mathematical value.
pub open spec fn list_view(items: Seq<Json>) -> Seq<JsonView>
    decreases items,
{
    if items.len() == 0 {
        Seq::empty()
    } else {
        proof {
            assert(decreases_to!(items => items[0]));
            assert(decreases_to!(items => items.subrange(1, items.len() as int)));
        }
        seq![items[0].view_of()] + list_view(items.subrange(1, items.len() as int))
    }
}

/// The fields of an object, each as a mathematical value.
pub open spec fn fields_view(fields: Seq<(String, Json)>) -> Seq<(Seq<char>, JsonView)>
    decreases fields,
{
    if fields.len() == 0 {
        Seq::empty()
    } else {
        proof {
            assert(decreases_to!(fields => fields[0]));
            assert(decreases_to!(fields[0] => fields[0].1));
            assert(decreases_to!(fields => fields.subrange(1, fields.len() as int)));
        }
        seq![(fields[0].0@, fields[0].1.view_of())] + fields_view(fields.subrange(1, fields.len() as int))
    }
}

impl View for Json {
    type V = JsonView;

    open spec fn view(&self) -> JsonView {
        self.view_of()
    }
}

/// The fields of an object are as many as the object has, each the
/// mathematical value of the field it stands for.
pub proof fn lemma_fields_view(fields: Seq<(String, Json)>)
    ensures
        fields_view(fields).len() == fields.len(),
        forall|i: int| 0 <= i < fields.len() ==> #[trigger] fields_view(fields)[i] == (fields[i].0@, fields[i].1.view_of()),
    decreases fields.len(),
{
    if fields.len() > 0 {
        let rest = fields.subrange(1, fields.len() as int);
        lemma_fields_view(rest);
        assert forall|i: int| 0 <= i < fields.len() implies #[trigger] fields_view(fields)[i] == (fields[i].0@, fields[i].1.view_of()) by {
            if i > 0 {
                assert(fields_view(fields)[i] == fields_view(rest)[i - 1]);
                assert(rest[i - 1] == fields[i]);
            }
        }
    }
}

/// The items of a list are as many as the list has, each the
/// mathematical value of the item it stands for.
pub proof fn lemma_list_view(items: Seq<Json>)
    ensures
        list_view(items).len() == items.len(),
        forall|i: int| 0 <= i < items.len() ==> #[trigger] list_view(items)[i] == items[i].view_of(),
    decreases items.len(),
{
    if items.len() > 0 {
        let rest = items.subrange(1, items.len() as int);
        lemma_list_view(rest);
        assert forall|i: int| 0 <= i < items.len() implies #[trigger] list_view(items)[i] == items[i].view_of() by {
            if i > 0 {
                assert(list_view(items)[i] == list_view(rest)[i - 1]);
                assert(rest[i - 1] == items[i]);
            }
        }
    }
}

/// One more item, one more value.
pub proof fn lemma_list_view_push(items: Seq<Json>, item: Json)
    ensures
        list_view(items.push(item)) == list_view(items).push(item.view_of()),
{
    lemma_list_view(items);
    lemma_list_view(items.push(item));
    assert(list_view(items.push(item)) =~= list_view(items).push(item.view_of()));
}

/// Where the field named `key` is in an object, or the number of fields.
pub open spec fn key_at(fields: Seq<(Seq<char>, JsonView)>, key: Seq<char>) -> int
    decreases fields.len(),
{
    if fields.len() == 0 {
        0
    } else if fields[0].0 == key {
        0
    } else {
        1 + key_at(fields.drop_first(), key)
    }
}

pub proof fn lemma_key_at(fields: Seq<(Seq<char>, JsonView)>, key: Seq<char>)
    ensures
        0 <= key_at(fields, key) <= fields.len(),
        key_at(fields, key) < fields.len() ==> fields[key_at(fields, key)].0 == key,
        forall|k: int| 0 <= k < key_at(fields, key) ==> fields[k].0 != key,
    decreases fields.len(),
{
    if fields.len() > 0 && fields[0].0 != key {
        lemma_key_at(fields.drop_first(), key);
        assert forall|k: int| 0 <= k < key_at(fields, key) implies fields[k].0 != key by {
            if k > 0 {
                assert(fields[k] == fields.drop_first()[k - 1]);
            }
        }
    }
}

/// An object with a field set: in its place where the object has it, at
/// the end where it does not.
pub open spec fn put(fields: Seq<(Seq<char>, JsonView)>, key: Seq<char>, value: JsonView) -> Seq<(Seq<char>, JsonView)> {
    let at = key_at(fields, key);
    if at < fields.len() {
        fields.update(at, (key, value))
    } else {
        fields.push((key, value))
    }
}

/// The value of a field of an object, if it has one.
pub open spec fn field_of(fields: Seq<(Seq<char>, JsonView)>, key: Seq<char>) -> Option<JsonView> {
    let at = key_at(fields, key);
    if at < fields.len() {
        Some(fields[at].1)
    } else {
        None
    }
}

/// Sets a field of an object: in its place where the object has it, at
/// the end where it does not, as a JSON object keeps one value a key.
pub fn insert(fields: &mut Vec<(String, Json)>, key: &str, value: Json)
    ensures
        fields_view(final(fields)@) == put(fields_view(old(fields)@), key@, value@),
{
    let ghost before = fields_view(fields@);
    let ghost given = fields@;
    proof {
        lemma_fields_view(fields@);
        lemma_key_at(before, key@);
    }
    let name = crate::text::string_of(crate::text::chars_of(key).as_slice());
    let mut i: usize = 0;
    while i < fields.len()
        invariant
            before == fields_view(fields@),
            given == fields@,
            given == old(fields)@,
            name@ == key@,
            fields_view(fields@).len() == fields@.len(),
            forall|j: int| 0 <= j < fields@.len() ==> #[trigger] fields_view(fields@)[j] == (fields@[j].0@, fields@[j].1.view_of()),
            i <= fields@.len(),
            forall|k: int| 0 <= k < i ==> before[k].0 != key@,
            0 <= key_at(before, key@) <= before.len(),
            key_at(before, key@) < before.len() ==> before[key_at(before, key@)].0 == key@,
            forall|k: int| 0 <= k < key_at(before, key@) ==> before[k].0 != key@,
        decreases fields@.len() - i,
    {
        let found = crate::text::same(
            crate::text::chars_of(fields[i].0.as_str()).as_slice(),
            crate::text::chars_of(key).as_slice(),
        );
        if found {
            assert(before[i as int].0 == key@);
            assert(key_at(before, key@) == i);
            let ghost was = fields@;
            let ghost entry = (name, value);
            assert(entry.1 == value);
            fields[i] = (name, value);
            proof {
                assert(fields@ == was.update(i as int, entry));
                lemma_fields_view(fields@);
                assert forall|j: int| 0 <= j < fields@.len() implies fields_view(fields@)[j] == before.update(i as int, (key@, entry.1.view_of()))[j] by {
                    if j != i {
                        assert(fields@[j] == was[j]);
                        assert(was == given);
                        assert(fields_view(was)[j] == (was[j].0@, was[j].1.view_of()));
                    } else {
                        assert(fields@[j] == entry);
                        assert(entry.0@ == key@);
                    }
                }
                assert(fields_view(fields@) =~= before.update(i as int, (key@, entry.1.view_of())));
                assert(entry.1@ == entry.1.view_of());
                assert(put(before, key@, entry.1@) == fields_view(fields@));
                assert(fields_view(old(fields)@) == before);
                assert(entry.1@ == value@);
            }
            return;
        }
        i = i + 1;
    }
    let ghost was = fields@;
    fields.push((name, value));
    proof {
        lemma_fields_view(fields@);
        assert(key_at(before, key@) == before.len());
        assert(fields_view(fields@) =~= before.push((key@, value@)));
    }
}

/// A text value.
pub fn text(s: &str) -> (value: Json)
    ensures
        value@ == JsonView::Text(s@),
{
    Json::Text(crate::text::string_of(crate::text::chars_of(s).as_slice()))
}

/// An object of one field.
pub fn object1(k1: &str, v1: Json) -> (v: Json)
    ensures
        v@ == JsonView::Object(seq![(k1@, v1@)]),
{
    let mut fields: Vec<(String, Json)> = Vec::new();
    proof {
        lemma_fields_view(fields@);
        lemma_key_at(fields_view(fields@), k1@);
    }
    insert(&mut fields, k1, v1);
    proof {
        assert(fields_view(fields@) =~= seq![(k1@, v1@)]);
    }
    Json::Object(fields)
}

/// An object of two fields, in order.
pub fn object2(k1: &str, v1: Json, k2: &str, v2: Json) -> (v: Json)
    requires
        k1@ != k2@,
    ensures
        v@ == JsonView::Object(seq![(k1@, v1@), (k2@, v2@)]),
{
    let ghost first = v1@;
    let one = object1(k1, v1);
    match one {
        Json::Object(mut fields) => {
            proof {
                lemma_key_at(fields_view(fields@), k2@);
            }
            insert(&mut fields, k2, v2);
            proof {
                assert(fields_view(fields@) =~= seq![(k1@, first), (k2@, v2@)]);
            }
            Json::Object(fields)
        },
        _ => one,
    }
}

/// An object of three fields, in order.
pub fn object3(k1: &str, v1: Json, k2: &str, v2: Json, k3: &str, v3: Json) -> (v: Json)
    requires
        k1@ != k2@,
        k1@ != k3@,
        k2@ != k3@,
    ensures
        v@ == JsonView::Object(seq![(k1@, v1@), (k2@, v2@), (k3@, v3@)]),
{
    let ghost first = v1@;
    let ghost second = v2@;
    let two = object2(k1, v1, k2, v2);
    match two {
        Json::Object(mut fields) => {
            proof {
                lemma_key_at(fields_view(fields@), k3@);
            }
            insert(&mut fields, k3, v3);
            proof {
                assert(fields_view(fields@) =~= seq![(k1@, first), (k2@, second), (k3@, v3@)]);
            }
            Json::Object(fields)
        },
        _ => two,
    }
}

/// Whether an object has a field named `key`.
pub fn has_key(fields: &Vec<(String, Json)>, key: &[char]) -> (has: bool)
    ensures
        has == (key_at(fields_view(fields@), key@) < fields_view(fields@).len()),
{
    proof {
        lemma_fields_view(fields@);
        lemma_key_at(fields_view(fields@), key@);
    }
    let mut k: usize = 0;
    while k < fields.len()
        invariant
            k <= fields@.len(),
            fields_view(fields@).len() == fields@.len(),
            forall|j: int| 0 <= j < fields@.len() ==> #[trigger] fields_view(fields@)[j] == (fields@[j].0@, fields@[j].1.view_of()),
            forall|j: int| 0 <= j < k ==> (#[trigger] fields@[j]).0@ != key@,
        decreases fields@.len() - k,
    {
        if crate::text::same(crate::text::chars_of(fields[k].0.as_str()).as_slice(), key) {
            proof {
                assert(fields_view(fields@)[k as int].0 == key@);
                if key_at(fields_view(fields@), key@) >= fields_view(fields@).len() {
                    lemma_key_absent(fields_view(fields@), key@, k as int);
                }
            }
            return true;
        }
        k = k + 1;
    }
    proof {
        if key_at(fields_view(fields@), key@) < fields_view(fields@).len() {
            let j = key_at(fields_view(fields@), key@);
            assert(fields@[j].0@ != key@);
        }
    }
    false
}

/// A key found nowhere before the end is in no field.
pub proof fn lemma_key_absent(fields: Seq<(Seq<char>, JsonView)>, key: Seq<char>, j: int)
    requires
        key_at(fields, key) >= fields.len(),
        0 <= j < fields.len(),
    ensures
        fields[j].0 != key,
    decreases fields.len(),
{
    if fields[0].0 == key {
    } else if j > 0 {
        lemma_key_absent(fields.drop_first(), key, j - 1);
    }
}


/// Where a key stands is where it stood when a field with the same key is
/// given a new value.
proof fn lemma_key_at_update(fields: Seq<(Seq<char>, JsonView)>, i: int, x: (Seq<char>, JsonView), key: Seq<char>)
    requires
        0 <= i < fields.len(),
        fields[i].0 == x.0,
    ensures
        key_at(fields.update(i, x), key) == key_at(fields, key),
    decreases fields.len(),
{
    let u = fields.update(i, x);
    if i > 0 {
        assert(u.drop_first() =~= fields.drop_first().update(i - 1, x));
        lemma_key_at_update(fields.drop_first(), i - 1, x, key);
    } else {
        assert(u.drop_first() =~= fields.drop_first());
    }
}

/// Where a key stands once a field is added at the end.
proof fn lemma_key_at_push(fields: Seq<(Seq<char>, JsonView)>, x: (Seq<char>, JsonView), key: Seq<char>)
    ensures
        key_at(fields.push(x), key) == if key_at(fields, key) < fields.len() {
            key_at(fields, key)
        } else if x.0 == key {
            fields.len() as int
        } else {
            fields.len() + 1 as int
        },
    decreases fields.len(),
{
    lemma_key_at(fields, key);
    assert(fields.push(x)[0] == if fields.len() == 0 { x } else { fields[0] });
    if fields.len() == 0 {
        assert(fields.push(x).drop_first() =~= Seq::<(Seq<char>, JsonView)>::empty());
        assert(key_at(Seq::<(Seq<char>, JsonView)>::empty(), key) == 0);
    } else {
        assert(fields.push(x).drop_first() =~= fields.drop_first().push(x));
        lemma_key_at_push(fields.drop_first(), x, key);
    }
}

/// A field set is read back as the value set, and every other field reads
/// as it did.
pub proof fn lemma_field_put(fields: Seq<(Seq<char>, JsonView)>, key: Seq<char>, value: JsonView, other: Seq<char>)
    ensures
        field_of(put(fields, key, value), other) == if key == other {
            Some(value)
        } else {
            field_of(fields, other)
        },
{
    lemma_key_at(fields, key);
    lemma_key_at(fields, other);
    let at = key_at(fields, key);
    if at < fields.len() {
        lemma_key_at_update(fields, at, (key, value), other);
    } else {
        lemma_key_at_push(fields, (key, value), other);
    }
}

} // verus!
