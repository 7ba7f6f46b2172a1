use vstd::prelude::*;
use crate::kv::{lookup, insert, lemma_lookup_first, lemma_lookup_none, lemma_insert_lookup, lemma_insert_update, lemma_insert_append};
use crate::text::{str_eq, split, split_str, lemma_split_acc_nonempty};

verus! {

/// A JSON document as the library handles it. A number is kept as its JSON text, so that no
/// precision is lost between reading and writing a configuration file. An object is a list of
/// key/value entries; lookups take the first entry with the key.
pub enum Json {
    Null,
    Bool(bool),
    Num(String),
    Str(String),
    Arr(Vec<Json>),
    Obj(Vec<(String, Json)>),
}

/// The mathematical value of a `Json`.
pub enum JVal {
    Null,
    Bool(bool),
    Num(Seq<char>),
    Str(Seq<char>),
    Arr(Seq<JVal>),
    Obj(Seq<(Seq<char>, JVal)>),
}

impl Json {
    pub open spec fn view(&self) -> JVal
        decreases self,
    {
        match self {
            Json::Null => JVal::Null,
            Json::Bool(b) => JVal::Bool(*b),
            Json::Num(s) => JVal::Num(s@),
            Json::Str(s) => JVal::Str(s@),
            Json::Arr(v) => JVal::Arr(
                Seq::new(
                    v.len() as nat,
                    |i: int|
                        if 0 <= i < v.len() {
                            v@[i].view()
                        } else {
                            JVal::Null
                        },
                ),
            ),
            Json::Obj(v) => JVal::Obj(
                Seq::new(
                    v.len() as nat,
                    |i: int|
                        if 0 <= i < v.len() {
                            (v@[i].0@, v@[i].1.view())
                        } else {
                            (Seq::empty(), JVal::Null)
                        },
                ),
            ),
        }
    }
}

/// The view of a list of object entries.
pub open spec fn entries_view(v: Seq<(String, Json)>) -> Seq<(Seq<char>, JVal)> {
    Seq::new(v.len() as nat, |i: int| (v[i].0@, v[i].1@))
}

/// The view of a list of JSON values.
pub open spec fn items_view(v: Seq<Json>) -> Seq<JVal> {
    Seq::new(v.len() as nat, |i: int| v[i]@)
}

pub proof fn lemma_obj_view(v: Vec<(String, Json)>)
    ensures
        Json::Obj(v)@ == JVal::Obj(entries_view(v@)),
{
    let j = Json::Obj(v);
    let b = entries_of(j@);
    assert(b.len() == v.len());
    assert forall|i: int| 0 <= i < v.len() implies #[trigger] b[i] == entries_view(v@)[i] by {}
    assert(b =~= entries_view(v@));
}

pub proof fn lemma_arr_view(v: Vec<Json>)
    ensures
        Json::Arr(v)@ == JVal::Arr(items_view(v@)),
{
    let b = items_of(Json::Arr(v)@);
    assert(b.len() == v.len());
    assert forall|i: int| 0 <= i < v.len() implies #[trigger] b[i] == items_view(v@)[i] by {}
    assert(b =~= items_view(v@));
}

/// The items of an array value; nothing for any other value.
pub open spec fn items_of(v: JVal) -> Seq<JVal> {
    match v {
        JVal::Arr(e) => e,
        _ => Seq::empty(),
    }
}

/// The entries of an object value; nothing for any other value.
pub open spec fn entries_of(v: JVal) -> Seq<(Seq<char>, JVal)> {
    match v {
        JVal::Obj(e) => e,
        _ => Seq::empty(),
    }
}

/// Member `k` of `v` when `v` is an object (`Value::get` with a string key).
pub open spec fn member(v: JVal, k: Seq<char>) -> Option<JVal> {
    match v {
        JVal::Obj(e) => lookup(e, k),
        _ => None,
    }
}

/// The string held by `v`, if it is a string (`Value::as_str`).
pub open spec fn as_str(v: Option<JVal>) -> Option<Seq<char>> {
    match v {
        Some(JVal::Str(s)) => Some(s),
        _ => None,
    }
}

/// The boolean held by `v`, if it is one (`Value::as_bool`).
pub open spec fn as_bool(v: Option<JVal>) -> Option<bool> {
    match v {
        Some(JVal::Bool(b)) => Some(b),
        _ => None,
    }
}

/// The index of the first entry with key `k`.
pub fn find_key(v: &Vec<(String, Json)>, k: &str) -> (r: Option<usize>)
    ensures
        match r {
            Some(i) => i < v.len() && v@[i as int].0@ == k@ && forall|j: int|
                0 <= j < i ==> v@[j].0@ != k@,
            None => forall|j: int| 0 <= j < v.len() ==> v@[j].0@ != k@,
        },
        r is None <==> lookup(entries_view(v@), k@) is None,
        r matches Some(i) ==> lookup(entries_view(v@), k@) == Some(v@[i as int].1@),
{
    let mut i: usize = 0;
    while i < v.len()
        invariant
            i <= v.len(),
            forall|j: int| 0 <= j < i ==> v@[j].0@ != k@,
        decreases v.len() - i,
    {
        if str_eq(v[i].0.as_str(), k) {
            proof {
                lemma_lookup_first(entries_view(v@), k@, i as int);
            }
            return Some(i);
        }
        i = i + 1;
    }
    proof {
        lemma_lookup_none(entries_view(v@), k@);
    }
    None
}

/// The value of key `k` (`Map::get`).
pub fn obj_get<'a>(v: &'a Vec<(String, Json)>, k: &str) -> (r: Option<&'a Json>)
    ensures
        match r {
            Some(j) => lookup(entries_view(v@), k@) == Some(j@),
            None => lookup(entries_view(v@), k@) is None,
        },
{
    match find_key(v, k) {
        Some(i) => Some(&v[i].1),
        None => None,
    }
}

/// Member `k` of a JSON value, if the value is an object (`Value::get`).
pub fn get<'a>(j: &'a Json, k: &str) -> (r: Option<&'a Json>)
    ensures
        match r {
            Some(x) => member(j@, k@) == Some(x@),
            None => member(j@, k@) is None,
        },
{
    match j {
        Json::Obj(v) => {
            proof {
                lemma_obj_view(*v);
            }
            obj_get(v, k)
        },
        _ => None,
    }
}

/// Sets key `k` to `val` (`Map::insert`).
pub fn obj_insert(v: &mut Vec<(String, Json)>, k: String, val: Json)
    ensures
        entries_view(final(v)@) == insert(entries_view(old(v)@), k@, val@),
{
    let ghost old_e = entries_view(v@);
    match find_key(v, k.as_str()) {
        Some(i) => {
            proof {
                lemma_insert_update(old_e, k@, val@, i as int);
            }
            v.set(i, (k, val));
            assert(entries_view(v@) =~= old_e.update(i as int, (k@, val@)));
        },
        None => {
            proof {
                lemma_insert_append(old_e, k@, val@);
            }
            v.push((k, val));
            assert(entries_view(v@) =~= old_e.push((k@, val@)));
        },
    }
}

/// A JSON string.
pub fn jstr(s: &str) -> (j: Json)
    ensures
        j@ == JVal::Str(s@),
{
    Json::Str(s.to_owned())
}

/// An empty JSON object.
pub fn empty_obj() -> (j: Json)
    ensures
        j@ == JVal::Obj(Seq::empty()),
{
    let v: Vec<(String, Json)> = Vec::new();
    proof {
        lemma_obj_view(v);
        assert(entries_view(v@) =~= Seq::empty());
    }
    Json::Obj(v)
}

} // verus!

verus! {

/// The value at a dotted key path: each key selects a member of an object.
pub open spec fn get_path(v: JVal, keys: Seq<Seq<char>>) -> Option<JVal>
    decreases keys.len(),
{
    if keys.len() == 0 {
        Some(v)
    } else {
        match member(v, keys[0]) {
            Some(c) => get_path(c, keys.drop_first()),
            None => None,
        }
    }
}

/// `v` with the member at the key path set to `x`. A value on the way that is not an object
/// is replaced by an empty object first.
pub open spec fn set_path(v: JVal, keys: Seq<Seq<char>>, x: JVal) -> JVal
    decreases keys.len(),
{
    if keys.len() == 0 {
        x
    } else if keys.len() == 1 {
        JVal::Obj(insert(entries_of(v), keys[0], x))
    } else {
        let child = match lookup(entries_of(v), keys[0]) {
            Some(JVal::Obj(c)) => JVal::Obj(c),
            _ => JVal::Obj(Seq::empty()),
        };
        JVal::Obj(insert(entries_of(v), keys[0], set_path(child, keys.drop_first(), x)))
    }
}

/// The views of a list of strings.
pub open spec fn strings_view(v: Seq<String>) -> Seq<Seq<char>> {
    Seq::new(v.len() as nat, |i: int| v[i]@)
}

/// Reading a key path back after setting it gives the value that was set.
pub proof fn lemma_get_set_path(v: JVal, keys: Seq<Seq<char>>, x: JVal)
    requires
        keys.len() >= 1,
    ensures
        get_path(set_path(v, keys, x), keys) == Some(x),
    decreases keys.len(),
{
    let r = set_path(v, keys, x);
    if keys.len() == 1 {
        lemma_insert_lookup(entries_of(v), keys[0], x, keys[0]);
        assert(keys.drop_first().len() == 0);
    } else {
        let child = match lookup(entries_of(v), keys[0]) {
            Some(JVal::Obj(c)) => JVal::Obj(c),
            _ => JVal::Obj(Seq::empty()),
        };
        let inner = set_path(child, keys.drop_first(), x);
        lemma_insert_lookup(entries_of(v), keys[0], inner, keys[0]);
        lemma_get_set_path(child, keys.drop_first(), x);
    }
}

/// Setting a key path leaves every other top-level member as it was.
pub proof fn lemma_set_path_other_member(v: JVal, keys: Seq<Seq<char>>, x: JVal, q: Seq<char>)
    requires
        keys.len() >= 1,
        q != keys[0],
    ensures
        lookup(entries_of(set_path(v, keys, x)), q) == lookup(entries_of(v), q),
{
    if keys.len() == 1 {
        lemma_insert_lookup(entries_of(v), keys[0], x, q);
    } else {
        let child = match lookup(entries_of(v), keys[0]) {
            Some(JVal::Obj(c)) => JVal::Obj(c),
            _ => JVal::Obj(Seq::empty()),
        };
        lemma_insert_lookup(entries_of(v), keys[0], set_path(child, keys.drop_first(), x), q);
    }
}

/// The value at a dotted path (`support.a.b`), as `get_by_path` reads it.
pub fn get_by_path<'a>(obj: &'a Json, path: &str) -> (r: Option<&'a Json>)
    ensures
        match r {
            Some(x) => get_path(obj@, split(path@, '.')) == Some(x@),
            None => get_path(obj@, split(path@, '.')) is None,
        },
{
    let keys = split_str(path, '.');
    let ghost ks = split(path@, '.');
    let mut cur: &Json = obj;
    let mut i: usize = 0;
    assert(ks.skip(0) =~= ks);
    while i < keys.len()
        invariant
            i <= keys.len(),
            ks == split(path@, '.'),
            keys@.len() == ks.len(),
            forall|k: int| 0 <= k < keys@.len() ==> #[trigger] keys@[k]@ == ks[k],
            get_path(obj@, ks) == get_path(cur@, ks.skip(i as int)),
        decreases keys.len() - i,
    {
        assert(ks.skip(i as int).drop_first() =~= ks.skip(i + 1));
        assert(ks.skip(i as int)[0] == keys@[i as int]@);
        match get(cur, keys[i].as_str()) {
            Some(c) => {
                cur = c;
            },
            None => {
                assert(get_path(cur@, ks.skip(i as int)) is None);
                return None;
            },
        }
        i = i + 1;
    }
    assert(ks.skip(i as int).len() == 0);
    Some(cur)
}

fn set_path_from(v: Json, keys: &Vec<String>, idx: usize, x: Json) -> (r: Json)
    requires
        idx < keys.len(),
    ensures
        r@ == set_path(v@, strings_view(keys@).skip(idx as int), x@),
    decreases keys.len() - idx,
{
    let ghost ks = strings_view(keys@).skip(idx as int);
    let ghost e = entries_of(v@);
    let mut entries: Vec<(String, Json)> = match v {
        Json::Obj(e) => {
            proof {
                lemma_obj_view(e);
            }
            e
        },
        _ => Vec::new(),
    };
    assert(entries_view(entries@) =~= e);
    assert(ks[0] == keys@[idx as int]@);
    if idx + 1 == keys.len() {
        obj_insert(&mut entries, keys[idx].clone(), x);
        proof {
            lemma_obj_view(entries);
        }
        Json::Obj(entries)
    } else {
        assert(ks.drop_first() =~= strings_view(keys@).skip(idx + 1));
        match find_key(&entries, keys[idx].as_str()) {
            Some(i) => {
                let (k, c) = entries.remove(i);
                let child = match c {
                    Json::Obj(ce) => Json::Obj(ce),
                    _ => empty_obj(),
                };
                let inner = set_path_from(child, keys, idx + 1, x);
                proof {
                    lemma_insert_update(e, ks[0], inner@, i as int);
                }
                entries.insert(i, (k, inner));
                assert(entries_view(entries@) =~= e.update(i as int, (ks[0], inner@)));
                proof {
                    lemma_obj_view(entries);
                }
                Json::Obj(entries)
            },
            None => {
                let inner = set_path_from(empty_obj(), keys, idx + 1, x);
                proof {
                    lemma_insert_append(e, ks[0], inner@);
                }
                entries.push((keys[idx].clone(), inner));
                assert(entries_view(entries@) =~= e.push((ks[0], inner@)));
                proof {
                    lemma_obj_view(entries);
                }
                Json::Obj(entries)
            },
        }
    }
}

/// Writes `value` at a dotted path, creating the objects on the way (`set_by_path`).
pub fn set_by_path(obj: &mut Json, path: &str, value: Json)
    ensures
        final(obj)@ == set_path(old(obj)@, split(path@, '.'), value@),
{
    let keys = split_str(path, '.');
    proof {
        lemma_split_acc_nonempty(Seq::empty(), path@, '.');
        assert(strings_view(keys@).skip(0) =~= split(path@, '.'));
    }
    let mut v = Json::Null;
    std::mem::swap(&mut v, obj);
    *obj = set_path_from(v, &keys, 0, value);
}

} // verus!

verus! {

/// A JSON object with the given entries.
pub fn obj(v: Vec<(String, Json)>) -> (j: Json)
    ensures
        j@ == JVal::Obj(entries_view(v@)),
{
    proof {
        lemma_obj_view(v);
    }
    Json::Obj(v)
}

/// A JSON array with the given items.
pub fn arr(v: Vec<Json>) -> (j: Json)
    ensures
        j@ == JVal::Arr(items_view(v@)),
{
    proof {
        lemma_arr_view(v);
    }
    Json::Arr(v)
}

/// A JSON number written as `s`.
pub fn jnum(s: &str) -> (j: Json)
    ensures
        j@ == JVal::Num(s@),
{
    Json::Num(s.to_owned())
}

/// A JSON string holding `s`.
pub fn jstring(s: String) -> (j: Json)
    ensures
        j@ == JVal::Str(s@),
{
    Json::Str(s)
}

/// Replaces the value of the first entry with key `k` by `null` and hands the old value back.
pub fn obj_take(v: &mut Vec<(String, Json)>, k: &str) -> (r: Option<Json>)
    ensures
        match r {
            Some(x) => lookup(entries_view(old(v)@), k@) == Some(x@),
            None => lookup(entries_view(old(v)@), k@) is None,
        },
        forall|x: JVal|
            #[trigger] insert(entries_view(final(v)@), k@, x) == insert(
                entries_view(old(v)@),
                k@,
                x,
            ),
        forall|q: Seq<char>|
            q != k@ ==> #[trigger] lookup(entries_view(final(v)@), q) == lookup(
                entries_view(old(v)@),
                q,
            ),
{
    let ghost e0 = entries_view(v@);
    match find_key(v, k) {
        Some(i) => {
            let (key, val) = v.remove(i);
            v.insert(i, (key, Json::Null));
            proof {
                let e1 = entries_view(v@);
                assert(e1 =~= e0.update(i as int, (k@, JVal::Null)));
                assert forall|x: JVal| #[trigger] insert(e1, k@, x) == insert(e0, k@, x) by {
                    lemma_insert_update(e0, k@, x, i as int);
                    assert forall|j: int| 0 <= j < i implies e1[j].0 != k@ by {}
                    lemma_insert_update(e1, k@, x, i as int);
                    assert(e1.update(i as int, (k@, x)) =~= e0.update(i as int, (k@, x)));
                }
                assert forall|q: Seq<char>| q != k@ implies #[trigger] lookup(e1, q) == lookup(
                    e0,
                    q,
                ) by {
                    lemma_lookup_update_other(e0, i as int, (k@, JVal::Null), q);
                }
            }
            Some(val)
        },
        None => None,
    }
}

proof fn lemma_lookup_update_other(
    s: Seq<(Seq<char>, JVal)>,
    i: int,
    e: (Seq<char>, JVal),
    q: Seq<char>,
)
    requires
        0 <= i < s.len(),
        s[i].0 == e.0,
        e.0 != q,
    ensures
        lookup(s.update(i, e), q) == lookup(s, q),
    decreases i,
{
    if i > 0 {
        lemma_lookup_update_other(s.drop_first(), i - 1, e, q);
        assert(s.update(i, e).drop_first() =~= s.drop_first().update(i - 1, e));
    } else {
        assert(s.update(0, e).drop_first() =~= s.drop_first());
    }
}

} // verus!

verus! {

pub open spec fn opt_view(o: Option<Json>) -> Option<JVal> {
    match o {
        Some(j) => Some(j@),
        None => None,
    }
}

} // verus!

verus! {

/// JSON `null`.
pub fn jnull() -> (j: Json)
    ensures
        j@ == JVal::Null,
{
    Json::Null
}

} // verus!
