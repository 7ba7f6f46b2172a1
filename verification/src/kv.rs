use vstd::prelude::*;
use crate::text::str_eq;

verus! {

// Key/value lists that behave as maps: a lookup takes the first entry with the key,
// an insertion replaces that entry or appends a new one.

/// The value of the first entry with key `k`.
pub open spec fn lookup<V>(s: Seq<(Seq<char>, V)>, k: Seq<char>) -> Option<V>
    decreases s.len(),
{
    if s.len() == 0 {
        None
    } else if s[0].0 == k {
        Some(s[0].1)
    } else {
        lookup(s.drop_first(), k)
    }
}

/// `s` with the value of key `k` set to `v`: the first entry with the key is replaced,
/// or a new entry is appended.
pub open spec fn insert<V>(s: Seq<(Seq<char>, V)>, k: Seq<char>, v: V) -> Seq<(Seq<char>, V)>
    decreases s.len(),
{
    if s.len() == 0 {
        seq![(k, v)]
    } else if s[0].0 == k {
        s.update(0, (k, v))
    } else {
        seq![s[0]] + insert(s.drop_first(), k, v)
    }
}

pub proof fn lemma_lookup_first<V>(s: Seq<(Seq<char>, V)>, k: Seq<char>, i: int)
    requires
        0 <= i < s.len(),
        s[i].0 == k,
        forall|j: int| 0 <= j < i ==> s[j].0 != k,
    ensures
        lookup(s, k) == Some(s[i].1),
    decreases i,
{
    if i > 0 {
        lemma_lookup_first(s.drop_first(), k, i - 1);
    }
}

pub proof fn lemma_lookup_none<V>(s: Seq<(Seq<char>, V)>, k: Seq<char>)
    requires
        forall|j: int| 0 <= j < s.len() ==> s[j].0 != k,
    ensures
        lookup(s, k) is None,
    decreases s.len(),
{
    if s.len() > 0 {
        lemma_lookup_none(s.drop_first(), k);
    }
}

/// What an insertion does to every lookup.
pub proof fn lemma_insert_lookup<V>(s: Seq<(Seq<char>, V)>, k: Seq<char>, v: V, q: Seq<char>)
    ensures
        lookup(insert(s, k, v), q) == if q == k {
            Some(v)
        } else {
            lookup(s, q)
        },
    decreases s.len(),
{
    let r = insert(s, k, v);
    if s.len() == 0 {
        assert(r == seq![(k, v)]);
        assert(r.drop_first() =~= Seq::<(Seq<char>, V)>::empty());
        assert(lookup(r.drop_first(), q) is None);
    } else if s[0].0 == k {
        assert(r == s.update(0, (k, v)));
        assert(r[0] == (k, v));
        assert(r.drop_first() =~= s.drop_first());
    } else {
        lemma_insert_lookup(s.drop_first(), k, v, q);
        assert(r == seq![s[0]] + insert(s.drop_first(), k, v));
        assert(r[0] == s[0]);
        assert(r.drop_first() =~= insert(s.drop_first(), k, v));
    }
}

pub proof fn lemma_insert_update<V>(s: Seq<(Seq<char>, V)>, k: Seq<char>, v: V, i: int)
    requires
        0 <= i < s.len(),
        s[i].0 == k,
        forall|j: int| 0 <= j < i ==> s[j].0 != k,
    ensures
        insert(s, k, v) == s.update(i, (k, v)),
    decreases i,
{
    if i > 0 {
        lemma_insert_update(s.drop_first(), k, v, i - 1);
        assert(seq![s[0]] + s.drop_first().update(i - 1, (k, v)) =~= s.update(i, (k, v)));
    }
}

pub proof fn lemma_insert_append<V>(s: Seq<(Seq<char>, V)>, k: Seq<char>, v: V)
    requires
        forall|j: int| 0 <= j < s.len() ==> s[j].0 != k,
    ensures
        insert(s, k, v) == s.push((k, v)),
    decreases s.len(),
{
    if s.len() > 0 {
        lemma_insert_append(s.drop_first(), k, v);
        assert(seq![s[0]] + s.drop_first().push((k, v)) =~= s.push((k, v)));
    }
}

/// The view of a list of string pairs.
pub open spec fn pairs_view(v: Seq<(String, String)>) -> Seq<(Seq<char>, Seq<char>)> {
    Seq::new(v.len() as nat, |i: int| (v[i].0@, v[i].1@))
}

/// The index of the first pair with key `k`.
pub fn pair_find(v: &Vec<(String, String)>, k: &str) -> (r: Option<usize>)
    ensures
        match r {
            Some(i) => i < v.len() && v@[i as int].0@ == k@ && forall|j: int|
                0 <= j < i ==> v@[j].0@ != k@,
            None => forall|j: int| 0 <= j < v.len() ==> v@[j].0@ != k@,
        },
        r is None <==> lookup(pairs_view(v@), k@) is None,
        r matches Some(i) ==> lookup(pairs_view(v@), k@) == Some(v@[i as int].1@),
{
    let mut i: usize = 0;
    while i < v.len()
        invariant
            i <= v.len(),
            forall|j: int| 0 <= j < i ==> v@[j].0@ != k@,
        decreases v.len() - i,
    {
        if str_eq(v[i].0.as_str(), k) {
            proof {
                lemma_lookup_first(pairs_view(v@), k@, i as int);
            }
            return Some(i);
        }
        i = i + 1;
    }
    proof {
        lemma_lookup_none(pairs_view(v@), k@);
    }
    None
}

/// The value of key `k`, copied.
pub fn pair_get(v: &Vec<(String, String)>, k: &str) -> (r: Option<String>)
    ensures
        match r {
            Some(x) => lookup(pairs_view(v@), k@) == Some(x@),
            None => lookup(pairs_view(v@), k@) is None,
        },
{
    match pair_find(v, k) {
        Some(i) => Some(v[i].1.clone()),
        None => None,
    }
}

/// Sets key `k` to `val`.
pub fn pair_insert(v: &mut Vec<(String, String)>, k: String, val: String)
    ensures
        pairs_view(final(v)@) == insert(pairs_view(old(v)@), k@, val@),
{
    let ghost old_e = pairs_view(v@);
    match pair_find(v, k.as_str()) {
        Some(i) => {
            proof {
                lemma_insert_update(old_e, k@, val@, i as int);
            }
            v.set(i, (k, val));
            assert(pairs_view(v@) =~= old_e.update(i as int, (k@, val@)));
        },
        None => {
            proof {
                lemma_insert_append(old_e, k@, val@);
            }
            v.push((k, val));
            assert(pairs_view(v@) =~= old_e.push((k@, val@)));
        },
    }
}

} // verus!
