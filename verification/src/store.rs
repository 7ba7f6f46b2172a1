use vstd::prelude::*;
use crate::kv::{
    lookup, insert, pairs_view, pair_find, pair_get, pair_insert, lemma_lookup_first,
    lemma_lookup_none, lemma_insert_update, lemma_insert_append, lemma_insert_lookup,
};
use crate::text::{str_eq, concat, chars_of, lex_lt, lex_less, lemma_lex_irreflexive, lemma_lex_total, lemma_lex_transitive};
use crate::fsutil::{joined, parent_path, path_join, path_parent};

verus! {

/// A model provider as the user configured it.
pub struct Provider {
    pub id: String,
    pub name: String,
    pub base_url: String,
    pub api_key: String,
    pub headers: Option<Vec<(String, String)>>,
    /// The model that is used by default.
    pub model_name: Option<String>,
    /// The models the user checked; they are written to an agent besides the default one.
    pub model_names: Option<Vec<String>>,
    /// The models the provider offers, as last fetched.
    pub models: Option<Vec<String>>,
    pub website: Option<String>,
    pub created_at: i64,
    pub updated_at: i64,
}

pub struct ProviderV {
    pub id: Seq<char>,
    pub name: Seq<char>,
    pub base_url: Seq<char>,
    pub api_key: Seq<char>,
    pub headers: Option<Seq<(Seq<char>, Seq<char>)>>,
    pub model_name: Option<Seq<char>>,
    pub model_names: Option<Seq<Seq<char>>>,
    pub models: Option<Seq<Seq<char>>>,
    pub website: Option<Seq<char>>,
    pub created_at: i64,
    pub updated_at: i64,
}

pub open spec fn opt_str(o: Option<String>) -> Option<Seq<char>> {
    match o {
        Some(s) => Some(s@),
        None => None,
    }
}

pub open spec fn strs(v: Seq<String>) -> Seq<Seq<char>> {
    Seq::new(v.len() as nat, |i: int| v[i]@)
}

pub open spec fn opt_strs(o: Option<Vec<String>>) -> Option<Seq<Seq<char>>> {
    match o {
        Some(v) => Some(strs(v@)),
        None => None,
    }
}

pub open spec fn opt_pairs(o: Option<Vec<(String, String)>>) -> Option<Seq<(Seq<char>, Seq<char>)>> {
    match o {
        Some(v) => Some(pairs_view(v@)),
        None => None,
    }
}

impl Provider {
    pub open spec fn view(&self) -> ProviderV {
        ProviderV {
            id: self.id@,
            name: self.name@,
            base_url: self.base_url@,
            api_key: self.api_key@,
            headers: opt_pairs(self.headers),
            model_name: opt_str(self.model_name),
            model_names: opt_strs(self.model_names),
            models: opt_strs(self.models),
            website: opt_str(self.website),
            created_at: self.created_at,
            updated_at: self.updated_at,
        }
    }
}

pub fn copy_opt_string(o: &Option<String>) -> (r: Option<String>)
    ensures
        opt_str(r) == opt_str(*o),
{
    match o {
        Some(s) => Some(s.clone()),
        None => None,
    }
}

pub fn copy_strings(v: &Vec<String>) -> (r: Vec<String>)
    ensures
        strs(r@) == strs(v@),
{
    let mut r: Vec<String> = Vec::new();
    let mut i: usize = 0;
    while i < v.len()
        invariant
            i <= v.len(),
            r@.len() == i,
            forall|k: int| 0 <= k < i ==> #[trigger] r@[k]@ == v@[k]@,
        decreases v.len() - i,
    {
        r.push(v[i].clone());
        i = i + 1;
    }
    assert(strs(r@) =~= strs(v@));
    r
}

pub fn copy_opt_strings(o: &Option<Vec<String>>) -> (r: Option<Vec<String>>)
    ensures
        opt_strs(r) == opt_strs(*o),
{
    match o {
        Some(v) => Some(copy_strings(v)),
        None => None,
    }
}

pub fn copy_pairs(v: &Vec<(String, String)>) -> (r: Vec<(String, String)>)
    ensures
        pairs_view(r@) == pairs_view(v@),
{
    let mut r: Vec<(String, String)> = Vec::new();
    let mut i: usize = 0;
    while i < v.len()
        invariant
            i <= v.len(),
            r@.len() == i,
            forall|k: int| #![trigger r@[k]] 0 <= k < i ==> r@[k].0@ == v@[k].0@ && r@[k].1@ == v@[k].1@,
        decreases v.len() - i,
    {
        r.push((v[i].0.clone(), v[i].1.clone()));
        i = i + 1;
    }
    assert(pairs_view(r@) =~= pairs_view(v@));
    r
}

impl Provider {
    /// A copy of this provider.
    pub fn copy(&self) -> (r: Provider)
        ensures
            r@ == self@,
    {
        Provider {
            id: self.id.clone(),
            name: self.name.clone(),
            base_url: self.base_url.clone(),
            api_key: self.api_key.clone(),
            headers: match &self.headers {
                Some(h) => Some(copy_pairs(h)),
                None => None,
            },
            model_name: copy_opt_string(&self.model_name),
            model_names: copy_opt_strings(&self.model_names),
            models: copy_opt_strings(&self.models),
            website: copy_opt_string(&self.website),
            created_at: self.created_at,
            updated_at: self.updated_at,
        }
    }
}

impl Default for Provider {
    fn default() -> (p: Provider)
        ensures
            p@.id.len() == 0 && p@.name.len() == 0 && p@.base_url.len() == 0 && p@.api_key.len()
                == 0,
            p@.headers is None && p@.model_name is None && p@.model_names is None,
            p@.models is None && p@.website is None,
            p@.created_at == 0 && p@.updated_at == 0,
    {
        Provider {
            id: String::new(),
            name: String::new(),
            base_url: String::new(),
            api_key: String::new(),
            headers: None,
            model_name: None,
            model_names: None,
            models: None,
            website: None,
            created_at: 0,
            updated_at: 0,
        }
    }
}

/// The first non-empty name in `names`.
pub open spec fn first_nonempty(names: Seq<Seq<char>>) -> Option<Seq<char>>
    decreases names.len(),
{
    if names.len() == 0 {
        None
    } else if names[0].len() > 0 {
        Some(names[0])
    } else {
        first_nonempty(names.drop_first())
    }
}

/// The model a provider uses by default: its model name when one is filled in, else the
/// first checked model.
pub open spec fn default_model(p: ProviderV) -> Option<Seq<char>> {
    match p.model_name {
        Some(m) if m.len() > 0 => Some(m),
        _ => match p.model_names {
            Some(ns) => first_nonempty(ns),
            None => None,
        },
    }
}

/// The non-empty names of `names` that are not in `seen` and not repeated, in order.
pub open spec fn fresh_names(names: Seq<Seq<char>>, seen: Seq<Seq<char>>) -> Seq<Seq<char>>
    decreases names.len(),
{
    if names.len() == 0 {
        Seq::empty()
    } else if names[0].len() == 0 || seen.contains(names[0]) {
        fresh_names(names.drop_first(), seen)
    } else {
        seq![names[0]] + fresh_names(names.drop_first(), seen.push(names[0]))
    }
}

/// All models to write for a provider: the default model first, then the other checked
/// models in the order they were checked.
pub open spec fn selected_models(p: ProviderV) -> Seq<Seq<char>> {
    match default_model(p) {
        Some(d) => seq![d] + fresh_names(
            match p.model_names {
                Some(ns) => ns,
                None => Seq::empty(),
            },
            seq![d],
        ),
        None => Seq::empty(),
    }
}

/// The names kept are non-empty, new to `seen` and distinct.
pub proof fn lemma_fresh_names_props(names: Seq<Seq<char>>, seen: Seq<Seq<char>>)
    ensures
        forall|i: int|
            0 <= i < fresh_names(names, seen).len() ==> !seen.contains(
                #[trigger] fresh_names(names, seen)[i],
            ) && fresh_names(names, seen)[i].len() > 0,
        fresh_names(names, seen).no_duplicates(),
    decreases names.len(),
{
    let r = fresh_names(names, seen);
    if names.len() > 0 {
        if names[0].len() == 0 || seen.contains(names[0]) {
            lemma_fresh_names_props(names.drop_first(), seen);
        } else {
            let seen2 = seen.push(names[0]);
            lemma_fresh_names_props(names.drop_first(), seen2);
            let t = fresh_names(names.drop_first(), seen2);
            assert(r == seq![names[0]] + t);
            assert forall|i: int| 0 <= i < r.len() implies !seen.contains(#[trigger] r[i])
                && r[i].len() > 0 by {
                if i > 0 {
                    assert(r[i] == t[i - 1]);
                    assert(!seen2.contains(t[i - 1]));
                    if seen.contains(t[i - 1]) {
                        let j = choose|j: int| 0 <= j < seen.len() && seen[j] == t[i - 1];
                        assert(seen2[j] == t[i - 1]);
                    }
                }
            }
            assert forall|i: int, j: int| 0 <= i < r.len() && 0 <= j < r.len() && i != j implies r[i]
                != r[j] by {
                if i > 0 && j > 0 {
                    assert(r[i] == t[i - 1] && r[j] == t[j - 1]);
                } else if i == 0 {
                    assert(r[j] == t[j - 1]);
                    assert(!seen2.contains(t[j - 1]));
                    assert(seen2[seen.len() as int] == names[0]);
                } else {
                    assert(r[i] == t[i - 1]);
                    assert(!seen2.contains(t[i - 1]));
                    assert(seen2[seen.len() as int] == names[0]);
                }
            }
        }
    }
}

/// Every name kept is one of `names`.
pub proof fn lemma_fresh_names_from(names: Seq<Seq<char>>, seen: Seq<Seq<char>>)
    ensures
        forall|i: int| 0 <= i < fresh_names(names, seen).len() ==> names.contains(#[trigger] fresh_names(names, seen)[i]),
    decreases names.len(),
{
    if names.len() > 0 {
        let rest = names.drop_first();
        if names[0].len() == 0 || seen.contains(names[0]) {
            lemma_fresh_names_from(rest, seen);
            assert(fresh_names(names, seen) == fresh_names(rest, seen));
            assert forall|i: int| 0 <= i < fresh_names(names, seen).len() implies names.contains(#[trigger] fresh_names(names, seen)[i]) by {
                let x = fresh_names(names, seen)[i];
                assert(x == fresh_names(rest, seen)[i]);
                assert(rest.contains(x));
                let j = choose|j: int| 0 <= j < rest.len() && rest[j] == x;
                assert(names[j + 1] == x);
            }
        } else {
            let seen2 = seen.push(names[0]);
            lemma_fresh_names_from(rest, seen2);
            let t = fresh_names(rest, seen2);
            assert forall|i: int| 0 <= i < fresh_names(names, seen).len() implies names.contains(#[trigger] fresh_names(names, seen)[i]) by {
                if i > 0 {
                    let x = t[i - 1];
                    assert(fresh_names(names, seen)[i] == x);
                    assert(rest.contains(x));
                    let j = choose|j: int| 0 <= j < rest.len() && rest[j] == x;
                    assert(names[j + 1] == x);
                } else {
                    assert(names[0] == fresh_names(names, seen)[0]);
                }
            }
        }
    }
}

/// Names that are already distinct, non-empty and new to `seen` are all kept, in order.
pub proof fn lemma_fresh_names_identity(names: Seq<Seq<char>>, seen: Seq<Seq<char>>)
    requires
        names.no_duplicates(),
        forall|i: int| 0 <= i < names.len() ==> #[trigger] names[i].len() > 0 && !seen.contains(names[i]),
    ensures
        fresh_names(names, seen) == names,
    decreases names.len(),
{
    if names.len() > 0 {
        let rest = names.drop_first();
        let seen2 = seen.push(names[0]);
        assert(names[0].len() > 0 && !seen.contains(names[0]));
        assert forall|i: int| 0 <= i < rest.len() implies #[trigger] rest[i].len() > 0 && !seen2.contains(rest[i]) by {
            assert(rest[i] == names[i + 1]);
            assert(names[i + 1] != names[0]);
            if seen2.contains(rest[i]) {
                let j = choose|j: int| 0 <= j < seen2.len() && seen2[j] == rest[i];
                if j < seen.len() {
                    assert(seen[j] == rest[i]);
                }
            }
        }
        assert(rest.no_duplicates()) by {
            assert forall|i: int, j: int| 0 <= i < rest.len() && 0 <= j < rest.len() && i != j implies rest[i] != rest[j] by {
                assert(rest[i] == names[i + 1] && rest[j] == names[j + 1]);
            }
        }
        lemma_fresh_names_identity(rest, seen2);
        assert(seq![names[0]] + rest =~= names);
    }
}

/// The models to write hold no name twice, hold no empty name, and start with the default one.
pub proof fn lemma_selected_models_distinct(p: ProviderV)
    ensures
        selected_models(p).no_duplicates(),
        forall|i: int| 0 <= i < selected_models(p).len() ==> #[trigger] selected_models(p)[i].len()
            > 0,
        selected_models(p).len() > 0 <==> default_model(p) is Some,
        default_model(p) matches Some(d) ==> selected_models(p)[0] == d,
{
    if let Some(d) = default_model(p) {
        let ns = match p.model_names {
            Some(ns) => ns,
            None => Seq::empty(),
        };
        lemma_fresh_names_props(ns, seq![d]);
        lemma_default_nonempty(p);
        let t = fresh_names(ns, seq![d]);
        let r = selected_models(p);
        assert(r == seq![d] + t);
        assert forall|i: int, j: int| 0 <= i < r.len() && 0 <= j < r.len() && i != j implies r[i]
            != r[j] by {
            if i > 0 && j > 0 {
                assert(r[i] == t[i - 1] && r[j] == t[j - 1]);
            } else if i == 0 {
                assert(r[j] == t[j - 1]);
                assert(seq![d][0] == d);
            } else {
                assert(r[i] == t[i - 1]);
                assert(seq![d][0] == d);
            }
        }
        assert forall|i: int| 0 <= i < r.len() implies #[trigger] r[i].len() > 0 by {
            if i > 0 {
                assert(r[i] == t[i - 1]);
            }
        }
    }
}

proof fn lemma_first_nonempty(names: Seq<Seq<char>>)
    ensures
        first_nonempty(names) matches Some(n) ==> n.len() > 0,
    decreases names.len(),
{
    if names.len() > 0 && names[0].len() == 0 {
        lemma_first_nonempty(names.drop_first());
    }
}

proof fn lemma_default_nonempty(p: ProviderV)
    ensures
        default_model(p) matches Some(n) ==> n.len() > 0,
{
    if let Some(ns) = p.model_names {
        lemma_first_nonempty(ns);
    }
}

impl Provider {
    /// The model this provider uses by default.
    pub fn default_model(&self) -> (r: Option<String>)
        ensures
            opt_str(r) == default_model(self@),
    {
        if let Some(m) = &self.model_name {
            if !m.as_str().is_empty() {
                return Some(m.clone());
            }
        }
        match &self.model_names {
            Some(ns) => {
                let mut i: usize = 0;
                assert(strs(ns@).skip(0) =~= strs(ns@));
                while i < ns.len()
                    invariant
                        i <= ns.len(),
                        first_nonempty(strs(ns@)) == first_nonempty(strs(ns@).skip(i as int)),
                        opt_strs(self.model_names) == Some(strs(ns@)),
                        match opt_str(self.model_name) {
                            Some(m) => m.len() == 0,
                            None => true,
                        },
                    decreases ns.len() - i,
                {
                    assert(strs(ns@).skip(i as int)[0] == ns@[i as int]@);
                    if !ns[i].as_str().is_empty() {
                        return Some(ns[i].clone());
                    }
                    assert(strs(ns@).skip(i as int).drop_first() =~= strs(ns@).skip(i + 1));
                    i = i + 1;
                }
                None
            },
            None => None,
        }
    }

    /// All models to write for this provider, default model first.
    pub fn selected_models(&self) -> (r: Vec<String>)
        ensures
            strs(r@) == selected_models(self@),
            strs(r@).no_duplicates(),
    {
        proof {
            lemma_selected_models_distinct(self@);
        }
        let d = match self.default_model() {
            Some(d) => d,
            None => {
                let r: Vec<String> = Vec::new();
                assert(strs(r@) =~= Seq::<Seq<char>>::empty());
                return r;
            },
        };
        let ghost dv = d@;
        let mut out: Vec<String> = Vec::new();
        out.push(d);
        let ghost names = opt_strs(self.model_names);
        match &self.model_names {
            Some(ns) => {
                let mut i: usize = 0;
                assert(strs(ns@).skip(0) =~= strs(ns@));
                assert(strs(out@) =~= seq![dv]);
                while i < ns.len()
                    invariant
                        i <= ns.len(),
                        out@.len() >= 1,
                        fresh_names(strs(ns@), seq![dv]) =~= strs(out@).drop_first()
                            + fresh_names(strs(ns@).skip(i as int), strs(out@)),
                        strs(out@)[0] == dv,
                    decreases ns.len() - i,
                {
                    let ghost rest = strs(ns@).skip(i as int);
                    assert(rest[0] == ns@[i as int]@);
                    assert(rest.drop_first() =~= strs(ns@).skip(i + 1));
                    let nm = &ns[i];
                    let fresh = !nm.as_str().is_empty() && !contains_string(&out, nm);
                    if fresh {
                        let ghost before = strs(out@);
                        out.push(nm.clone());
                        assert(strs(out@) =~= before.push(nm@));
                        assert(strs(out@).drop_first() =~= before.drop_first() + seq![nm@]);
                    }
                    i = i + 1;
                }
                assert(strs(ns@).skip(i as int) =~= Seq::<Seq<char>>::empty());
                assert(strs(out@) =~= seq![dv] + strs(out@).drop_first());
            },
            None => {
                assert(strs(out@) =~= seq![dv]);
            },
        }
        out
    }
}

/// Whether `v` holds a string equal to `s`.
pub fn contains_string(v: &Vec<String>, s: &String) -> (b: bool)
    ensures
        b == strs(v@).contains(s@),
{
    let mut i: usize = 0;
    while i < v.len()
        invariant
            i <= v.len(),
            forall|k: int| 0 <= k < i ==> v@[k]@ != s@,
        decreases v.len() - i,
    {
        if str_eq(v[i].as_str(), s.as_str()) {
            assert(strs(v@)[i as int] == s@);
            return true;
        }
        i = i + 1;
    }
    false
}

} // verus!

verus! {

/// The saved state: the providers and, per agent, the id of the provider it was switched to.
pub struct StoreData {
    pub providers: Vec<Provider>,
    pub active: Vec<(String, String)>,
}

impl Default for StoreData {
    fn default() -> (d: StoreData)
        ensures
            d.providers@.len() == 0,
            d.active@.len() == 0,
    {
        StoreData { providers: Vec::new(), active: Vec::new() }
    }
}

/// Holds of a provider whose id is not `id`.
pub open spec fn other_id(id: Seq<char>) -> spec_fn(ProviderV) -> bool {
    |q: ProviderV| q.id != id
}

/// Holds of an agent record that does not refer to provider `id`.
pub open spec fn other_target(id: Seq<char>) -> spec_fn((Seq<char>, Seq<char>)) -> bool {
    |e: (Seq<char>, Seq<char>)| e.1 != id
}

/// The providers, each under its id, in order.
pub open spec fn by_id(ps: Seq<Provider>) -> Seq<(Seq<char>, ProviderV)> {
    Seq::new(ps.len() as nat, |i: int| (ps[i]@.id, ps[i]@))
}

/// The views of a list of providers.
pub open spec fn providers_view(ps: Seq<Provider>) -> Seq<ProviderV> {
    Seq::new(ps.len() as nat, |i: int| ps[i]@)
}

/// The configuration store: where it is saved and what it holds.
pub struct Store {
    pub path: String,
    pub data: StoreData,
}

impl Store {
    /// A store saved at `path` that holds `data`.
    pub fn with_data(path: String, data: StoreData) -> (s: Store)
        ensures
            s.path == path,
            s.data == data,
    {
        Store { path, data }
    }

    /// Every provider, copied.
    pub fn list_providers(&self) -> (r: Vec<Provider>)
        ensures
            providers_view(r@) == providers_view(self.data.providers@),
    {
        let v = &self.data.providers;
        let mut r: Vec<Provider> = Vec::new();
        let mut i: usize = 0;
        while i < v.len()
            invariant
                i <= v.len(),
                r@.len() == i,
                forall|k: int| 0 <= k < i ==> #[trigger] r@[k]@ == v@[k]@,
            decreases v.len() - i,
        {
            r.push(v[i].copy());
            i = i + 1;
        }
        assert(providers_view(r@) =~= providers_view(v@));
        r
    }

    fn find_provider(&self, id: &str) -> (r: Option<usize>)
        ensures
            match r {
                Some(i) => i < self.data.providers@.len() && self.data.providers@[i as int]@.id
                    == id@ && forall|j: int| 0 <= j < i ==> self.data.providers@[j]@.id != id@,
                None => forall|j: int|
                    0 <= j < self.data.providers@.len() ==> self.data.providers@[j]@.id != id@,
            },
            r is None <==> lookup(by_id(self.data.providers@), id@) is None,
            r matches Some(i) ==> lookup(by_id(self.data.providers@), id@) == Some(
                self.data.providers@[i as int]@,
            ),
    {
        let v = &self.data.providers;
        let mut i: usize = 0;
        while i < v.len()
            invariant
                v == &self.data.providers,
                i <= v.len(),
                forall|j: int| 0 <= j < i ==> v@[j]@.id != id@,
            decreases v.len() - i,
        {
            if str_eq(v[i].id.as_str(), id) {
                proof {
                    lemma_lookup_first(by_id(v@), id@, i as int);
                }
                return Some(i);
            }
            i = i + 1;
        }
        proof {
            lemma_lookup_none(by_id(v@), id@);
        }
        None
    }

    /// The provider with the given id (the first, should ids repeat).
    pub fn get_provider(&self, id: &str) -> (r: Option<Provider>)
        ensures
            match r {
                Some(p) => lookup(by_id(self.data.providers@), id@) == Some(p@),
                None => lookup(by_id(self.data.providers@), id@) is None,
            },
    {
        match self.find_provider(id) {
            Some(i) => Some(self.data.providers[i].copy()),
            None => None,
        }
    }

    /// Replaces the provider with the same id, or adds it at the end.
    pub fn upsert_provider(&mut self, p: Provider)
        ensures
            by_id(final(self).data.providers@) == insert(
                by_id(old(self).data.providers@),
                p@.id,
                p@,
            ),
            final(self).data.active == old(self).data.active,
            final(self).path == old(self).path,
    {
        let ghost old_e = by_id(self.data.providers@);
        let ghost pv = p@;
        match self.find_provider(p.id.as_str()) {
            Some(i) => {
                proof {
                    lemma_insert_update(old_e, pv.id, pv, i as int);
                }
                self.data.providers.set(i, p);
                assert(by_id(self.data.providers@) =~= old_e.update(i as int, (pv.id, pv)));
            },
            None => {
                proof {
                    lemma_insert_append(old_e, pv.id, pv);
                }
                self.data.providers.push(p);
                assert(by_id(self.data.providers@) =~= old_e.push((pv.id, pv)));
            },
        }
    }

    /// Removes every provider with the id, and every agent's record of it.
    pub fn delete_provider(&mut self, id: &str)
        ensures
            providers_view(final(self).data.providers@) == providers_view(
                old(self).data.providers@,
            ).filter(other_id(id@)),
            pairs_view(final(self).data.active@) == pairs_view(old(self).data.active@).filter(
                other_target(id@),
            ),
            final(self).path == old(self).path,
    {
        let mut kept: Vec<Provider> = Vec::new();
        let mut old_ps: Vec<Provider> = Vec::new();
        std::mem::swap(&mut old_ps, &mut self.data.providers);
        let ghost ops = providers_view(old_ps@);
        let mut i: usize = 0;
        while i < old_ps.len()
            invariant
                i <= old_ps.len(),
                ops == providers_view(old_ps@),
                providers_view(kept@) == ops.take(i as int).filter(other_id(id@)),
            decreases old_ps.len() - i,
        {
            proof {
                assert(ops.take(i + 1) =~= ops.take(i as int).push(ops[i as int]));
                ops.take(i as int).lemma_filter_push(ops[i as int], other_id(id@));
            }
            if !str_eq(old_ps[i].id.as_str(), id) {
                let ghost before = providers_view(kept@);
                kept.push(old_ps[i].copy());
                assert(providers_view(kept@) =~= before.push(ops[i as int]));
            }
            i = i + 1;
        }
        assert(ops.take(i as int) =~= ops);
        self.data.providers = kept;
        let mut kept2: Vec<(String, String)> = Vec::new();
        let mut old_as: Vec<(String, String)> = Vec::new();
        std::mem::swap(&mut old_as, &mut self.data.active);
        let ghost oas = pairs_view(old_as@);
        let mut j: usize = 0;
        while j < old_as.len()
            invariant
                j <= old_as.len(),
                oas == pairs_view(old_as@),
                pairs_view(kept2@) == oas.take(j as int).filter(other_target(id@)),
            decreases old_as.len() - j,
        {
            proof {
                assert(oas.take(j + 1) =~= oas.take(j as int).push(oas[j as int]));
                oas.take(j as int).lemma_filter_push(oas[j as int], other_target(id@));
            }
            if !str_eq(old_as[j].1.as_str(), id) {
                let ghost before = pairs_view(kept2@);
                kept2.push((old_as[j].0.clone(), old_as[j].1.clone()));
                assert(pairs_view(kept2@) =~= before.push(oas[j as int]));
            }
            j = j + 1;
        }
        assert(oas.take(j as int) =~= oas);
        self.data.active = kept2;
    }

    /// The id of the provider the agent was last switched to.
    pub fn get_active(&self, agent_id: &str) -> (r: Option<String>)
        ensures
            opt_str(r) == lookup(pairs_view(self.data.active@), agent_id@),
    {
        pair_get(&self.data.active, agent_id)
    }

    /// Records that the agent now uses the provider.
    pub fn set_active(&mut self, agent_id: &str, provider_id: &str)
        ensures
            pairs_view(final(self).data.active@) == insert(
                pairs_view(old(self).data.active@),
                agent_id@,
                provider_id@,
            ),
            final(self).data.providers == old(self).data.providers,
            final(self).path == old(self).path,
    {
        pair_insert(&mut self.data.active, agent_id.to_owned(), provider_id.to_owned());
    }
}

/// After an upsert the provider is found under its id, and every other id finds what it
/// found before.
pub proof fn law_upsert_then_get(ps: Seq<Provider>, after: Seq<Provider>, p: ProviderV, q: Seq<char>)
    requires
        by_id(after) == insert(by_id(ps), p.id, p),
    ensures
        lookup(by_id(after), p.id) == Some(p),
        q != p.id ==> lookup(by_id(after), q) == lookup(by_id(ps), q),
{
    lemma_insert_lookup(by_id(ps), p.id, p, p.id);
    lemma_insert_lookup(by_id(ps), p.id, p, q);
}

/// After `set_active`, the agent's active provider is the one that was set, and other
/// agents keep theirs.
pub proof fn law_set_then_get_active(
    before: Seq<(Seq<char>, Seq<char>)>,
    after: Seq<(Seq<char>, Seq<char>)>,
    agent: Seq<char>,
    pid: Seq<char>,
    other: Seq<char>,
)
    requires
        after == insert(before, agent, pid),
    ensures
        lookup(after, agent) == Some(pid),
        other != agent ==> lookup(after, other) == lookup(before, other),
{
    lemma_insert_lookup(before, agent, pid, agent);
    lemma_insert_lookup(before, agent, pid, other);
}

/// After a provider is deleted, no provider has its id and no agent refers to it.
pub proof fn law_delete_removes(
    ps_after: Seq<ProviderV>,
    ps_before: Seq<ProviderV>,
    act_after: Seq<(Seq<char>, Seq<char>)>,
    act_before: Seq<(Seq<char>, Seq<char>)>,
    id: Seq<char>,
)
    requires
        ps_after == ps_before.filter(other_id(id)),
        act_after == act_before.filter(other_target(id)),
    ensures
        forall|i: int| 0 <= i < ps_after.len() ==> #[trigger] ps_after[i].id != id,
        forall|i: int| 0 <= i < act_after.len() ==> #[trigger] act_after[i].1 != id,
{
    assert forall|i: int| 0 <= i < ps_after.len() implies #[trigger] ps_after[i].id != id by {
        broadcast use vstd::seq_lib::group_filter_ensures;
        assert(ps_after.contains(ps_after[i]));
    }
    assert forall|i: int| 0 <= i < act_after.len() implies #[trigger] act_after[i].1 != id by {
        broadcast use vstd::seq_lib::group_filter_ensures;
        assert(act_after.contains(act_after[i]));
    }
}

} // verus!

verus! {

/// The directory that holds the backups: `backups` beside the configuration file.
pub open spec fn backup_dir_of(path: Seq<char>) -> Seq<char> {
    joined(parent_path(path).unwrap_or("."@), "backups"@)
}

/// The file names of directory entries given as `(file name, path)`.
pub open spec fn entry_names(entries: Seq<(String, String)>) -> Seq<Seq<char>> {
    Seq::new(entries.len(), |i: int| entries[i].0@)
}

/// In a backup listing entry `i` comes before entry `j`: the later file name first, and of
/// two equal names the one read first.
pub open spec fn listed_before(names: Seq<Seq<char>>, i: int, j: int) -> bool {
    lex_lt(names[j], names[i]) || (names[i] == names[j] && i < j)
}

/// `picked` holds the positions of the first `limit` entries of the listing, in order: no
/// more than there are, each before the next, and each before every entry left out.
pub open spec fn top_listed(names: Seq<Seq<char>>, picked: Seq<int>, limit: nat) -> bool {
    &&& picked.len() == if limit < names.len() { limit } else { names.len() }
    &&& forall|k: int| 0 <= k < picked.len() ==> 0 <= #[trigger] picked[k] < names.len()
    &&& forall|k: int, l: int|
        0 <= k < l < picked.len() ==> listed_before(names, #[trigger] picked[k], #[trigger] picked[l])
    &&& forall|k: int, j: int|
        0 <= k < picked.len() && 0 <= j < names.len() && !picked.contains(j)
            ==> #[trigger] listed_before(names, picked[k], j)
}

proof fn lemma_listed_total(names: Seq<Seq<char>>, i: int, j: int)
    requires
        i != j,
    ensures
        listed_before(names, i, j) || listed_before(names, j, i),
{
    if names[i] != names[j] {
        lemma_lex_total(names[i], names[j]);
    }
}

proof fn lemma_listed_transitive(names: Seq<Seq<char>>, i: int, j: int, k: int)
    requires
        listed_before(names, i, j),
        listed_before(names, j, k),
    ensures
        listed_before(names, i, k),
{
    if lex_lt(names[j], names[i]) && lex_lt(names[k], names[j]) {
        lemma_lex_transitive(names[k], names[j], names[i]);
    }
}

impl Store {
    /// Where the backups of this store are written.
    pub fn backup_dir(&self) -> (r: String)
        ensures
            r@ == backup_dir_of(self.path@),
    {
        let parent = match path_parent(self.path.as_str()) {
            Some(p) => p,
            None => ".".to_owned(),
        };
        path_join(parent.as_str(), "backups")
    }

    /// The paths of the first `limit` backups, the latest file name first. `entries` are the
    /// `(file name, path)` pairs of the backup directory as it was read.
    pub fn list_backups(entries: &Vec<(String, String)>, limit: usize) -> (r: Vec<String>)
        ensures
            exists|picked: Seq<int>|
                {
                    &&& top_listed(entry_names(entries@), picked, limit as nat)
                    &&& r@.len() == picked.len()
                    &&& forall|k: int| 0 <= k < picked.len() ==> #[trigger] r@[k]@ == entries@[picked[k]].1@
                },
    {
        let n = entries.len();
        let ghost names = entry_names(entries@);
        let mut keys: Vec<Vec<char>> = Vec::new();
        let mut left: Vec<usize> = Vec::new();
        let mut i: usize = 0;
        while i < n
            invariant
                i <= n == entries@.len(),
                names == entry_names(entries@),
                keys@.len() == i,
                forall|k: int| 0 <= k < i ==> #[trigger] keys@[k]@ == names[k],
                left@.len() == i,
                forall|k: int| 0 <= k < i ==> #[trigger] left@[k] == k,
            decreases n - i,
        {
            keys.push(chars_of(entries[i].0.as_str()));
            left.push(i);
            i = i + 1;
        }
        let mut picked: Vec<usize> = Vec::new();
        let mut out: Vec<String> = Vec::new();
        let ghost mut gp: Seq<int> = Seq::empty();
        assert forall|j: int| 0 <= j < n implies gp.contains(j) || left@.contains(j as usize) by {
            assert(left@[j] == j as usize);
        }
        while picked.len() < limit && left.len() > 0
            invariant
                n == entries@.len(),
                names == entry_names(entries@),
                keys@.len() == n,
                forall|k: int| 0 <= k < n ==> #[trigger] keys@[k]@ == names[k],
                left@.len() + picked@.len() == n,
                picked@.len() <= limit,
                gp.len() == picked@.len(),
                forall|k: int| 0 <= k < gp.len() ==> #[trigger] gp[k] == picked@[k] as int,
                forall|t: int| 0 <= t < left@.len() ==> #[trigger] left@[t] < n,
                forall|t: int, u: int| 0 <= t < u < left@.len() ==> #[trigger] left@[t] != #[trigger] left@[u],
                forall|j: int| 0 <= j < n ==> gp.contains(j) || left@.contains(j as usize),
                forall|k: int| 0 <= k < gp.len() ==> 0 <= #[trigger] gp[k] < n,
                forall|k: int, l: int|
                    0 <= k < l < gp.len() ==> listed_before(names, #[trigger] gp[k], #[trigger] gp[l]),
                forall|k: int, t: int|
                    0 <= k < gp.len() && 0 <= t < left@.len() ==> listed_before(
                        names,
                        #[trigger] gp[k],
                        #[trigger] left@[t] as int,
                    ),
                out@.len() == gp.len(),
                forall|k: int| 0 <= k < gp.len() ==> #[trigger] out@[k]@ == entries@[gp[k]].1@,
            decreases left@.len(),
        {
            let mut b: usize = 0;
            let mut t: usize = 1;
            while t < left.len()
                invariant
                    n == entries@.len(),
                    keys@.len() == n,
                    forall|k: int| 0 <= k < n ==> #[trigger] keys@[k]@ == names[k],
                    forall|s: int| 0 <= s < left@.len() ==> #[trigger] left@[s] < n,
                    forall|s: int, u: int| 0 <= s < u < left@.len() ==> #[trigger] left@[s] != #[trigger] left@[u],
                    1 <= t <= left@.len(),
                    b < t,
                    forall|u: int|
                        0 <= u < t && u != b ==> listed_before(
                            names,
                            left@[b as int] as int,
                            #[trigger] left@[u] as int,
                        ),
                decreases left@.len() - t,
            {
                let x = left[t];
                let y = left[b];
                let later = lex_less(&keys[y], &keys[x]);
                let earlier = lex_less(&keys[x], &keys[y]);
                let first = later || (!earlier && x < y);
                proof {
                    if !later && !earlier && names[x as int] != names[y as int] {
                        lemma_lex_total(names[x as int], names[y as int]);
                    }
                    assert(first == listed_before(names, x as int, y as int));
                }
                if first {
                    proof {
                        assert forall|u: int| 0 <= u < t + 1 && u != t implies listed_before(
                            names,
                            x as int,
                            #[trigger] left@[u] as int,
                        ) by {
                            if u != b {
                                lemma_listed_transitive(names, x as int, y as int, left@[u] as int);
                            }
                        }
                    }
                    b = t;
                } else {
                    proof {
                        lemma_listed_total(names, x as int, y as int);
                    }
                }
                t = t + 1;
            }
            let best = left[b];
            proof {
                assert forall|k: int| 0 <= k < gp.len() implies listed_before(names, #[trigger] gp[k], best as int) by {
                    assert(left@[b as int] == best);
                }
            }
            let ghost old_left = left@;
            let ghost old_gp = gp;
            left.remove(b);
            picked.push(best);
            out.push(entries[best].1.clone());
            proof {
                gp = gp.push(best as int);
                assert forall|j: int| 0 <= j < n implies gp.contains(j) || left@.contains(j as usize) by {
                    if !gp.contains(j) {
                        if old_gp.contains(j) {
                            let w = choose|w: int| 0 <= w < old_gp.len() && old_gp[w] == j;
                            assert(gp[w] == j);
                        }
                        assert(old_left.contains(j as usize));
                        let w = choose|w: int| 0 <= w < old_left.len() && old_left[w] == j as usize;
                        if w < b {
                            assert(left@[w] == j as usize);
                        } else if w > b {
                            assert(left@[w - 1] == j as usize);
                        } else {
                            assert(gp[gp.len() - 1] == j);
                        }
                    }
                }
                assert forall|k: int, t2: int| 0 <= k < gp.len() && 0 <= t2 < left@.len() implies listed_before(
                    names,
                    #[trigger] gp[k],
                    #[trigger] left@[t2] as int,
                ) by {
                    let w = if t2 < b { t2 } else { t2 + 1 };
                    assert(left@[t2] == old_left[w]);
                    if k == gp.len() - 1 {
                        assert(w != b);
                    }
                }
            }
        }
        proof {
            assert forall|k: int, j: int|
                0 <= k < gp.len() && 0 <= j < names.len() && !gp.contains(j) implies #[trigger] listed_before(
                names,
                gp[k],
                j,
            ) by {
                let w = choose|w: int| 0 <= w < left@.len() && left@[w] == j as usize;
                assert(left@[w] as int == j);
            }
            assert(top_listed(names, gp, limit as nat));
        }
        out
    }
}

} // verus!
