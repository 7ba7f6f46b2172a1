use vstd::prelude::*;
use crate::fsutil::{joined, path_join};
use crate::kv::insert;
use crate::store::{
    by_id, contains_string, fresh_names, opt_str, opt_strs, strs, Provider, ProviderV, Store,
    lemma_fresh_names_props, lemma_fresh_names_from, lemma_fresh_names_identity,
};
use crate::text::{
    chars_of, slice_chars, starts_with, str_starts_with, string_of, trim, trim_str,
    lemma_trim_idempotent,
};

verus! {

// ---------------------------------------------------------------------------------------
// Saving a provider
// ---------------------------------------------------------------------------------------

/// The most models a provider keeps in its list.
pub const MAX_MODELS: usize = 500;

/// An optional text trimmed, and dropped where nothing is left.
pub open spec fn trimmed_opt(o: Option<Seq<char>>) -> Option<Seq<char>> {
    match o {
        Some(s) => if trim(s).len() > 0 {
            Some(trim(s))
        } else {
            None
        },
        None => None,
    }
}

/// A website kept only where, trimmed, it is a non-empty http(s) address.
pub open spec fn website_opt(o: Option<Seq<char>>) -> Option<Seq<char>> {
    match trimmed_opt(o) {
        Some(t) => if starts_with(t, "http://"@) || starts_with(t, "https://"@) {
            Some(t)
        } else {
            None
        },
        None => None,
    }
}

/// Each name trimmed.
pub open spec fn trims(ns: Seq<Seq<char>>) -> Seq<Seq<char>> {
    Seq::new(ns.len(), |i: int| trim(ns[i]))
}

/// A model list cleaned: names trimmed, empty and repeated ones dropped, at most
/// `MAX_MODELS` kept, and no list at all where nothing is left.
pub open spec fn cleaned_models(o: Option<Seq<Seq<char>>>) -> Option<Seq<Seq<char>>> {
    match o {
        Some(ns) => {
            let c = fresh_names(trims(ns), Seq::empty()).take(
                if fresh_names(trims(ns), Seq::empty()).len() < MAX_MODELS {
                    fresh_names(trims(ns), Seq::empty()).len() as int
                } else {
                    MAX_MODELS as int
                },
            );
            if c.len() == 0 {
                None
            } else {
                Some(c)
            }
        },
        None => None,
    }
}

/// A provider as it is saved at time `now`: a fresh id where it has none, its texts trimmed,
/// empty optional texts dropped, a website only where it is an http(s) address, its model
/// list cleaned, the update time set and the creation time set where it was not yet.
pub open spec fn prepared(p: ProviderV, now: i64, new_id: Seq<char>) -> ProviderV {
    ProviderV {
        id: if p.id.len() == 0 {
            new_id
        } else {
            p.id
        },
        name: trim(p.name),
        base_url: trim(p.base_url),
        api_key: trim(p.api_key),
        headers: p.headers,
        model_name: trimmed_opt(p.model_name),
        model_names: p.model_names,
        models: cleaned_models(p.models),
        website: website_opt(p.website),
        created_at: if p.created_at == 0 {
            now
        } else {
            p.created_at
        },
        updated_at: now,
    }
}

/// Saving keeps a provider's website exactly when, trimmed, it starts with `http://` or
/// `https://`, and keeps it trimmed; any other website (or none) is saved as none.
pub proof fn law_save_keeps_web_addresses(p: ProviderV, now: i64, new_id: Seq<char>)
    ensures
        prepared(p, now, new_id).website == match p.website {
            Some(w) => if starts_with(trim(w), "http://"@) || starts_with(trim(w), "https://"@) {
                Some(trim(w))
            } else {
                None
            },
            None => None,
        },
{
    reveal_strlit("http://");
    reveal_strlit("https://");
}

fn trimmed_opt_of(o: Option<String>) -> (r: Option<String>)
    ensures
        opt_str(r) == trimmed_opt(opt_str(o)),
{
    match o {
        Some(s) => {
            let t = trim_str(s.as_str());
            if chars_of(t.as_str()).len() > 0 {
                Some(t)
            } else {
                None
            }
        },
        None => None,
    }
}

fn website_of(o: Option<String>) -> (r: Option<String>)
    ensures
        opt_str(r) == website_opt(opt_str(o)),
{
    match trimmed_opt_of(o) {
        Some(t) => if str_starts_with(t.as_str(), "http://") || str_starts_with(
            t.as_str(),
            "https://",
        ) {
            Some(t)
        } else {
            None
        },
        None => None,
    }
}

fn cleaned_models_of(o: Option<Vec<String>>) -> (r: Option<Vec<String>>)
    ensures
        opt_strs(r) == cleaned_models(opt_strs(o)),
{
    let ms = match o {
        Some(ms) => ms,
        None => {
            return None;
        },
    };
    let ghost all = trims(strs(ms@));
    let mut out: Vec<String> = Vec::new();
    let mut i: usize = 0;
    assert(all.skip(0) =~= all);
    assert(strs(out@) =~= Seq::<Seq<char>>::empty());
    assert(Seq::<Seq<char>>::empty() + fresh_names(all, Seq::empty()) =~= fresh_names(all, Seq::empty()));
    while i < ms.len() && out.len() < MAX_MODELS
        invariant
            i <= ms.len(),
            out@.len() <= MAX_MODELS,
            all == trims(strs(ms@)),
            fresh_names(all, Seq::empty()) == strs(out@) + fresh_names(all.skip(i as int), strs(out@)),
        decreases ms.len() - i,
    {
        let ghost rest = all.skip(i as int);
        assert(rest[0] == trim(ms@[i as int]@));
        assert(rest.drop_first() =~= all.skip(i + 1));
        let t = trim_str(ms[i].as_str());
        let fresh = !t.as_str().is_empty() && !contains_string(&out, &t);
        if fresh {
            let ghost before = strs(out@);
            out.push(t);
            assert(strs(out@) =~= before.push(rest[0]));
            assert(before + (seq![rest[0]] + fresh_names(rest.drop_first(), before.push(rest[0])))
                =~= strs(out@) + fresh_names(rest.drop_first(), strs(out@)));
        }
        i = i + 1;
    }
    let ghost f = fresh_names(all, Seq::empty());
    proof {
        if i == ms.len() {
            assert(all.skip(i as int) =~= Seq::<Seq<char>>::empty());
            assert(f =~= strs(out@));
        }
        let n: int = if f.len() < MAX_MODELS {
            f.len() as int
        } else {
            MAX_MODELS as int
        };
        assert(f.take(n) =~= strs(out@));
    }
    if out.len() == 0 {
        None
    } else {
        Some(out)
    }
}

/// The provider `p` as it is saved at time `now` (see `prepared`); `new_id` is the id it
/// gets where it has none.
pub fn prepare_provider(p: Provider, now: i64, new_id: String) -> (r: Provider)
    ensures
        r@ == prepared(p@, now, new_id@),
        opt_str(r.website) == match opt_str(p.website) {
            Some(w) => if starts_with(trim(w), "http://"@) || starts_with(trim(w), "https://"@) {
                Some(trim(w))
            } else {
                None
            },
            None => None,
        },
{
    proof {
        law_save_keeps_web_addresses(p@, now, new_id@);
    }
    let id = if chars_of(p.id.as_str()).len() == 0 {
        new_id
    } else {
        p.id
    };
    let created_at = if p.created_at == 0 {
        now
    } else {
        p.created_at
    };
    Provider {
        id,
        name: trim_str(p.name.as_str()),
        base_url: trim_str(p.base_url.as_str()),
        api_key: trim_str(p.api_key.as_str()),
        headers: p.headers,
        model_name: trimmed_opt_of(p.model_name),
        model_names: p.model_names,
        models: cleaned_models_of(p.models),
        website: website_of(p.website),
        created_at,
        updated_at: now,
    }
}

/// Saves a provider into the store as it is prepared at time `now` (see `prepared`), and
/// gives it back; `new_id` is the id it gets where it has none.
pub fn providers_save(store: &mut Store, p: Provider, now: i64, new_id: String) -> (r: Provider)
    ensures
        r@ == prepared(p@, now, new_id@),
        by_id(final(store).data.providers@) == insert(
            by_id(old(store).data.providers@),
            r@.id,
            r@,
        ),
        final(store).data.active == old(store).data.active,
        final(store).path == old(store).path,
{
    let provider = prepare_provider(p, now, new_id);
    store.upsert_provider(provider.copy());
    provider
}

// ---------------------------------------------------------------------------------------
// Identifiers
// ---------------------------------------------------------------------------------------

/// One step of the linear congruential generator that fills identifier bytes.
pub open spec fn lcg_next(s: u64) -> u64 {
    s.wrapping_mul(6364136223846793005u64).wrapping_add(1442695040888963407u64)
}

/// The generator's state after `k` steps from `seed`.
pub open spec fn lcg_state(seed: u64, k: nat) -> u64
    decreases k,
{
    if k == 0 {
        seed
    } else {
        lcg_next(lcg_state(seed, (k - 1) as nat))
    }
}

/// The byte the generator gives at step `k` (counted from 1): bits 33 to 40 of its state.
pub open spec fn lcg_byte(seed: u64, k: nat) -> u8 {
    (lcg_state(seed, k) >> 33u64) as u8
}

/// Fills `buf` with bytes drawn from `seed`: byte `i` is the generator's byte at step `i + 1`.
/// The bytes only tell identifiers apart; they are not meant to be unpredictable.
pub fn getrandom_fallback(buf: &mut [u8], seed: u64)
    ensures
        final(buf)@.len() == old(buf)@.len(),
        forall|i: int| 0 <= i < final(buf)@.len() ==> #[trigger] final(buf)@[i] == lcg_byte(seed, (i + 1) as nat),
{
    let mut s = seed;
    let mut i: usize = 0;
    while i < buf.len()
        invariant
            i <= buf@.len() == old(buf)@.len(),
            s == lcg_state(seed, i as nat),
            forall|k: int| 0 <= k < i ==> #[trigger] buf@[k] == lcg_byte(seed, (k + 1) as nat),
        decreases buf@.len() - i,
    {
        s = s.wrapping_mul(6364136223846793005u64).wrapping_add(1442695040888963407u64);
        buf[i] = (s >> 33u64) as u8;
        i = i + 1;
    }
}

/// The hexadecimal digit for `d` (`0`-`9`, then lowercase `a`-`f`).
pub open spec fn hex_digit(d: u8) -> char {
    if d < 10 {
        (('0' as u8) + d) as char
    } else {
        (('a' as u8) + d - 10) as char
    }
}

/// Two lowercase hexadecimal digits per byte.
pub open spec fn hex_of(bs: Seq<u8>) -> Seq<char>
    decreases bs.len(),
{
    if bs.len() == 0 {
        Seq::empty()
    } else {
        hex_of(bs.drop_last()) + seq![hex_digit(bs.last() / 16), hex_digit(bs.last() % 16)]
    }
}

proof fn lemma_hex_len(bs: Seq<u8>)
    ensures
        hex_of(bs).len() == 2 * bs.len(),
    decreases bs.len(),
{
    if bs.len() > 0 {
        lemma_hex_len(bs.drop_last());
    }
}

/// The sixteen bytes of a version 4 identifier drawn from `seed`: the generator's bytes with
/// the version nibble of byte 6 set to 4 and the variant bits of byte 8 set to `10`.
pub open spec fn uuid_bytes(seed: u64) -> Seq<u8> {
    let raw = Seq::new(16, |i: int| lcg_byte(seed, (i + 1) as nat));
    raw.update(6, (raw[6] & 0x0fu8) | 0x40u8).update(8, (raw[8] & 0x3fu8) | 0x80u8)
}

/// An identifier in its usual text form: 32 hex digits in groups of 8, 4, 4, 4 and 12.
pub open spec fn uuid_text(bs: Seq<u8>) -> Seq<char> {
    let h = hex_of(bs);
    h.subrange(0, 8) + "-"@ + h.subrange(8, 12) + "-"@ + h.subrange(12, 16) + "-"@ + h.subrange(16, 20)
        + "-"@ + h.subrange(20, 32)
}

fn hex_char(d: u8) -> (c: char)
    requires
        d < 16,
    ensures
        c == hex_digit(d),
{
    if d < 10 {
        (('0' as u8) + d) as char
    } else {
        (('a' as u8) + d - 10) as char
    }
}

/// A version 4 identifier drawn from `seed`, as text.
pub fn uuid(seed: u64) -> (r: String)
    ensures
        r@ == uuid_text(uuid_bytes(seed)),
{
    let mut buf: Vec<u8> = Vec::new();
    let mut k: usize = 0;
    while k < 16
        invariant
            k <= 16,
            buf@.len() == k,
        decreases 16 - k,
    {
        buf.push(0u8);
        k = k + 1;
    }
    getrandom_fallback(buf.as_mut_slice(), seed);
    let b6 = (buf[6] & 0x0fu8) | 0x40u8;
    buf[6] = b6;
    let b8 = (buf[8] & 0x3fu8) | 0x80u8;
    buf[8] = b8;
    let ghost bytes = uuid_bytes(seed);
    assert(buf@ =~= bytes);
    let mut h: Vec<char> = Vec::new();
    let mut i: usize = 0;
    while i < 16
        invariant
            i <= 16,
            buf@ == bytes,
            bytes.len() == 16,
            h@ == hex_of(bytes.take(i as int)),
        decreases 16 - i,
    {
        assert(bytes.take(i + 1).drop_last() =~= bytes.take(i as int));
        let b = buf[i];
        h.push(hex_char(b / 16));
        h.push(hex_char(b % 16));
        assert(h@ =~= hex_of(bytes.take(i + 1)));
        i = i + 1;
    }
    assert(bytes.take(16) =~= bytes);
    proof {
        lemma_hex_len(bytes);
    }
    let mut out = slice_chars(&h, 0, 8);
    out.push('-');
    out.append(&mut slice_chars(&h, 8, 12));
    out.push('-');
    out.append(&mut slice_chars(&h, 12, 16));
    out.push('-');
    out.append(&mut slice_chars(&h, 16, 20));
    out.push('-');
    out.append(&mut slice_chars(&h, 20, 32));
    proof {
        reveal_strlit("-");
    }
    assert(out@ =~= uuid_text(bytes));
    string_of(&out)
}

// ---------------------------------------------------------------------------------------
// Where the application keeps its data
// ---------------------------------------------------------------------------------------

/// The data directory: `agent-switch-cn` (`agent-switch-cn-dev` in a debug build) under the
/// roaming application-data directory, which is `APPDATA` where it is set and
/// `AppData/Roaming` under the user profile (or the current directory) otherwise.
pub open spec fn data_dir_of(appdata: Option<Seq<char>>, userprofile: Option<Seq<char>>, debug: bool) -> Seq<char> {
    let name = if debug {
        "agent-switch-cn-dev"@
    } else {
        "agent-switch-cn"@
    };
    let base = match appdata {
        Some(a) => a,
        None => joined(joined(userprofile.unwrap_or("."@), "AppData"@), "Roaming"@),
    };
    joined(base, name)
}

/// The data directory, given the values of `APPDATA` and `USERPROFILE` (`None` where unset)
/// and whether this is a debug build.
pub fn data_dir(appdata: Option<String>, userprofile: Option<String>, debug: bool) -> (r: String)
    ensures
        r@ == data_dir_of(opt_str(appdata), opt_str(userprofile), debug),
{
    let name = if debug {
        "agent-switch-cn-dev"
    } else {
        "agent-switch-cn"
    };
    let base = match appdata {
        Some(a) => a,
        None => {
            let home = match userprofile {
                Some(h) => h,
                None => ".".to_owned(),
            };
            let app = path_join(home.as_str(), "AppData");
            path_join(app.as_str(), "Roaming")
        },
    };
    path_join(base.as_str(), name)
}

proof fn lemma_hex_at(bs: Seq<u8>, i: int)
    requires
        0 <= i < bs.len(),
    ensures
        hex_of(bs).len() == 2 * bs.len(),
        hex_of(bs)[2 * i] == hex_digit(bs[i] / 16),
        hex_of(bs)[2 * i + 1] == hex_digit(bs[i] % 16),
    decreases bs.len(),
{
    lemma_hex_len(bs);
    lemma_hex_len(bs.drop_last());
    if i < bs.len() - 1 {
        lemma_hex_at(bs.drop_last(), i);
    }
}

/// Every identifier is a version 4 UUID in text form: 36 characters, dashes at positions 8,
/// 13, 18 and 23, the version digit `4` at position 14 and a variant digit `8`, `9`, `a` or
/// `b` at position 19.
pub proof fn law_uuid_is_version_4(seed: u64)
    ensures
        uuid_text(uuid_bytes(seed)).len() == 36,
        uuid_text(uuid_bytes(seed))[8] == '-',
        uuid_text(uuid_bytes(seed))[13] == '-',
        uuid_text(uuid_bytes(seed))[18] == '-',
        uuid_text(uuid_bytes(seed))[23] == '-',
        uuid_text(uuid_bytes(seed))[14] == '4',
        uuid_text(uuid_bytes(seed))[19] == '8' || uuid_text(uuid_bytes(seed))[19] == '9'
            || uuid_text(uuid_bytes(seed))[19] == 'a' || uuid_text(uuid_bytes(seed))[19] == 'b',
{
    let bs = uuid_bytes(seed);
    let h = hex_of(bs);
    lemma_hex_at(bs, 6);
    lemma_hex_at(bs, 8);
    reveal_strlit("-");
    let raw = Seq::new(16, |i: int| lcg_byte(seed, (i + 1) as nat));
    let b6 = raw[6];
    let b8 = raw[8];
    assert(bs[6] == (b6 & 0x0fu8) | 0x40u8);
    assert(bs[8] == (b8 & 0x3fu8) | 0x80u8);
    assert(((b6 & 0x0fu8) | 0x40u8) / 16 == 4u8) by (bit_vector);
    assert(8u8 <= ((b8 & 0x3fu8) | 0x80u8) / 16 <= 11u8) by (bit_vector);
    let t = uuid_text(bs);
    assert(t[14] == h[12]);
    assert(t[19] == h[16]);
}

proof fn lemma_trimmed_opt_idempotent(o: Option<Seq<char>>)
    ensures
        trimmed_opt(trimmed_opt(o)) == trimmed_opt(o),
        website_opt(website_opt(o)) == website_opt(o),
{
    match o {
        Some(s) => {
            lemma_trim_idempotent(s);
        },
        None => {},
    }
}

proof fn lemma_cleaned_models_idempotent(o: Option<Seq<Seq<char>>>)
    ensures
        cleaned_models(cleaned_models(o)) == cleaned_models(o),
{
    match o {
        Some(ns) => {
            let f = fresh_names(trims(ns), Seq::empty());
            let n: int = if f.len() < MAX_MODELS {
                f.len() as int
            } else {
                MAX_MODELS as int
            };
            let c = f.take(n);
            if c.len() > 0 {
                lemma_fresh_names_props(trims(ns), Seq::empty());
                lemma_fresh_names_from(trims(ns), Seq::empty());
                assert forall|i: int| 0 <= i < c.len() implies #[trigger] trims(c)[i] == c[i] by {
                    assert(c[i] == f[i]);
                    assert(trims(ns).contains(f[i]));
                    let j = choose|j: int| 0 <= j < trims(ns).len() && trims(ns)[j] == f[i];
                    lemma_trim_idempotent(ns[j]);
                }
                assert(trims(c) =~= c);
                assert(c.no_duplicates()) by {
                    assert forall|i: int, j: int| 0 <= i < c.len() && 0 <= j < c.len() && i != j implies c[i] != c[j] by {
                        assert(c[i] == f[i] && c[j] == f[j]);
                    }
                }
                assert forall|i: int| 0 <= i < c.len() implies #[trigger] c[i].len() > 0 && !Seq::<Seq<char>>::empty().contains(c[i]) by {
                    assert(c[i] == f[i]);
                }
                lemma_fresh_names_identity(c, Seq::empty());
                assert(c.take(c.len() as int) =~= c);
            }
        },
        None => {},
    }
}

/// Saving a provider that was saved before changes nothing but its update time: its texts are
/// already trimmed, its optional texts and model list already cleaned, and it keeps its id and
/// creation time (where the earlier save gave it an id and a creation time).
pub proof fn law_save_is_stable(p: ProviderV, t1: i64, id1: Seq<char>, t2: i64, id2: Seq<char>)
    requires
        prepared(p, t1, id1).id.len() > 0,
        prepared(p, t1, id1).created_at != 0,
    ensures
        prepared(prepared(p, t1, id1), t2, id2) == (ProviderV { updated_at: t2, ..prepared(p, t1, id1) }),
{
    lemma_trim_idempotent(p.name);
    lemma_trim_idempotent(p.base_url);
    lemma_trim_idempotent(p.api_key);
    lemma_trimmed_opt_idempotent(p.model_name);
    lemma_trimmed_opt_idempotent(p.website);
    lemma_cleaned_models_idempotent(p.models);
}

} // verus!
