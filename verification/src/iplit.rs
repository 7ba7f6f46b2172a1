use vstd::prelude::*;
use crate::text::{
    all_digits, digits_val, is_digit, split, find_char, find_str, split_chars, find_char_in,
    find_str_in, slice_chars, chars_of, lemma_split_acc_nonempty,
};
use crate::urlguard::Ip;

verus! {

// IP address literals as they stand in a URL's host: an IPv4 address in dotted-decimal form,
// or an IPv6 address in brackets (eight groups of up to four hex digits, one run of zero
// groups written `::`, the last two groups possibly in dotted-decimal form).

/// The value of a hexadecimal digit; -1 for any other character.
pub open spec fn hex_val(c: char) -> int {
    if '0' <= c && c <= '9' {
        (c as int) - ('0' as int)
    } else if 'a' <= c && c <= 'f' {
        (c as int) - ('a' as int) + 10
    } else if 'A' <= c && c <= 'F' {
        (c as int) - ('A' as int) + 10
    } else {
        -1
    }
}

/// The value of a string of hexadecimal digits.
pub open spec fn hex_digits_val(s: Seq<char>) -> int
    decreases s.len(),
{
    if s.len() == 0 {
        0
    } else {
        hex_digits_val(s.drop_last()) * 16 + hex_val(s.last())
    }
}

/// A 16-bit group: one to four hexadecimal digits.
pub open spec fn hex_group(p: Seq<char>) -> Option<u16> {
    if 1 <= p.len() <= 4 && forall|i: int| 0 <= i < p.len() ==> hex_val(#[trigger] p[i]) >= 0 {
        Some(hex_digits_val(p) as u16)
    } else {
        None
    }
}

/// A decimal octet: one to three digits without a leading zero, at most 255.
pub open spec fn dec_octet(p: Seq<char>) -> Option<u8> {
    if 1 <= p.len() <= 3 && all_digits(p) && (p.len() == 1 || p[0] != '0') && digits_val(p) <= 255 {
        Some(digits_val(p) as u8)
    } else {
        None
    }
}

/// An IPv4 address in dotted-decimal form: exactly four decimal octets.
pub open spec fn ipv4_text(s: Seq<char>) -> Option<(u8, u8, u8, u8)> {
    let parts = split(s, '.');
    if parts.len() == 4 && dec_octet(parts[0]) is Some && dec_octet(parts[1]) is Some
        && dec_octet(parts[2]) is Some && dec_octet(parts[3]) is Some {
        Some(
            (
                dec_octet(parts[0]).unwrap(),
                dec_octet(parts[1]).unwrap(),
                dec_octet(parts[2]).unwrap(),
                dec_octet(parts[3]).unwrap(),
            ),
        )
    } else {
        None
    }
}

/// The groups of a list of hexadecimal groups; nothing when one of them is not a group.
pub open spec fn hex_groups(parts: Seq<Seq<char>>) -> Option<Seq<u16>> {
    if forall|i: int| 0 <= i < parts.len() ==> #[trigger] hex_group(parts[i]) is Some {
        Some(Seq::new(parts.len(), |i: int| hex_group(parts[i]).unwrap()))
    } else {
        None
    }
}

pub open spec fn pow16_spec(i: int) -> int {
    if i == 0 {
        1
    } else if i == 1 {
        16
    } else if i == 2 {
        256
    } else if i == 3 {
        4096
    } else {
        65536
    }
}

pub open spec fn pow10_spec(i: int) -> int {
    if i == 0 {
        1
    } else if i == 1 {
        10
    } else if i == 2 {
        100
    } else {
        1000
    }
}

fn hex_digit_of(c: char) -> (r: Option<u32>)
    ensures
        match r {
            Some(d) => hex_val(c) == d && d < 16,
            None => hex_val(c) < 0,
        },
{
    if '0' <= c && c <= '9' {
        Some((c as u32) - ('0' as u32))
    } else if 'a' <= c && c <= 'f' {
        Some((c as u32) - ('a' as u32) + 10)
    } else if 'A' <= c && c <= 'F' {
        Some((c as u32) - ('A' as u32) + 10)
    } else {
        None
    }
}

fn hex_group_of(p: &Vec<char>) -> (r: Option<u16>)
    ensures
        r == hex_group(p@),
{
    if p.len() < 1 || p.len() > 4 {
        return None;
    }
    let mut v: u32 = 0;
    let mut i: usize = 0;
    while i < p.len()
        invariant
            i <= p.len() <= 4,
            forall|k: int| 0 <= k < i ==> hex_val(#[trigger] p@[k]) >= 0,
            v == hex_digits_val(p@.take(i as int)),
            v < pow16_spec(i as int),
        decreases p.len() - i,
    {
        match hex_digit_of(p[i]) {
            Some(d) => {
                assert(p@.take(i + 1).drop_last() =~= p@.take(i as int));
                v = v * 16 + d;
            },
            None => {
                return None;
            },
        }
        i = i + 1;
    }
    assert(p@.take(p@.len() as int) =~= p@);
    Some(v as u16)
}

fn dec_octet_of(p: &Vec<char>) -> (r: Option<u8>)
    ensures
        r == dec_octet(p@),
{
    if p.len() < 1 || p.len() > 3 {
        return None;
    }
    if p.len() > 1 && p[0] == '0' {
        return None;
    }
    let mut v: u32 = 0;
    let mut i: usize = 0;
    while i < p.len()
        invariant
            1 <= p.len() <= 3,
            i <= p.len(),
            forall|k: int| 0 <= k < i ==> is_digit(#[trigger] p@[k]),
            v == digits_val(p@.take(i as int)),
            v < pow10_spec(i as int),
        decreases p.len() - i,
    {
        let c = p[i];
        if !('0' <= c && c <= '9') {
            assert(!all_digits(p@)) by {
                assert(!is_digit(p@[i as int]));
            }
            return None;
        }
        assert(p@.take(i + 1).drop_last() =~= p@.take(i as int));
        v = v * 10 + ((c as u32) - ('0' as u32));
        i = i + 1;
    }
    assert(p@.take(p@.len() as int) =~= p@);
    if v > 255 {
        None
    } else {
        Some(v as u8)
    }
}

fn ipv4_of(s: &Vec<char>) -> (r: Option<(u8, u8, u8, u8)>)
    ensures
        r == ipv4_text(s@),
{
    let parts = split_chars(s, '.');
    if parts.len() != 4 {
        return None;
    }
    let a = dec_octet_of(&parts[0]);
    let b = dec_octet_of(&parts[1]);
    let c = dec_octet_of(&parts[2]);
    let d = dec_octet_of(&parts[3]);
    match (a, b, c, d) {
        (Some(a), Some(b), Some(c), Some(d)) => Some((a, b, c, d)),
        _ => None,
    }
}

fn hex_groups_of(parts: &Vec<Vec<char>>, n: usize) -> (r: Option<Vec<u16>>)
    requires
        n <= parts@.len(),
    ensures
        match r {
            Some(g) => hex_groups(Seq::new(n as nat, |i: int| parts@[i]@)) == Some(g@),
            None => hex_groups(Seq::new(n as nat, |i: int| parts@[i]@)) is None,
        },
{
    let ghost ps = Seq::new(n as nat, |i: int| parts@[i]@);
    let mut g: Vec<u16> = Vec::new();
    let mut i: usize = 0;
    while i < n
        invariant
            i <= n <= parts@.len(),
            ps == Seq::new(n as nat, |i: int| parts@[i]@),
            g@.len() == i,
            forall|k: int| 0 <= k < i ==> #[trigger] hex_group(ps[k]) == Some(g@[k]),
        decreases n - i,
    {
        match hex_group_of(&parts[i]) {
            Some(x) => {
                g.push(x);
            },
            None => {
                assert(hex_group(ps[i as int]) is None);
                return None;
            },
        }
        i = i + 1;
    }
    assert(Seq::new(ps.len(), |k: int| hex_group(ps[k]).unwrap()) =~= g@);
    Some(g)
}


/// The two groups an embedded dotted-decimal IPv4 address stands for.
pub open spec fn v4_groups(a: u8, b: u8, c: u8, d: u8) -> Seq<u16> {
    seq![((a as int) * 256 + (b as int)) as u16, ((c as int) * 256 + (d as int)) as u16]
}

/// The groups of a run of `:`-separated groups; where `tail_v4` allows it, the last one may be
/// an IPv4 address in dotted-decimal form, standing for two groups.
pub open spec fn group_run(s: Seq<char>, tail_v4: bool) -> Option<Seq<u16>> {
    let parts = split(s, ':');
    let last = parts.last();
    if tail_v4 && find_char(last, '.') is Some {
        match (hex_groups(parts.drop_last()), ipv4_text(last)) {
            (Some(g), Some((a, b, c, d))) => Some(g + v4_groups(a, b, c, d)),
            _ => None,
        }
    } else {
        hex_groups(parts)
    }
}

/// The eight groups of an IPv6 address in text form: eight groups, or fewer around one `::`
/// that stands for at least one zero group.
pub open spec fn ipv6_text(s: Seq<char>) -> Option<Seq<u16>> {
    match find_str(s, "::"@) {
        Some(i) => ipv6_around_gap(s, i),
        None => match group_run(s, true) {
            Some(g) => if g.len() == 8 {
                Some(g)
            } else {
                None
            },
            None => None,
        },
    }
}

/// The groups of an IPv6 address whose `::` stands at index `i`: the groups before it, zero
/// groups (at least one) to make eight, and the groups after it.
pub open spec fn ipv6_around_gap(s: Seq<char>, i: int) -> Option<Seq<u16>> {
    let left = s.take(i);
    let right = s.skip(i + 2);
    let l = if left.len() == 0 {
        Some(Seq::<u16>::empty())
    } else {
        group_run(left, false)
    };
    let r = if right.len() == 0 {
        Some(Seq::<u16>::empty())
    } else {
        group_run(right, true)
    };
    match (l, r) {
        (Some(a), Some(b)) => if a.len() + b.len() <= 7 {
            Some(a + Seq::new((8 - a.len() - b.len()) as nat, |k: int| 0u16) + b)
        } else {
            None
        },
        _ => None,
    }
}

/// The address a URL host names literally: a dotted-decimal IPv4 address, or an IPv6 address
/// in brackets; nothing for a host name.
pub open spec fn ip_literal(h: Seq<char>) -> Option<Ip> {
    if h.len() >= 2 && h[0] == '[' && h.last() == ']' {
        match ipv6_text(h.subrange(1, h.len() - 1)) {
            Some(g) => Some(Ip::V6(g[0], g[1], g[2], g[3], g[4], g[5], g[6], g[7])),
            None => None,
        }
    } else {
        match ipv4_text(h) {
            Some((a, b, c, d)) => Some(Ip::V4(a, b, c, d)),
            None => None,
        }
    }
}

fn group_run_of(s: &Vec<char>, tail_v4: bool) -> (r: Option<Vec<u16>>)
    ensures
        match r {
            Some(g) => group_run(s@, tail_v4) == Some(g@),
            None => group_run(s@, tail_v4) is None,
        },
{
    let parts = split_chars(s, ':');
    let ghost ps = split(s@, ':');
    proof {
        lemma_split_acc_nonempty(Seq::empty(), s@, ':');
    }
    let n = parts.len();
    assert(Seq::new(n as nat, |i: int| parts@[i]@) =~= ps);
    assert(Seq::new((n - 1) as nat, |i: int| parts@[i]@) =~= ps.drop_last());
    let last = &parts[n - 1];
    if tail_v4 && find_char_in(last, '.').is_some() {
        let head = hex_groups_of(&parts, n - 1);
        let v4 = ipv4_of(last);
        match (head, v4) {
            (Some(mut g), Some((a, b, c, d))) => {
                let ghost g0 = g@;
                g.push((a as u16) * 256 + (b as u16));
                g.push((c as u16) * 256 + (d as u16));
                assert(g@ =~= g0 + v4_groups(a, b, c, d));
                Some(g)
            },
            _ => None,
        }
    } else {
        hex_groups_of(&parts, n)
    }
}

/// The groups on one side of `::` (none for an empty side).
fn side_groups(v: &Vec<char>, tail_v4: bool) -> (r: Option<Vec<u16>>)
    ensures
        match r {
            Some(g) => (if v@.len() == 0 { Some(Seq::<u16>::empty()) } else { group_run(v@, tail_v4) }) == Some(g@),
            None => (if v@.len() == 0 { Some(Seq::<u16>::empty()) } else { group_run(v@, tail_v4) }) is None,
        },
{
    if v.len() == 0 {
        let e: Vec<u16> = Vec::new();
        assert(e@ =~= Seq::<u16>::empty());
        Some(e)
    } else {
        group_run_of(v, tail_v4)
    }
}

/// `a`, then as many zero groups as make eight in all, then `b`.
fn join_groups(a: Vec<u16>, b: Vec<u16>) -> (r: Vec<u16>)
    requires
        a@.len() + b@.len() <= 7,
    ensures
        r@ == a@ + Seq::new((8 - a@.len() - b@.len()) as nat, |k: int| 0u16) + b@,
        r@.len() == 8,
{
    let mut a = a;
    let ghost a0 = a@;
    let fill = 8 - a.len() - b.len();
    let mut k: usize = 0;
    while k < fill
        invariant
            k <= fill,
            fill == 8 - a0.len() - b@.len(),
            a@ == a0 + Seq::new(k as nat, |j: int| 0u16),
        decreases fill - k,
    {
        a.push(0u16);
        assert(a@ =~= a0 + Seq::new((k + 1) as nat, |j: int| 0u16));
        k = k + 1;
    }
    let ghost mid = a@;
    let mut j: usize = 0;
    while j < b.len()
        invariant
            j <= b.len(),
            a@ == mid + b@.take(j as int),
        decreases b.len() - j,
    {
        a.push(b[j]);
        assert(a@ =~= mid + b@.take(j + 1));
        j = j + 1;
    }
    assert(b@.take(b@.len() as int) =~= b@);
    a
}

fn around_gap_of(s: &Vec<char>, i: usize) -> (r: Option<Vec<u16>>)
    requires
        i + 2 <= s@.len(),
    ensures
        match r {
            Some(g) => ipv6_around_gap(s@, i as int) == Some(g@) && g@.len() == 8,
            None => ipv6_around_gap(s@, i as int) is None,
        },
{
    let n = s.len();
    let left = slice_chars(s, 0, i);
    let right = slice_chars(s, i + 2, n);
    assert(left@ =~= s@.take(i as int));
    assert(right@ =~= s@.skip(i + 2));
    let l = side_groups(&left, false);
    let r = side_groups(&right, true);
    match (l, r) {
        (Some(a), Some(b)) => {
            if a.len() > 7 || b.len() > 7 - a.len() {
                return None;
            }
            Some(join_groups(a, b))
        },
        _ => None,
    }
}

fn ipv6_of(s: &Vec<char>) -> (r: Option<Vec<u16>>)
    ensures
        match r {
            Some(g) => ipv6_text(s@) == Some(g@) && g@.len() == 8,
            None => ipv6_text(s@) is None,
        },
{
    let sep = chars_of("::");
    proof {
        reveal_strlit("::");
    }
    assert(sep@.len() == 2);
    let n = s.len();
    match find_str_in(s, &sep) {
        Some(i) => {
            assert(i + 2 <= n);
            around_gap_of(s, i)
        },
        None => match group_run_of(s, true) {
            Some(g) => if g.len() == 8 {
                Some(g)
            } else {
                None
            },
            None => None,
        },
    }
}

/// The address a URL host names literally (see `ip_literal`): `None` for a host name.
pub fn host_ip(host: &str) -> (r: Option<Ip>)
    ensures
        r == ip_literal(host@),
{
    let h = chars_of(host);
    if h.len() >= 2 && h[0] == '[' && h[h.len() - 1] == ']' {
        let inner = slice_chars(&h, 1, h.len() - 1);
        match ipv6_of(&inner) {
            Some(g) => Some(Ip::V6(g[0], g[1], g[2], g[3], g[4], g[5], g[6], g[7])),
            None => None,
        }
    } else {
        match ipv4_of(&h) {
            Some((a, b, c, d)) => Some(Ip::V4(a, b, c, d)),
            None => None,
        }
    }
}

} // verus!
