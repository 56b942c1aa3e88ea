//! Literal IP addresses: the types that stand for them and the parsers that
//! recognize them in a server identifier.
//!
//! The grammar recognized here is the usual textual form: four decimal octets
//! for IPv4 (no leading zeros), colon-separated hexadecimal groups for IPv6
//! with at most one `::` compression and an optional embedded IPv4 tail, and
//! `v4:port` or `[v6]:port` for a literal socket address.

use vstd::prelude::*;
use crate::text::{
    all_digit_chars, all_hex_digit_chars, char_vec, dec_val, dec_value_capped, find_char,
    first_index, hex_val, hex_value_group, is_digit_char, is_hex_digit_char, spec_dec_capped,
    split_char, split_on, vec_skip, vec_take,
};

verus! {

/// An IPv4 address as four octets.
#[derive(Clone, Copy, PartialEq, Eq, Structural, Debug)]
pub struct Ipv4Address {
    pub o0: u8,
    pub o1: u8,
    pub o2: u8,
    pub o3: u8,
}

/// An IPv6 address as eight sixteen-bit groups.
#[derive(Clone, Copy, PartialEq, Eq, Structural, Debug)]
pub struct Ipv6Address {
    pub g0: u16,
    pub g1: u16,
    pub g2: u16,
    pub g3: u16,
    pub g4: u16,
    pub g5: u16,
    pub g6: u16,
    pub g7: u16,
}

/// An IP address of either family.
#[derive(Clone, Copy, PartialEq, Eq, Structural, Debug)]
pub enum IpAddress {
    V4(Ipv4Address),
    V6(Ipv6Address),
}

/// An IP address together with a port.
#[derive(Clone, Copy, PartialEq, Eq, Structural, Debug)]
pub struct SocketAddress {
    pub ip: IpAddress,
    pub port: u16,
}

/// A decimal octet: one to three digits, no leading zero, at most 255.
pub open spec fn spec_octet(s: Seq<char>) -> Option<u8> {
    if 1 <= s.len() <= 3 && all_digit_chars(s) && (s.len() > 1 ==> s[0] != '0') && dec_val(s)
        <= 255 {
        Some(dec_val(s) as u8)
    } else {
        None
    }
}

/// An IPv4 literal: four octets separated by dots.
pub open spec fn spec_ipv4(s: Seq<char>) -> Option<Ipv4Address> {
    let parts = split_on(s, '.');
    if parts.len() == 4 {
        match (spec_octet(parts[0]), spec_octet(parts[1]), spec_octet(parts[2]), spec_octet(
            parts[3],
        )) {
            (Some(o0), Some(o1), Some(o2), Some(o3)) => Some(
                Ipv4Address { o0, o1, o2, o3 },
            ),
            _ => None,
        }
    } else {
        None
    }
}

/// Reads one octet of an IPv4 literal.
pub fn parse_octet(part: &Vec<char>) -> (r: Option<u8>)
    ensures
        r == spec_octet(part@),
{
    let n = part.len();
    if n < 1 || n > 3 {
        return None;
    }
    if n > 1 && part[0] == '0' {
        return None;
    }
    match dec_value_capped(part, 255) {
        Some(v) => {
            proof {
                crate::text::lemma_dec_val_nonneg(part@);
            }
            Some(v as u8)
        }
        None => None,
    }
}

/// Reads an IPv4 literal from its characters.
pub fn parse_ipv4_chars(v: &Vec<char>) -> (r: Option<Ipv4Address>)
    ensures
        r == spec_ipv4(v@),
{
    let parts = split_char(v, '.');
    if parts.len() != 4 {
        return None;
    }
    proof {
        assert forall|i: int| 0 <= i < 4 implies parts.deep_view()[i] == parts@[i]@ by {
            assert(parts@[i].deep_view() =~= parts@[i]@);
        }
    }
    let o0 = parse_octet(&parts[0]);
    let o1 = parse_octet(&parts[1]);
    let o2 = parse_octet(&parts[2]);
    let o3 = parse_octet(&parts[3]);
    match (o0, o1, o2, o3) {
        (Some(o0), Some(o1), Some(o2), Some(o3)) => Some(Ipv4Address { o0, o1, o2, o3 }),
        _ => None,
    }
}

/// The character of one decimal digit.
pub open spec fn decimal_digit_char(d: int) -> char {
    if d == 0 {
        '0'
    } else if d == 1 {
        '1'
    } else if d == 2 {
        '2'
    } else if d == 3 {
        '3'
    } else if d == 4 {
        '4'
    } else if d == 5 {
        '5'
    } else if d == 6 {
        '6'
    } else if d == 7 {
        '7'
    } else if d == 8 {
        '8'
    } else {
        '9'
    }
}

/// The canonical decimal text of an octet: one to three digits, no leading
/// zero.
pub open spec fn octet_text(n: u8) -> Seq<char> {
    if n < 10 {
        seq![decimal_digit_char(n as int)]
    } else if n < 100 {
        seq![decimal_digit_char(n as int / 10), decimal_digit_char(n as int % 10)]
    } else {
        seq![
            decimal_digit_char(n as int / 100),
            decimal_digit_char((n as int / 10) % 10),
            decimal_digit_char(n as int % 10),
        ]
    }
}

/// The canonical text of an IPv4 address: the four octets, dotted.
pub open spec fn ipv4_text(a: Ipv4Address) -> Seq<char> {
    octet_text(a.o0) + seq!['.'] + octet_text(a.o1) + seq!['.'] + octet_text(a.o2) + seq!['.']
        + octet_text(a.o3)
}

/// The canonical text of an octet is an octet numeral reading back as the
/// octet, and holds nothing but digits.
pub proof fn lemma_octet_text(n: u8)
    ensures
        spec_octet(octet_text(n)) == Some(n),
        forall|i: int|
            0 <= i < octet_text(n).len() ==> is_digit_char(#[trigger] octet_text(n)[i]),
{
    let s = octet_text(n);
    assert forall|d: int| 0 <= d <= 9 implies is_digit_char(decimal_digit_char(d))
        && crate::text::digit_char_val(decimal_digit_char(d)) == d by {}
    let e = Seq::<char>::empty();
    assert(dec_val(e) == 0);
    if n < 10 {
        let d0 = decimal_digit_char(n as int);
        assert(s =~= seq![d0]);
        assert(seq![d0].drop_last() =~= e);
        assert(dec_val(seq![d0]) == crate::text::digit_char_val(d0));
    } else if n < 100 {
        let d1 = decimal_digit_char(n as int / 10);
        let d0 = decimal_digit_char(n as int % 10);
        assert(s =~= seq![d1, d0]);
        assert(seq![d1].drop_last() =~= e);
        assert(dec_val(seq![d1]) == crate::text::digit_char_val(d1));
        assert(seq![d1, d0].drop_last() =~= seq![d1]);
        assert(dec_val(seq![d1, d0]) == dec_val(seq![d1]) * 10 + crate::text::digit_char_val(
            d0,
        ));
        assert(dec_val(s) == (n as int / 10) * 10 + (n as int % 10));
    } else {
        let d2 = decimal_digit_char(n as int / 100);
        let d1 = decimal_digit_char((n as int / 10) % 10);
        let d0 = decimal_digit_char(n as int % 10);
        assert(s =~= seq![d2, d1, d0]);
        assert(seq![d2].drop_last() =~= e);
        assert(dec_val(seq![d2]) == crate::text::digit_char_val(d2));
        assert(seq![d2, d1].drop_last() =~= seq![d2]);
        assert(dec_val(seq![d2, d1]) == dec_val(seq![d2]) * 10 + crate::text::digit_char_val(
            d1,
        ));
        assert(seq![d2, d1, d0].drop_last() =~= seq![d2, d1]);
        assert(dec_val(seq![d2, d1, d0]) == dec_val(seq![d2, d1]) * 10
            + crate::text::digit_char_val(d0));
        assert(((n as int / 100) * 10 + ((n as int / 10) % 10)) * 10 + (n as int % 10)
            == n as int) by (nonlinear_arith)
            requires
                100 <= n < 256,
        ;
        assert(dec_val(s) == n as int);
    }
}

/// Parsing undoes rendering: the canonical text of every IPv4 address reads
/// back as exactly that address.
#[verifier::rlimit(60)]
pub proof fn lemma_ipv4_round_trip(a: Ipv4Address)
    ensures
        spec_ipv4(ipv4_text(a)) == Some(a),
{
    let t0 = octet_text(a.o0);
    let t1 = octet_text(a.o1);
    let t2 = octet_text(a.o2);
    let t3 = octet_text(a.o3);
    lemma_octet_text(a.o0);
    lemma_octet_text(a.o1);
    lemma_octet_text(a.o2);
    lemma_octet_text(a.o3);
    let e = Seq::<char>::empty();
    assert(split_on(e, '.') =~~= seq![e]);

    let s0 = e + t0;
    crate::text::lemma_split_on_extend(e, t0, '.');
    assert(split_on(s0, '.') =~~= seq![t0]);

    let s1 = s0 + seq!['.'];
    assert(s1.len() == s0.len() + 1);
    assert(s1.last() == '.');
    assert(s1.drop_last() =~= s0);
    assert(split_on(s1, '.') == split_on(s0, '.').push(e));
    assert(split_on(s1, '.') =~~= seq![t0, e]);

    let s2 = s1 + t1;
    crate::text::lemma_split_on_extend(s1, t1, '.');
    assert(split_on(s2, '.') =~~= seq![t0, e + t1]);
    assert(e + t1 =~= t1);
    assert(split_on(s2, '.') =~~= seq![t0, t1]);

    let s3 = s2 + seq!['.'];
    assert(s3.len() == s2.len() + 1);
    assert(s3.last() == '.');
    assert(s3.drop_last() =~= s2);
    assert(split_on(s3, '.') == split_on(s2, '.').push(e));
    assert(split_on(s3, '.') =~~= seq![t0, t1, e]);

    let s4 = s3 + t2;
    crate::text::lemma_split_on_extend(s3, t2, '.');
    assert(e + t2 =~= t2);
    assert(split_on(s4, '.') =~~= seq![t0, t1, t2]);

    let s5 = s4 + seq!['.'];
    assert(s5.len() == s4.len() + 1);
    assert(s5.last() == '.');
    assert(s5.drop_last() =~= s4);
    assert(split_on(s5, '.') == split_on(s4, '.').push(e));
    assert(split_on(s5, '.') =~~= seq![t0, t1, t2, e]);

    let s6 = s5 + t3;
    crate::text::lemma_split_on_extend(s5, t3, '.');
    assert(e + t3 =~= t3);
    assert(split_on(s6, '.') =~~= seq![t0, t1, t2, t3]);

    assert(ipv4_text(a) =~= s6);
    let parts = split_on(ipv4_text(a), '.');
    assert(parts[0] == t0 && parts[1] == t1 && parts[2] == t2 && parts[3] == t3);
}

/// A hexadecimal group between colons: one to four hexadecimal digits.
pub open spec fn spec_group(s: Seq<char>) -> Option<u16> {
    if 1 <= s.len() <= 4 && all_hex_digit_chars(s) {
        Some(hex_val(s) as u16)
    } else {
        None
    }
}

/// The upper sixteen bits contributed by an embedded IPv4 tail.
pub open spec fn v4_group_hi(a: Ipv4Address) -> u16 {
    (a.o0 * 256 + a.o1) as u16
}

/// The lower sixteen bits contributed by an embedded IPv4 tail.
pub open spec fn v4_group_lo(a: Ipv4Address) -> u16 {
    (a.o2 * 256 + a.o3) as u16
}

/// The sixteen-bit groups denoted by a list of colon-separated parts. The
/// last part may instead be an embedded IPv4 literal, worth two groups, when
/// `allow_v4` holds.
pub open spec fn spec_group_seq(parts: Seq<Seq<char>>, allow_v4: bool) -> Option<Seq<u16>>
    decreases parts.len(),
{
    if parts.len() == 0 {
        Some(Seq::<u16>::empty())
    } else if parts.len() == 1 {
        match spec_group(parts[0]) {
            Some(g) => Some(seq![g]),
            None => {
                if allow_v4 {
                    match spec_ipv4(parts[0]) {
                        Some(a) => Some(seq![v4_group_hi(a), v4_group_lo(a)]),
                        None => None,
                    }
                } else {
                    None
                }
            },
        }
    } else {
        match (spec_group(parts[0]), spec_group_seq(parts.skip(1), allow_v4)) {
            (Some(g), Some(rest)) => Some(seq![g] + rest),
            _ => None,
        }
    }
}

/// The index of the first `::` in `s`, or the length of `s` when there is
/// none.
pub open spec fn find_double_colon(s: Seq<char>) -> int
    decreases s.len(),
{
    if s.len() < 2 {
        s.len() as int
    } else if s[0] == ':' && s[1] == ':' {
        0
    } else {
        1 + find_double_colon(s.skip(1))
    }
}

/// `n` zero groups.
pub open spec fn zero_groups(n: int) -> Seq<u16> {
    Seq::new(n as nat, |i: int| 0u16)
}

/// Eight groups assembled into an address.
pub open spec fn groups_to_ipv6(g: Seq<u16>) -> Ipv6Address {
    Ipv6Address {
        g0: g[0],
        g1: g[1],
        g2: g[2],
        g3: g[3],
        g4: g[4],
        g5: g[5],
        g6: g[6],
        g7: g[7],
    }
}

/// An IPv6 literal: eight groups, or fewer with one `::` standing for the
/// missing zero groups, with an optional embedded IPv4 tail.
pub open spec fn spec_ipv6(s: Seq<char>) -> Option<Ipv6Address> {
    let dc = find_double_colon(s);
    if dc == s.len() {
        match spec_group_seq(split_on(s, ':'), true) {
            Some(g) => if g.len() == 8 {
                Some(groups_to_ipv6(g))
            } else {
                None
            },
            None => None,
        }
    } else {
        let head = s.take(dc);
        let tail = s.skip(dc + 2);
        let hg = if head.len() == 0 {
            Some(Seq::<u16>::empty())
        } else {
            spec_group_seq(split_on(head, ':'), false)
        };
        let tg = if tail.len() == 0 {
            Some(Seq::<u16>::empty())
        } else {
            spec_group_seq(split_on(tail, ':'), true)
        };
        match (hg, tg) {
            (Some(h), Some(t)) => if h.len() + t.len() <= 7 {
                Some(groups_to_ipv6(h + zero_groups(8 - h.len() - t.len()) + t))
            } else {
                None
            },
            _ => None,
        }
    }
}

/// Finds the first `::` in `v` at or after `from`.
fn find_dc(v: &Vec<char>, from: usize) -> (r: usize)
    requires
        from <= v@.len(),
    ensures
        r == from + find_double_colon(v@.skip(from as int)),
        from <= r <= v@.len(),
        r < v@.len() ==> r + 1 < v@.len(),
    decreases v@.len() - from,
{
    proof {
        assert(v@.skip(from as int).len() == v@.len() - from);
    }
    if v.len() - from < 2 {
        return v.len();
    }
    proof {
        assert(v@.skip(from as int)[0] == v@[from as int]);
        assert(v@.skip(from as int)[1] == v@[from as int + 1]);
    }
    if v[from] == ':' && v[from + 1] == ':' {
        return from;
    }
    proof {
        assert(v@.skip(from as int).skip(1) =~= v@.skip(from as int + 1));
    }
    find_dc(v, from + 1)
}

/// Reads the groups denoted by `parts[i..]`, as `spec_group_seq` describes.
fn parse_groups(parts: &Vec<Vec<char>>, i: usize, allow_v4: bool) -> (r: Option<Vec<u16>>)
    requires
        i <= parts@.len(),
    ensures
        match r {
            Some(g) => spec_group_seq(parts.deep_view().skip(i as int), allow_v4) == Some(g@),
            None => spec_group_seq(parts.deep_view().skip(i as int), allow_v4) is None,
        },
    decreases parts@.len() - i,
{
    let n = parts.len();
    let ghost dv = parts.deep_view();
    proof {
        assert(dv.len() == parts@.len());
        assert(dv.skip(i as int).len() == n - i);
    }
    if i == n {
        proof {
            assert(dv.skip(i as int) =~= Seq::<Seq<char>>::empty());
        }
        return Some(Vec::new());
    }
    proof {
        assert(dv.skip(i as int)[0] == dv[i as int]);
        assert(dv[i as int] =~= parts@[i as int]@);
    }
    if i == n - 1 {
        match hex_value_group(&parts[i]) {
            Some(g) => {
                let mut one: Vec<u16> = Vec::new();
                one.push(g);
                proof {
                    assert(one@ =~= seq![g]);
                }
                Some(one)
            },
            None => {
                if allow_v4 {
                    match parse_ipv4_chars(&parts[i]) {
                        Some(a) => {
                            let hi: u16 = (a.o0 as u16) * 256 + (a.o1 as u16);
                            let lo: u16 = (a.o2 as u16) * 256 + (a.o3 as u16);
                            let mut two: Vec<u16> = Vec::new();
                            two.push(hi);
                            two.push(lo);
                            proof {
                                assert(two@ =~= seq![v4_group_hi(a), v4_group_lo(a)]);
                            }
                            Some(two)
                        },
                        None => None,
                    }
                } else {
                    None
                }
            },
        }
    } else {
        proof {
            assert(dv.skip(i as int).skip(1) =~= dv.skip(i as int + 1));
        }
        match hex_value_group(&parts[i]) {
            Some(g) => {
                match parse_groups(parts, i + 1, allow_v4) {
                    Some(mut rest) => {
                        rest.insert(0, g);
                        proof {
                            assert(rest@ =~= seq![g] + rest@.skip(1));
                        }
                        Some(rest)
                    },
                    None => None,
                }
            },
            None => None,
        }
    }
}

/// Reads an IPv6 literal from its characters.
pub fn parse_ipv6_chars(v: &Vec<char>) -> (r: Option<Ipv6Address>)
    ensures
        r == spec_ipv6(v@),
{
    let n = v.len();
    let dc = find_dc(v, 0);
    proof {
        assert(v@.skip(0) =~= v@);
    }
    if dc == n {
        let parts = split_char(v, ':');
        proof {
            assert(parts.deep_view().skip(0) =~= parts.deep_view());
        }
        match parse_groups(&parts, 0, true) {
            Some(g) => {
                if g.len() == 8 {
                    Some(
                        Ipv6Address {
                            g0: g[0],
                            g1: g[1],
                            g2: g[2],
                            g3: g[3],
                            g4: g[4],
                            g5: g[5],
                            g6: g[6],
                            g7: g[7],
                        },
                    )
                } else {
                    None
                }
            },
            None => None,
        }
    } else {
        let head = vec_take(v, dc);
        let tail = vec_skip(v, dc + 2);
        let hg: Option<Vec<u16>> = if head.len() == 0 {
            Some(Vec::new())
        } else {
            let hp = split_char(&head, ':');
            proof {
                assert(hp.deep_view().skip(0) =~= hp.deep_view());
            }
            parse_groups(&hp, 0, false)
        };
        let tg: Option<Vec<u16>> = if tail.len() == 0 {
            Some(Vec::new())
        } else {
            let tp = split_char(&tail, ':');
            proof {
                assert(tp.deep_view().skip(0) =~= tp.deep_view());
            }
            parse_groups(&tp, 0, true)
        };
        match (hg, tg) {
            (Some(h), Some(t)) => {
                if h.len() <= 7 && t.len() <= 7 - h.len() {
                    let ghost hseq = h@;
                    let ghost tseq = t@;
                    let fill: usize = 8 - h.len() - t.len();
                    let mut g = h;
                    for k in 0..fill
                        invariant
                            g@ == hseq + zero_groups(k as int),
                            fill == 8 - hseq.len() - tseq.len(),
                    {
                        g.push(0u16);
                        proof {
                            assert(hseq + zero_groups(k + 1) =~= (hseq + zero_groups(
                                k as int,
                            )).push(0u16));
                        }
                    }
                    let tlen = t.len();
                    for k in 0..tlen
                        invariant
                            tlen == tseq.len(),
                            t@ == tseq,
                            fill == 8 - hseq.len() - tseq.len(),
                            g@ == hseq + zero_groups(fill as int) + tseq.take(k as int),
                    {
                        g.push(t[k]);
                        proof {
                            assert(hseq + zero_groups(fill as int) + tseq.take(k + 1) =~= (hseq
                                + zero_groups(fill as int) + tseq.take(k as int)).push(
                                tseq[k as int],
                            ));
                        }
                    }
                    proof {
                        assert(tseq.take(tlen as int) =~= tseq);
                        assert(g@.len() == 8);
                    }
                    Some(
                        Ipv6Address {
                            g0: g[0],
                            g1: g[1],
                            g2: g[2],
                            g3: g[3],
                            g4: g[4],
                            g5: g[5],
                            g6: g[6],
                            g7: g[7],
                        },
                    )
                } else {
                    None
                }
            },
            _ => None,
        }
    }
}

/// The character of one hexadecimal digit, lower case.
pub open spec fn hex_digit_char(d: int) -> char {
    if d == 0 {
        '0'
    } else if d == 1 {
        '1'
    } else if d == 2 {
        '2'
    } else if d == 3 {
        '3'
    } else if d == 4 {
        '4'
    } else if d == 5 {
        '5'
    } else if d == 6 {
        '6'
    } else if d == 7 {
        '7'
    } else if d == 8 {
        '8'
    } else if d == 9 {
        '9'
    } else if d == 10 {
        'a'
    } else if d == 11 {
        'b'
    } else if d == 12 {
        'c'
    } else if d == 13 {
        'd'
    } else if d == 14 {
        'e'
    } else {
        'f'
    }
}

/// The canonical hexadecimal text of a group: one to four digits, no
/// leading zero.
pub open spec fn hex_text(g: u16) -> Seq<char> {
    if g < 0x10 {
        seq![hex_digit_char(g as int)]
    } else if g < 0x100 {
        seq![hex_digit_char(g as int / 16), hex_digit_char(g as int % 16)]
    } else if g < 0x1000 {
        seq![
            hex_digit_char(g as int / 256),
            hex_digit_char((g as int / 16) % 16),
            hex_digit_char(g as int % 16),
        ]
    } else {
        seq![
            hex_digit_char(g as int / 4096),
            hex_digit_char((g as int / 256) % 16),
            hex_digit_char((g as int / 16) % 16),
            hex_digit_char(g as int % 16),
        ]
    }
}

/// The canonical text of a group is a group numeral reading back as the
/// group, and holds nothing but hexadecimal digits.
pub proof fn lemma_hex_text(g: u16)
    ensures
        spec_group(hex_text(g)) == Some(g),
        forall|i: int|
            0 <= i < hex_text(g).len() ==> is_hex_digit_char(#[trigger] hex_text(g)[i]),
{
    let s = hex_text(g);
    assert forall|d: int| 0 <= d <= 15 implies is_hex_digit_char(hex_digit_char(d))
        && crate::text::hex_digit_char_val(hex_digit_char(d)) == d by {}
    let e = Seq::<char>::empty();
    assert(hex_val(e) == 0);
    if g < 0x10 {
        let d0 = hex_digit_char(g as int);
        assert(s =~= seq![d0]);
        assert(seq![d0].drop_last() =~= e);
        assert(hex_val(seq![d0]) == crate::text::hex_digit_char_val(d0));
    } else if g < 0x100 {
        let d1 = hex_digit_char(g as int / 16);
        let d0 = hex_digit_char(g as int % 16);
        assert(s =~= seq![d1, d0]);
        assert(seq![d1].drop_last() =~= e);
        assert(hex_val(seq![d1]) == crate::text::hex_digit_char_val(d1));
        assert(seq![d1, d0].drop_last() =~= seq![d1]);
        assert(hex_val(seq![d1, d0]) == hex_val(seq![d1]) * 16 + crate::text::hex_digit_char_val(
            d0,
        ));
        assert(hex_val(s) == (g as int / 16) * 16 + (g as int % 16));
    } else if g < 0x1000 {
        let d2 = hex_digit_char(g as int / 256);
        let d1 = hex_digit_char((g as int / 16) % 16);
        let d0 = hex_digit_char(g as int % 16);
        assert(s =~= seq![d2, d1, d0]);
        assert(seq![d2].drop_last() =~= e);
        assert(hex_val(seq![d2]) == crate::text::hex_digit_char_val(d2));
        assert(seq![d2, d1].drop_last() =~= seq![d2]);
        assert(hex_val(seq![d2, d1]) == hex_val(seq![d2]) * 16 + crate::text::hex_digit_char_val(
            d1,
        ));
        assert(seq![d2, d1, d0].drop_last() =~= seq![d2, d1]);
        assert(hex_val(seq![d2, d1, d0]) == hex_val(seq![d2, d1]) * 16
            + crate::text::hex_digit_char_val(d0));
        assert(((g as int / 256) * 16 + ((g as int / 16) % 16)) * 16 + (g as int % 16)
            == g as int) by (nonlinear_arith)
            requires
                0x100 <= g < 0x1000,
        ;
        assert(hex_val(s) == g as int);
    } else {
        let d3 = hex_digit_char(g as int / 4096);
        let d2 = hex_digit_char((g as int / 256) % 16);
        let d1 = hex_digit_char((g as int / 16) % 16);
        let d0 = hex_digit_char(g as int % 16);
        assert(s =~= seq![d3, d2, d1, d0]);
        assert(seq![d3].drop_last() =~= e);
        assert(hex_val(seq![d3]) == crate::text::hex_digit_char_val(d3));
        assert(seq![d3, d2].drop_last() =~= seq![d3]);
        assert(hex_val(seq![d3, d2]) == hex_val(seq![d3]) * 16 + crate::text::hex_digit_char_val(
            d2,
        ));
        assert(seq![d3, d2, d1].drop_last() =~= seq![d3, d2]);
        assert(hex_val(seq![d3, d2, d1]) == hex_val(seq![d3, d2]) * 16
            + crate::text::hex_digit_char_val(d1));
        assert(seq![d3, d2, d1, d0].drop_last() =~= seq![d3, d2, d1]);
        assert(hex_val(seq![d3, d2, d1, d0]) == hex_val(seq![d3, d2, d1]) * 16
            + crate::text::hex_digit_char_val(d0));
        assert((((g as int / 4096) * 16 + ((g as int / 256) % 16)) * 16 + ((g as int / 16) % 16))
            * 16 + (g as int % 16) == g as int) by (nonlinear_arith)
            requires
                0x1000 <= g <= 0xffff,
        ;
        assert(hex_val(s) == g as int);
    }
}

/// No two adjacent occurrences of `c` anywhere in `s`.
pub open spec fn no_adjacent(s: Seq<char>, c: char) -> bool {
    forall|i: int| 0 <= i < s.len() - 1 ==> !((#[trigger] s[i]) == c && s[i + 1] == c)
}

/// A string without adjacent colons has no `::` to find.
pub proof fn lemma_no_double_colon(s: Seq<char>)
    requires
        no_adjacent(s, ':'),
    ensures
        find_double_colon(s) == s.len(),
    decreases s.len(),
{
    if s.len() >= 2 {
        assert(!(s[0] == ':' && s[1] == ':'));
        assert(no_adjacent(s.skip(1), ':')) by {
            assert(forall|i: int|
                0 <= i < s.skip(1).len() ==> (#[trigger] s.skip(1)[i]) == s[i + 1]);
        }
        lemma_no_double_colon(s.skip(1));
    }
}

/// Joining a separator-free, nonempty tail after a separator keeps a string
/// free of adjacent separators and of a trailing separator.
pub proof fn lemma_join_step(s: Seq<char>, t: Seq<char>, c: char)
    requires
        s.len() > 0,
        s.last() != c,
        t.len() > 0,
        forall|i: int| 0 <= i < t.len() ==> (#[trigger] t[i]) != c,
        no_adjacent(s, c),
    ensures
        no_adjacent(s + seq![c] + t, c),
        (s + seq![c] + t).len() > 0,
        (s + seq![c] + t).last() != c,
{
    let r = s + seq![c] + t;
    assert(r.len() == s.len() + 1 + t.len());
    assert forall|i: int| 0 <= i < r.len() - 1 implies !((#[trigger] r[i]) == c && r[i + 1]
        == c) by {
        if i < s.len() - 1 {
            assert(r[i] == s[i]);
            assert(r[i + 1] == s[i + 1]);
        } else if i == s.len() - 1 {
            assert(r[i] == s.last());
        } else if i == s.len() {
            assert(r[i + 1] == t[0]);
        } else {
            assert(r[i] == t[i - s.len() - 1]);
        }
    }
    assert(r.last() == t.last());
}

/// Joining a separator-free tail after a separator adds exactly one part to
/// a split.
pub proof fn lemma_split_join_step(u: Seq<char>, t: Seq<char>, c: char)
    requires
        forall|i: int| 0 <= i < t.len() ==> (#[trigger] t[i]) != c,
    ensures
        split_on(u + seq![c] + t, c) == split_on(u, c).push(t),
{
    let e = Seq::<char>::empty();
    let u1 = u.push(c);
    assert(u1.drop_last() =~= u);
    assert(u1.last() == c);
    assert(split_on(u1, c) == split_on(u, c).push(e));
    crate::text::lemma_split_on_extend(u1, t, c);
    let parts1 = split_on(u1, c);
    crate::text::lemma_split_on_len(u, c);
    assert(parts1.last() == e);
    assert(u + seq![c] + t =~= u1 + t);
    assert(split_on(u1 + t, c) == parts1.update(parts1.len() - 1, parts1.last() + t));
    assert(e + t =~= t);
    assert(parts1.update(parts1.len() - 1, t) =~~= split_on(u, c).push(t));
}

/// The canonical uncompressed text of an IPv6 address: all eight groups,
/// colon separated.
pub open spec fn ipv6_full_text(b: Ipv6Address) -> Seq<char> {
    hex_text(b.g0) + seq![':'] + hex_text(b.g1) + seq![':'] + hex_text(b.g2) + seq![':']
        + hex_text(b.g3) + seq![':'] + hex_text(b.g4) + seq![':'] + hex_text(b.g5) + seq![':']
        + hex_text(b.g6) + seq![':'] + hex_text(b.g7)
}

/// Parsing undoes rendering: the canonical uncompressed text of every IPv6
/// address reads back as exactly that address.
#[verifier::rlimit(60)]
pub proof fn lemma_ipv6_full_round_trip(b: Ipv6Address)
    ensures
        spec_ipv6(ipv6_full_text(b)) == Some(b),
{
    let t0 = hex_text(b.g0);
    let t1 = hex_text(b.g1);
    let t2 = hex_text(b.g2);
    let t3 = hex_text(b.g3);
    let t4 = hex_text(b.g4);
    let t5 = hex_text(b.g5);
    let t6 = hex_text(b.g6);
    let t7 = hex_text(b.g7);
    lemma_hex_text(b.g0);
    lemma_hex_text(b.g1);
    lemma_hex_text(b.g2);
    lemma_hex_text(b.g3);
    lemma_hex_text(b.g4);
    lemma_hex_text(b.g5);
    lemma_hex_text(b.g6);
    lemma_hex_text(b.g7);
    let e = Seq::<char>::empty();

    let u0 = t0;
    assert(split_on(e + t0, ':') == split_on(e, ':').update(0, e + t0)) by {
        crate::text::lemma_split_on_extend(e, t0, ':');
    }
    assert(e + t0 =~= t0);
    assert(split_on(u0, ':') =~~= seq![t0]);
    assert(no_adjacent(u0, ':'));
    assert(u0.last() != ':');

    let u1 = u0 + seq![':'] + t1;
    lemma_split_join_step(u0, t1, ':');
    lemma_join_step(u0, t1, ':');
    assert(split_on(u1, ':') =~~= seq![t0, t1]);

    let u2 = u1 + seq![':'] + t2;
    lemma_split_join_step(u1, t2, ':');
    lemma_join_step(u1, t2, ':');
    assert(split_on(u2, ':') =~~= seq![t0, t1, t2]);

    let u3 = u2 + seq![':'] + t3;
    lemma_split_join_step(u2, t3, ':');
    lemma_join_step(u2, t3, ':');
    assert(split_on(u3, ':') =~~= seq![t0, t1, t2, t3]);

    let u4 = u3 + seq![':'] + t4;
    lemma_split_join_step(u3, t4, ':');
    lemma_join_step(u3, t4, ':');
    assert(split_on(u4, ':') =~~= seq![t0, t1, t2, t3, t4]);

    let u5 = u4 + seq![':'] + t5;
    lemma_split_join_step(u4, t5, ':');
    lemma_join_step(u4, t5, ':');
    assert(split_on(u5, ':') =~~= seq![t0, t1, t2, t3, t4, t5]);

    let u6 = u5 + seq![':'] + t6;
    lemma_split_join_step(u5, t6, ':');
    lemma_join_step(u5, t6, ':');
    assert(split_on(u6, ':') =~~= seq![t0, t1, t2, t3, t4, t5, t6]);

    let u7 = u6 + seq![':'] + t7;
    lemma_split_join_step(u6, t7, ':');
    lemma_join_step(u6, t7, ':');
    assert(split_on(u7, ':') =~~= seq![t0, t1, t2, t3, t4, t5, t6, t7]);

    assert(ipv6_full_text(b) =~= u7);
    lemma_no_double_colon(u7);

    let p7 = seq![t7];
    assert(spec_group_seq(p7, true) == Some(seq![b.g7]));
    let p6 = seq![t6, t7];
    assert(p6.skip(1) =~= p7);
    assert(seq![b.g6] + seq![b.g7] =~= seq![b.g6, b.g7]);
    assert(spec_group_seq(p6, true) == Some(seq![b.g6, b.g7]));
    let p5 = seq![t5, t6, t7];
    assert(p5.skip(1) =~= p6);
    assert(seq![b.g5] + seq![b.g6, b.g7] =~= seq![b.g5, b.g6, b.g7]);
    assert(spec_group_seq(p5, true) == Some(seq![b.g5, b.g6, b.g7]));
    let p4 = seq![t4, t5, t6, t7];
    assert(p4.skip(1) =~= p5);
    assert(seq![b.g4] + seq![b.g5, b.g6, b.g7] =~= seq![b.g4, b.g5, b.g6, b.g7]);
    assert(spec_group_seq(p4, true) == Some(seq![b.g4, b.g5, b.g6, b.g7]));
    let p3 = seq![t3, t4, t5, t6, t7];
    assert(p3.skip(1) =~= p4);
    assert(seq![b.g3] + seq![b.g4, b.g5, b.g6, b.g7] =~= seq![b.g3, b.g4, b.g5, b.g6, b.g7]);
    assert(spec_group_seq(p3, true) == Some(seq![b.g3, b.g4, b.g5, b.g6, b.g7]));
    let p2 = seq![t2, t3, t4, t5, t6, t7];
    assert(p2.skip(1) =~= p3);
    assert(seq![b.g2] + seq![b.g3, b.g4, b.g5, b.g6, b.g7] =~= seq![
        b.g2,
        b.g3,
        b.g4,
        b.g5,
        b.g6,
        b.g7,
    ]);
    assert(spec_group_seq(p2, true) == Some(seq![b.g2, b.g3, b.g4, b.g5, b.g6, b.g7]));
    let p1 = seq![t1, t2, t3, t4, t5, t6, t7];
    assert(p1.skip(1) =~= p2);
    assert(seq![b.g1] + seq![b.g2, b.g3, b.g4, b.g5, b.g6, b.g7] =~= seq![
        b.g1,
        b.g2,
        b.g3,
        b.g4,
        b.g5,
        b.g6,
        b.g7,
    ]);
    assert(spec_group_seq(p1, true) == Some(seq![b.g1, b.g2, b.g3, b.g4, b.g5, b.g6, b.g7]));
    let p0 = seq![t0, t1, t2, t3, t4, t5, t6, t7];
    assert(p0.skip(1) =~= p1);
    assert(seq![b.g0] + seq![b.g1, b.g2, b.g3, b.g4, b.g5, b.g6, b.g7] =~= seq![
        b.g0,
        b.g1,
        b.g2,
        b.g3,
        b.g4,
        b.g5,
        b.g6,
        b.g7,
    ]);
    assert(spec_group_seq(p0, true) == Some(seq![
        b.g0,
        b.g1,
        b.g2,
        b.g3,
        b.g4,
        b.g5,
        b.g6,
        b.g7,
    ]));
}

/// An IP literal of either family: an IPv4 literal, else an IPv6 literal.
pub open spec fn spec_ip(s: Seq<char>) -> Option<IpAddress> {
    match spec_ipv4(s) {
        Some(a) => Some(IpAddress::V4(a)),
        None => match spec_ipv6(s) {
            Some(b) => Some(IpAddress::V6(b)),
            None => None,
        },
    }
}

/// A socket-address literal: `v4:port`, or `[v6]:port`.
pub open spec fn spec_socket(s: Seq<char>) -> Option<SocketAddress> {
    if s.len() > 0 && s[0] == '[' {
        let j = first_index(s, ']');
        if j < s.len() && j + 1 < s.len() && s[j + 1] == ':' {
            match (spec_ipv6(s.subrange(1, j)), spec_dec_capped(s.skip(j + 2), 65535)) {
                (Some(b), Some(p)) => Some(
                    SocketAddress { ip: IpAddress::V6(b), port: p as u16 },
                ),
                _ => None,
            }
        } else {
            None
        }
    } else {
        let i = first_index(s, ':');
        if i < s.len() {
            match (spec_ipv4(s.take(i)), spec_dec_capped(s.skip(i + 1), 65535)) {
                (Some(a), Some(p)) => Some(
                    SocketAddress { ip: IpAddress::V4(a), port: p as u16 },
                ),
                _ => None,
            }
        } else {
            None
        }
    }
}

/// Reads an IP literal of either family from its characters.
pub fn parse_ip_chars(v: &Vec<char>) -> (r: Option<IpAddress>)
    ensures
        r == spec_ip(v@),
{
    match parse_ipv4_chars(v) {
        Some(a) => Some(IpAddress::V4(a)),
        None => match parse_ipv6_chars(v) {
            Some(b) => Some(IpAddress::V6(b)),
            None => None,
        },
    }
}

/// Reads a socket-address literal from its characters.
pub fn parse_socket_chars(v: &Vec<char>) -> (r: Option<SocketAddress>)
    ensures
        r == spec_socket(v@),
{
    let n = v.len();
    proof {
        assert(v@.skip(0) =~= v@);
    }
    if n > 0 && v[0] == '[' {
        let j = find_char(v, ']', 0);
        if j < n && j + 1 < n && v[j + 1] == ':' {
            let inner = vec_take(v, j);
            let inner = vec_skip(&inner, 1);
            proof {
                assert(v@.take(j as int).skip(1) =~= v@.subrange(1, j as int));
            }
            let port_part = vec_skip(v, j + 2);
            match (parse_ipv6_chars(&inner), dec_value_capped(&port_part, 65535)) {
                (Some(b), Some(p)) => {
                    proof {
                        crate::text::lemma_dec_val_nonneg(v@.skip(j + 2));
                    }
                    Some(SocketAddress { ip: IpAddress::V6(b), port: p as u16 })
                },
                _ => None,
            }
        } else {
            None
        }
    } else {
        let i = find_char(v, ':', 0);
        if i < n {
            let host_part = vec_take(v, i);
            let port_part = vec_skip(v, i + 1);
            match (parse_ipv4_chars(&host_part), dec_value_capped(&port_part, 65535)) {
                (Some(a), Some(p)) => {
                    proof {
                        crate::text::lemma_dec_val_nonneg(v@.skip(i + 1));
                    }
                    Some(SocketAddress { ip: IpAddress::V4(a), port: p as u16 })
                },
                _ => None,
            }
        } else {
            None
        }
    }
}

/// Reads an IP literal of either family.
pub fn parse_ip_literal(s: &str) -> (r: Option<IpAddress>)
    ensures
        r == spec_ip(s@),
{
    let v = char_vec(s);
    parse_ip_chars(&v)
}

/// Reads a socket-address literal.
pub fn parse_socket_literal(s: &str) -> (r: Option<SocketAddress>)
    ensures
        r == spec_socket(s@),
{
    let v = char_vec(s);
    parse_socket_chars(&v)
}

} // verus!
