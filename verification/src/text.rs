//! Characters and digit strings: the arithmetic of decimal and hexadecimal
//! text, shared by the address and host:port parsers.

use vstd::prelude::*;
use vstd::string::*;

verus! {

/// `s` divided at every occurrence of `c`: the separated parts in order, each
/// without the separator, one part more than there are separators.
pub open spec fn split_on(s: Seq<char>, c: char) -> Seq<Seq<char>>
    decreases s.len(),
{
    if s.len() == 0 {
        seq![Seq::<char>::empty()]
    } else if s.last() == c {
        split_on(s.drop_last(), c).push(Seq::<char>::empty())
    } else {
        let parts = split_on(s.drop_last(), c);
        parts.update(parts.len() - 1, parts.last().push(s.last()))
    }
}

/// Splitting always yields at least one part.
pub proof fn lemma_split_on_len(s: Seq<char>, c: char)
    ensures
        split_on(s, c).len() >= 1,
    decreases s.len(),
{
    if s.len() > 0 {
        lemma_split_on_len(s.drop_last(), c);
    }
}

/// The index of the first occurrence of `c` in `s`, or the length of `s`
/// when `c` does not occur.
pub open spec fn first_index(s: Seq<char>, c: char) -> int
    decreases s.len(),
{
    if s.len() == 0 {
        0
    } else if s[0] == c {
        0
    } else {
        1 + first_index(s.skip(1), c)
    }
}

/// Finds the first occurrence of `c` in `v` at or after `from`.
pub fn find_char(v: &Vec<char>, c: char, from: usize) -> (r: usize)
    requires
        from <= v@.len(),
    ensures
        r == from + first_index(v@.skip(from as int), c),
        from <= r <= v@.len(),
        r < v@.len() ==> v@[r as int] == c,
    decreases v@.len() - from,
{
    proof {
        assert(v@.skip(from as int).len() == v@.len() - from);
    }
    if from == v.len() {
        return from;
    }
    proof {
        assert(v@.skip(from as int)[0] == v@[from as int]);
    }
    if v[from] == c {
        return from;
    }
    proof {
        assert(v@.skip(from as int).skip(1) =~= v@.skip(from as int + 1));
    }
    find_char(v, c, from + 1)
}

/// Copies the first `n` characters of `v`.
pub fn vec_take(v: &Vec<char>, n: usize) -> (r: Vec<char>)
    requires
        n <= v@.len(),
    ensures
        r@ == v@.take(n as int),
{
    let mut r: Vec<char> = Vec::new();
    for i in 0..n
        invariant
            n <= v@.len(),
            r@ == v@.take(n as int).take(i as int),
    {
        r.push(v[i]);
        proof {
            assert(v@.take(n as int).take(i + 1) =~= v@.take(n as int).take(i as int).push(
                v@[i as int],
            ));
        }
    }
    proof {
        assert(v@.take(n as int).take(n as int) =~= v@.take(n as int));
    }
    r
}

/// Copies the characters of `v` from `n` on.
pub fn vec_skip(v: &Vec<char>, n: usize) -> (r: Vec<char>)
    requires
        n <= v@.len(),
    ensures
        r@ == v@.skip(n as int),
{
    let mut r: Vec<char> = Vec::new();
    let len = v.len();
    for i in n..len
        invariant
            n <= i <= len,
            len == v@.len(),
            r@ == v@.skip(n as int).take(i - n),
    {
        r.push(v[i]);
        proof {
            assert(v@.skip(n as int).take(i + 1 - n) =~= v@.skip(n as int).take(i - n).push(
                v@[i as int],
            ));
        }
    }
    proof {
        assert(v@.skip(n as int).take(len - n) =~= v@.skip(n as int));
    }
    r
}

/// Appending separator-free text only extends the last part of a split.
pub proof fn lemma_split_on_extend(u: Seq<char>, v: Seq<char>, c: char)
    requires
        forall|i: int| 0 <= i < v.len() ==> v[i] != c,
    ensures
        ({
            let parts = split_on(u, c);
            split_on(u + v, c) == parts.update(parts.len() - 1, parts.last() + v)
        }),
    decreases v.len(),
{
    let parts = split_on(u, c);
    lemma_split_on_len(u, c);
    if v.len() == 0 {
        assert(u + v =~= u);
        assert(parts.last() + v =~= parts.last());
        assert(parts.update(parts.len() - 1, parts.last() + v) =~~= parts);
    } else {
        lemma_split_on_extend(u, v.drop_last(), c);
        assert((u + v).drop_last() =~= u + v.drop_last());
        assert((u + v).last() == v.last());
        assert(v.last() != c);
        let mid = split_on(u + v.drop_last(), c);
        assert(mid == parts.update(parts.len() - 1, parts.last() + v.drop_last()));
        assert(mid.len() == parts.len());
        assert(mid.last() == parts.last() + v.drop_last());
        assert(split_on(u + v, c) == mid.update(mid.len() - 1, mid.last().push(v.last())));
        assert((parts.last() + v.drop_last()).push(v.last()) =~= parts.last() + v);
        assert(mid.update(mid.len() - 1, mid.last().push(v.last())) =~~= parts.update(
            parts.len() - 1,
            parts.last() + v,
        ));
    }
}

/// The characters of `s`, one by one.
pub fn char_vec(s: &str) -> (r: Vec<char>)
    ensures
        r@ == s@,
{
    let n = s.unicode_len();
    let mut r: Vec<char> = Vec::new();
    for i in 0..n
        invariant
            n == s@.len(),
            r@ == s@.take(i as int),
    {
        r.push(s.get_char(i));
        proof {
            assert(s@.take(i + 1) =~= s@.take(i as int).push(s@[i as int]));
        }
    }
    proof {
        assert(s@.take(n as int) =~= s@);
    }
    r
}

/// Divides `v` at every occurrence of `c`, as `split_on` describes.
pub fn split_char(v: &Vec<char>, c: char) -> (r: Vec<Vec<char>>)
    ensures
        r.deep_view() == split_on(v@, c),
        r@.len() >= 1,
{
    let mut parts: Vec<Vec<char>> = Vec::new();
    parts.push(Vec::new());
    proof {
        assert(parts.deep_view() =~~= split_on(v@.take(0), c));
    }
    let n = v.len();
    for i in 0..n
        invariant
            n == v@.len(),
            parts@.len() >= 1,
            parts.deep_view() == split_on(v@.take(i as int), c),
    {
        proof {
            assert(v@.take(i + 1).drop_last() =~= v@.take(i as int));
            assert(v@.take(i + 1).last() == v@[i as int]);
        }
        let ch = v[i];
        if ch == c {
            parts.push(Vec::new());
            proof {
                assert(parts.deep_view() =~~= split_on(v@.take(i + 1), c));
            }
        } else {
            let mut last_part = parts.pop().unwrap();
            last_part.push(ch);
            parts.push(last_part);
            proof {
                let prev = split_on(v@.take(i as int), c);
                lemma_split_on_len(v@.take(i as int), c);
                assert(parts.deep_view() =~~= prev.update(
                    prev.len() - 1,
                    prev.last().push(v@[i as int]),
                ));
            }
        }
    }
    proof {
        assert(v@.take(n as int) =~= v@);
        lemma_split_on_len(v@, c);
    }
    parts
}

/// A decimal digit `'0'..='9'`.
pub open spec fn is_digit_char(c: char) -> bool {
    '0' <= c && c <= '9'
}

/// The numeric value of a decimal digit.
pub open spec fn digit_char_val(c: char) -> int {
    c as int - '0' as int
}

/// A hexadecimal digit, either case.
pub open spec fn is_hex_digit_char(c: char) -> bool {
    is_digit_char(c) || ('a' <= c && c <= 'f') || ('A' <= c && c <= 'F')
}

/// The numeric value of a hexadecimal digit.
pub open spec fn hex_digit_char_val(c: char) -> int {
    if is_digit_char(c) {
        digit_char_val(c)
    } else if 'a' <= c && c <= 'f' {
        c as int - 'a' as int + 10
    } else {
        c as int - 'A' as int + 10
    }
}

/// Every character of `s` is a decimal digit.
pub open spec fn all_digit_chars(s: Seq<char>) -> bool {
    forall|i: int| 0 <= i < s.len() ==> is_digit_char(#[trigger] s[i])
}

/// Every character of `s` is a hexadecimal digit.
pub open spec fn all_hex_digit_chars(s: Seq<char>) -> bool {
    forall|i: int| 0 <= i < s.len() ==> is_hex_digit_char(#[trigger] s[i])
}

/// The value of `s` read as a decimal numeral (most significant digit first).
pub open spec fn dec_val(s: Seq<char>) -> int
    decreases s.len(),
{
    if s.len() == 0 {
        0
    } else {
        dec_val(s.drop_last()) * 10 + digit_char_val(s.last())
    }
}

/// The value of `s` read as a hexadecimal numeral.
pub open spec fn hex_val(s: Seq<char>) -> int
    decreases s.len(),
{
    if s.len() == 0 {
        0
    } else {
        hex_val(s.drop_last()) * 16 + hex_digit_char_val(s.last())
    }
}

/// A nonempty all-digit numeral whose value is at most `cap`, and that value.
pub open spec fn spec_dec_capped(s: Seq<char>, cap: u32) -> Option<u32> {
    if s.len() >= 1 && all_digit_chars(s) && dec_val(s) <= cap {
        Some(dec_val(s) as u32)
    } else {
        None
    }
}

/// A decimal numeral's value is nonnegative and grows with every digit
/// appended, so any prefix reads as at most the whole.
pub proof fn lemma_dec_val_take_mono(s: Seq<char>, i: int)
    requires
        all_digit_chars(s),
        0 <= i <= s.len(),
    ensures
        0 <= dec_val(s.take(i)) <= dec_val(s),
    decreases s.len() - i,
{
    if i < s.len() {
        lemma_dec_val_take_mono(s, i + 1);
        assert(s.take(i + 1).drop_last() =~= s.take(i));
        assert(s.take(i + 1).last() == s[i]);
        assert(dec_val(s.take(i + 1)) == dec_val(s.take(i)) * 10 + digit_char_val(s[i]));
        assert(i < s.len());
        assert(is_digit_char(s[i]));
        assert(dec_val(s.take(i)) <= dec_val(s.take(i + 1)));
    } else {
        assert(s.take(i) =~= s);
        lemma_dec_val_nonneg(s);
    }
}

/// An all-digit numeral reads as a nonnegative value.
pub proof fn lemma_dec_val_nonneg(s: Seq<char>)
    requires
        all_digit_chars(s),
    ensures
        dec_val(s) >= 0,
    decreases s.len(),
{
    if s.len() > 0 {
        assert(all_digit_chars(s.drop_last())) by {
            assert(forall|i: int|
                0 <= i < s.len() - 1 ==> s.drop_last()[i] == #[trigger] s[i]);
        }
        lemma_dec_val_nonneg(s.drop_last());
        assert(is_digit_char(s.last()));
    }
}

/// A hexadecimal numeral of at most four digits fits in sixteen bits.
pub proof fn lemma_hex_val_bounds(s: Seq<char>)
    requires
        all_hex_digit_chars(s),
    ensures
        hex_val(s) >= 0,
        s.len() <= 1 ==> hex_val(s) <= 0xf,
        s.len() <= 2 ==> hex_val(s) <= 0xff,
        s.len() <= 3 ==> hex_val(s) <= 0xfff,
        s.len() <= 4 ==> hex_val(s) <= 0xffff,
    decreases s.len(),
{
    if s.len() > 0 {
        assert(all_hex_digit_chars(s.drop_last())) by {
            assert(forall|i: int|
                0 <= i < s.len() - 1 ==> s.drop_last()[i] == #[trigger] s[i]);
        }
        lemma_hex_val_bounds(s.drop_last());
        assert(is_hex_digit_char(s.last()));
        assert(0 <= hex_digit_char_val(s.last()) <= 15);
    }
}

/// Reads `part` as a decimal numeral, refusing an empty string, a non-digit
/// character, or a value above `cap`.
pub fn dec_value_capped(part: &Vec<char>, cap: u32) -> (r: Option<u32>)
    requires
        cap <= 0xffff,
    ensures
        r == spec_dec_capped(part@, cap),
{
    let mut acc: u32 = 0;
    let n = part.len();
    for i in 0..n
        invariant
            n == part@.len(),
            cap <= 0xffff,
            all_digit_chars(part@.take(i as int)),
            acc == dec_val(part@.take(i as int)),
            acc <= cap,
    {
        let c = part[i];
        proof {
            assert(part@.take(i + 1).drop_last() =~= part@.take(i as int));
            assert(part@.take(i + 1).last() == part@[i as int]);
        }
        if !(c >= '0' && c <= '9') {
            proof {
                assert(!is_digit_char(part@[i as int]));
                assert(!all_digit_chars(part@));
            }
            return None;
        }
        let d: u32 = c as u32 - '0' as u32;
        let v: u32 = acc * 10 + d;
        proof {
            assert(d == digit_char_val(part@[i as int]));
            assert(v == dec_val(part@.take(i + 1)));
        }
        if v > cap {
            proof {
                if all_digit_chars(part@) {
                    lemma_dec_val_take_mono(part@, i + 1);
                    assert(dec_val(part@) >= dec_val(part@.take(i + 1)));
                }
            }
            return None;
        }
        acc = v;
    }
    proof {
        assert(part@.take(n as int) =~= part@);
    }
    if n == 0 {
        None
    } else {
        Some(acc)
    }
}

/// Reads `part` as a hexadecimal group of one to four digits, as the address
/// grammar allows between colons.
pub fn hex_value_group(part: &Vec<char>) -> (r: Option<u16>)
    ensures
        r == (if 1 <= part@.len() <= 4 && all_hex_digit_chars(part@) {
            Some(hex_val(part@) as u16)
        } else {
            None::<u16>
        }),
{
    let n = part.len();
    if n < 1 || n > 4 {
        return None;
    }
    let mut acc: u32 = 0;
    for i in 0..n
        invariant
            n == part@.len(),
            1 <= n <= 4,
            i <= n,
            all_hex_digit_chars(part@.take(i as int)),
            acc == hex_val(part@.take(i as int)),
            acc <= 0xffff,
    {
        let c = part[i];
        proof {
            assert(part@.take(i + 1).drop_last() =~= part@.take(i as int));
            assert(part@.take(i + 1).last() == part@[i as int]);
        }
        let d: u32 = if c >= '0' && c <= '9' {
            c as u32 - '0' as u32
        } else if c >= 'a' && c <= 'f' {
            c as u32 - 'a' as u32 + 10
        } else if c >= 'A' && c <= 'F' {
            c as u32 - 'A' as u32 + 10
        } else {
            proof {
                assert(!is_hex_digit_char(part@[i as int]));
                assert(!all_hex_digit_chars(part@));
            }
            return None;
        };
        proof {
            assert(is_hex_digit_char(part@[i as int]));
            assert(d == hex_digit_char_val(part@[i as int]));
            lemma_hex_val_bounds(part@.take(i + 1));
        }
        acc = acc * 16 + d;
        proof {
            assert(acc == hex_val(part@.take(i + 1)));
        }
    }
    proof {
        assert(part@.take(n as int) =~= part@);
    }
    Some(acc as u16)
}

} // verus!
