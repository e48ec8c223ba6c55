//! Descriptor text: splitting at a separator, decimal numbers, hex digits.
use vstd::prelude::*;

verus! {

/// The pieces of `s` between occurrences of `sep`: `k` separators give
/// `k + 1` pieces, empty ones included.
pub open spec fn split_on(s: Seq<char>, sep: char) -> Seq<Seq<char>>
    decreases s.len(),
{
    if s.len() == 0 {
        seq![Seq::<char>::empty()]
    } else {
        let rest = split_on(s.drop_last(), sep);
        if s.last() == sep {
            rest.push(Seq::<char>::empty())
        } else {
            rest.update(rest.len() - 1, rest.last().push(s.last()))
        }
    }
}

pub proof fn lemma_split_nonempty(s: Seq<char>, sep: char)
    ensures
        split_on(s, sep).len() >= 1,
    decreases s.len(),
{
    if s.len() > 0 {
        lemma_split_nonempty(s.drop_last(), sep);
    }
}

/// The views of a sequence of string slices.
pub open spec fn strs_view<'a>(s: Seq<&'a str>) -> Seq<Seq<char>> {
    s.map_values(|t: &'a str| t@)
}

/// Splits `s` at every `sep`.
pub fn split_str<'a>(s: &'a str, sep: char) -> (r: Vec<&'a str>)
    ensures
        strs_view(r@) == split_on(s@, sep),
{
    let n = s.unicode_len();
    let mut r: Vec<&'a str> = Vec::new();
    let mut start: usize = 0;
    let mut i: usize = 0;
    assert(s@.subrange(0, 0) =~= Seq::<char>::empty());
    while i < n
        invariant
            n == s@.len(),
            start <= i <= n,
            strs_view(r@).push(s@.subrange(start as int, i as int)) == split_on(
                s@.subrange(0, i as int),
                sep,
            ),
        decreases n - i,
    {
        let c = s.get_char(i);
        let ghost pre = s@.subrange(0, i as int);
        let ghost cur = s@.subrange(0, i as int + 1);
        assert(cur.drop_last() =~= pre);
        assert(cur.last() == c);
        proof {
            lemma_split_nonempty(pre, sep);
        }
        if c == sep {
            let t = s.substring_char(start, i);
            proof {
                let rv = r@;
                assert(strs_view(rv.push(t)) =~= strs_view(rv).push(t@));
                assert(s@.subrange(i as int + 1, i as int + 1) =~= Seq::<char>::empty());
                assert(split_on(cur, sep) == split_on(pre, sep).push(Seq::<char>::empty()));
                assert(strs_view(rv.push(t)).push(s@.subrange(i as int + 1, i as int + 1))
                    =~= split_on(cur, sep));
            }
            r.push(t);
            start = i + 1;
        } else {
            proof {
                let rv = r@;
                assert(s@.subrange(start as int, i as int + 1) =~= s@.subrange(
                    start as int,
                    i as int,
                ).push(c));
                assert(strs_view(rv).push(s@.subrange(start as int, i as int + 1)) =~= split_on(
                    cur,
                    sep,
                ));
            }
        }
        i += 1;
    }
    let t = s.substring_char(start, n);
    proof {
        let rv = r@;
        assert(strs_view(rv.push(t)) =~= strs_view(rv).push(t@));
        assert(s@.subrange(0, n as int) =~= s@);
    }
    r.push(t);
    r
}

pub open spec fn is_digit(c: char) -> bool {
    '0' <= c <= '9'
}

pub open spec fn all_digits(t: Seq<char>) -> bool {
    forall|i: int| 0 <= i < t.len() ==> is_digit(#[trigger] t[i])
}

/// The number that a string of decimal digits denotes.
pub open spec fn digits_value(t: Seq<char>) -> int
    decreases t.len(),
{
    if t.len() == 0 {
        0
    } else {
        digits_value(t.drop_last()) * 10 + (t.last() as int - '0' as int)
    }
}

/// What `str::parse::<u16>` accepts: an optional `+`, then one or more
/// decimal digits whose value is at most 65535.
pub open spec fn parse_u16_spec(t: Seq<char>) -> Option<u16> {
    let d = if t.len() > 0 && t[0] == '+' {
        t.drop_first()
    } else {
        t
    };
    if d.len() > 0 && all_digits(d) && digits_value(d) <= 65535 {
        Some(digits_value(d) as u16)
    } else {
        None
    }
}

pub proof fn lemma_digits_prefix(t: Seq<char>, k: int)
    requires
        all_digits(t),
        0 <= k <= t.len(),
    ensures
        0 <= digits_value(t.subrange(0, k)) <= digits_value(t),
    decreases t.len(),
{
    if k == t.len() {
        assert(t.subrange(0, k) =~= t);
        lemma_digits_nonneg(t);
    } else {
        let p = t.drop_last();
        assert(p.subrange(0, k) =~= t.subrange(0, k));
        lemma_digits_prefix(p, k);
    }
}

pub proof fn lemma_digits_nonneg(t: Seq<char>)
    requires
        all_digits(t),
    ensures
        digits_value(t) >= 0,
    decreases t.len(),
{
    if t.len() > 0 {
        lemma_digits_nonneg(t.drop_last());
    }
}

/// Parses a decimal 16-bit number as `str::parse::<u16>` does.
pub fn parse_u16(t: &str) -> (r: Option<u16>)
    ensures
        r == parse_u16_spec(t@),
{
    let n = t.unicode_len();
    let mut i: usize = 0;
    if n > 0 && t.get_char(0) == '+' {
        i = 1;
    }
    let ghost d = if t@.len() > 0 && t@[0] == '+' {
        t@.drop_first()
    } else {
        t@
    };
    let first = i;
    if first == n {
        return None;
    }
    while i < n
        invariant
            first <= i <= n,
            n == t@.len(),
            first == t@.len() - d.len(),
            d == t@.subrange(first as int, n as int),
            d == (if t@.len() > 0 && t@[0] == '+' { t@.drop_first() } else { t@ }),
            forall|j: int| first <= j < i ==> is_digit(#[trigger] t@[j]),
        decreases n - i,
    {
        let c = t.get_char(i);
        if !('0' <= c && c <= '9') {
            assert(d[i - first] == c);
            assert(!is_digit(d[i - first]));
            assert(!all_digits(d));
            return None;
        }
        i += 1;
    }
    assert(all_digits(d));
    let mut v: u32 = 0;
    i = first;
    assert(d.subrange(0, 0) =~= Seq::<char>::empty());
    while i < n
        invariant
            first <= i <= n,
            n == t@.len(),
            first == t@.len() - d.len(),
            d == t@.subrange(first as int, n as int),
            d == (if t@.len() > 0 && t@[0] == '+' { t@.drop_first() } else { t@ }),
            all_digits(d),
            v as int == digits_value(d.subrange(0, i - first)),
            v <= 65535,
        decreases n - i,
    {
        let c = t.get_char(i);
        let ghost pre = d.subrange(0, i - first);
        let ghost cur = d.subrange(0, i - first + 1);
        assert(cur.drop_last() =~= pre);
        assert(cur.last() == c);
        assert(is_digit(d[i - first]));
        let dig = (c as u32) - ('0' as u32);
        v = v * 10 + dig;
        assert(digits_value(cur) == digits_value(pre) * 10 + (c as int - '0' as int));
        assert(v as int == digits_value(cur));
        if v > 65535 {
            proof {
                lemma_digits_prefix(d, i - first + 1);
            }
            return None;
        }
        i += 1;
    }
    assert(d.subrange(0, d.len() as int) =~= d);
    Some(v as u16)
}

pub open spec fn digit_char(d: int) -> char {
    (d + '0' as int) as char
}

/// The decimal rendering of `v`, without leading zeros.
pub open spec fn decimal(v: nat) -> Seq<char>
    decreases v,
{
    if v < 10 {
        seq![digit_char(v as int)]
    } else {
        decimal(v / 10).push(digit_char((v % 10) as int))
    }
}

/// Appends the decimal rendering of `v`.
pub fn push_decimal(out: &mut Vec<char>, v: u64)
    ensures
        final(out)@ == old(out)@ + decimal(v as nat),
    decreases v,
{
    if v >= 10 {
        push_decimal(out, v / 10);
    }
    let d = (v % 10) as u32;
    let c = char_from_digit(d);
    out.push(c);
    assert(final(out)@ =~= old(out)@ + decimal(v as nat));
}

fn char_from_digit(d: u32) -> (c: char)
    requires
        d < 10,
    ensures
        c == digit_char(d as int),
{
    match d {
        0 => '0',
        1 => '1',
        2 => '2',
        3 => '3',
        4 => '4',
        5 => '5',
        6 => '6',
        7 => '7',
        8 => '8',
        _ => '9',
    }
}

/// The lowercase hex digit of `d`, for `d < 16`.
pub open spec fn hex_char(d: int) -> char {
    if d < 10 {
        digit_char(d)
    } else {
        (d - 10 + 'a' as int) as char
    }
}

/// Two lowercase hex digits per byte.
pub open spec fn hex_of(b: Seq<u8>) -> Seq<char>
    decreases b.len(),
{
    if b.len() == 0 {
        Seq::<char>::empty()
    } else {
        hex_of(b.drop_last()) + seq![hex_char(b.last() as int / 16), hex_char(b.last() as int % 16)]
    }
}

fn hex_digit(d: u8) -> (c: char)
    requires
        d < 16,
    ensures
        c == hex_char(d as int),
{
    match d {
        0 => '0',
        1 => '1',
        2 => '2',
        3 => '3',
        4 => '4',
        5 => '5',
        6 => '6',
        7 => '7',
        8 => '8',
        9 => '9',
        10 => 'a',
        11 => 'b',
        12 => 'c',
        13 => 'd',
        14 => 'e',
        _ => 'f',
    }
}

/// Appends two lowercase hex digits for each byte of `b`.
pub fn push_hex(out: &mut Vec<char>, b: &[u8])
    ensures
        final(out)@ == old(out)@ + hex_of(b@),
{
    let mut i: usize = 0;
    assert(b@.subrange(0, 0) =~= Seq::<u8>::empty());
    assert(old(out)@ + hex_of(Seq::<u8>::empty()) =~= old(out)@);
    while i < b.len()
        invariant
            i <= b@.len(),
            out@ == old(out)@ + hex_of(b@.subrange(0, i as int)),
        decreases b@.len() - i,
    {
        let x = b[i];
        out.push(hex_digit(x / 16));
        out.push(hex_digit(x % 16));
        let ghost cur = b@.subrange(0, i as int + 1);
        assert(cur.drop_last() =~= b@.subrange(0, i as int));
        assert(out@ =~= old(out)@ + hex_of(cur));
        i += 1;
    }
    assert(b@.subrange(0, b@.len() as int) =~= b@);
}

/// Appends the four lowercase hex digits of `v`, high nibble first.
pub fn push_hex4(out: &mut Vec<char>, v: u16)
    ensures
        final(out)@ == old(out)@ + hex4(v),
{
    out.push(hex_digit(((v / 4096) % 16) as u8));
    out.push(hex_digit(((v / 256) % 16) as u8));
    out.push(hex_digit(((v / 16) % 16) as u8));
    out.push(hex_digit((v % 16) as u8));
    assert(final(out)@ =~= old(out)@ + hex4(v));
}

/// `v` as four lowercase hex digits (`{:04x}`).
pub open spec fn hex4(v: u16) -> Seq<char> {
    seq![
        hex_char((v as int / 4096) % 16),
        hex_char((v as int / 256) % 16),
        hex_char((v as int / 16) % 16),
        hex_char(v as int % 16),
    ]
}

/// Splitting distributes over a separator placed between two texts.
pub proof fn lemma_split_concat(a: Seq<char>, b: Seq<char>, sep: char)
    ensures
        split_on(a + seq![sep] + b, sep) == split_on(a, sep) + split_on(b, sep),
    decreases b.len(),
{
    let x = a + seq![sep] + b;
    if b.len() == 0 {
        assert(x.drop_last() =~= a);
        assert(split_on(b, sep) =~= seq![Seq::<char>::empty()]);
        assert(split_on(x, sep) =~= split_on(a, sep) + split_on(b, sep));
    } else {
        assert(x.drop_last() =~= a + seq![sep] + b.drop_last());
        lemma_split_concat(a, b.drop_last(), sep);
        lemma_split_nonempty(b.drop_last(), sep);
        let sa = split_on(a, sep);
        let sb = split_on(b.drop_last(), sep);
        if b.last() == sep {
            assert(split_on(x, sep) =~= sa + sb.push(Seq::<char>::empty()));
        } else {
            assert((sa + sb).last() == sb.last());
            assert(split_on(x, sep) =~= sa + sb.update(sb.len() - 1, sb.last().push(b.last())));
        }
    }
}

/// A text without the separator is one piece.
pub proof fn lemma_split_single(x: Seq<char>, sep: char)
    requires
        forall|i: int| 0 <= i < x.len() ==> x[i] != sep,
    ensures
        split_on(x, sep) == seq![x],
    decreases x.len(),
{
    if x.len() > 0 {
        lemma_split_single(x.drop_last(), sep);
        assert(x.drop_last().push(x.last()) =~= x);
        assert(x.last() != sep);
        let rest = split_on(x.drop_last(), sep);
        assert(rest == seq![x.drop_last()]);
        assert(rest.update(0, rest.last().push(x.last())) =~= seq![x]);
    } else {
        assert(x =~= Seq::<char>::empty());
    }
}

/// A decimal rendering is a non-empty run of digits that denotes its value.
pub proof fn lemma_decimal_digits(v: nat)
    ensures
        decimal(v).len() > 0,
        all_digits(decimal(v)),
        digits_value(decimal(v)) == v,
    decreases v,
{
    if v < 10 {
        let d = decimal(v);
        assert(d.drop_last() =~= Seq::<char>::empty());
        assert(digit_char(v as int) as int == v + 48);
        assert('0' as int == 48);
        assert(d.last() == digit_char(v as int));
        assert(digits_value(d.drop_last()) == 0);
        assert(digits_value(d) == v);
    } else {
        lemma_decimal_digits(v / 10);
        let d = decimal(v);
        assert(d.drop_last() =~= decimal(v / 10));
        assert(digit_char((v % 10) as int) as int == (v % 10) + 48);
        assert('0' as int == 48);
        assert(d.last() == digit_char((v % 10) as int));
        assert(digits_value(d) == digits_value(decimal(v / 10)) * 10 + (v % 10));
        assert((v / 10) * 10 + v % 10 == v);
    }
}

/// Parsing a decimal rendering gives the value back.
pub proof fn lemma_parse_decimal(v: u16)
    ensures
        parse_u16_spec(decimal(v as nat)) == Some(v),
{
    lemma_decimal_digits(v as nat);
    let d = decimal(v as nat);
    assert(is_digit(d[0]));
}

/// Relies on std's `FromIterator<char>` for `String`: the string of these characters.
#[verifier::external_body]
pub(crate) fn string_of(chars: &Vec<char>) -> (r: String)
    ensures
        r@ == chars@,
{
    chars.iter().collect()
}

} // verus!
