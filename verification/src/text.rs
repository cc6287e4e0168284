//! Character-level text rules: decimal numbers, whitespace trimming and
//! prefix tests, stated over the characters of a string.

use vstd::prelude::*;

verus! {

/// Appends one character. Trusted: `String::push` appends `c` to the
/// string's characters.
#[verifier::external_body]
pub(crate) fn push_char(s: &mut String, c: char)
    ensures
        final(s)@ == old(s)@.push(c),
{
    s.push(c)
}

/// Appends the characters of `t`.
pub fn push_text(s: &mut String, t: &str)
    ensures
        final(s)@ == old(s)@ + t@,
{
    let cs = chars_of(t);
    let mut i: usize = 0;
    while i < cs.len()
        invariant
            cs@ == t@,
            i <= cs@.len(),
            s@ == old(s)@ + t@.take(i as int),
        decreases cs@.len() - i,
    {
        push_char(s, cs[i]);
        i = i + 1;
        assert(t@.take(i as int) =~= t@.take(i - 1).push(cs@[i - 1]));
    }
    assert(t@.take(i as int) =~= t@);
}

/// The characters of `s`, in order.
pub fn chars_of(s: &str) -> (r: Vec<char>)
    ensures
        r@ == s@,
{
    broadcast use vstd::string::group_string_axioms;

    let mut r: Vec<char> = Vec::new();
    for c in it: s.chars()
        invariant
            it.seq() == s@,
            r@ == it.seq().take(it.index() as int),
    {
        r.push(c);
    }
    assert(r@ =~= s@);
    r
}

pub open spec fn is_ascii_digit(c: char) -> bool {
    '0' <= c <= '9'
}

pub open spec fn digit_value(c: char) -> nat {
    (c as u32 - '0' as u32) as nat
}

pub open spec fn all_digits(s: Seq<char>) -> bool {
    forall|i: int| 0 <= i < s.len() ==> is_ascii_digit(#[trigger] s[i])
}

/// The number that a string of decimal digits denotes.
pub open spec fn decimal_value(s: Seq<char>) -> nat
    decreases s.len(),
{
    if s.len() == 0 {
        0
    } else {
        decimal_value(s.drop_last()) * 10 + digit_value(s.last())
    }
}

/// What `str::parse` gives for an unsigned integer type whose largest value
/// is `max`: an optional `+`, then one or more ASCII digits, denoting a
/// value not above `max`.
pub open spec fn spec_parse_unsigned(s: Seq<char>, max: nat) -> Option<nat> {
    let body = if s.len() > 0 && s[0] == '+' { s.drop_first() } else { s };
    if body.len() > 0 && all_digits(body) && decimal_value(body) <= max {
        Some(decimal_value(body))
    } else {
        None
    }
}

proof fn lemma_decimal_prefix_le(s: Seq<char>, k: int)
    requires
        0 <= k <= s.len(),
    ensures
        decimal_value(s.take(k)) <= decimal_value(s),
    decreases s.len(),
{
    if k < s.len() {
        lemma_decimal_prefix_le(s.drop_last(), k);
        assert(s.drop_last().take(k) =~= s.take(k));
    } else {
        assert(s.take(k) =~= s);
    }
}

/// Parses `cs[lo..hi]` as `str::parse` does for an unsigned integer type
/// whose largest value is `max`.
pub fn parse_unsigned_range(cs: &Vec<char>, lo: usize, hi: usize, max: u64) -> (r: Option<u64>)
    requires
        lo <= hi <= cs@.len(),
    ensures
        match spec_parse_unsigned(cs@.subrange(lo as int, hi as int), max as nat) {
            Some(v) => r == Some(v as u64),
            None => r is None,
        },
{
    let ghost s = cs@.subrange(lo as int, hi as int);
    let mut i = lo;
    if i < hi && cs[i] == '+' {
        i = i + 1;
    }
    let ghost body = cs@.subrange(i as int, hi as int);
    assert(body =~= (if s.len() > 0 && s[0] == '+' { s.drop_first() } else { s }));
    if i == hi {
        return None;
    }
    let mut acc: u64 = 0;
    let mut j = i;
    while j < hi
        invariant
            lo <= i <= j <= hi <= cs@.len(),
            body == cs@.subrange(i as int, hi as int),
            s == cs@.subrange(lo as int, hi as int),
            body.len() > 0,
            body =~= (if s.len() > 0 && s[0] == '+' { s.drop_first() } else { s }),
            all_digits(cs@.subrange(i as int, j as int)),
            acc == decimal_value(cs@.subrange(i as int, j as int)),
            acc <= max,
        decreases hi - j,
    {
        let c = cs[j];
        if !('0' <= c && c <= '9') {
            assert(body[j - i] == c);
            return None;
        }
        let d = (c as u32 - '0' as u32) as u64;
        let ghost next = cs@.subrange(i as int, j + 1);
        assert(next.drop_last() =~= cs@.subrange(i as int, j as int));
        assert(decimal_value(next) == acc * 10 + d);
        if d > max || acc > (max - d) / 10 {
            proof {
                assert(acc * 10 + d > max) by (nonlinear_arith)
                    requires
                        d > max || acc > (max - d) / 10,
                        d <= 9,
                ;
                if all_digits(body) {
                    assert(body.take(j + 1 - i) =~= next);
                    lemma_decimal_prefix_le(body, j + 1 - i);
                }
            }
            return None;
        }
        assert(acc * 10 + d <= max) by (nonlinear_arith)
            requires
                d <= max,
                acc <= (max - d) / 10,
        ;
        acc = acc * 10 + d;
        j = j + 1;
        assert(all_digits(cs@.subrange(i as int, j as int)));
    }
    assert(cs@.subrange(i as int, j as int) =~= body);
    Some(acc)
}

/// Parses `s` as `str::parse` does for an unsigned integer type whose
/// largest value is `max`.
pub fn parse_unsigned(s: &str, max: u64) -> (r: Option<u64>)
    ensures
        match spec_parse_unsigned(s@, max as nat) {
            Some(v) => r == Some(v as u64),
            None => r is None,
        },
{
    let cs = chars_of(s);
    assert(cs@.subrange(0, cs@.len() as int) =~= s@);
    parse_unsigned_range(&cs, 0, cs.len(), max)
}


/// The decimal digit character for `d` (below 10).
pub open spec fn digit_char(d: nat) -> char {
    seq!['0', '1', '2', '3', '4', '5', '6', '7', '8', '9'][d as int]
}

/// The decimal representation of `v`, without leading zeros.
pub open spec fn decimal_digits(v: nat) -> Seq<char>
    decreases v,
{
    if v < 10 {
        seq![digit_char(v)]
    } else {
        decimal_digits(v / 10).push(digit_char(v % 10))
    }
}

proof fn lemma_digit_char(d: nat)
    requires
        d < 10,
    ensures
        is_ascii_digit(digit_char(d)),
        digit_value(digit_char(d)) == d,
{
}

/// Writing a number in decimal and reading it back gives the number: the
/// digits are all ASCII digits, there is at least one, and the first is not
/// a zero unless the number is zero.
pub proof fn lemma_decimal_roundtrip(v: nat)
    ensures
        decimal_digits(v).len() > 0,
        all_digits(decimal_digits(v)),
        decimal_value(decimal_digits(v)) == v,
        decimal_digits(v)[0] == '0' ==> v == 0,
    decreases v,
{
    if v < 10 {
        lemma_digit_char(v);
        let d = seq![digit_char(v)];
        assert(d.drop_last() =~= Seq::<char>::empty());
        assert(d.last() == digit_char(v));
        assert(decimal_value(Seq::<char>::empty()) == 0);
        assert(decimal_value(d) == decimal_value(d.drop_last()) * 10 + digit_value(d.last()));
    } else {
        lemma_decimal_roundtrip(v / 10);
        lemma_digit_char(v % 10);
        let d = decimal_digits(v);
        assert(d.drop_last() =~= decimal_digits(v / 10));
        assert(d.last() == digit_char(v % 10));
        assert((v / 10) * 10 + v % 10 == v) by (nonlinear_arith);
        assert(all_digits(d)) by {
            assert forall|i: int| 0 <= i < d.len() implies is_ascii_digit(#[trigger] d[i]) by {
                if i < d.len() - 1 {
                    assert(d[i] == decimal_digits(v / 10)[i]);
                }
            }
        }
    }
}

/// Every number fits `spec_parse_unsigned` of its own decimal digits.
pub proof fn lemma_parse_of_decimal(v: nat, max: nat)
    requires
        v <= max,
    ensures
        spec_parse_unsigned(decimal_digits(v), max) == Some(v),
{
    lemma_decimal_roundtrip(v);
}

fn digit_char_of(d: u64) -> (c: char)
    requires
        d < 10,
    ensures
        c == digit_char(d as nat),
{
    match d {
        0 => '0',
        1 => '1',
        2 => '2',
        3 => '3',
        4 => '4',
        5 => '5',
        6 => '6',
        7 => '7',
        8 => '8',
        _ => '9',
    }
}

/// Appends the decimal digits of `v` to `s`.
pub fn push_decimal(s: &mut String, v: u64)
    ensures
        final(s)@ == old(s)@ + decimal_digits(v as nat),
    decreases v,
{
    if v >= 10 {
        push_decimal(s, v / 10);
    }
    push_char(s, digit_char_of(v % 10));
    if v < 10 {
        assert(decimal_digits(v as nat) =~= seq![digit_char(v as nat)]);
    }
}

/// The decimal representation of `v`, as `v.to_string()` gives it.
pub fn decimal_string(v: u64) -> (r: String)
    ensures
        r@ == decimal_digits(v as nat),
{
    let mut r = String::new();
    push_decimal(&mut r, v);
    r
}

/// The characters that `char::is_whitespace` accepts (Unicode White_Space).
pub open spec fn is_whitespace(c: char) -> bool {
    ||| '\u{9}' <= c <= '\u{d}'
    ||| c == ' '
    ||| c == '\u{85}'
    ||| c == '\u{a0}'
    ||| c == '\u{1680}'
    ||| '\u{2000}' <= c <= '\u{200a}'
    ||| c == '\u{2028}'
    ||| c == '\u{2029}'
    ||| c == '\u{202f}'
    ||| c == '\u{205f}'
    ||| c == '\u{3000}'
}

pub fn is_whitespace_char(c: char) -> (r: bool)
    ensures
        r == is_whitespace(c),
{
    ('\u{9}' <= c && c <= '\u{d}') || c == ' ' || c == '\u{85}' || c == '\u{a0}' || c == '\u{1680}'
        || ('\u{2000}' <= c && c <= '\u{200a}') || c == '\u{2028}' || c == '\u{2029}' || c == '\u{202f}'
        || c == '\u{205f}' || c == '\u{3000}'
}

pub open spec fn trim_start(s: Seq<char>) -> Seq<char>
    decreases s.len(),
{
    if s.len() > 0 && is_whitespace(s[0]) {
        trim_start(s.drop_first())
    } else {
        s
    }
}

pub open spec fn trim_end(s: Seq<char>) -> Seq<char>
    decreases s.len(),
{
    if s.len() > 0 && is_whitespace(s.last()) {
        trim_end(s.drop_last())
    } else {
        s
    }
}

/// What `str::trim` leaves of `s`: leading and trailing whitespace removed.
pub open spec fn spec_trim(s: Seq<char>) -> Seq<char> {
    trim_end(trim_start(s))
}

pub open spec fn all_whitespace(s: Seq<char>) -> bool {
    forall|i: int| 0 <= i < s.len() ==> is_whitespace(#[trigger] s[i])
}

proof fn lemma_trim_start_skips(pre: Seq<char>, rest: Seq<char>)
    requires
        all_whitespace(pre),
        rest.len() > 0,
        !is_whitespace(rest[0]),
    ensures
        trim_start(pre + rest) == rest,
    decreases pre.len(),
{
    if pre.len() == 0 {
        assert(pre + rest =~= rest);
    } else {
        assert((pre + rest).drop_first() =~= pre.drop_first() + rest);
        lemma_trim_start_skips(pre.drop_first(), rest);
    }
}

proof fn lemma_trim_end_skips(body: Seq<char>, post: Seq<char>)
    requires
        all_whitespace(post),
        body.len() > 0,
        !is_whitespace(body.last()),
    ensures
        trim_end(body + post) == body,
    decreases post.len(),
{
    if post.len() == 0 {
        assert(body + post =~= body);
    } else {
        assert((body + post).drop_last() =~= body + post.drop_last());
        lemma_trim_end_skips(body, post.drop_last());
    }
}

/// A number printed in decimal, with any whitespace around it, is read
/// back as the number.
pub proof fn lemma_trimmed_decimal_roundtrip(n: nat, max: nat, pre: Seq<char>, post: Seq<char>)
    requires
        n <= max,
        all_whitespace(pre),
        all_whitespace(post),
    ensures
        spec_parse_unsigned(spec_trim(pre + decimal_digits(n) + post), max) == Some(n),
{
    let d = decimal_digits(n);
    lemma_decimal_roundtrip(n);
    assert(is_ascii_digit(d[0]));
    assert(is_ascii_digit(d.last()));
    assert(pre + d + post =~= pre + (d + post));
    lemma_trim_start_skips(pre, d + post);
    lemma_trim_end_skips(d, post);
}

/// The bounds `lo..hi` of `spec_trim(cs)` within `cs`.
pub fn trim_bounds(cs: &Vec<char>) -> (r: (usize, usize))
    ensures
        r.0 <= r.1 <= cs@.len(),
        cs@.subrange(r.0 as int, r.1 as int) == spec_trim(cs@),
{
    let n = cs.len();
    let mut i: usize = 0;
    assert(cs@.subrange(0, n as int) =~= cs@);
    while i < n && is_whitespace_char(cs[i])
        invariant
            i <= n == cs@.len(),
            trim_start(cs@) == trim_start(cs@.subrange(i as int, n as int)),
        decreases n - i,
    {
        assert(cs@.subrange(i as int, n as int).drop_first() =~= cs@.subrange(i + 1, n as int));
        i = i + 1;
    }
    assert(trim_start(cs@) == cs@.subrange(i as int, n as int));
    let mut j: usize = n;
    while j > i && is_whitespace_char(cs[j - 1])
        invariant
            i <= j <= n == cs@.len(),
            trim_end(cs@.subrange(i as int, n as int)) == trim_end(cs@.subrange(i as int, j as int)),
        decreases j,
    {
        assert(cs@.subrange(i as int, j as int).drop_last() =~= cs@.subrange(i as int, j - 1));
        j = j - 1;
    }
    (i, j)
}

/// What `char::to_ascii_lowercase` gives.
pub open spec fn ascii_lower(c: char) -> char {
    if 'A' <= c <= 'Z' {
        ((c as u32) + 32) as char
    } else {
        c
    }
}

pub fn ascii_lower_char(c: char) -> (r: char)
    ensures
        r == ascii_lower(c),
{
    if 'A' <= c && c <= 'Z' {
        ((c as u8) + 32) as char
    } else {
        c
    }
}

/// Whether `s` begins with `prefix`.
pub open spec fn starts_with(s: Seq<char>, prefix: Seq<char>) -> bool {
    s.len() >= prefix.len() && s.take(prefix.len() as int) == prefix
}

/// Whether `s` ends with `suffix`.
pub open spec fn ends_with(s: Seq<char>, suffix: Seq<char>) -> bool {
    s.len() >= suffix.len() && s.skip(s.len() - suffix.len()) == suffix
}

pub open spec fn lower_all(s: Seq<char>) -> Seq<char> {
    s.map_values(|c: char| ascii_lower(c))
}

/// Whether `cs[at..at + p.len()]` equals `p`, comparing the characters of
/// `cs` either as they are or in ASCII lowercase.
fn matches_at(cs: &Vec<char>, at: usize, p: &Vec<char>, lower: bool) -> (r: bool)
    requires
        at + p@.len() <= cs@.len(),
    ensures
        r == (if lower {
            lower_all(cs@.subrange(at as int, at + p@.len())) == p@
        } else {
            cs@.subrange(at as int, at + p@.len()) == p@
        }),
{
    let mut k: usize = 0;
    let cl = cs.len();
    while k < p.len()
        invariant
            k <= p@.len(),
            at + p@.len() <= cs@.len(),
            cl == cs@.len(),
            forall|m: int| 0 <= m < k ==> (if lower { ascii_lower(cs@[at + m]) } else { cs@[at + m] })
                == #[trigger] p@[m],
        decreases p@.len() - k,
    {
        let c = if lower { ascii_lower_char(cs[at + k]) } else { cs[at + k] };
        if c != p[k] {
            proof {
                let w = cs@.subrange(at as int, at + p@.len());
                if lower {
                    assert(lower_all(w)[k as int] != p@[k as int]);
                } else {
                    assert(w[k as int] != p@[k as int]);
                }
            }
            return false;
        }
        k = k + 1;
    }
    proof {
        let w = cs@.subrange(at as int, at + p@.len());
        if lower {
            assert(lower_all(w) =~= p@);
        } else {
            assert(w =~= p@);
        }
    }
    true
}

/// Whether `s` begins with `prefix` (`str::starts_with`).
pub fn has_prefix(s: &str, prefix: &str) -> (r: bool)
    ensures
        r == starts_with(s@, prefix@),
{
    let cs = chars_of(s);
    let p = chars_of(prefix);
    if cs.len() < p.len() {
        return false;
    }
    matches_at(&cs, 0, &p, false)
}

/// Whether `s`, in ASCII lowercase, begins with `prefix`.
pub fn has_prefix_ascii_lowercase(s: &str, prefix: &str) -> (r: bool)
    ensures
        r == starts_with(lower_all(s@), prefix@),
{
    let cs = chars_of(s);
    let p = chars_of(prefix);
    if cs.len() < p.len() {
        return false;
    }
    let r = matches_at(&cs, 0, &p, true);
    assert(lower_all(s@).take(p@.len() as int) =~= lower_all(s@.subrange(0, p@.len() as int)));
    r
}

/// Whether `s`, in ASCII lowercase, ends with `suffix`.
pub fn has_suffix_ascii_lowercase(s: &str, suffix: &str) -> (r: bool)
    ensures
        r == ends_with(lower_all(s@), suffix@),
{
    let cs = chars_of(s);
    let p = chars_of(suffix);
    if cs.len() < p.len() {
        return false;
    }
    let at = cs.len() - p.len();
    let r = matches_at(&cs, at, &p, true);
    assert(lower_all(s@).skip(at as int) =~= lower_all(s@.subrange(at as int, s@.len() as int)));
    r
}


/// The UTF-16 code units of one character: itself below U+10000, else a
/// surrogate pair.
pub open spec fn utf16_units(c: char) -> Seq<u16> {
    let v = c as u32;
    if v < 0x10000 {
        seq![v as u16]
    } else {
        let u = (v - 0x10000) as u32;
        seq![(0xD800 + u / 1024) as u16, (0xDC00 + u % 1024) as u16]
    }
}

/// The UTF-16 encoding of `s` (`str::encode_utf16`).
pub open spec fn encode_utf16(s: Seq<char>) -> Seq<u16>
    decreases s.len(),
{
    if s.len() == 0 {
        Seq::empty()
    } else {
        encode_utf16(s.drop_last()) + utf16_units(s.last())
    }
}

/// `s` in UTF-16, terminated by a zero unit, as Windows' wide-string
/// functions take it.
pub fn to_wide(s: &str) -> (r: Vec<u16>)
    ensures
        r@ == encode_utf16(s@).push(0u16),
{
    let cs = chars_of(s);
    let mut r: Vec<u16> = Vec::new();
    let mut i: usize = 0;
    while i < cs.len()
        invariant
            i <= cs@.len(),
            cs@ == s@,
            r@ == encode_utf16(cs@.take(i as int)),
        decreases cs@.len() - i,
    {
        let c = cs[i];
        let v = c as u32;
        assert(cs@.take(i + 1).drop_last() =~= cs@.take(i as int));
        proof {
            vstd::utf8::char_is_scalar(c);
        }
        if v < 0x10000 {
            r.push(v as u16);
        } else {
            let u = v - 0x10000;
            r.push((0xD800 + u / 1024) as u16);
            r.push((0xDC00 + u % 1024) as u16);
        }
        assert(r@ =~= encode_utf16(cs@.take(i + 1)));
        i = i + 1;
    }
    assert(cs@.take(cs@.len() as int) =~= cs@);
    r.push(0u16);
    r
}

} // verus!
