//! Character-level helpers: what counts as padding around client input,
//! trimming, and decimal numbers as text.

use vstd::prelude::*;

verus! {

/// An ASCII control character: U+0000 to U+001F, or U+007F.
pub open spec fn is_ascii_control(c: char) -> bool {
    c as u32 <= 0x1F || c as u32 == 0x7F
}

/// A character with the Unicode property `White_Space`.
pub open spec fn is_whitespace(c: char) -> bool {
    let u = c as u32;
    ||| 0x09 <= u <= 0x0D
    ||| u == 0x20
    ||| u == 0x85
    ||| u == 0xA0
    ||| u == 0x1680
    ||| 0x2000 <= u <= 0x200A
    ||| u == 0x2028
    ||| u == 0x2029
    ||| u == 0x202F
    ||| u == 0x205F
    ||| u == 0x3000
}

/// A character that is stripped from both ends of client input.
pub open spec fn is_padding(c: char) -> bool {
    is_ascii_control(c) || is_whitespace(c)
}

/// Every character of `s` is padding.
pub open spec fn all_padding(s: Seq<char>) -> bool {
    forall|i: int| 0 <= i < s.len() ==> is_padding(#[trigger] s[i])
}

/// `s` without its leading padding.
pub open spec fn trim_start(s: Seq<char>) -> Seq<char>
    decreases s.len(),
{
    if s.len() > 0 && is_padding(s[0]) {
        trim_start(s.skip(1))
    } else {
        s
    }
}

/// `s` without its trailing padding.
pub open spec fn trim_end(s: Seq<char>) -> Seq<char>
    decreases s.len(),
{
    if s.len() > 0 && is_padding(s.last()) {
        trim_end(s.drop_last())
    } else {
        s
    }
}

/// `s` without its leading and trailing padding.
pub open spec fn trim(s: Seq<char>) -> Seq<char> {
    trim_end(trim_start(s))
}

/// Whether `c` is stripped from both ends of client input.
pub fn padding(c: char) -> (b: bool)
    ensures
        b == is_padding(c),
{
    let u: u32 = c as u32;
    u <= 0x1F || u == 0x7F || whitespace(c)
}

/// Whether `c` has the Unicode property `White_Space`.
pub fn whitespace(c: char) -> (b: bool)
    ensures
        b == is_whitespace(c),
{
    let u: u32 = c as u32;
    (0x09 <= u && u <= 0x0D) || u == 0x20 || u == 0x85 || u == 0xA0 || u == 0x1680 || (0x2000 <= u
        && u <= 0x200A) || u == 0x2028 || u == 0x2029 || u == 0x202F || u == 0x205F || u == 0x3000
}

/// The characters of `s`, in order.
pub fn chars_of(s: &str) -> (v: Vec<char>)
    ensures
        v@ == s@,
{
    let mut v: Vec<char> = Vec::new();
    for c in it: s.chars()
        invariant
            v@ == it.seq().take(it.index()),
            it.seq() == s@,
    {
        v.push(c);
    }
    v
}

/// Where the trimmed part of `chars` starts and ends: the first character
/// that is not padding, and the place after the last one. Where all is
/// padding, both are the length of `chars`.
pub fn trim_bounds(chars: &Vec<char>) -> (r: (usize, usize))
    ensures
        r.0 <= r.1 <= chars.len(),
        chars@.subrange(r.0 as int, r.1 as int) == trim(chars@),
        all_padding(chars@.take(r.0 as int)),
        all_padding(chars@.skip(r.1 as int)),
        r.0 < chars.len() ==> !is_padding(chars[r.0 as int]) && !is_padding(chars[r.1 - 1]),
{
    let n = chars.len();
    let mut start: usize = 0;
    assert(chars@.skip(0) == chars@);
    while start < n && padding(chars[start])
        invariant
            start <= n,
            n == chars.len(),
            trim_start(chars@) == trim_start(chars@.skip(start as int)),
            all_padding(chars@.take(start as int)),
        decreases n - start,
    {
        assert(chars@.skip(start as int).skip(1) == chars@.skip(start + 1));
        start += 1;
    }
    let mut end: usize = n;
    while end > start && padding(chars[end - 1])
        invariant
            start <= end <= n,
            n == chars.len(),
            trim(chars@) == trim_end(chars@.subrange(start as int, end as int)),
            all_padding(chars@.skip(end as int)),
        decreases end,
    {
        assert(chars@.subrange(start as int, end as int).drop_last() == chars@.subrange(
            start as int,
            end - 1,
        ));
        assert forall|i: int| 0 <= i < n - (end - 1) implies is_padding(
            #[trigger] chars@.skip(end - 1)[i],
        ) by {
            if i > 0 {
                assert(chars@.skip(end - 1)[i] == chars@.skip(end as int)[i - 1]);
            }
        }
        end -= 1;
    }
    (start, end)
}

/// An ASCII decimal digit.
pub open spec fn is_digit(c: char) -> bool {
    0x30 <= c as u32 <= 0x39
}

/// Every character of `s` is a decimal digit.
pub open spec fn all_digits(s: Seq<char>) -> bool {
    forall|i: int| 0 <= i < s.len() ==> is_digit(#[trigger] s[i])
}

/// The number that the digit `c` stands for.
pub open spec fn digit_value(c: char) -> nat {
    (c as u32 - 0x30) as nat
}

/// The digit that stands for `d`, for `d` below ten.
pub open spec fn digit_char(d: nat) -> char {
    (d + 0x30) as char
}

/// The number that a run of digits stands for in base ten; zero for the
/// empty run.
pub open spec fn digits_value(s: Seq<char>) -> nat
    decreases s.len(),
{
    if s.len() == 0 {
        0
    } else {
        10 * digits_value(s.drop_last()) + digit_value(s.last())
    }
}

/// `s` without one leading plus sign, if it has one.
pub open spec fn without_sign(s: Seq<char>) -> Seq<char> {
    if s.len() > 0 && s[0] == '+' {
        s.skip(1)
    } else {
        s
    }
}

/// The non-negative number that `s` spells in base ten: an optional plus
/// sign, then one digit or more and nothing else. Leading zeros are allowed;
/// the value is not bounded.
pub open spec fn parse_unsigned(s: Seq<char>) -> Option<nat> {
    let digits = without_sign(s);
    if digits.len() > 0 && all_digits(digits) {
        Some(digits_value(digits))
    } else {
        None
    }
}

/// The number that `s` spells, if it spells one that is at most `max`.
pub open spec fn parse_at_most(s: Seq<char>, max: u32) -> Option<u32> {
    match parse_unsigned(s) {
        Some(v) => if v <= max {
            Some(v as u32)
        } else {
            None
        },
        None => None,
    }
}

/// Whether `c` is an ASCII decimal digit.
pub fn digit(c: char) -> (b: bool)
    ensures
        b == is_digit(c),
{
    let u: u32 = c as u32;
    0x30 <= u && u <= 0x39
}

/// Reads `chars[start..end]` as a non-negative number in base ten and
/// returns it if it is at most `max`. Numbers of any length are read
/// without overflow.
pub fn parse_bounded(chars: &Vec<char>, start: usize, end: usize, max: u32) -> (r: Option<u32>)
    requires
        start <= end <= chars.len(),
    ensures
        r == parse_at_most(chars@.subrange(start as int, end as int), max),
{
    let first: usize = if start < end && chars[start] == '+' {
        start + 1
    } else {
        start
    };
    let ghost digits = chars@.subrange(first as int, end as int);
    if first == end {
        return None;
    }
    let mut acc: u64 = 0;
    let mut over: bool = false;
    let mut i: usize = first;
    while i < end
        invariant
            start <= first <= i <= end <= chars.len(),
            first < end,
            digits == chars@.subrange(first as int, end as int),
            digits == without_sign(chars@.subrange(start as int, end as int)),
            all_digits(chars@.subrange(first as int, i as int)),
            !over ==> acc == digits_value(chars@.subrange(first as int, i as int)) && acc <= max,
            over ==> digits_value(chars@.subrange(first as int, i as int)) > max,
        decreases end - i,
    {
        let c = chars[i];
        if !digit(c) {
            assert(!is_digit(digits[i - first]));
            return None;
        }
        assert(chars@.subrange(first as int, i + 1).drop_last() == chars@.subrange(
            first as int,
            i as int,
        ));
        if !over {
            let next: u64 = acc * 10 + (c as u32 - 0x30) as u64;
            if next > max as u64 {
                over = true;
            } else {
                acc = next;
            }
        }
        i += 1;
    }
    if over {
        None
    } else {
        Some(acc as u32)
    }
}

/// `n` written in base ten, without sign or leading zeros.
pub open spec fn decimal(n: nat) -> Seq<char>
    decreases n,
{
    if n < 10 {
        seq![digit_char(n)]
    } else {
        decimal(n / 10).push(digit_char(n % 10))
    }
}

/// The one-character text of the digit `d`.
pub fn digit_str(d: u32) -> (s: &'static str)
    requires
        d < 10,
    ensures
        s@ == seq![digit_char(d as nat)],
{
    proof {
        reveal_strlit("0");
        reveal_strlit("1");
        reveal_strlit("2");
        reveal_strlit("3");
        reveal_strlit("4");
        reveal_strlit("5");
        reveal_strlit("6");
        reveal_strlit("7");
        reveal_strlit("8");
        reveal_strlit("9");
    }
    let s = match d {
        0 => "0",
        1 => "1",
        2 => "2",
        3 => "3",
        4 => "4",
        5 => "5",
        6 => "6",
        7 => "7",
        8 => "8",
        _ => "9",
    };
    s
}

/// `n` written in base ten.
pub fn decimal_string(n: u32) -> (s: String)
    ensures
        s@ == decimal(n as nat),
    decreases n,
{
    if n < 10 {
        String::from_str(digit_str(n))
    } else {
        let mut s = decimal_string(n / 10);
        s.append(digit_str(n % 10));
        s
    }
}

/// What `decimal` writes is a run of digits that stands for the number it
/// was written from; it does not begin with a plus sign, and neither its
/// first nor its last character is padding.
pub proof fn lemma_decimal_reads_back(n: nat)
    ensures
        decimal(n).len() > 0,
        all_digits(decimal(n)),
        digits_value(decimal(n)) == n,
        parse_unsigned(decimal(n)) == Some(n),
        !is_padding(decimal(n)[0]),
        !is_padding(decimal(n).last()),
    decreases n,
{
    if n < 10 {
        let s = decimal(n);
        assert(digits_value(s) == 10 * digits_value(s.drop_last()) + digit_value(s.last()));
    } else {
        lemma_decimal_reads_back(n / 10);
        let s = decimal(n);
        assert(s.drop_last() == decimal(n / 10));
    }
}

/// Where `trim_start` cuts: everything before the cut is padding, and what
/// stands at the cut is not.
pub proof fn lemma_trim_start_cut(s: Seq<char>) -> (cut: int)
    ensures
        0 <= cut <= s.len(),
        trim_start(s) == s.skip(cut),
        all_padding(s.take(cut)),
        cut < s.len() ==> !is_padding(s[cut]),
    decreases s.len(),
{
    if s.len() > 0 && is_padding(s[0]) {
        let inner = lemma_trim_start_cut(s.skip(1));
        assert forall|i: int| 0 <= i < inner + 1 implies is_padding(
            #[trigger] s.take(inner + 1)[i],
        ) by {
            if i > 0 {
                assert(s.take(inner + 1)[i] == s.skip(1).take(inner)[i - 1]);
            }
        }
        inner + 1
    } else {
        0
    }
}

/// Where `trim_end` cuts: everything from the cut on is padding, and what
/// stands before the cut is not.
pub proof fn lemma_trim_end_cut(s: Seq<char>) -> (cut: int)
    ensures
        0 <= cut <= s.len(),
        trim_end(s) == s.take(cut),
        all_padding(s.skip(cut)),
        cut > 0 ==> !is_padding(s[cut - 1]),
    decreases s.len(),
{
    if s.len() > 0 && is_padding(s.last()) {
        let inner = lemma_trim_end_cut(s.drop_last());
        assert forall|i: int| 0 <= i < s.len() - inner implies is_padding(
            #[trigger] s.skip(inner)[i],
        ) by {
            if i < s.len() - inner - 1 {
                assert(s.skip(inner)[i] == s.drop_last().skip(inner)[i]);
            }
        }
        inner
    } else {
        s.len() as int
    }
}

/// Trimming removes padding and nothing else, and leaves none at either
/// end: the text is padding, then the trimmed text, then padding, and the
/// trimmed text neither begins nor ends with padding.
pub proof fn lemma_trim_is_tight(s: Seq<char>) -> (cuts: (int, int))
    ensures
        0 <= cuts.0 <= cuts.1 <= s.len(),
        trim(s) == s.subrange(cuts.0, cuts.1),
        all_padding(s.take(cuts.0)),
        all_padding(s.skip(cuts.1)),
        trim(s).len() > 0 ==> !is_padding(trim(s)[0]) && !is_padding(trim(s).last()),
{
    let start = lemma_trim_start_cut(s);
    let rest = s.skip(start);
    let end = lemma_trim_end_cut(rest);
    assert(rest.skip(end) == s.skip(start + end));
    (start, start + end)
}

/// Padding around a text whose first and last characters are not padding
/// is exactly what trimming removes.
pub proof fn lemma_trim_padded(before: Seq<char>, core: Seq<char>, after: Seq<char>)
    requires
        all_padding(before),
        all_padding(after),
        core.len() > 0,
        !is_padding(core[0]),
        !is_padding(core.last()),
    ensures
        trim(before + core + after) == core,
{
    lemma_trim_start_padded(before, core + after);
    assert(before + core + after == before + (core + after));
    lemma_trim_end_padded(core, after);
}

/// Leading padding before a text that does not begin with padding is what
/// `trim_start` removes.
pub proof fn lemma_trim_start_padded(before: Seq<char>, rest: Seq<char>)
    requires
        all_padding(before),
        rest.len() > 0,
        !is_padding(rest[0]),
    ensures
        trim_start(before + rest) == rest,
    decreases before.len(),
{
    if before.len() > 0 {
        assert((before + rest).skip(1) == before.skip(1) + rest);
        lemma_trim_start_padded(before.skip(1), rest);
    }
}

/// Trailing padding after a text that does not end with padding is what
/// `trim_end` removes.
pub proof fn lemma_trim_end_padded(rest: Seq<char>, after: Seq<char>)
    requires
        all_padding(after),
        rest.len() > 0,
        !is_padding(rest.last()),
    ensures
        trim_end(rest + after) == rest,
    decreases after.len(),
{
    if after.len() > 0 {
        assert((rest + after).drop_last() == rest + after.drop_last());
        lemma_trim_end_padded(rest, after.drop_last());
    }
}

} // verus!
