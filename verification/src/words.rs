//! Texts as words: trimming, letter case, numbers in decimal, and quoting.
use crate::text::{chars_of, nat_text};
use vstd::prelude::*;
use vstd::string::StringExecFns;

verus! {

/// White space, as Unicode has it.
pub open spec fn is_white(c: char) -> bool {
    let n = c as int;
    ||| 9 <= n <= 13
    ||| n == 0x20
    ||| n == 0x85
    ||| n == 0xA0
    ||| n == 0x1680
    ||| 0x2000 <= n <= 0x200A
    ||| n == 0x2028
    ||| n == 0x2029
    ||| n == 0x202F
    ||| n == 0x205F
    ||| n == 0x3000
}

/// The text without the white space before it.
pub open spec fn trimmed_start(t: Seq<char>) -> Seq<char>
    decreases t.len(),
{
    if t.len() == 0 || !is_white(t[0]) {
        t
    } else {
        trimmed_start(t.skip(1))
    }
}

/// The text without the white space behind it.
pub open spec fn trimmed_end(t: Seq<char>) -> Seq<char>
    decreases t.len(),
{
    if t.len() == 0 || !is_white(t.last()) {
        t
    } else {
        trimmed_end(t.drop_last())
    }
}

/// The small letter of a capital one of ASCII; any other character is its own.
pub open spec fn small(c: char) -> char {
    if 'A' <= c && c <= 'Z' {
        ((c as int) + 32) as char
    } else {
        c
    }
}

/// A name as it is compared: without white space around it and in small letters.
pub open spec fn normalized(t: Seq<char>) -> Seq<char> {
    let s = trimmed_end(trimmed_start(t));
    Seq::new(s.len(), |i: int| small(s[i]))
}

/// Whether the character is white space.
pub fn white(c: char) -> (r: bool)
    ensures
        r == is_white(c),
{
    let n: u32 = c as u32;
    (9 <= n && n <= 13) || n == 0x20 || n == 0x85 || n == 0xA0 || n == 0x1680 || (0x2000 <= n && n
        <= 0x200A) || n == 0x2028 || n == 0x2029 || n == 0x202F || n == 0x205F || n == 0x3000
}

fn to_small(c: char) -> (r: char)
    ensures
        r == small(c),
{
    if 'A' <= c && c <= 'Z' {
        let n: u8 = c as u8;
        let m: u8 = n + 32;
        m as char
    } else {
        c
    }
}

/// The characters of a name as it is compared.
pub fn normal_chars(t: &str) -> (r: Vec<char>)
    ensures
        r@ == normalized(t@),
{
    let all: Vec<char> = chars_of(t);
    let mut i: usize = 0;
    assert(all@.skip(0) =~= all@);
    while i < all.len() && white(all[i])
        invariant
            i <= all@.len(),
            trimmed_start(all@) == trimmed_start(all@.skip(i as int)),
        decreases all@.len() - i,
    {
        assert(all@.skip(i as int).skip(1) =~= all@.skip(i + 1));
        i = i + 1;
    }
    let ghost start = all@.skip(i as int);
    assert(trimmed_start(all@) == start);
    let mut j: usize = all.len();
    assert(all@.subrange(i as int, j as int) =~= start);
    while i < j && white(all[j - 1])
        invariant
            i <= j <= all@.len(),
            trimmed_end(start) == trimmed_end(all@.subrange(i as int, j as int)),
        decreases j,
    {
        assert(all@.subrange(i as int, j as int).drop_last() =~= all@.subrange(i as int, j - 1));
        j = j - 1;
    }
    let ghost whole = all@.subrange(i as int, j as int);
    assert(trimmed_end(start) == whole);
    let mut out: Vec<char> = Vec::new();
    let mut k: usize = i;
    while k < j
        invariant
            i <= k <= j <= all@.len(),
            out@.len() == k - i,
            forall|n: int| 0 <= n < out@.len() ==> #[trigger] out@[n] == small(all@[i + n]),
        decreases j - k,
    {
        out.push(to_small(all[k]));
        k = k + 1;
    }
    assert(out@ =~= Seq::new(whole.len(), |n: int| small(whole[n])));
    out
}

/// Whether the characters are those of the text.
pub fn spells(chars: &Vec<char>, t: &str) -> (r: bool)
    ensures
        r == (chars@ == t@),
{
    let other: Vec<char> = chars_of(t);
    if chars.len() != other.len() {
        return false;
    }
    let mut i: usize = 0;
    while i < chars.len()
        invariant
            i <= chars@.len(),
            chars@.len() == other@.len(),
            other@ == t@,
            forall|j: int| 0 <= j < i ==> chars@[j] == other@[j],
        decreases chars@.len() - i,
    {
        if chars[i] != other[i] {
            return false;
        }
        i = i + 1;
    }
    assert(chars@ =~= other@);
    true
}

/// Whether the characters begin with the text.
pub fn spell_start(chars: &Vec<char>, t: &str) -> (r: bool)
    ensures
        r == crate::text::starts_with(chars@, t@),
{
    let other: Vec<char> = chars_of(t);
    if chars.len() < other.len() {
        return false;
    }
    let mut i: usize = 0;
    while i < other.len()
        invariant
            i <= other@.len() <= chars@.len(),
            other@ == t@,
            forall|j: int| 0 <= j < i ==> chars@[j] == other@[j],
        decreases other@.len() - i,
    {
        if chars[i] != other[i] {
            assert(chars@.take(other@.len() as int)[i as int] != other@[i as int]);
            return false;
        }
        i = i + 1;
    }
    assert(chars@.take(other@.len() as int) =~= other@);
    true
}

/// A decimal digit.
pub open spec fn is_digit(c: char) -> bool {
    '0' <= c && c <= '9'
}

/// The number that decimal digits stand for.
pub open spec fn digits_value(t: Seq<char>) -> nat
    decreases t.len(),
{
    if t.len() == 0 {
        0
    } else {
        10 * digits_value(t.drop_last()) + ((t.last() as int) - ('0' as int)) as nat
    }
}

/// The text is one or more decimal digits.
pub open spec fn all_digits(t: Seq<char>) -> bool {
    t.len() > 0 && forall|i: int| 0 <= i < t.len() ==> is_digit(#[trigger] t[i])
}

/// The integer that a text stands for: decimal digits, with at most one sign before
/// them.
pub open spec fn int_value(t: Seq<char>) -> Option<int> {
    if t.len() > 0 && (t[0] == '-' || t[0] == '+') {
        if all_digits(t.skip(1)) {
            Some(
                if t[0] == '-' {
                    -(digits_value(t.skip(1)) as int)
                } else {
                    digits_value(t.skip(1)) as int
                },
            )
        } else {
            None
        }
    } else if all_digits(t) {
        Some(digits_value(t) as int)
    } else {
        None
    }
}

/// The integer, where it is within the bounds.
pub open spec fn int_within(t: Seq<char>, low: int, high: int) -> Option<int> {
    match int_value(t) {
        Some(n) => if low <= n <= high {
            Some(n)
        } else {
            None
        },
        None => None,
    }
}

/// The value of the digits from `from` on, where it is at most `limit`.
fn parse_digits(chars: &Vec<char>, from: usize, limit: u64) -> (r: Option<u64>)
    requires
        from <= chars@.len(),
        limit <= 9_223_372_036_854_775_808,
    ensures
        match r {
            Some(n) => all_digits(chars@.skip(from as int)) && digits_value(chars@.skip(from as int)) == n
                && n <= limit,
            None => !all_digits(chars@.skip(from as int)) || digits_value(chars@.skip(from as int))
                > limit,
        },
{
    let ghost digits = chars@.skip(from as int);
    if from == chars.len() {
        return None;
    }
    let mut n: u64 = 0;
    let mut over: bool = false;
    let mut i: usize = from;
    assert(digits.take(0) =~= Seq::<char>::empty());
    while i < chars.len()
        invariant
            from <= i <= chars@.len(),
            digits == chars@.skip(from as int),
            limit <= 9_223_372_036_854_775_808,
            forall|j: int| 0 <= j < i - from ==> is_digit(#[trigger] digits[j]),
            !over ==> n == digits_value(digits.take(i - from)) && n <= limit,
            over ==> digits_value(digits.take(i - from)) > limit,
        decreases chars@.len() - i,
    {
        let c: char = chars[i];
        assert(digits[i - from] == c);
        if !('0' <= c && c <= '9') {
            assert(!is_digit(digits[i - from]));
            return None;
        }
        let d: u64 = (c as u64) - 48;
        assert(digits.take(i - from + 1).drop_last() =~= digits.take(i - from));
        assert(digits_value(digits.take(i - from + 1)) == 10 * digits_value(digits.take(i - from))
            + d);
        if !over {
            if limit < d || n > (limit - d) / 10 {
                over = true;
            } else {
                n = n * 10 + d;
            }
        }
        i = i + 1;
    }
    assert(digits.take(i - from) =~= digits);
    if over {
        None
    } else {
        Some(n)
    }
}

/// The integer that a text stands for, where it fits `i64`.
pub fn parse_i64(t: &str) -> (r: Option<i64>)
    ensures
        match r {
            Some(n) => int_within(t@, i64::MIN as int, i64::MAX as int) == Some(n as int),
            None => int_within(t@, i64::MIN as int, i64::MAX as int) is None,
        },
{
    let chars: Vec<char> = chars_of(t);
    if chars.len() > 0 && chars[0] == '-' {
        match parse_digits(&chars, 1, 9_223_372_036_854_775_808) {
            Some(n) => {
                if n == 9_223_372_036_854_775_808 {
                    Some(i64::MIN)
                } else {
                    Some(-(n as i64))
                }
            },
            None => None,
        }
    } else if chars.len() > 0 && chars[0] == '+' {
        match parse_digits(&chars, 1, 9_223_372_036_854_775_807) {
            Some(n) => Some(n as i64),
            None => None,
        }
    } else {
        assert(chars@.skip(0) =~= chars@);
        match parse_digits(&chars, 0, 9_223_372_036_854_775_807) {
            Some(n) => Some(n as i64),
            None => None,
        }
    }
}

/// The integer that a text stands for, where it fits `i32`.
pub fn parse_i32(t: &str) -> (r: Option<i32>)
    ensures
        match r {
            Some(n) => int_within(t@, i32::MIN as int, i32::MAX as int) == Some(n as int),
            None => int_within(t@, i32::MIN as int, i32::MAX as int) is None,
        },
{
    match parse_i64(t) {
        Some(n) => {
            if -2_147_483_648 <= n && n <= 2_147_483_647 {
                Some(n as i32)
            } else {
                None
            }
        },
        None => None,
    }
}

/// Writing a number down and reading it back gives the number.
pub proof fn lemma_nat_text_reads_back(n: nat)
    ensures
        all_digits(nat_text(n)),
        digits_value(nat_text(n)) == n,
    decreases n,
{
    reveal_with_fuel(digits_value, 2);
    if n < 10 {
        assert(nat_text(n).drop_last() =~= Seq::<char>::empty());
    } else {
        lemma_nat_text_reads_back(n / 10);
        let head = nat_text(n / 10);
        let t = nat_text(n);
        assert(t == head.push(crate::text::digit_char((n % 10) as int)));
        assert(t.drop_last() =~= head);
        assert forall|i: int| 0 <= i < t.len() implies is_digit(#[trigger] t[i]) by {
            if i < head.len() {
                assert(t[i] == head[i]);
            }
        }
    }
}

/// Writing an integer down and reading it back gives the integer.
pub proof fn lemma_int_text_reads_back(n: int)
    ensures
        int_value(crate::text::int_text(n)) == Some(n),
{
    let t = crate::text::int_text(n);
    if n < 0 {
        lemma_nat_text_reads_back((-n) as nat);
        assert(t.skip(1) =~= nat_text((-n) as nat));
    } else {
        lemma_nat_text_reads_back(n as nat);
        assert(is_digit(t[0]));
    }
}

/// How a text is shown to a developer: between double quotes, with escapes.
pub uninterp spec fn debug_text(t: Seq<char>) -> Seq<char>;

/// A text between double quotes, with escapes, by the `Debug` formatting of `str`.
/// Claims that the outcome depends on the characters of the text alone; which
/// characters are escaped, and how, is left unsaid.
#[verifier::external_body]
pub(crate) fn debug_of(t: &str) -> (r: String)
    ensures
        r@ == debug_text(t@),
{
    format!("{:?}", t)
}

/// The value of a text that is digits behind at most a plus sign.
pub open spec fn unsigned_value(t: Seq<char>) -> Option<nat> {
    let digits = if t.len() > 0 && t[0] == '+' {
        t.skip(1)
    } else {
        t
    };
    if all_digits(digits) {
        Some(digits_value(digits))
    } else {
        None
    }
}

/// Why a text is no `u32`, in the words of the standard library.
pub uninterp spec fn u32_complaint(t: Seq<char>) -> Seq<char>;

/// Why a text is no `u64`, in the words of the standard library.
pub uninterp spec fn u64_complaint(t: Seq<char>) -> Seq<char>;

/// Why a text is no `bool`, in the words of the standard library.
pub uninterp spec fn bool_complaint(t: Seq<char>) -> Seq<char>;

/// Reads a `u32`, by `str::parse`. Claims that a text is read exactly where it is
/// digits behind at most a plus sign and their value fits, that it is then read as
/// that value, and that the complaint depends on the text alone; how the complaint is
/// worded is left unsaid.
#[verifier::external_body]
pub(crate) fn parse_u32(t: &str) -> (r: Result<u32, String>)
    ensures
        match r {
            Ok(n) => unsigned_value(t@) == Some(n as nat),
            Err(m) => (unsigned_value(t@) matches Some(n) ==> n > u32::MAX) && m@ == u32_complaint(
                t@,
            ),
        },
{
    t.parse::<u32>().map_err(|e| e.to_string())
}

/// Reads a `u64`, by `str::parse`. Claims that a text is read exactly where it is
/// digits behind at most a plus sign and their value fits, that it is then read as
/// that value, and that the complaint depends on the text alone; how the complaint is
/// worded is left unsaid.
#[verifier::external_body]
pub(crate) fn parse_u64(t: &str) -> (r: Result<u64, String>)
    ensures
        match r {
            Ok(n) => unsigned_value(t@) == Some(n as nat),
            Err(m) => (unsigned_value(t@) matches Some(n) ==> n > u64::MAX) && m@ == u64_complaint(
                t@,
            ),
        },
{
    t.parse::<u64>().map_err(|e| e.to_string())
}

/// Reads a `bool`, by `str::parse`. Claims that `true` and `false` are read, and
/// nothing else, and that the complaint depends on the text alone; how it is worded is
/// left unsaid.
#[verifier::external_body]
pub(crate) fn parse_bool(t: &str) -> (r: Result<bool, String>)
    ensures
        match r {
            Ok(b) => t@ == (if b {
                "true"@
            } else {
                "false"@
            }),
            Err(m) => t@ != "true"@ && t@ != "false"@ && m@ == bool_complaint(t@),
        },
{
    t.parse::<bool>().map_err(|e| e.to_string())
}

} // verus!
