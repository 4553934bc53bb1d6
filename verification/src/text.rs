//! Building text piece by piece, and reading numbers in it.

use vstd::arithmetic::div_mod::{lemma_basic_div, lemma_div_denominator};
use vstd::arithmetic::power::{lemma_pow0, lemma_pow_positive, pow};
use vstd::prelude::*;
use vstd::string::*;

verus! {

/// The decimal digit `d`.
pub open spec fn digit(d: nat) -> char {
    ('0' as u32 + d) as char
}

/// The decimal notation of `n`, without leading zeros.
pub open spec fn decimal(n: nat) -> Seq<char>
    decreases n,
{
    if n < 10 {
        seq![digit(n)]
    } else {
        decimal(n / 10).push(digit(n % 10))
    }
}

/// The text of one decimal digit.
fn digit_text(d: u64) -> (r: &'static str)
    requires
        d < 10,
    ensures
        r@ == seq![digit(d as nat)],
{
    proof {
        reveal_strlit("0");
        reveal_strlit("1");
        reveal_strlit("2");
        reveal_strlit("3");
        reveal_strlit("4");
        reveal_strlit("5");
        reveal_strlit("6");
        reveal_strlit("7");
        reveal_strlit("8");
        reveal_strlit("9");
    }
    let text = match d {
        0 => "0",
        1 => "1",
        2 => "2",
        3 => "3",
        4 => "4",
        5 => "5",
        6 => "6",
        7 => "7",
        8 => "8",
        _ => "9",
    };
    assert(text@ =~= seq![digit(d as nat)]);
    text
}

/// Appends the decimal notation of `n`.
pub fn push_decimal(out: &mut String, n: u64)
    ensures
        final(out)@ == old(out)@ + decimal(n as nat),
    decreases n,
{
    let ghost start = out@;
    if n >= 10 {
        push_decimal(out, n / 10);
    }
    out.append(digit_text(n % 10));
    proof {
        assert(out@ =~= start + decimal(n as nat));
    }
}

/// Whether a character is a decimal digit.
pub open spec fn is_digit(c: char) -> bool {
    '0' <= c <= '9'
}

/// The number that decimal digits spell.
pub open spec fn value(digits: Seq<char>) -> int
    decreases digits.len(),
{
    if digits.len() == 0 {
        0
    } else {
        value(digits.drop_last()) * 10 + (digits.last() as int - '0' as int)
    }
}

/// The number that a text of decimal digits spells, unless it is larger than `max`.
pub open spec fn number_in(text: Seq<char>, max: u32) -> Option<u32> {
    if text.len() > 0 && (forall|i: int| 0 <= i < text.len() ==> is_digit(#[trigger] text[i]))
        && value(text) <= max {
        Some(value(text) as u32)
    } else {
        None
    }
}

/// Digits spell no less than those before them.
proof fn lemma_value_grows(digits: Seq<char>, n: int)
    requires
        0 <= n <= digits.len(),
        forall|i: int| 0 <= i < digits.len() ==> is_digit(#[trigger] digits[i]),
    ensures
        0 <= value(digits.take(n)) <= value(digits),
    decreases digits.len(),
{
    if digits.len() == 0 {
        assert(digits.take(n) =~= digits);
    } else if n == digits.len() {
        assert(digits.take(n) =~= digits);
        let front = digits.drop_last();
        assert forall|i: int| 0 <= i < front.len() implies is_digit(#[trigger] front[i]) by {
            assert(front[i] == digits[i]);
        }
        lemma_value_grows(front, front.len() as int);
        assert(front.take(front.len() as int) =~= front);
        assert(is_digit(digits[digits.len() - 1]));
    } else {
        let front = digits.drop_last();
        assert forall|i: int| 0 <= i < front.len() implies is_digit(#[trigger] front[i]) by {
            assert(front[i] == digits[i]);
        }
        lemma_value_grows(front, n);
        assert(front.take(n) =~= digits.take(n));
        assert(is_digit(digits[digits.len() - 1]));
    }
}

/// Reads the number that a text of decimal digits spells.
pub fn read_number(text: &str, max: u32) -> (r: Option<u32>)
    ensures
        r == number_in(text@, max),
{
    let n: usize = text.unicode_len();
    if n == 0 {
        return None;
    }
    let mut sum: u64 = 0;
    let mut i: usize = 0;
    assert(text@.take(0) =~= Seq::empty());
    while i < n
        invariant
            n == text@.len(),
            i <= n,
            forall|j: int| 0 <= j < i ==> is_digit(#[trigger] text@[j]),
            sum == value(text@.take(i as int)),
            sum <= max,
        decreases n - i,
    {
        let c = text.get_char(i);
        if !('0' <= c && c <= '9') {
            assert(!is_digit(text@[i as int]));
            return None;
        }
        proof {
            let next = text@.take(i + 1);
            assert(next.drop_last() =~= text@.take(i as int));
            assert(next.last() == c);
        }
        sum = sum * 10 + (c as u64 - '0' as u64);
        if sum > max as u64 {
            proof {
                if forall|j: int| 0 <= j < n ==> is_digit(#[trigger] text@[j]) {
                    lemma_value_grows(text@, i + 1);
                }
            }
            return None;
        }
        i = i + 1;
    }
    assert(text@.take(n as int) =~= text@);
    Some(sum as u32)
}

/// The decimal notation of a number consists of digits and spells it.
pub proof fn lemma_decimal_spells(n: nat)
    ensures
        decimal(n).len() > 0,
        forall|i: int| 0 <= i < decimal(n).len() ==> is_digit(#[trigger] decimal(n)[i]),
        value(decimal(n)) == n,
    decreases n,
{
    if n < 10 {
        let d = decimal(n);
        assert(d.drop_last() =~= Seq::empty());
        assert(value(d.drop_last()) == 0);
    } else {
        lemma_decimal_spells(n / 10);
        let d = decimal(n);
        assert(d.drop_last() =~= decimal(n / 10));
        assert(d.last() == digit(n % 10));
    }
}

/// A number that is not too large reads back from its decimal notation.
pub proof fn lemma_number_reads_back(n: u32, max: u32)
    requires
        n <= max,
    ensures
        number_in(decimal(n as nat), max) == Some(n),
{
    lemma_decimal_spells(n as nat);
}

/// Text that may be missing.
pub open spec fn text_of(s: Option<String>) -> Option<Seq<char>> {
    match s {
        Some(text) => Some(text@),
        None => None,
    }
}

/// One text after another.
pub fn join2(a: &str, b: &str) -> (r: String)
    ensures
        r@ == a@ + b@,
{
    let mut out = String::from_str(a);
    out.append(b);
    out
}

/// A text and a number.
pub fn with_number(before: &str, n: u64) -> (r: String)
    ensures
        r@ == before@ + decimal(n as nat),
{
    let mut out = String::from_str(before);
    push_decimal(&mut out, n);
    out
}

/// A number between two texts.
pub fn around_number(before: &str, n: u64, after: &str) -> (r: String)
    ensures
        r@ == before@ + decimal(n as nat) + after@,
{
    let mut out = String::from_str(before);
    push_decimal(&mut out, n);
    out.append(after);
    out
}

/// Whether a character has the Unicode property White_Space.
pub open spec fn is_white(c: char) -> bool {
    ||| 0x9 <= c as u32 <= 0xd
    ||| c as u32 == 0x20
    ||| c as u32 == 0x85
    ||| c as u32 == 0xa0
    ||| c as u32 == 0x1680
    ||| 0x2000 <= c as u32 <= 0x200a
    ||| c as u32 == 0x2028
    ||| c as u32 == 0x2029
    ||| c as u32 == 0x202f
    ||| c as u32 == 0x205f
    ||| c as u32 == 0x3000
}

/// `s` without white space at its start.
pub open spec fn trimmed_start(s: Seq<char>) -> Seq<char>
    decreases s.len(),
{
    if s.len() > 0 && is_white(s[0]) {
        trimmed_start(s.drop_first())
    } else {
        s
    }
}

/// `s` without white space at its end.
pub open spec fn trimmed_end(s: Seq<char>) -> Seq<char>
    decreases s.len(),
{
    if s.len() > 0 && is_white(s.last()) {
        trimmed_end(s.drop_last())
    } else {
        s
    }
}

/// `str::trim_end` takes away the white space at the end.
pub assume_specification[ str::trim_end ](s: &str) -> (r: &str)
    ensures
        r@ == trimmed_end(s@),
;

/// `str::trim` takes away the white space at both ends.
pub assume_specification[ str::trim ](s: &str) -> (r: &str)
    ensures
        r@ == trimmed_end(trimmed_start(s@)),
;

/// Whether `needle` stands somewhere in `text`.
pub open spec fn occurs(text: Seq<char>, needle: Seq<char>) -> bool {
    exists|i: int| occurs_at(text, needle, i)
}

/// Whether `needle` stands in `text` from position `i` on.
pub open spec fn occurs_at(text: Seq<char>, needle: Seq<char>, i: int) -> bool {
    0 <= i && i + needle.len() <= text.len() && text.subrange(i, i + needle.len()) == needle
}

/// Whether `needle` stands in `text` from position `at` on.
fn matches_at(text: &str, needle: &str, at: usize, len: usize) -> (r: bool)
    requires
        len == needle@.len(),
        at + len <= text@.len(),
        text@.len() <= usize::MAX,
    ensures
        r == occurs_at(text@, needle@, at as int),
{
    let mut i: usize = 0;
    while i < len
        invariant
            i <= len,
            len == needle@.len(),
            at + len <= text@.len(),
            text@.len() <= usize::MAX,
            forall|j: int| 0 <= j < i ==> text@[at + j] == needle@[j],
        decreases len - i,
    {
        if text.get_char(at + i) != needle.get_char(i) {
            proof {
                assert(text@.subrange(at as int, at + len)[i as int] != needle@[i as int]);
            }
            return false;
        }
        i = i + 1;
    }
    proof {
        assert(text@.subrange(at as int, at + len) =~= needle@);
    }
    true
}

/// Whether `text` starts with `key`.
pub fn starts_with(text: &str, key: &str) -> (r: bool)
    ensures
        r == (key@.len() <= text@.len() && text@.subrange(0, key@.len() as int) == key@),
{
    let n: usize = key.unicode_len();
    let len: usize = text.unicode_len();
    len >= n && matches_at(text, key, 0, n)
}

/// Whether `needle` stands somewhere in `text`.
pub fn contains(text: &str, needle: &str) -> (r: bool)
    ensures
        r == occurs(text@, needle@),
{
    let n: usize = needle.unicode_len();
    let len: usize = text.unicode_len();
    if len < n {
        return false;
    }
    let last: usize = len - n;
    let mut at: usize = 0;
    while at < last
        invariant
            n == needle@.len(),
            len == text@.len(),
            last == len - n,
            at <= last,
            forall|j: int| 0 <= j < at ==> !occurs_at(text@, needle@, j),
        decreases last - at,
    {
        if matches_at(text, needle, at, n) {
            return true;
        }
        at = at + 1;
    }
    matches_at(text, needle, last, n)
}

/// The digits of a number: the one with `j` digits behind it is how often ten to the power of `j`
/// goes into the number, up to tens. The first one is zero only if the number is.
pub proof fn lemma_digits_of_number(n: nat, j: nat)
    ensures
        j < decimal(n).len() ==> decimal(n)[decimal(n).len() - 1 - j] as int == '0' as int + n as int
            / pow(10, j) % 10,
        j >= decimal(n).len() ==> n as int / pow(10, j) == 0,
        n > 0 ==> decimal(n)[0] != '0',
    decreases n,
{
    let d = decimal(n);
    let p = pow(10, j);
    lemma_pow_positive(10, j);
    if j > 0 {
        lemma_pow_positive(10, (j - 1) as nat);
        reveal(pow);
        lemma_div_denominator(n as int, 10, pow(10, (j - 1) as nat));
    } else {
        lemma_pow0(10);
    }
    if n < 10 {
        if j > 0 {
            lemma_basic_div(n as int, p);
        }
    } else {
        let rest = decimal(n / 10);
        assert(d == rest.push(digit(n % 10)));
        lemma_digits_of_number(n / 10, if j > 0 {
            (j - 1) as nat
        } else {
            0
        });
        lemma_decimal_spells(n / 10);
        assert(d[0] == rest[0]);
    }
}

/// White space at the start is taken away, up to the first character that is none.
pub proof fn lemma_white_start_goes(before: Seq<char>, s: Seq<char>)
    requires
        forall|i: int| 0 <= i < before.len() ==> is_white(#[trigger] before[i]),
        s.len() > 0 && !is_white(s[0]),
    ensures
        trimmed_start(before + s) == s,
    decreases before.len(),
{
    let all = before + s;
    if before.len() > 0 {
        let rest = before.drop_first();
        assert(is_white(before[0]));
        assert(all.drop_first() =~= rest + s);
        assert forall|i: int| 0 <= i < rest.len() implies is_white(#[trigger] rest[i]) by {
            assert(rest[i] == before[i + 1]);
        }
        lemma_white_start_goes(rest, s);
    } else {
        assert(all =~= s);
    }
}

/// White space at the end is taken away, up to the last character that is none.
pub proof fn lemma_white_end_goes(s: Seq<char>, after: Seq<char>)
    requires
        forall|i: int| 0 <= i < after.len() ==> is_white(#[trigger] after[i]),
        s.len() > 0 && !is_white(s[s.len() - 1]),
    ensures
        trimmed_end(s + after) == s,
    decreases after.len(),
{
    let all = s + after;
    if after.len() > 0 {
        let rest = after.drop_last();
        assert(is_white(after[after.len() - 1]));
        assert(all.last() == after[after.len() - 1]);
        assert(all.drop_last() =~= s + rest);
        assert forall|i: int| 0 <= i < rest.len() implies is_white(#[trigger] rest[i]) by {
            assert(rest[i] == after[i]);
        }
        lemma_white_end_goes(s, rest);
    } else {
        assert(all =~= s);
    }
}

/// What is left without white space at the end is the start of the text.
pub proof fn lemma_trimmed_end_is_start(s: Seq<char>)
    ensures
        trimmed_end(s).len() <= s.len(),
        trimmed_end(s) == s.take(trimmed_end(s).len() as int),
    decreases s.len(),
{
    if s.len() > 0 && is_white(s.last()) {
        lemma_trimmed_end_is_start(s.drop_last());
        assert(s.drop_last().take(trimmed_end(s).len() as int) =~= s.take(
            trimmed_end(s).len() as int,
        ));
    } else {
        assert(s.take(s.len() as int) =~= s);
    }
}

/// What counts as white space among the ASCII characters: tab, line feed, vertical tab, form feed,
/// carriage return and space.
pub proof fn lemma_ascii_white_space(c: char)
    requires
        (c as u32) < 128,
    ensures
        is_white(c) <==> c == '\t' || c == '\n' || c as u32 == 0xb || c as u32 == 0xc || c == '\r'
            || c == ' ',
{
}

} // verus!
