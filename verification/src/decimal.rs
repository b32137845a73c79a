//! Signed 64-bit integers as base-ten text: what a word spells, and how a
//! value is written.

use vstd::prelude::*;
use vstd::string::StringExecFns;

verus! {

/// Whether a character is one of the ten ASCII digits.
pub open spec fn is_digit(c: char) -> bool {
    '0' <= c && c <= '9'
}

/// The value of a digit.
pub open spec fn digit_value(c: char) -> int {
    c as int - 48
}

/// The digit for a value below ten.
pub open spec fn digit_char(d: int) -> char {
    (d + 48) as char
}

/// Whether a run of characters is non-empty and holds digits only.
pub open spec fn is_digits(s: Seq<char>) -> bool {
    s.len() > 0 && forall|i: int| 0 <= i < s.len() ==> is_digit(#[trigger] s[i])
}

/// The number that a run of digits spells, most significant digit first.
pub open spec fn digits_value(s: Seq<char>) -> int
    decreases s.len(),
{
    if s.len() == 0 {
        0
    } else {
        10 * digits_value(s.drop_last()) + digit_value(s.last())
    }
}

/// The integer that a word spells: digits, with one optional `-` or `+` in
/// front. Leading zeros are accepted. A word that is not of this shape
/// spells nothing.
pub open spec fn decimal_value(word: Seq<char>) -> Option<int> {
    if word.len() > 0 && (word[0] == '-' || word[0] == '+') {
        let digits = word.subrange(1, word.len() as int);
        if !is_digits(digits) {
            None
        } else if word[0] == '-' {
            Some(-digits_value(digits))
        } else {
            Some(digits_value(digits))
        }
    } else if is_digits(word) {
        Some(digits_value(word))
    } else {
        None
    }
}

/// The 64-bit value that a word spells; a number out of range spells nothing.
pub open spec fn parse_i64(word: Seq<char>) -> Option<i64> {
    match decimal_value(word) {
        Some(v) => if i64::MIN <= v <= i64::MAX {
            Some(v as i64)
        } else {
            None
        },
        None => None,
    }
}

/// A natural number in base ten, without leading zeros.
pub open spec fn nat_text(n: nat) -> Seq<char>
    decreases n,
{
    if n < 10 {
        seq![digit_char(n as int)]
    } else {
        nat_text(n / 10).push(digit_char((n % 10) as int))
    }
}

/// An integer in base ten: `-` in front of a negative number, no sign
/// otherwise.
pub open spec fn int_text(v: int) -> Seq<char> {
    if v < 0 {
        seq!['-'] + nat_text((-v) as nat)
    } else {
        nat_text(v as nat)
    }
}

/// Whether a run of digits is written without a redundant leading zero.
pub open spec fn is_plain_digits(s: Seq<char>) -> bool {
    is_digits(s) && (s.len() == 1 || s[0] != '0')
}

/// Whether a word is a numeral in the one form that `int_text` writes: no
/// `+`, no redundant leading zero, no `-0`.
pub open spec fn is_canonical_decimal(word: Seq<char>) -> bool {
    if word.len() > 0 && word[0] == '-' {
        let digits = word.subrange(1, word.len() as int);
        is_plain_digits(digits) && digits[0] != '0'
    } else {
        is_plain_digits(word)
    }
}

/// A run of digits spells at least what any of its prefixes spells.
pub proof fn lemma_digits_value_grows(s: Seq<char>, k: int)
    requires
        0 <= k <= s.len(),
        forall|i: int| 0 <= i < s.len() ==> is_digit(#[trigger] s[i]),
    ensures
        0 <= digits_value(s.take(k)) <= digits_value(s),
    decreases s.len(),
{
    if s.len() == 0 {
        assert(s.take(k) == s);
    } else if k == s.len() {
        assert(s.take(k) == s);
        lemma_digits_value_grows(s.drop_last(), k - 1);
        assert(s.drop_last().take(k - 1) == s.drop_last());
    } else {
        lemma_digits_value_grows(s.drop_last(), k);
        assert(s.drop_last().take(k) == s.take(k));
        assert(is_digit(s[s.len() - 1]));
    }
}

/// The text of a natural number is made of digits and spells that number.
pub proof fn lemma_nat_text_value(n: nat)
    ensures
        is_plain_digits(nat_text(n)),
        digits_value(nat_text(n)) == n,
        n > 0 ==> nat_text(n)[0] != '0',
    decreases n,
{
    if n < 10 {
        let s = nat_text(n);
        assert(s.drop_last().len() == 0);
        assert(digits_value(s.drop_last()) == 0);
    } else {
        lemma_nat_text_value(n / 10);
        let head = nat_text(n / 10);
        let s = nat_text(n);
        assert(s.drop_last() == head);
        assert(s[0] == head[0]);
        assert forall|i: int| 0 <= i < s.len() implies is_digit(#[trigger] s[i]) by {
            if i < head.len() {
                assert(s[i] == head[i]);
            }
        }
    }
}

/// Reading back the text of an integer gives that integer.
pub proof fn lemma_int_text_value(v: int)
    ensures
        decimal_value(int_text(v)) == Some(v),
        is_canonical_decimal(int_text(v)),
{
    if v < 0 {
        let n = (-v) as nat;
        lemma_nat_text_value(n);
        let word = int_text(v);
        assert(word.subrange(1, word.len() as int) == nat_text(n));
        assert(word[0] == '-');
    } else {
        lemma_nat_text_value(v as nat);
        let word = int_text(v);
        assert(is_digit(word[0]));
    }
}

/// A run of digits whose first digit is not zero spells a positive number.
pub proof fn lemma_digits_value_positive(s: Seq<char>)
    requires
        is_digits(s),
        s[0] != '0',
    ensures
        digits_value(s) >= 1,
    decreases s.len(),
{
    if s.len() == 1 {
        assert(s.drop_last().len() == 0);
        assert(digits_value(s.drop_last()) == 0);
        assert(is_digit(s[0]));
    } else {
        let head = s.drop_last();
        assert(head[0] == s[0]);
        assert forall|i: int| 0 <= i < head.len() implies is_digit(#[trigger] head[i]) by {
            assert(head[i] == s[i]);
        }
        lemma_digits_value_positive(head);
        assert(is_digit(s[s.len() - 1]));
    }
}

/// Writing the number that plain digits spell gives the same digits.
pub proof fn lemma_plain_digits_text(s: Seq<char>)
    requires
        is_plain_digits(s),
    ensures
        digits_value(s) >= 0,
        nat_text(digits_value(s) as nat) == s,
    decreases s.len(),
{
    let last = s.last();
    assert(is_digit(s[s.len() - 1]));
    if s.len() == 1 {
        assert(s.drop_last().len() == 0);
        assert(digits_value(s.drop_last()) == 0);
        assert(nat_text(digit_value(last) as nat) == s);
    } else {
        let head = s.drop_last();
        assert(head[0] == s[0]);
        assert forall|i: int| 0 <= i < head.len() implies is_digit(#[trigger] head[i]) by {
            assert(head[i] == s[i]);
        }
        lemma_plain_digits_text(head);
        lemma_digits_value_positive(head);
        let n = digits_value(s) as nat;
        assert(n / 10 == digits_value(head));
        assert(n % 10 == digit_value(last));
        assert(nat_text(n) == nat_text(n / 10).push(digit_char((n % 10) as int)));
        assert(head.push(last) == s);
    }
}

/// A canonical numeral is the text of the integer that it spells.
pub proof fn lemma_canonical_decimal_text(word: Seq<char>)
    requires
        is_canonical_decimal(word),
    ensures
        decimal_value(word) matches Some(v) && int_text(v) == word,
{
    if word.len() > 0 && word[0] == '-' {
        let digits = word.subrange(1, word.len() as int);
        lemma_plain_digits_text(digits);
        lemma_digits_value_positive(digits);
        assert(seq!['-'] + digits == word);
    } else {
        lemma_plain_digits_text(word);
        assert(is_digit(word[0]));
    }
}

/// Reads a signed 64-bit integer from a word held as characters.
pub fn parse_decimal(word: &[char]) -> (value: Option<i64>)
    ensures
        value == parse_i64(word@),
{
    let n = word.len();
    if n == 0 {
        return None;
    }
    let negative = word[0] == '-';
    let start: usize = if negative || word[0] == '+' {
        1
    } else {
        0
    };
    if start == n {
        return None;
    }
    let ghost digits = word@.subrange(start as int, n as int);
    assert(start == 0 ==> digits == word@);
    let limit: u128 = if negative {
        0x8000_0000_0000_0000
    } else {
        0x7fff_ffff_ffff_ffff
    };
    let mut magnitude: u128 = 0;
    let mut at: usize = start;
    while at < n
        invariant
            start <= at <= n,
            n == word@.len(),
            start <= 1,
            start == 1 <==> (word@[0] == '-' || word@[0] == '+'),
            negative <==> word@[0] == '-',
            digits == word@.subrange(start as int, n as int),
            start == 0 ==> digits == word@,
            forall|i: int| 0 <= i < at - start ==> is_digit(#[trigger] digits[i]),
            magnitude == digits_value(digits.take(at - start)),
            magnitude <= limit,
            limit == if negative {
                0x8000_0000_0000_0000u128
            } else {
                0x7fff_ffff_ffff_ffffu128
            },
        decreases n - at,
    {
        let c = word[at];
        assert(c == digits[at - start]);
        if c < '0' || c > '9' {
            assert(!is_digits(digits));
            return None;
        }
        let digit: u128 = (c as u32 - 48) as u128;
        assert(digits.take(at - start + 1).drop_last() == digits.take(at - start));
        magnitude = magnitude * 10 + digit;
        assert(magnitude == digits_value(digits.take(at - start + 1)));
        if magnitude > limit {
            proof {
                if is_digits(digits) {
                    lemma_digits_value_grows(digits, at - start + 1);
                }
            }
            return None;
        }
        at = at + 1;
    }
    assert(digits.take(n - start) == digits);
    assert(is_digits(digits));
    if negative {
        if magnitude == 0x8000_0000_0000_0000 {
            Some(i64::MIN)
        } else {
            Some(-(magnitude as i64))
        }
    } else {
        Some(magnitude as i64)
    }
}

/// The one-character text of a digit.
fn digit_text(d: u8) -> (text: &'static str)
    requires
        d < 10,
    ensures
        text@ == seq![digit_char(d as int)],
{
    proof {
        reveal_strlit("0");
        reveal_strlit("1");
        reveal_strlit("2");
        reveal_strlit("3");
        reveal_strlit("4");
        reveal_strlit("5");
        reveal_strlit("6");
        reveal_strlit("7");
        reveal_strlit("8");
        reveal_strlit("9");
    }
    let text = match d {
        0 => "0",
        1 => "1",
        2 => "2",
        3 => "3",
        4 => "4",
        5 => "5",
        6 => "6",
        7 => "7",
        8 => "8",
        _ => "9",
    };
    assert(text@ =~= seq![digit_char(d as int)]);
    text
}

/// Appends a natural number in base ten.
pub fn push_nat(out: &mut String, n: u64)
    ensures
        final(out)@ == old(out)@ + nat_text(n as nat),
    decreases n,
{
    if n >= 10 {
        push_nat(out, n / 10);
    }
    out.append(digit_text((n % 10) as u8));
    assert(final(out)@ == old(out)@ + nat_text(n as nat));
}

/// Appends a signed 64-bit integer in base ten.
pub fn push_decimal(out: &mut String, value: i64)
    ensures
        final(out)@ == old(out)@ + int_text(value as int),
{
    if value < 0 {
        proof {
            reveal_strlit("-");
        }
        out.append("-");
        let magnitude: u64 = (-(value + 1)) as u64 + 1;
        push_nat(out, magnitude);
        assert(final(out)@ == old(out)@ + int_text(value as int));
    } else {
        push_nat(out, value as u64);
    }
}

/// Writes a signed 64-bit integer in base ten.
pub fn render_decimal(value: i64) -> (text: String)
    ensures
        text@ == int_text(value as int),
{
    let mut text = String::new();
    push_decimal(&mut text, value);
    assert(text@ == int_text(value as int));
    text
}

} // verus!
