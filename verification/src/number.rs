//! Non-negative whole numbers as decimal text, read and written.

use vstd::prelude::*;
use crate::text::{chars_of, string_of};

verus! {

/// `c` is one of the ten ASCII digits.
pub open spec fn is_digit(c: char) -> bool {
    '0' <= c <= '9'
}

/// The number a digit stands for.
pub open spec fn digit_value(c: char) -> nat {
    (c as int - '0' as int) as nat
}

/// The digit that stands for `d`, for `d` below ten.
pub open spec fn digit_char(d: nat) -> char {
    ('0' as int + d as int) as char
}

pub open spec fn all_digits(s: Seq<char>) -> bool {
    forall|i: int| 0 <= i < s.len() ==> is_digit(#[trigger] s[i])
}

/// The number that a run of digits stands for; the empty run stands for 0.
pub open spec fn digits_value(s: Seq<char>) -> nat
    decreases s.len(),
{
    if s.len() == 0 {
        0
    } else {
        digits_value(s.drop_last()) * 10 + digit_value(s.last())
    }
}

/// What is left of a number's text once a leading `+` is set aside.
pub open spec fn number_body(s: Seq<char>) -> Seq<char> {
    if s.len() > 0 && s[0] == '+' {
        s.skip(1)
    } else {
        s
    }
}

/// The number that `s` stands for: an optional `+`, then one digit or more,
/// and nothing else. Any other text stands for no number.
pub open spec fn parsed_number(s: Seq<char>) -> Option<nat> {
    let body = number_body(s);
    if body.len() > 0 && all_digits(body) {
        Some(digits_value(body))
    } else {
        None
    }
}

/// [`parsed_number`] within the machine's range: a number too large for
/// `usize` counts as none.
pub open spec fn parsed_usize(s: Seq<char>) -> Option<usize> {
    match parsed_number(s) {
        Some(n) => if n <= usize::MAX {
            Some(n as usize)
        } else {
            None
        },
        None => None,
    }
}

/// The decimal text of `n`, without sign or leading zeros.
pub open spec fn decimal_digits(n: nat) -> Seq<char>
    decreases n,
{
    if n < 10 {
        seq![digit_char(n)]
    } else {
        decimal_digits(n / 10).push(digit_char(n % 10))
    }
}

/// A run of digits stands for at least as much as any of its beginnings.
pub proof fn lemma_digits_value_grows(s: Seq<char>, k: int)
    requires
        0 <= k <= s.len(),
    ensures
        digits_value(s.take(k)) <= digits_value(s),
    decreases s.len(),
{
    if k == s.len() {
        assert(s.take(k) =~= s);
    } else {
        lemma_digits_value_grows(s.drop_last(), k);
        assert(s.drop_last().take(k) =~= s.take(k));
    }
}

/// What is written is read back: the decimal text of a number stands for
/// that number.
pub proof fn lemma_decimal_round_trip(n: nat)
    ensures
        parsed_number(decimal_digits(n)) == Some(n),
    decreases n,
{
    let text = decimal_digits(n);
    lemma_decimal_digits(n);
    assert(number_body(text) == text);
}

proof fn lemma_decimal_digits(n: nat)
    ensures
        decimal_digits(n).len() > 0,
        all_digits(decimal_digits(n)),
        digits_value(decimal_digits(n)) == n,
    decreases n,
{
    let text = decimal_digits(n);
    if n < 10 {
        assert(text.drop_last() =~= Seq::<char>::empty());
        assert(digits_value(text.drop_last()) == 0);
    } else {
        lemma_decimal_digits(n / 10);
        let before = decimal_digits(n / 10);
        assert(text.drop_last() =~= before);
        assert forall|i: int| 0 <= i < text.len() implies is_digit(#[trigger] text[i]) by {
            if i < before.len() {
                assert(text[i] == before[i]);
            }
        }
    }
}

fn digit_of(c: char) -> (r: Option<usize>)
    ensures
        r is Some <==> is_digit(c),
        r matches Some(d) ==> d == digit_value(c) && d < 10,
{
    if c == '0' {
        Some(0)
    } else if c == '1' {
        Some(1)
    } else if c == '2' {
        Some(2)
    } else if c == '3' {
        Some(3)
    } else if c == '4' {
        Some(4)
    } else if c == '5' {
        Some(5)
    } else if c == '6' {
        Some(6)
    } else if c == '7' {
        Some(7)
    } else if c == '8' {
        Some(8)
    } else if c == '9' {
        Some(9)
    } else {
        None
    }
}

fn char_of_digit(d: usize) -> (c: char)
    requires
        d < 10,
    ensures
        c == digit_char(d as nat),
{
    if d == 0 {
        '0'
    } else if d == 1 {
        '1'
    } else if d == 2 {
        '2'
    } else if d == 3 {
        '3'
    } else if d == 4 {
        '4'
    } else if d == 5 {
        '5'
    } else if d == 6 {
        '6'
    } else if d == 7 {
        '7'
    } else if d == 8 {
        '8'
    } else {
        '9'
    }
}

/// Reads `text` as a non-negative whole number, as `str::parse::<usize>`
/// does: an optional `+`, then digits only. `None` for any other text and for
/// a number that `usize` cannot hold.
pub fn parse_number(text: &str) -> (r: Option<usize>)
    ensures
        r == parsed_usize(text@),
{
    let t = chars_of(text);
    let start: usize = if t.len() > 0 && t[0] == '+' {
        1
    } else {
        0
    };
    if start >= t.len() {
        return None;
    }
    let ghost body = number_body(t@);
    assert(body =~= t@.skip(start as int));
    let mut acc: usize = 0;
    let mut i: usize = start;
    assert(body.take(0) =~= Seq::<char>::empty());
    while i < t.len()
        invariant
            start <= i <= t.len(),
            t@ == text@,
            body == t@.skip(start as int),
            body == number_body(t@),
            body.len() > 0,
            all_digits(body.take(i - start)),
            acc == digits_value(body.take(i - start)),
        decreases t.len() - i,
    {
        let ghost seen = body.take(i - start);
        let ghost next = body.take(i + 1 - start);
        proof {
            assert(next.drop_last() =~= seen);
            assert(next.last() == t[i as int]);
            assert(body[i - start] == t[i as int]);
        }
        match digit_of(t[i]) {
            None => {
                assert(!all_digits(body));
                return None;
            },
            Some(d) => {
                if acc > (usize::MAX - d) / 10 {
                    proof {
                        if all_digits(body) {
                            lemma_digits_value_grows(body, i + 1 - start);
                        }
                    }
                    return None;
                }
                acc = acc * 10 + d;
                assert(all_digits(next)) by {
                    assert forall|j: int| 0 <= j < next.len() implies is_digit(
                        #[trigger] next[j],
                    ) by {
                        if j < seen.len() {
                            assert(next[j] == seen[j]);
                        }
                    }
                }
            },
        }
        i += 1;
    }
    assert(body.take(i - start) =~= body);
    Some(acc)
}

/// The decimal text of `n`.
pub fn decimal_text(n: usize) -> (r: String)
    ensures
        r@ == decimal_digits(n as nat),
{
    let mut out: Vec<char> = Vec::new();
    out.push(char_of_digit(n % 10));
    let mut m: usize = n / 10;
    assert(out@ =~= seq![digit_char((n % 10) as nat)]);
    while m > 0
        invariant
            m == 0 ==> out@ == decimal_digits(n as nat),
            m > 0 ==> decimal_digits(m as nat) + out@ == decimal_digits(n as nat),
        decreases m,
    {
        let ghost before = out@;
        let c = char_of_digit(m % 10);
        out.insert(0, c);
        proof {
            if m < 10 {
                assert(out@ =~= decimal_digits(m as nat) + before);
            } else {
                assert(decimal_digits((m / 10) as nat) + out@ =~= decimal_digits(m as nat)
                    + before);
            }
        }
        m = m / 10;
    }
    string_of(&out)
}

} // verus!
