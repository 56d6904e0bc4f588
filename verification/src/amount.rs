//! Amounts as decimal text.
//!
//! Amounts are unsigned 128-bit integers. Wherever they leave the process
//! they are written in decimal, so that no precision is lost on the way.

use vstd::prelude::*;
use vstd::string::StringExecFns;

verus! {

/// The character that writes the digit `d`.
pub open spec fn digit_char(d: nat) -> char
    recommends
        d < 10,
{
    if d == 0 {
        '0'
    } else if d == 1 {
        '1'
    } else if d == 2 {
        '2'
    } else if d == 3 {
        '3'
    } else if d == 4 {
        '4'
    } else if d == 5 {
        '5'
    } else if d == 6 {
        '6'
    } else if d == 7 {
        '7'
    } else if d == 8 {
        '8'
    } else {
        '9'
    }
}

/// The digit that a character writes, if it writes one.
pub open spec fn digit_value(c: char) -> Option<nat> {
    if c == '0' {
        Some(0)
    } else if c == '1' {
        Some(1)
    } else if c == '2' {
        Some(2)
    } else if c == '3' {
        Some(3)
    } else if c == '4' {
        Some(4)
    } else if c == '5' {
        Some(5)
    } else if c == '6' {
        Some(6)
    } else if c == '7' {
        Some(7)
    } else if c == '8' {
        Some(8)
    } else if c == '9' {
        Some(9)
    } else {
        None
    }
}

/// Every character of `s` writes a digit.
pub open spec fn all_digits(s: Seq<char>) -> bool {
    forall|i: int| 0 <= i < s.len() ==> digit_value(#[trigger] s[i]) is Some
}

/// The number that a sequence of digits writes, most significant first.
pub open spec fn digits_value(s: Seq<char>) -> nat
    decreases s.len(),
{
    if s.len() == 0 {
        0
    } else {
        digits_value(s.drop_last()) * 10 + match digit_value(s.last()) {
            Some(d) => d,
            None => 0,
        }
    }
}

/// The digits of an amount text: the text itself, or what follows one
/// leading `+`.
pub open spec fn unsigned_part(s: Seq<char>) -> Seq<char> {
    if s.len() > 0 && s[0] == '+' {
        s.subrange(1, s.len() as int)
    } else {
        s
    }
}

/// The amount that a text writes: at least one decimal digit, after at most
/// one `+`, with a value that fits 128 bits. Any other text writes none.
pub open spec fn amount_of_text(s: Seq<char>) -> Option<u128> {
    let digits = unsigned_part(s);
    if digits.len() > 0 && all_digits(digits) && digits_value(digits) <= u128::MAX {
        Some(digits_value(digits) as u128)
    } else {
        None
    }
}

/// The digits of a positive number, most significant first; none for zero.
pub open spec fn significant_digits(n: nat) -> Seq<char>
    decreases n,
{
    if n == 0 {
        Seq::empty()
    } else {
        significant_digits(n / 10).push(digit_char(n % 10))
    }
}

/// The text that writes an amount: its decimal digits without leading
/// zeros, and `0` for zero.
pub open spec fn text_of_amount(n: nat) -> Seq<char> {
    if n == 0 {
        seq!['0']
    } else {
        significant_digits(n)
    }
}

/// The digit that `c` writes, if it writes one.
fn digit_of(c: char) -> (d: Option<u8>)
    ensures
        match d {
            Some(v) => digit_value(c) == Some(v as nat) && v < 10,
            None => digit_value(c) is None,
        },
{
    match c {
        '0' => Some(0),
        '1' => Some(1),
        '2' => Some(2),
        '3' => Some(3),
        '4' => Some(4),
        '5' => Some(5),
        '6' => Some(6),
        '7' => Some(7),
        '8' => Some(8),
        '9' => Some(9),
        _ => None,
    }
}

/// The one-character text that writes the digit `d`.
fn digit_text(d: u8) -> (s: &'static str)
    requires
        d < 10,
    ensures
        s@ == seq![digit_char(d as nat)],
{
    proof {
        reveal_strlit("0");
        reveal_strlit("1");
        reveal_strlit("2");
        reveal_strlit("3");
        reveal_strlit("4");
        reveal_strlit("5");
        reveal_strlit("6");
        reveal_strlit("7");
        reveal_strlit("8");
        reveal_strlit("9");
    }
    let s = match d {
        0 => "0",
        1 => "1",
        2 => "2",
        3 => "3",
        4 => "4",
        5 => "5",
        6 => "6",
        7 => "7",
        8 => "8",
        _ => "9",
    };
    assert(s@ =~= seq![digit_char(d as nat)]);
    s
}

/// A longer sequence of digits writes no smaller a number.
proof fn lemma_digits_value_grows(s: Seq<char>, k: int)
    requires
        0 <= k <= s.len(),
    ensures
        digits_value(s.take(k)) <= digits_value(s),
    decreases s.len() - k,
{
    if k < s.len() {
        lemma_digits_value_grows(s, k + 1);
        assert(s.take(k + 1).drop_last() =~= s.take(k));
    } else {
        assert(s.take(k) =~= s);
    }
}

/// Reads an amount from its decimal text.
///
/// The text is one or more decimal digits, which one `+` may precede. A text
/// of any other form, or one whose value does not fit 128 bits, is refused.
pub fn parse_amount(text: &str) -> (amount: Option<u128>)
    ensures
        amount == amount_of_text(text@),
{
    let n = text.unicode_len();
    if n == 0 {
        return None;
    }
    let first: usize = if text.get_char(0) == '+' {
        1
    } else {
        0
    };
    let ghost digits = unsigned_part(text@);
    if first == n {
        return None;
    }
    let mut value: u128 = 0;
    let mut i: usize = first;
    while i < n
        invariant
            first <= i <= n,
            n == text@.len(),
            digits == text@.subrange(first as int, n as int),
            digits == unsigned_part(text@),
            all_digits(digits.take(i - first)),
            value == digits_value(digits.take(i - first)),
        decreases n - i,
    {
        let c = text.get_char(i);
        assert(digits[i - first] == c);
        assert(digits.take(i - first + 1).drop_last() =~= digits.take(i - first));
        let d = match digit_of(c) {
            Some(d) => d,
            None => {
                return None;
            },
        };
        proof {
            lemma_digits_value_grows(digits, i - first + 1);
            assert(digits.take(i - first + 1).last() == c);
            assert(digits_value(digits.take(i - first + 1)) == value * 10 + d);
            assert forall|j: int| 0 <= j < i - first + 1 implies digit_value(
                #[trigger] digits.take(i - first + 1)[j],
            ) is Some by {
                if j < i - first {
                    assert(digits.take(i - first)[j] == digits[j]);
                }
            }
        }
        let shifted = match value.checked_mul(10) {
            Some(v) => v,
            None => {
                return None;
            },
        };
        value = match shifted.checked_add(d as u128) {
            Some(v) => v,
            None => {
                return None;
            },
        };
        i += 1;
    }
    assert(digits.take(n - first) =~= digits);
    Some(value)
}

/// The digits written by [`significant_digits`] are read back as the number
/// they were written for.
pub proof fn lemma_significant_digits_value(n: nat)
    ensures
        all_digits(significant_digits(n)),
        digits_value(significant_digits(n)) == n,
        n > 0 ==> significant_digits(n).len() > 0 && significant_digits(n)[0] != '+',
    decreases n,
{
    if n > 0 {
        lemma_significant_digits_value(n / 10);
        let s = significant_digits(n);
        assert(s.drop_last() =~= significant_digits(n / 10));
        assert(digit_value(digit_char(n % 10)) == Some(n % 10));
        assert forall|i: int| 0 <= i < s.len() implies digit_value(#[trigger] s[i]) is Some by {
            if i < s.len() - 1 {
                assert(s[i] == significant_digits(n / 10)[i]);
            }
        }
        if n / 10 > 0 {
            assert(s[0] == significant_digits(n / 10)[0]);
        }
    }
}

/// Writing an amount and reading the text back gives the amount.
pub proof fn lemma_amount_round_trip(n: u128)
    ensures
        amount_of_text(text_of_amount(n as nat)) == Some(n),
{
    lemma_significant_digits_value(n as nat);
    if n == 0 {
        let s = seq!['0'];
        assert(s.drop_last() =~= Seq::<char>::empty());
        assert(digits_value(s.drop_last()) == 0);
        assert(digits_value(s) == 0);
    }
}

/// Writes an amount as decimal text, without sign or leading zeros.
pub fn format_amount(amount: u128) -> (text: String)
    ensures
        text@ == text_of_amount(amount as nat),
{
    if amount == 0 {
        proof {
            reveal_strlit("0");
        }
        let zero = "0".to_owned();
        assert(zero@ =~= seq!['0']);
        return zero;
    }
    let mut low_first: Vec<u8> = Vec::new();
    let mut rest: u128 = amount;
    while rest > 0
        invariant
            forall|j: int| 0 <= j < low_first.len() ==> low_first[j] < 10,
            significant_digits(amount as nat) == significant_digits(rest as nat) + Seq::new(
                low_first.len() as nat,
                |j: int| digit_char(low_first[low_first.len() - 1 - j] as nat),
            ),
        decreases rest,
    {
        let ghost before = low_first@;
        let ghost tail = Seq::new(
            before.len(),
            |j: int| digit_char(before[before.len() - 1 - j] as nat),
        );
        let d: u8 = (rest % 10) as u8;
        low_first.push(d);
        assert(significant_digits(rest as nat) == significant_digits((rest / 10) as nat).push(
            digit_char(d as nat),
        ));
        assert(significant_digits((rest / 10) as nat).push(digit_char(d as nat)) + tail
            =~= significant_digits((rest / 10) as nat) + Seq::new(
            low_first.len() as nat,
            |j: int| digit_char(low_first[low_first.len() - 1 - j] as nat),
        ));
        rest = rest / 10;
    }
    let ghost written = Seq::new(
        low_first.len() as nat,
        |j: int| digit_char(low_first[low_first.len() - 1 - j] as nat),
    );
    assert(significant_digits(amount as nat) =~= written);
    let mut text = String::new();
    let mut k: usize = low_first.len();
    while k > 0
        invariant
            k <= low_first.len(),
            forall|j: int| 0 <= j < low_first.len() ==> low_first[j] < 10,
            written == Seq::new(
                low_first.len() as nat,
                |j: int| digit_char(low_first[low_first.len() - 1 - j] as nat),
            ),
            text@ == written.take(low_first.len() - k),
        decreases k,
    {
        k -= 1;
        text.append(digit_text(low_first[k]));
        assert(text@ =~= written.take(low_first.len() - k));
    }
    assert(written.take(low_first.len() as int) =~= written);
    text
}

} // verus!
