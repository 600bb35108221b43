//! Unsigned decimal numbers as text: reading one and writing one.

use vstd::prelude::*;

verus! {

/// One of the ten ASCII digits.
pub open spec fn is_digit(c: char) -> bool {
    '0' <= c <= '9'
}

/// Every character is an ASCII digit.
pub open spec fn all_digits(s: Seq<char>) -> bool {
    forall|i: int| 0 <= i < s.len() ==> is_digit(#[trigger] s[i])
}

/// The number that a row of digits writes, most significant digit first.
pub open spec fn digits_value(s: Seq<char>) -> nat
    decreases s.len(),
{
    if s.len() == 0 {
        0
    } else {
        (digits_value(s.drop_last()) * 10 + (s.last() as int - '0' as int)) as nat
    }
}

/// The digits of a number text: the text itself, or what follows one leading
/// plus sign.
pub open spec fn unsigned_digits(s: Seq<char>) -> Seq<char> {
    if s.len() > 0 && s[0] == '+' {
        s.drop_first()
    } else {
        s
    }
}

/// What a text means as a `u64`: an optional plus sign, then one or more
/// ASCII digits whose value fits. Anything else is no number.
pub open spec fn parse_u64_spec(s: Seq<char>) -> Option<u64> {
    let digits = unsigned_digits(s);
    if digits.len() > 0 && all_digits(digits) && digits_value(digits) <= u64::MAX {
        Some(digits_value(digits) as u64)
    } else {
        None
    }
}

/// The shortest decimal text of a number: no sign, no leading zero but for
/// zero itself.
pub open spec fn decimal_text(n: nat) -> Seq<char>
    decreases n,
{
    if n < 10 {
        seq![digit_char(n)]
    } else {
        decimal_text(n / 10).push(digit_char(n % 10))
    }
}

/// The digit that stands for a value below ten.
pub open spec fn digit_char(d: nat) -> char {
    (d + '0' as nat) as char
}

/// A row of digits never shrinks in value when a digit is appended.
pub proof fn lemma_digits_value_grows(s: Seq<char>, k: int)
    requires
        all_digits(s),
        0 <= k <= s.len(),
    ensures
        digits_value(s.take(k)) <= digits_value(s),
    decreases s.len() - k,
{
    if k == s.len() {
        assert(s.take(k) == s);
    } else {
        lemma_digits_value_grows(s, k + 1);
        let longer = s.take(k + 1);
        assert(longer.drop_last() == s.take(k));
        assert(is_digit(s[k]));
        assert(longer.last() == s[k]);
    }
}

/// Reads a `u64` from its decimal text.
pub fn parse_u64(s: &str) -> (r: Option<u64>)
    ensures
        r == parse_u64_spec(s@),
{
    let ghost digits = unsigned_digits(s@);
    let ghost skipped: int = s@.len() - digits.len();
    let mut value: u64 = 0;
    let ghost mut seen: int = 0;
    let mut any = false;
    let mut first = true;
    for c in it: s.chars()
        invariant
            it.seq() == s@,
            digits == unsigned_digits(s@),
            skipped == s@.len() - digits.len(),
            first == (it.index() == 0),
            it.index() >= skipped ==> seen == it.index() - skipped,
            it.index() < skipped ==> seen == 0,
            any == (seen > 0),
            all_digits(digits.take(seen)),
            value == digits_value(digits.take(seen)),
    {
        if first && c == '+' {
            first = false;
            assert(digits.take(0) == Seq::<char>::empty());
        } else {
            first = false;
            proof {
                assert(digits[seen] == c);
                let longer = digits.take(seen + 1);
                assert(longer.drop_last() == digits.take(seen));
                assert(longer.last() == c);
            }
            if !('0' <= c && c <= '9') {
                assert(!is_digit(digits[seen]));
                return None;
            }
            let d: u64 = (c as u32 - '0' as u32) as u64;
            let next = match value.checked_mul(10) {
                Some(v) => v.checked_add(d),
                None => None,
            };
            match next {
                Some(v) => {
                    value = v;
                    any = true;
                    proof {
                        seen = seen + 1;
                    }
                },
                None => {
                    proof {
                        let longer = digits.take(seen + 1);
                        assert(digits_value(longer) > u64::MAX);
                        if all_digits(digits) {
                            lemma_digits_value_grows(digits, seen + 1);
                        }
                    }
                    return None;
                },
            }
        }
    }
    proof {
        assert(digits.take(digits.len() as int) == digits);
    }
    if !any {
        None
    } else {
        Some(value)
    }
}

/// The decimal text of a number is made of digits, is never empty, and
/// writes that number.
pub proof fn lemma_decimal_text(n: nat)
    ensures
        decimal_text(n).len() > 0,
        all_digits(decimal_text(n)),
        decimal_text(n)[0] != '+',
        digits_value(decimal_text(n)) == n,
    decreases n,
{
    if n < 10 {
        let one = seq![digit_char(n)];
        assert(one.drop_last() == Seq::<char>::empty());
        assert(digits_value(one.drop_last()) == 0);
    } else {
        lemma_decimal_text(n / 10);
        let text = decimal_text(n);
        assert(text.drop_last() == decimal_text(n / 10));
        assert(text.last() == digit_char(n % 10));
        assert(text[0] == decimal_text(n / 10)[0]);
    }
}

/// Reading what was written gives the number back.
pub proof fn lemma_parse_decimal_text(n: u64)
    ensures
        parse_u64_spec(decimal_text(n as nat)) == Some(n),
{
    lemma_decimal_text(n as nat);
}

/// Appends the decimal text of a number.
pub fn push_decimal(out: &mut String, n: u64)
    ensures
        final(out)@ == old(out)@ + decimal_text(n as nat),
    decreases n,
{
    if n >= 10 {
        push_decimal(out, n / 10);
    }
    let d: u8 = (n % 10) as u8;
    let c: char = (48u8 + d) as char;
    assert(c == digit_char((n % 10) as nat));
    out.push(c);
    proof {
        if n < 10 {
            assert(old(out)@.push(c) == old(out)@ + decimal_text(n as nat));
        } else {
            assert((old(out)@ + decimal_text((n / 10) as nat)).push(c) == old(out)@
                + decimal_text(n as nat));
        }
    }
}

/// Writes a number as decimal text.
pub fn u64_to_text(n: u64) -> (text: String)
    ensures
        text@ == decimal_text(n as nat),
{
    let mut out = String::new();
    push_decimal(&mut out, n);
    assert(Seq::<char>::empty() + decimal_text(n as nat) == decimal_text(n as nat));
    out
}

} // verus!
