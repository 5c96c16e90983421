//! Decimal strings for native token amounts.
//!
//! The action provider speaks amounts as decimal strings. Parsing is total
//! and checked: it succeeds exactly on non-empty all-digit strings whose
//! value fits in a `u64`, and a malformed string surfaces as an arithmetic
//! error, never as a panic. Formatting produces the canonical decimal form
//! with no leading zeros.

use vstd::prelude::*;

verus! {

use crate::MarginError;

/// Whether a character is a decimal digit.
pub open spec fn is_dec_digit(c: char) -> bool {
    48 <= c as u32 <= 57
}

/// Whether every character of a string is a decimal digit.
pub open spec fn all_dec_digits(s: Seq<char>) -> bool {
    forall|i: int| 0 <= i < s.len() ==> is_dec_digit(#[trigger] s[i])
}

/// Numeric value of a digit character.
pub open spec fn digit_val(c: char) -> nat {
    (c as u32 - 48) as nat
}

/// Value of a digit string, most significant digit first.
pub open spec fn dec_val(s: Seq<char>) -> nat
    decreases s.len(),
{
    if s.len() == 0 {
        0
    } else {
        dec_val(s.drop_last()) * 10 + digit_val(s.last())
    }
}

/// Digit character for a value below ten.
pub open spec fn digit_char(v: nat) -> char
    recommends
        v < 10,
{
    ((v + 48) as u8) as char
}

/// Canonical decimal form of a number: no leading zeros, at least one digit.
pub open spec fn dec_of(v: nat) -> Seq<char>
    decreases v,
{
    if v < 10 {
        seq![digit_char(v)]
    } else {
        dec_of(v / 10).push(digit_char(v % 10))
    }
}

/// Appending a digit can only grow the value of a digit string.
proof fn lemma_dec_val_push(s: Seq<char>, i: int)
    requires
        0 <= i < s.len(),
    ensures
        dec_val(s.take(i + 1)) >= dec_val(s.take(i)),
{
    assert(s.take(i + 1).drop_last() =~= s.take(i));
    assert(dec_val(s.take(i + 1)) == dec_val(s.take(i)) * 10 + digit_val(s.take(i + 1).last()));
}

/// The value of a prefix never exceeds the value of the whole digit string.
proof fn lemma_dec_val_prefix(s: Seq<char>, i: int)
    requires
        0 <= i <= s.len(),
    ensures
        dec_val(s.take(i)) <= dec_val(s),
    decreases s.len() - i,
{
    if i == s.len() {
        assert(s.take(i) =~= s);
    } else {
        lemma_dec_val_push(s, i);
        lemma_dec_val_prefix(s, i + 1);
    }
}

/// A decimal string that parses into a `u64`: non-empty, all digits, in
/// range.
pub open spec fn parseable_u64(s: Seq<char>) -> bool {
    s.len() > 0 && all_dec_digits(s) && dec_val(s) <= u64::MAX
}

/// Parses a non-empty all-digit decimal string into a `u64`.
///
/// Returns `ArithmeticOverflow` exactly when the string is empty, contains a
/// non-digit character, or encodes a value above `u64::MAX`.
pub fn parse_u64_dec(s: &str) -> (r: Result<u64, MarginError>)
    ensures
        r is Ok <==> parseable_u64(s@),
        r matches Ok(v) ==> v == dec_val(s@),
        r is Err ==> r == Err::<u64, MarginError>(MarginError::ArithmeticOverflow),
{
    let n = s.unicode_len();
    if n == 0 {
        return Err(MarginError::ArithmeticOverflow);
    }
    let mut acc: u64 = 0;
    let mut i: usize = 0;
    while i < n
        invariant
            n == s@.len(),
            0 <= i <= n,
            all_dec_digits(s@.take(i as int)),
            acc == dec_val(s@.take(i as int)),
        decreases n - i,
    {
        let c = s.get_char(i);
        let cv = c as u32;
        if cv < 48 || cv > 57 {
            return Err(MarginError::ArithmeticOverflow);
        }
        let d: u64 = (cv - 48) as u64;
        proof {
            assert(s@.take(i + 1).drop_last() =~= s@.take(i as int));
            assert(s@.take(i + 1).last() == s@[i as int]);
        }
        if acc > (u64::MAX - d) / 10 {
            proof {
                // The prefix including this digit already exceeds u64::MAX,
                // so the whole string does as well.
                assert(dec_val(s@.take(i + 1)) > u64::MAX);
                lemma_dec_val_prefix(s@, i + 1);
            }
            return Err(MarginError::ArithmeticOverflow);
        }
        acc = acc * 10 + d;
        i = i + 1;
    }
    proof {
        assert(s@.take(n as int) =~= s@);
    }
    Ok(acc)
}

/// Digit character for a value below ten, as a one-character string.
fn digit_str(v: u64) -> (r: &'static str)
    requires
        v < 10,
    ensures
        r@ =~= seq![digit_char(v as nat)],
{
    proof {
        reveal_strlit("0");
        reveal_strlit("1");
        reveal_strlit("2");
        reveal_strlit("3");
        reveal_strlit("4");
        reveal_strlit("5");
        reveal_strlit("6");
        reveal_strlit("7");
        reveal_strlit("8");
        reveal_strlit("9");
    }
    if v == 0 {
        "0"
    } else if v == 1 {
        "1"
    } else if v == 2 {
        "2"
    } else if v == 3 {
        "3"
    } else if v == 4 {
        "4"
    } else if v == 5 {
        "5"
    } else if v == 6 {
        "6"
    } else if v == 7 {
        "7"
    } else if v == 8 {
        "8"
    } else {
        "9"
    }
}

/// Round-trip law: the canonical decimal form of a number is a non-empty
/// digit string that parses back to the same number.
pub proof fn lemma_dec_roundtrip(v: nat)
    ensures
        dec_of(v).len() > 0,
        all_dec_digits(dec_of(v)),
        dec_val(dec_of(v)) == v,
    decreases v,
{
    let s = dec_of(v);
    if v < 10 {
        assert(s == seq![digit_char(v)]);
        assert(s.drop_last() =~= Seq::<char>::empty());
        assert(dec_val(s) == dec_val(s.drop_last()) * 10 + digit_val(s.last()));
        assert(dec_val(s.drop_last()) == 0);
        assert(digit_val(digit_char(v)) == v);
    } else {
        lemma_dec_roundtrip(v / 10);
        assert(s == dec_of(v / 10).push(digit_char(v % 10)));
        assert(s.drop_last() =~= dec_of(v / 10));
        assert(s.last() == digit_char(v % 10));
        assert(dec_val(s) == dec_val(s.drop_last()) * 10 + digit_val(s.last()));
        assert(digit_val(digit_char(v % 10)) == v % 10);
        vstd::arithmetic::div_mod::lemma_fundamental_div_mod(v as int, 10);
        assert(dec_val(s) == (v / 10) * 10 + v % 10);
        assert(forall|i: int| 0 <= i < s.len() - 1 ==> s[i] == dec_of(v / 10)[i]);
    }
}

/// Formats a `u64` in its canonical decimal form.
pub fn u64_to_dec(v: u64) -> (r: String)
    ensures
        r@ == dec_of(v as nat),
    decreases v,
{
    if v < 10 {
        String::from_str(digit_str(v))
    } else {
        let prefix = u64_to_dec(v / 10);
        prefix.concat(digit_str(v % 10))
    }
}

} // verus!
