use vstd::prelude::*;
use vstd::string::StrSliceExecFns;
use crate::error::TokenError;

verus! {

pub open spec fn is_digit(c: char) -> bool {
    '0' <= c && c <= '9'
}

pub open spec fn digit_value(c: char) -> nat {
    (c as int - '0' as int) as nat
}

/// A non-empty string of decimal digits.
pub open spec fn is_decimal(s: Seq<char>) -> bool {
    s.len() > 0 && forall|i: int| 0 <= i < s.len() ==> is_digit(#[trigger] s[i])
}

/// The number that a string of decimal digits writes, most significant digit first.
pub open spec fn decimal_value(s: Seq<char>) -> nat
    decreases s.len(),
{
    if s.len() == 0 {
        0
    } else {
        decimal_value(s.drop_last()) * 10 + digit_value(s.last())
    }
}

proof fn lemma_prefix_le(s: Seq<char>, i: int, j: int)
    requires
        0 <= i <= j <= s.len(),
    ensures
        decimal_value(s.take(i)) <= decimal_value(s.take(j)),
    decreases j - i,
{
    if i < j {
        lemma_prefix_le(s, i, j - 1);
        assert(s.take(j).drop_last() =~= s.take(j - 1));
    }
}

/// Reads an amount written in base 10, as amounts cross the token's boundary. Refuses an empty
/// string, any character that is not a digit, and a value beyond the largest 128-bit one.
pub fn parse_amount(text: &str) -> (r: Result<u128, TokenError>)
    ensures
        match r {
            Ok(v) => is_decimal(text@) && v == decimal_value(text@),
            Err(e) => e == TokenError::InvalidAmount && !(is_decimal(text@) && decimal_value(
                text@,
            ) <= u128::MAX),
        },
{
    let n = text.unicode_len();
    if n == 0 {
        return Err(TokenError::InvalidAmount);
    }
    let mut value: u128 = 0;
    let mut i: usize = 0;
    assert(text@.take(0) =~= Seq::<char>::empty());
    while i < n
        invariant
            n == text@.len(),
            i <= n,
            value == decimal_value(text@.take(i as int)),
            forall|k: int| 0 <= k < i ==> is_digit(#[trigger] text@[k]),
        decreases n - i,
    {
        let c = text.get_char(i);
        if c < '0' || c > '9' {
            return Err(TokenError::InvalidAmount);
        }
        let d = (c as u32 - '0' as u32) as u128;
        assert(text@.take(i + 1).drop_last() =~= text@.take(i as int));
        let next = match value.checked_mul(10) {
            Some(v) => v.checked_add(d),
            None => None,
        };
        match next {
            Some(v) => {
                value = v;
            },
            None => {
                proof {
                    lemma_prefix_le(text@, i + 1, n as int);
                    assert(text@.take(n as int) =~= text@);
                }
                return Err(TokenError::InvalidAmount);
            },
        }
        i += 1;
    }
    assert(text@.take(n as int) =~= text@);
    Ok(value)
}

} // verus!
