//! Reading the contrast parameter from a text token.
//!
//! The token must be a 16-bit signed integer: an optional `+` or `-`
//! followed by at least one decimal digit, with a value in
//! `[-32768, 32767]`. Anything else is `ContrastError::InputParse`. A
//! well-formed integer outside `[-100, 100]` is
//! `ContrastError::OutOfRange`.

use vstd::prelude::*;

use crate::error::ContrastError;

verus! {

/// `c` is a decimal digit.
pub open spec fn is_digit(c: char) -> bool {
    48 <= c as int <= 57
}

/// The value of a decimal digit.
pub open spec fn digit_val(c: char) -> int {
    c as int - 48
}

/// Every character of `s` is a decimal digit.
pub open spec fn all_digits(s: Seq<char>) -> bool {
    forall|i: int| 0 <= i < s.len() ==> is_digit(#[trigger] s[i])
}

/// The number that a digit string denotes, most significant digit first.
pub open spec fn digits_val(s: Seq<char>) -> int
    decreases s.len(),
{
    if s.len() == 0 {
        0
    } else {
        digits_val(s.drop_last()) * 10 + digit_val(s.last())
    }
}

/// The digits of the token, with a single leading sign stripped.
pub open spec fn int_body(s: Seq<char>) -> Seq<char> {
    if s.len() > 0 && (s[0] == '+' || s[0] == '-') {
        s.skip(1)
    } else {
        s
    }
}

/// The token carries a leading minus sign.
pub open spec fn is_negative(s: Seq<char>) -> bool {
    s.len() > 0 && s[0] == '-'
}

/// The token is an integer literal: an optional sign and then only
/// digits, at least one.
pub open spec fn is_int_literal(s: Seq<char>) -> bool {
    int_body(s).len() > 0 && all_digits(int_body(s))
}

/// The signed value of an integer literal.
pub open spec fn int_literal_val(s: Seq<char>) -> int {
    if is_negative(s) {
        -digits_val(int_body(s))
    } else {
        digits_val(int_body(s))
    }
}

/// The token denotes a 16-bit signed integer.
pub open spec fn is_i16_literal(s: Seq<char>) -> bool {
    is_int_literal(s) && -32768 <= int_literal_val(s) <= 32767
}

/// A digit string denotes a value at least 0.
pub proof fn lemma_digits_val_nonneg(s: Seq<char>)
    requires
        all_digits(s),
    ensures
        digits_val(s) >= 0,
    decreases s.len(),
{
    if s.len() > 0 {
        assert(all_digits(s.drop_last()));
        lemma_digits_val_nonneg(s.drop_last());
    }
}

/// Appending digits never shrinks the denoted value: a prefix is a lower
/// bound for the whole digit string.
pub proof fn lemma_digits_val_prefix_le(s: Seq<char>, k: int)
    requires
        all_digits(s),
        0 <= k <= s.len(),
    ensures
        digits_val(s.subrange(0, k)) <= digits_val(s),
    decreases s.len() - k,
{
    if k < s.len() {
        let t = s.subrange(0, k + 1);
        assert(t.drop_last() =~= s.subrange(0, k));
        assert(all_digits(t.drop_last()));
        lemma_digits_val_nonneg(t.drop_last());
        assert(digits_val(t) == digits_val(s.subrange(0, k)) * 10 + digit_val(t.last()));
        assert(digits_val(s.subrange(0, k)) * 10 >= digits_val(s.subrange(0, k)))
            by (nonlinear_arith)
            requires
                digits_val(s.subrange(0, k)) >= 0,
        ;
        lemma_digits_val_prefix_le(s, k + 1);
    } else {
        assert(s.subrange(0, k) =~= s);
    }
}

/// Parse the contrast parameter.
///
/// Returns the value for a 16-bit integer token in `[-100, 100]`;
/// `InputParse` for anything that is not a 16-bit integer token; and
/// `OutOfRange` for a 16-bit integer token outside `[-100, 100]`.
pub fn parse_contrast(s: &str) -> (res: Result<i16, ContrastError>)
    ensures
        res is Ok <==> is_i16_literal(s@) && -100 <= int_literal_val(s@) <= 100,
        res matches Ok(v) ==> v as int == int_literal_val(s@),
        res == Err::<i16, ContrastError>(ContrastError::InputParse) <==> !is_i16_literal(s@),
        res == Err::<i16, ContrastError>(ContrastError::OutOfRange) <==> is_i16_literal(s@)
            && !(-100 <= int_literal_val(s@) <= 100),
{
    let n = s.unicode_len();
    let mut start: usize = 0;
    let mut neg: bool = false;
    if n > 0 {
        let c0 = s.get_char(0);
        if c0 == '+' {
            start = 1;
        } else if c0 == '-' {
            neg = true;
            start = 1;
        }
    }
    proof {
        assert(int_body(s@) =~= s@.skip(start as int));
    }
    if start >= n {
        return Err(ContrastError::InputParse);
    }
    let ghost body = s@.skip(start as int);
    let mut mag: u32 = 0;
    let mut j: usize = start;
    while j < n
        invariant
            start <= j <= n,
            n == s@.len(),
            body == s@.skip(start as int),
            int_body(s@) == body,
            neg == is_negative(s@),
            body.len() == n - start,
            all_digits(s@.subrange(start as int, j as int)),
            mag == digits_val(s@.subrange(start as int, j as int)),
            mag <= 32768,
        decreases n - j,
    {
        let c = s.get_char(j);
        let cu = c as u32;
        if cu < 48 || cu > 57 {
            proof {
                assert(body[j as int - start as int] == s@[j as int]);
                assert(cu as int == c as int);
                assert(!is_digit(s@[j as int]));
                assert(!all_digits(body));
                assert(!is_int_literal(s@));
            }
            return Err(ContrastError::InputParse);
        }
        proof {
            let t = s@.subrange(start as int, j as int + 1);
            assert(t.drop_last() =~= s@.subrange(start as int, j as int));
            assert(t.last() == s@[j as int]);
        }
        mag = mag * 10 + (cu - 48);
        if mag > 32768 {
            proof {
                if is_int_literal(s@) {
                    let pre = s@.subrange(start as int, j as int + 1);
                    assert(pre =~= body.subrange(0, j + 1 - start as int));
                    lemma_digits_val_prefix_le(body, j + 1 - start as int);
                }
            }
            return Err(ContrastError::InputParse);
        }
        j += 1;
    }
    proof {
        assert(s@.subrange(start as int, n as int) =~= body);
    }
    if !neg && mag > 32767 {
        return Err(ContrastError::InputParse);
    }
    let val: i32 = if neg {
        -(mag as i32)
    } else {
        mag as i32
    };
    if val > 100 || val < -100 {
        return Err(ContrastError::OutOfRange);
    }
    Ok(val as i16)
}

} // verus!
