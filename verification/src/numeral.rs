use vstd::arithmetic::div_mod::lemma_fundamental_div_mod;
use vstd::prelude::*;

verus! {

/// Magnitude of `i64::MIN`; the largest magnitude a signed decimal token
/// may have and still denote an `i64`.
const CAP: u64 = 9223372036854775808;

pub open spec fn is_digit(c: char) -> bool {
    48 <= c as u32 <= 57
}

pub open spec fn digit_val(c: char) -> int {
    c as u32 - 48
}

pub open spec fn all_digits(s: Seq<char>) -> bool {
    forall|k: int| 0 <= k < s.len() ==> is_digit(#[trigger] s[k])
}

/// The value of a sequence of decimal digits, most significant first.
pub open spec fn digits_val(s: Seq<char>) -> int
    decreases s.len(),
{
    if s.len() == 0 {
        0
    } else {
        digits_val(s.drop_last()) * 10 + digit_val(s.last())
    }
}

/// Whether `s` looks like a decimal integer: an optional single leading
/// `+` or `-`, followed by at least one digit and nothing else.
pub open spec fn int_token_shape(s: Seq<char>) -> bool {
    if s.len() == 0 {
        false
    } else if s[0] == '+' || s[0] == '-' {
        s.len() >= 2 && all_digits(s.drop_first())
    } else {
        all_digits(s)
    }
}

/// The signed value denoted by a token of integer shape.
pub open spec fn int_token_value(s: Seq<char>) -> int {
    if s.len() > 0 && s[0] == '-' {
        -digits_val(s.drop_first())
    } else if s.len() > 0 && s[0] == '+' {
        digits_val(s.drop_first())
    } else {
        digits_val(s)
    }
}

/// Whether `s` parses as an `i64`: integer shape and a value in range.
pub open spec fn is_int_token(s: Seq<char>) -> bool {
    int_token_shape(s) && -9223372036854775808 <= int_token_value(s)
        <= 9223372036854775807
}

pub proof fn lemma_digits_val_nonneg(s: Seq<char>)
    requires
        all_digits(s),
    ensures
        digits_val(s) >= 0,
    decreases s.len(),
{
    if s.len() > 0 {
        lemma_digits_val_nonneg(s.drop_last());
    }
}

/// A prefix of a digit string never denotes more than the whole string.
pub proof fn lemma_digits_val_prefix(s: Seq<char>, i: int)
    requires
        all_digits(s),
        0 <= i <= s.len(),
    ensures
        digits_val(s.take(i)) <= digits_val(s),
    decreases s.len() - i,
{
    if i == s.len() {
        assert(s.take(i) =~= s);
    } else {
        lemma_digits_val_prefix(s, i + 1);
        assert(s.take(i + 1).drop_last() =~= s.take(i));
        lemma_digits_val_nonneg(s.take(i));
    }
}

/// Parse `s` as a signed decimal `i64`, mirroring `str::parse`: success
/// exactly when the token has integer shape and its value fits.
pub fn parse_i64(s: &str) -> (r: Option<i64>)
    ensures
        match r {
            Some(v) => is_int_token(s@) && v as int == int_token_value(s@),
            None => !is_int_token(s@),
        },
{
    let n = s.unicode_len();
    if n == 0 {
        return None;
    }
    let c0 = s.get_char(0);
    let neg = c0 == '-';
    let signed = neg || c0 == '+';
    let start: usize = if signed {
        1
    } else {
        0
    };
    if n == start {
        return None;
    }
    let mut mag: u64 = 0;
    let mut i: usize = start;
    while i < n
        invariant
            start <= i <= n,
            n == s@.len(),
            start == 1 || start == 0,
            signed == (s@[0] == '+' || s@[0] == '-'),
            neg == (s@[0] == '-'),
            signed ==> start == 1,
            !signed ==> start == 0,
            start < n,
            all_digits(s@.subrange(start as int, i as int)),
            mag == digits_val(s@.subrange(start as int, i as int)),
            mag <= CAP,
        decreases n - i,
    {
        let c = s.get_char(i);
        let cv = c as u32;
        if cv < 48 || cv > 57 {
            proof {
                assert(!is_digit(s@[i as int]));
                if signed {
                    assert(s@.drop_first()[i - 1] == s@[i as int]);
                    assert(!all_digits(s@.drop_first()));
                } else {
                    assert(!all_digits(s@));
                }
            }
            return None;
        }
        let d: u64 = (cv - 48) as u64;
        let q: u64 = (CAP - d) / 10;
        proof {
            lemma_fundamental_div_mod((CAP - d) as int, 10);
        }
        if mag > q {
            proof {
                let pre = s@.subrange(start as int, i as int + 1);
                assert(pre.drop_last() =~= s@.subrange(start as int, i as int));
                assert(pre.last() == s@[i as int]);
                assert(digits_val(pre) == mag * 10 + d);
                assert(digits_val(pre) > CAP);
                let digits = if signed {
                    s@.drop_first()
                } else {
                    s@
                };
                assert(digits =~= s@.subrange(start as int, n as int));
                assert(pre =~= digits.take(i - start + 1));
                if all_digits(digits) {
                    lemma_digits_val_prefix(digits, i - start + 1);
                    assert(digits_val(digits) > CAP);
                    assert(!is_int_token(s@));
                } else {
                    assert(!int_token_shape(s@));
                }
            }
            return None;
        }
        proof {
            let pre = s@.subrange(start as int, i as int + 1);
            assert(pre.drop_last() =~= s@.subrange(start as int, i as int));
            assert(pre.last() == s@[i as int]);
        }
        mag = mag * 10 + d;
        i += 1;
    }
    proof {
        let digits = if signed {
            s@.drop_first()
        } else {
            s@
        };
        assert(digits =~= s@.subrange(start as int, n as int));
        assert(all_digits(digits));
        assert(digits_val(digits) == mag);
        assert(int_token_shape(s@));
        lemma_digits_val_nonneg(digits);
    }
    if neg {
        if mag == CAP {
            Some(i64::MIN)
        } else {
            Some(-(mag as i64))
        }
    } else {
        if mag <= i64::MAX as u64 {
            Some(mag as i64)
        } else {
            None
        }
    }
}

} // verus!
