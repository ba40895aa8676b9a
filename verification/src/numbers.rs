//! Decimal integer tokens.
//!
//! A duration count is written as a decimal token, optionally signed with a
//! leading `+`. The executable parser mirrors what `str::parse::<u64>`
//! accepts for non-negative input: one optional `+`, then one or more ASCII
//! digits, with a value of at most `u64::MAX`.

use vstd::arithmetic::div_mod::lemma_fundamental_div_mod;
use vstd::prelude::*;

verus! {

/// An ASCII decimal digit.
pub open spec fn is_digit(c: char) -> bool {
    '0' as u32 <= c as u32 && c as u32 <= '9' as u32
}

/// The numeric value of a single decimal digit.
pub open spec fn digit_value(c: char) -> int {
    c as u32 - '0' as u32
}

/// The value of a sequence of decimal digits, most significant first.
pub open spec fn digits_value(s: Seq<char>) -> int
    decreases s.len(),
{
    if s.len() == 0 {
        0
    } else {
        digits_value(s.drop_last()) * 10 + digit_value(s.last())
    }
}

pub open spec fn all_digits(s: Seq<char>) -> bool {
    forall|k: int| 0 <= k < s.len() ==> is_digit(s[k])
}

/// The digit part of a numeric token: one optional leading `+` is dropped.
pub open spec fn num_body(s: Seq<char>) -> Seq<char> {
    if s.len() > 0 && s[0] == '+' {
        s.drop_first()
    } else {
        s
    }
}

/// Whether a token is a non-negative decimal integer that fits in `u64`:
/// an optional `+`, then at least one digit, with value at most `u64::MAX`.
pub open spec fn parses_as_u64(s: Seq<char>) -> bool {
    &&& num_body(s).len() > 0
    &&& all_digits(num_body(s))
    &&& digits_value(num_body(s)) <= u64::MAX
}

/// The value of a numeric token.
pub open spec fn u64_value(s: Seq<char>) -> int {
    digits_value(num_body(s))
}

proof fn lemma_digits_value_nonneg(s: Seq<char>)
    requires
        all_digits(s),
    ensures
        digits_value(s) >= 0,
    decreases s.len(),
{
    if s.len() > 0 {
        assert(all_digits(s.drop_last()));
        lemma_digits_value_nonneg(s.drop_last());
    }
}

/// Extending a digit prefix by one digit multiplies its value by ten and
/// adds the new digit.
proof fn lemma_digits_value_snoc(s: Seq<char>, k: int)
    requires
        0 <= k < s.len(),
    ensures
        digits_value(s.take(k + 1)) == digits_value(s.take(k)) * 10 + digit_value(s[k]),
{
    assert(s.take(k + 1).drop_last() =~= s.take(k));
    assert(s.take(k + 1).last() == s[k]);
}

/// The value of a digit string is at least the value of any of its prefixes.
proof fn lemma_digits_prefix_le(s: Seq<char>, k: int)
    requires
        all_digits(s),
        0 <= k <= s.len(),
    ensures
        digits_value(s.take(k)) <= digits_value(s),
    decreases s.len() - k,
{
    if k == s.len() {
        assert(s.take(k) =~= s);
    } else {
        lemma_digits_value_snoc(s, k);
        assert(all_digits(s.take(k))) by {
            assert(forall|j: int| 0 <= j < k ==> s.take(k)[j] == s[j]);
        }
        lemma_digits_value_nonneg(s.take(k));
        lemma_digits_prefix_le(s, k + 1);
    }
}

/// Parses a token as a non-negative `u64`, exactly as `str::parse::<u64>`
/// accepts it: an optional leading `+`, then one or more decimal digits,
/// rejected when the value exceeds `u64::MAX`.
pub fn parse_u64_token(w: &String) -> (r: Option<u64>)
    ensures
        match r {
            Some(v) => parses_as_u64(w@) && v == u64_value(w@),
            None => !parses_as_u64(w@),
        },
{
    let s = w.as_str();
    let n = s.unicode_len();
    let start: usize = if n > 0 && s.get_char(0) == '+' {
        1
    } else {
        0
    };
    let ghost body: Seq<char> = num_body(w@);
    proof {
        assert(body =~= w@.skip(start as int));
    }
    if n == start {
        return None;
    }
    let mut acc: u64 = 0;
    let mut idx: usize = start;
    while idx < n
        invariant
            start <= idx <= n,
            start < n,
            n == w@.len(),
            s@ == w@,
            body == num_body(w@),
            body =~= w@.skip(start as int),
            all_digits(body.take(idx - start)),
            acc == digits_value(body.take(idx - start)),
        decreases n - idx,
    {
        let c = s.get_char(idx);
        proof {
            assert(body[idx - start] == w@[idx as int]);
        }
        let cv = c as u32;
        if cv < '0' as u32 || cv > '9' as u32 {
            proof {
                assert(!is_digit(body[idx - start]));
            }
            return None;
        }
        let d: u64 = (cv - '0' as u32) as u64;
        let lim: u64 = (u64::MAX - d) / 10;
        proof {
            lemma_fundamental_div_mod(u64::MAX - d, 10);
            lemma_digits_value_snoc(body, idx - start);
        }
        if acc > lim {
            proof {
                assert(digits_value(body.take(idx - start + 1)) > u64::MAX);
                if all_digits(body) {
                    lemma_digits_prefix_le(body, idx - start + 1);
                }
            }
            return None;
        }
        acc = acc * 10 + d;
        idx = idx + 1;
    }
    proof {
        assert(body.take(n - start) =~= body);
    }
    Some(acc)
}

} // verus!
