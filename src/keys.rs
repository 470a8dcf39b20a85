//! Session keys: a shared secret combined with a coarse time bucket, so that
//! two peers agree on a key without exchanging it.

use vstd::prelude::*;
use crate::prng::{rng64_of, rng_64};

verus! {

/// Width of a time bucket, in seconds.
pub const BUCKET_SECONDS: u64 = 5;

/// Why a session key could not be derived.
#[derive(Debug, Clone, Copy, PartialEq, Eq, Structural)]
pub enum ConfigError {
    /// The shared secret is not an unsigned 64-bit decimal integer.
    UnparsableSecret,
}

/// An ASCII decimal digit.
pub open spec fn is_digit(c: char) -> bool {
    '0' <= c && c <= '9'
}

/// The value of a decimal digit.
pub open spec fn digit_value(c: char) -> nat {
    (c as nat - '0' as nat) as nat
}

/// The value of a run of decimal digits, most significant first.
pub open spec fn decimal_value(s: Seq<char>) -> nat
    decreases s.len(),
{
    if s.len() == 0 {
        0
    } else {
        10 * decimal_value(s.drop_last()) + digit_value(s.last())
    }
}

/// The digits of a secret: the text without one optional leading `+`.
pub open spec fn secret_digits(s: Seq<char>) -> Seq<char> {
    if s.len() > 0 && s[0] == '+' {
        s.drop_first()
    } else {
        s
    }
}

/// The secret that `s` denotes: one or more decimal digits after an optional
/// `+`, with a value that fits in 64 bits.
pub open spec fn parsed_secret(s: Seq<char>) -> Option<u64> {
    let d = secret_digits(s);
    if d.len() > 0 && (forall|i: int| 0 <= i < d.len() ==> is_digit(#[trigger] d[i]))
        && decimal_value(d) <= u64::MAX {
        Some(decimal_value(d) as u64)
    } else {
        None
    }
}

/// The time bucket that a Unix time in seconds falls in.
pub open spec fn time_bucket(now_secs: u64) -> u64 {
    now_secs / BUCKET_SECONDS
}

/// The session key of `secret` at Unix time `now_secs`.
pub open spec fn session_key(secret: u64, now_secs: u64) -> u64 {
    secret ^ rng64_of(time_bucket(now_secs))
}

proof fn lemma_decimal_grows(s: Seq<char>, i: int)
    requires
        0 <= i <= s.len(),
    ensures
        decimal_value(s.take(i)) <= decimal_value(s),
    decreases s.len(),
{
    if i < s.len() {
        lemma_decimal_grows(s.drop_last(), i);
        assert(s.drop_last().take(i) =~= s.take(i));
    } else {
        assert(s.take(i) =~= s);
    }
}

/// Reads the shared secret as an unsigned 64-bit decimal integer.
pub fn parse_secret(text: &str) -> (r: Result<u64, ConfigError>)
    ensures
        r == (match parsed_secret(text@) {
            Some(v) => Ok(v),
            None => Err(ConfigError::UnparsableSecret),
        }),
{
    let n: usize = text.unicode_len();
    let mut start: usize = 0;
    if n > 0 && text.get_char(0) == '+' {
        start = 1;
    }
    let ghost d = secret_digits(text@);
    assert(d =~= text@.skip(start as int));
    if start == n {
        return Err(ConfigError::UnparsableSecret);
    }
    let mut value: u64 = 0;
    let mut i: usize = start;
    while i < n
        invariant
            start <= i <= n,
            n == text@.len(),
            d =~= text@.skip(start as int),
            d == secret_digits(text@),
            d.len() > 0,
            value as nat == decimal_value(d.take(i - start)),
            forall|j: int| 0 <= j < i - start ==> is_digit(#[trigger] d[j]),
        decreases n - i,
    {
        let c: char = text.get_char(i);
        assert(d[i - start] == c);
        if c < '0' || c > '9' {
            assert(!is_digit(d[i - start]));
            return Err(ConfigError::UnparsableSecret);
        }
        let digit: u64 = (c as u32 - '0' as u32) as u64;
        assert(d.take(i - start + 1).drop_last() =~= d.take(i - start));
        assert(decimal_value(d.take(i - start + 1)) == 10 * value + digit);
        if value > (u64::MAX - digit) / 10 {
            assert(10 * value + digit > u64::MAX) by (nonlinear_arith)
                requires
                    value > (u64::MAX - digit) / 10,
                    digit <= 9,
            ;
            proof {
                lemma_decimal_grows(d, i - start + 1);
            }
            assert(decimal_value(d) > u64::MAX);

            return Err(ConfigError::UnparsableSecret);
        }
        value = value * 10 + digit;
        i = i + 1;
    }
    assert(d.take(n - start) =~= d);
    Ok(value)
}

/// Derives the session key from the secret's text and the Unix time in seconds.
pub fn derive_session_key(secret_text: &str, now_secs: u64) -> (r: Result<u64, ConfigError>)
    ensures
        r == (match parsed_secret(secret_text@) {
            Some(v) => Ok(session_key(v, now_secs)),
            None => Err(ConfigError::UnparsableSecret),
        }),
{
    let secret: u64 = match parse_secret(secret_text) {
        Ok(v) => v,
        Err(e) => return Err(e),
    };
    let mut bucket: u64 = now_secs / BUCKET_SECONDS;
    Ok(secret ^ rng_64(&mut bucket))
}

/// Two derivations from the same secret at times in the same bucket give the
/// same key.
pub proof fn lemma_same_bucket_same_key(secret: Seq<char>, t1: u64, t2: u64)
    requires
        time_bucket(t1) == time_bucket(t2),
    ensures
        parsed_secret(secret) is Some ==> session_key(parsed_secret(secret)->0, t1)
            == session_key(parsed_secret(secret)->0, t2),
{
}

} // verus!
