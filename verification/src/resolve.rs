//! Identifier resolution: a user token names a record by numeric id when it
//! parses as a 64-bit signed integer, and by title otherwise. Classification
//! is per token; a title that looks like a number is always taken as an id.

use vstd::prelude::*;

verus! {

/// How a single user token is to be looked up.
#[derive(Debug, PartialEq, Eq)]
pub enum TokenRef {
    /// The token parsed as a 64-bit integer: look the record up by id.
    Id(i64),
    /// The token is not a number: look the record up by title.
    Title,
}

/// A decimal digit character.
pub open spec fn spec_is_digit(c: char) -> bool {
    48 <= c as int && c as int <= 57
}

/// Numeric value of a digit character.
pub open spec fn spec_digit(c: char) -> int {
    c as int - 48
}

pub open spec fn spec_all_digits(s: Seq<char>) -> bool {
    forall|i: int| 0 <= i < s.len() ==> spec_is_digit(#[trigger] s[i])
}

/// Value of a digit string read most-significant first.
pub open spec fn spec_digits_value(s: Seq<char>) -> int
    decreases s.len(),
{
    if s.len() == 0 {
        0
    } else {
        spec_digits_value(s.drop_last()) * 10 + spec_digit(s.last())
    }
}

/// Split an optional single leading sign off a token: (negative, digit part).
pub open spec fn spec_sign_split(s: Seq<char>) -> (bool, Seq<char>)
    recommends
        s.len() > 0,
{
    if s[0] == '-' {
        (true, s.subrange(1, s.len() as int))
    } else if s[0] == '+' {
        (false, s.subrange(1, s.len() as int))
    } else {
        (false, s)
    }
}

/// What it means for a token to parse as an `i64`: an optional single `+` or
/// `-`, then at least one decimal digit and nothing else, with the signed
/// value in range. This is the whole classification rule of the tracker.
pub open spec fn spec_parse_i64(s: Seq<char>) -> Option<int> {
    if s.len() == 0 {
        None
    } else {
        let neg = spec_sign_split(s).0;
        let ds = spec_sign_split(s).1;
        if ds.len() == 0 || !spec_all_digits(ds) {
            None
        } else {
            let v = if neg {
                -spec_digits_value(ds)
            } else {
                spec_digits_value(ds)
            };
            if i64::MIN <= v <= i64::MAX {
                Some(v)
            } else {
                None
            }
        }
    }
}

/// The resolution policy as a value: id reference iff the token parses.
pub open spec fn spec_classify(s: Seq<char>) -> TokenRef {
    match spec_parse_i64(s) {
        Some(v) => TokenRef::Id(v as i64),
        None => TokenRef::Title,
    }
}

proof fn lemma_digits_value_nonneg(s: Seq<char>)
    requires
        spec_all_digits(s),
    ensures
        spec_digits_value(s) >= 0,
    decreases s.len(),
{
    if s.len() > 0 {
        assert(spec_all_digits(s.drop_last()));
        lemma_digits_value_nonneg(s.drop_last());
    }
}

/// One more digit at the end multiplies the prefix value by ten.
proof fn lemma_digits_value_step(s: Seq<char>, k: int)
    requires
        0 <= k < s.len(),
    ensures
        spec_digits_value(s.subrange(0, k + 1)) == spec_digits_value(s.subrange(0, k)) * 10
            + spec_digit(s[k]),
{
    assert(s.subrange(0, k + 1).drop_last() =~= s.subrange(0, k));
    assert(s.subrange(0, k + 1).last() == s[k]);
}

/// The value of a digit string is at least the value of any of its prefixes.
proof fn lemma_digits_value_prefix_le(s: Seq<char>, k: int)
    requires
        0 <= k <= s.len(),
        spec_all_digits(s),
    ensures
        spec_digits_value(s.subrange(0, k)) <= spec_digits_value(s),
    decreases s.len() - k,
{
    if k == s.len() {
        assert(s.subrange(0, k) =~= s);
    } else {
        lemma_digits_value_step(s, k);
        assert(spec_all_digits(s.subrange(0, k)));
        lemma_digits_value_nonneg(s.subrange(0, k));
        lemma_digits_value_prefix_le(s, k + 1);
    }
}

/// Parse a token as the store's 64-bit id type, exactly when
/// `spec_parse_i64` allows it.
pub fn parse_i64_token(s: &str) -> (r: Option<i64>)
    ensures
        match r {
            Some(v) => spec_parse_i64(s@) == Some(v as int),
            None => spec_parse_i64(s@) is None,
        },
{
    let n = s.unicode_len();
    if n == 0 {
        return None;
    }
    let c0 = s.get_char(0);
    let neg: bool;
    let start: usize;
    if c0 == '-' {
        neg = true;
        start = 1;
    } else if c0 == '+' {
        neg = false;
        start = 1;
    } else {
        neg = false;
        start = 0;
    }
    let ghost ds = spec_sign_split(s@).1;
    proof {
        assert(ds =~= s@.subrange(start as int, n as int));
    }
    if start >= n {
        assert(ds.len() == 0);
        return None;
    }
    let limit: u64 = if neg {
        9223372036854775808
    } else {
        9223372036854775807
    };
    let mut acc: u64 = 0;
    let mut i: usize = start;
    while i < n
        invariant
            start <= i <= n,
            n == s@.len(),
            start < n,
            ds == s@.subrange(start as int, n as int),
            ds == spec_sign_split(s@).1,
            spec_all_digits(ds.subrange(0, i - start)),
            acc == spec_digits_value(ds.subrange(0, i - start)),
            acc <= limit,
            limit == (if neg { 9223372036854775808u64 } else { 9223372036854775807u64 }),
            neg == spec_sign_split(s@).0,
        decreases n - i,
    {
        let c = s.get_char(i);
        let u = c as u32;
        proof {
            assert(ds[i - start] == s@[i as int]);
        }
        if u < 48 || u > 57 {
            proof {
                assert(!spec_is_digit(ds[i - start]));
                assert(!spec_all_digits(ds));
            }
            return None;
        }
        let d = (u - 48) as u64;
        let wide: u128 = acc as u128 * 10 + d as u128;
        proof {
            lemma_digits_value_step(ds, i - start);
            assert(ds.subrange(0, i - start).push(ds[i - start]) =~= ds.subrange(
                0,
                i - start + 1,
            ));
        }
        if wide > limit as u128 {
            // The digits seen so far already exceed the i64 range; every
            // longer digit string is larger still, so the token cannot parse.
            proof {
                if spec_all_digits(ds) {
                    lemma_digits_value_prefix_le(ds, i - start + 1);
                    assert(spec_digits_value(ds.subrange(0, i - start + 1)) == acc * 10 + spec_digit(
                        ds[i - start],
                    ));
                    assert(spec_digits_value(ds) > limit);
                }
            }
            return None;
        }
        acc = wide as u64;
        i = i + 1;
    }
    proof {
        assert(ds.subrange(0, (n - start) as int) =~= ds);
    }
    if neg {
        if acc == 9223372036854775808 {
            Some(i64::MIN)
        } else {
            assert(acc < 9223372036854775808);
            Some(-(acc as i64))
        }
    } else {
        Some(acc as i64)
    }
}

/// Classify one user token per the resolution policy: an id reference iff it
/// parses as an `i64`, a title reference otherwise.
pub fn classify(token: &str) -> (r: TokenRef)
    ensures
        r == spec_classify(token@),
        (r is Id) == (spec_parse_i64(token@) is Some),
{
    match parse_i64_token(token) {
        Some(v) => TokenRef::Id(v),
        None => TokenRef::Title,
    }
}

} // verus!
