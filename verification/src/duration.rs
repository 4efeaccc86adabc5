//! Cache-duration suffix grammar: a decimal number followed by a single
//! case-sensitive unit letter (`s`, `m`, `h`, `d`), yielding a number of
//! seconds. Anything else, including overflow, yields no duration.

use vstd::prelude::*;

verus! {

pub open spec fn is_digit(c: char) -> bool {
    48 <= (c as u32) <= 57
}

pub open spec fn digit_val(c: char) -> int {
    (c as u32) - 48
}

/// Value of a decimal digit string, most significant digit first.
pub open spec fn digits_value(s: Seq<char>) -> int
    decreases s.len(),
{
    if s.len() == 0 {
        0
    } else {
        digits_value(s.drop_last()) * 10 + digit_val(s.last())
    }
}

/// Seconds per unit letter, or none for an unknown unit.
pub open spec fn unit_seconds(c: char) -> Option<u64> {
    if c == 's' {
        Some(1u64)
    } else if c == 'm' {
        Some(60u64)
    } else if c == 'h' {
        Some(3600u64)
    } else if c == 'd' {
        Some(86400u64)
    } else {
        None
    }
}

/// The duration a text denotes: at least one digit, then one unit letter;
/// the product must fit in a `u64`.
pub open spec fn spec_parse_duration(s: Seq<char>) -> Option<u64> {
    if s.len() < 2 {
        None
    } else if !(forall|i: int| 0 <= i < s.len() - 1 ==> is_digit(s[i])) {
        None
    } else {
        match unit_seconds(s.last()) {
            None => None,
            Some(u) => {
                let v = digits_value(s.drop_last()) * u;
                if v <= u64::MAX as int {
                    Some(v as u64)
                } else {
                    None
                }
            },
        }
    }
}

/// A digit string is worth at least any of its prefixes, and at least zero.
proof fn lemma_digits_extend(s: Seq<char>, k: int)
    requires
        0 <= k <= s.len(),
        forall|i: int| 0 <= i < s.len() ==> is_digit(s[i]),
    ensures
        digits_value(s) >= digits_value(s.subrange(0, k)),
        digits_value(s) >= 0,
    decreases s.len(),
{
    if s.len() == 0 {
        assert(s.subrange(0, k) =~= s);
    } else if k == s.len() {
        assert(s.subrange(0, k) =~= s);
        lemma_digits_extend(s.drop_last(), s.len() - 1);
    } else {
        let pre = s.drop_last();
        lemma_digits_extend(pre, k);
        assert(pre.subrange(0, k) =~= s.subrange(0, k));
        assert(digits_value(s) == digits_value(pre) * 10 + digit_val(s.last()));
        assert(digits_value(pre) * 10 >= digits_value(pre));
    }
}

/// Parses a cache-duration suffix such as `60s`, `5m`, `1h` or `7d` into
/// seconds; returns nothing for any other shape.
pub fn parse_duration(s: &str) -> (r: Option<u64>)
    ensures
        r == spec_parse_duration(s@),
{
    let n = s.unicode_len();
    if n < 2 {
        return None;
    }
    let unit_char = s.get_char(n - 1);
    let unit_opt: Option<u64> = if unit_char == 's' {
        Some(1)
    } else if unit_char == 'm' {
        Some(60)
    } else if unit_char == 'h' {
        Some(3600)
    } else if unit_char == 'd' {
        Some(86400)
    } else {
        None
    };
    let unit: u64 = match unit_opt {
        Some(u) => u,
        None => {
            return None;
        },
    };
    let mut acc: u64 = 0;
    let mut i: usize = 0;
    while i < n - 1
        invariant
            i <= n - 1,
            2 <= n == s@.len(),
            unit_seconds(s@.last()) == Some(unit),
            1 <= unit <= 86400,
            forall|j: int| 0 <= j < i ==> is_digit(s@[j]),
            acc as int == digits_value(s@.subrange(0, i as int)),
        decreases n - 1 - i,
    {
        let c = s.get_char(i);
        let cu = c as u32;
        if cu < 48 || cu > 57 {
            proof {
                assert(!is_digit(s@[i as int]));
            }
            return None;
        }
        let d: u64 = (cu - 48) as u64;
        proof {
            assert(s@.subrange(0, i + 1).drop_last() =~= s@.subrange(0, i as int));
            assert(s@.subrange(0, i + 1).last() == s@[i as int]);
        }
        let next = match acc.checked_mul(10) {
            Some(x) => x.checked_add(d),
            None => None,
        };
        match next {
            Some(y) => {
                acc = y;
            },
            None => {
                proof {
                    lemma_overflow_means_none(s@, i as int, acc, unit);
                }
                return None;
            },
        }
        i = i + 1;
    }
    proof {
        assert(s@.subrange(0, n - 1) =~= s@.drop_last());
    }
    match acc.checked_mul(unit) {
        Some(v) => Some(v),
        None => {
            proof {
                assert(digits_value(s@.drop_last()) * (unit as int) > u64::MAX as int);
            }
            None
        },
    }
}

/// If the running value already exceeds `u64` after `i + 1` digits, the whole
/// digit string exceeds it too, so the text denotes no duration.
proof fn lemma_overflow_means_none(s: Seq<char>, i: int, acc: u64, unit: u64)
    requires
        s.len() >= 2,
        0 <= i < s.len() - 1,
        unit_seconds(s.last()) == Some(unit),
        1 <= unit,
        forall|j: int| 0 <= j <= i ==> is_digit(s[j]),
        acc as int == digits_value(s.subrange(0, i)),
        digits_value(s.subrange(0, i + 1)) > u64::MAX as int,
    ensures
        spec_parse_duration(s) is None,
{
    if forall|j: int| 0 <= j < s.len() - 1 ==> is_digit(s[j]) {
        let full = s.subrange(0, s.len() - 1);
        assert(forall|j: int| 0 <= j < full.len() ==> is_digit(full[j]));
        lemma_digits_extend(full, i + 1);
        assert(full.subrange(0, i + 1) =~= s.subrange(0, i + 1));
        assert(digits_value(full) > u64::MAX as int);
        assert(full =~= s.drop_last());
        assert(digits_value(s.drop_last()) * (unit as int) >= digits_value(s.drop_last()) * 1)
            by (nonlinear_arith)
            requires
                unit >= 1,
                digits_value(s.drop_last()) >= 0,
        ;
    }
}

} // verus!
