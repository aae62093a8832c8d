//! The limits of the two caches, as they are read from the settings. A
//! limit is a positive number: whatever a setting holds, a cache is told to
//! keep at least one entry.

use vstd::prelude::*;

verus! {

/// The number of entries that a cache may hold when nothing else is set.
pub const DEFAULT_CACHE_LIMIT: usize = 100;

/// Whether every character is a decimal digit.
pub open spec fn all_digits(text: Seq<char>) -> bool {
    forall|i: int| 0 <= i < text.len() ==> '0' <= #[trigger] text[i] <= '9'
}

/// The number that a sequence of decimal digits writes.
pub open spec fn decimal(digits: Seq<char>) -> nat
    decreases digits.len(),
{
    if digits.len() == 0 {
        0
    } else {
        (decimal(digits.drop_last()) * 10 + (digits.last() as nat - '0' as nat)) as nat
    }
}

/// The number that a text writes: digits, at least one, with or without a
/// `+` in front, and no more than a `usize` holds.
pub open spec fn number_in(text: Seq<char>) -> Option<usize> {
    let digits = if text.len() > 0 && text[0] == '+' {
        text.skip(1)
    } else {
        text
    };
    if digits.len() > 0 && all_digits(digits) && decimal(digits) <= usize::MAX {
        Some(decimal(digits) as usize)
    } else {
        None
    }
}

/// `str::parse` for `usize`. The standard library reads an optional `+`
/// and then decimal digits, at least one and nothing else, and gives no
/// number where the text is anything else or the number does not fit. This
/// is believed, not proved.
#[verifier::external_body]
fn parse_number(text: &str) -> (number: Option<usize>)
    ensures
        number == number_in(text@),
{
    text.parse::<usize>().ok()
}

/// The limit that a number gives: the number itself where it is positive,
/// and the default where there is no number or the number is zero.
pub open spec fn limit_of(number: Option<usize>) -> usize {
    match number {
        Some(n) => if n > 0 {
            n
        } else {
            DEFAULT_CACHE_LIMIT
        },
        None => DEFAULT_CACHE_LIMIT,
    }
}

/// The limit that a setting gives, once the setting was read as a number.
pub fn limit_or_default(number: Option<usize>) -> (limit: usize)
    ensures
        limit == limit_of(number),
        limit >= 1,
{
    match number {
        Some(n) => if n > 0 {
            n
        } else {
            DEFAULT_CACHE_LIMIT
        },
        None => DEFAULT_CACHE_LIMIT,
    }
}

/// The limit that a setting gives. A setting that is absent, that is not a
/// number, or that is zero gives the default, so the limit is never zero.
pub fn cache_limit(setting: Option<&str>) -> (limit: usize)
    ensures
        limit == match setting {
            Some(text) => limit_of(number_in(text@)),
            None => DEFAULT_CACHE_LIMIT,
        },
        limit >= 1,
{
    match setting {
        Some(text) => limit_or_default(parse_number(text)),
        None => DEFAULT_CACHE_LIMIT,
    }
}

} // verus!
