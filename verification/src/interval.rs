//! Spans of time as the configuration writes them.

use vstd::prelude::*;
use vstd::string::StrSliceExecFns;
use crate::text::is_digit;

verus! {

/// A span of time: whole seconds and the nanoseconds beyond them.
#[derive(Clone, Copy, Debug, PartialEq, Eq, Structural)]
pub struct Interval {
    pub secs: u64,
    pub subsec_nanos: u32,
}

/// The most digits that a text may hold to be read as a span of time.
pub const MAX_INTERVAL_DIGITS: usize = 11;

/// How many of the characters of `s` are digits.
pub open spec fn digit_count(s: Seq<char>) -> nat
    decreases s.len(),
{
    if s.len() == 0 {
        0
    } else {
        digit_count(s.drop_last()) + if is_digit(s.last()) {
            1nat
        } else {
            0nat
        }
    }
}

/// The span that `humantime::parse_duration` reads from `s`, or `None`
/// where it refuses `s`. The grammar is humantime's: numbers with unit
/// suffixes such as `10s` or `1h 30m`.
pub uninterp spec fn humantime_interval(s: Seq<char>) -> Option<Interval>;

/// The span of time that the text `s` writes: what humantime reads from it,
/// and none for a text of more than [`MAX_INTERVAL_DIGITS`] digits.
pub open spec fn interval_of(s: Seq<char>) -> Option<Interval> {
    if digit_count(s) <= MAX_INTERVAL_DIGITS {
        humantime_interval(s)
    } else {
        None
    }
}

/// Calls `humantime::parse_duration`. The function reads its argument and
/// nothing else, so its answer is the named function of the text: the
/// duration's seconds and sub-second nanoseconds, or `None` for every error.
///
/// The parser adds its spans up with checked arithmetic, but hands a total
/// of 2^64 - 1 seconds and a full second of nanoseconds to `Duration::new`,
/// which then overflows. The largest unit is the year of 31 557 600
/// seconds, so the numbers of a text of eleven digits or fewer add up to
/// less than 10^11 * 31 557 600 seconds, far below 2^64 - 1. The bound on
/// the digits keeps every text that could overflow out.
#[verifier::external_body]
pub(crate) fn parse_interval(s: &str) -> (parsed: Option<Interval>)
    requires
        digit_count(s@) <= MAX_INTERVAL_DIGITS,
    ensures
        parsed == humantime_interval(s@),
{
    match humantime::parse_duration(s) {
        Ok(d) => Some(Interval { secs: d.as_secs(), subsec_nanos: d.subsec_nanos() }),
        Err(_) => None,
    }
}

/// Reads a span of time from a text such as `10s` or `1h 30m`. A text of
/// more than [`MAX_INTERVAL_DIGITS`] digits is refused unread.
pub fn read_interval(s: &str) -> (parsed: Option<Interval>)
    ensures
        parsed == interval_of(s@),
{
    let n = s.unicode_len();
    let mut digits: usize = 0;
    let mut i: usize = 0;
    while i < n
        invariant
            n == s@.len(),
            i <= n,
            digits == digit_count(s@.take(i as int)),
            digits <= MAX_INTERVAL_DIGITS,
        decreases n - i,
    {
        let c = s.get_char(i);
        proof {
            assert(s@.take(i as int + 1).drop_last() =~= s@.take(i as int));
            lemma_digit_count_grows(s@, i as int + 1);
        }
        if c >= '0' && c <= '9' {
            if digits == MAX_INTERVAL_DIGITS {
                return None;
            }
            digits += 1;
        }
        i += 1;
    }
    proof {
        assert(s@.take(n as int) =~= s@);
    }
    parse_interval(s)
}

/// The first characters of a text hold no more digits than the whole text.
proof fn lemma_digit_count_grows(s: Seq<char>, k: int)
    requires
        0 <= k <= s.len(),
    ensures
        digit_count(s.take(k)) <= digit_count(s),
    decreases s.len() - k,
{
    if k == s.len() {
        assert(s.take(k) =~= s);
    } else {
        lemma_digit_count_grows(s, k + 1);
        assert(s.take(k + 1).drop_last() =~= s.take(k));
    }
}

impl Interval {
    /// The span of `secs` whole seconds.
    pub fn from_secs(secs: u64) -> (interval: Interval)
        ensures
            interval == (Interval { secs, subsec_nanos: 0 }),
    {
        Interval { secs, subsec_nanos: 0 }
    }
}

} // verus!
