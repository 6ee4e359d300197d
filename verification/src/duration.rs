//! Durations: the amount of time that a task takes. A duration is never
//! negative and never longer than a fixed maximum.

use vstd::prelude::*;
use vstd::string::StrSliceExecFns;

verus! {

/// The longest duration that can be made from a span of time, in
/// milliseconds: about 31.7 years. It is also the largest number of hours
/// that a duration text may name.
pub const MAX_DURATION: i64 = 999_999_999_999;

/// Nanoseconds in a millisecond.
pub const NANOS_PER_MILLISECOND: i128 = 1_000_000;

/// Nanoseconds in an hour.
pub const NANOS_PER_HOUR: i128 = 3_600_000_000_000;

/// A span of time that is not negative and not longer than `MAX_DURATION`
/// hours, kept in nanoseconds.
#[derive(Debug, Clone, Copy, PartialEq, Eq, Structural, PartialOrd, Ord)]
pub struct PositiveDuration {
    nanos: i128,
}

/// Why a value could not be made into a `PositiveDuration`.
#[derive(Debug, Clone, Copy, PartialEq, Eq, Structural)]
pub enum DurationError {
    /// The wanted duration would be negative.
    NegativeDuration,
    /// The wanted duration would exceed the maximum allowed value.
    ExceedsMaximumDuration,
    /// The text does not name a duration.
    InvalidInput,
}

impl DurationError {
    /// A sentence that says what went wrong.
    pub fn message(&self) -> (r: &'static str)
        ensures
            r@ == match self {
                DurationError::NegativeDuration => "Negative values are not allowed for durations"@,
                DurationError::ExceedsMaximumDuration => "Duration would exceed maximum allowed value"@,
                DurationError::InvalidInput => "Input string couldn't be parsed into a PositiveDuration"@,
            },
    {
        match self {
            DurationError::NegativeDuration => "Negative values are not allowed for durations",
            DurationError::ExceedsMaximumDuration => "Duration would exceed maximum allowed value",
            DurationError::InvalidInput => "Input string couldn't be parsed into a PositiveDuration",
        }
    }
}

/// Whether `c` is one of the ten ASCII digits.
pub open spec fn is_digit(c: char) -> bool {
    '0' <= c && c <= '9'
}

/// The number that a digit stands for.
pub open spec fn digit_value(c: char) -> int {
    c as u32 as int - '0' as u32 as int
}

/// The number that a run of digits names in base ten; 0 for the empty run.
pub open spec fn decimal_value(digits: Seq<char>) -> int
    decreases digits.len(),
{
    if digits.len() == 0 {
        0
    } else {
        decimal_value(digits.drop_last()) * 10 + digit_value(digits.last())
    }
}

/// The grammar of a duration text: one to twelve ASCII digits, one space,
/// and the letter `h`, with nothing before or after.
pub open spec fn is_hours_text(s: Seq<char>) -> bool {
    &&& 3 <= s.len() <= 14
    &&& s[s.len() - 2] == ' '
    &&& s[s.len() - 1] == 'h'
    &&& forall|i: int| 0 <= i < s.len() - 2 ==> is_digit(#[trigger] s[i])
}

/// The number of hours that a duration text names.
pub open spec fn hours_of_text(s: Seq<char>) -> int {
    decimal_value(s.subrange(0, s.len() - 2))
}

/// What `PositiveDuration::try_from` makes of a span of `nanos` nanoseconds.
pub open spec fn duration_of_span(nanos: int) -> Result<int, DurationError> {
    if nanos < 0 {
        Err(DurationError::NegativeDuration)
    } else if nanos > MAX_DURATION * NANOS_PER_MILLISECOND {
        Err(DurationError::ExceedsMaximumDuration)
    } else {
        Ok(nanos)
    }
}

/// What `PositiveDuration::parse_from_str` makes of a text.
pub open spec fn duration_of_text(s: Seq<char>) -> Result<int, DurationError> {
    if !is_hours_text(s) {
        Err(DurationError::InvalidInput)
    } else if hours_of_text(s) > MAX_DURATION {
        Err(DurationError::ExceedsMaximumDuration)
    } else {
        Ok(hours_of_text(s) * NANOS_PER_HOUR)
    }
}

impl View for PositiveDuration {
    type V = int;

    /// The length of the duration in nanoseconds.
    closed spec fn view(&self) -> int {
        self.nanos as int
    }
}

impl PositiveDuration {
    #[verifier::type_invariant]
    spec fn in_bounds(self) -> bool {
        0 <= self.nanos <= MAX_DURATION * NANOS_PER_HOUR
    }

    /// The duration of no time at all.
    pub fn zero() -> (r: Self)
        ensures
            r@ == 0,
    {
        PositiveDuration { nanos: 0 }
    }

    /// Makes a duration from a span of time given in nanoseconds. A negative
    /// span is refused, and so is one longer than `MAX_DURATION`
    /// milliseconds.
    pub fn try_from(nanos: i128) -> (r: Result<Self, DurationError>)
        ensures
            match r {
                Ok(d) => duration_of_span(nanos as int) == Ok::<int, DurationError>(d@),
                Err(e) => duration_of_span(nanos as int) == Err::<int, DurationError>(e),
            },
    {
        if nanos < 0 {
            Err(DurationError::NegativeDuration)
        } else if nanos > (MAX_DURATION as i128) * NANOS_PER_MILLISECOND {
            Err(DurationError::ExceedsMaximumDuration)
        } else {
            Ok(PositiveDuration { nanos })
        }
    }

    /// Reads a duration from a text of the form `"X h"`, where `X` is a
    /// number of hours written with one to twelve digits.
    pub fn parse_from_str(s: &str) -> (r: Result<Self, DurationError>)
        ensures
            match r {
                Ok(d) => duration_of_text(s@) == Ok::<int, DurationError>(d@),
                Err(e) => duration_of_text(s@) == Err::<int, DurationError>(e),
            },
    {
        let len = s.unicode_len();
        if len < 3 || len > 14 {
            return Err(DurationError::InvalidInput);
        }
        if s.get_char(len - 2) != ' ' || s.get_char(len - 1) != 'h' {
            return Err(DurationError::InvalidInput);
        }
        let ghost digits = s@.subrange(0, len - 2);
        let mut hours: i64 = 0;
        let mut i: usize = 0;
        while i < len - 2
            invariant
                3 <= len <= 14,
                len == s@.len(),
                digits == s@.subrange(0, len - 2),
                0 <= i <= len - 2,
                forall|j: int| 0 <= j < i ==> is_digit(#[trigger] s@[j]),
                hours == decimal_value(digits.subrange(0, i as int)),
                0 <= hours < pow10(i as nat),
            decreases len - 2 - i,
        {
            let c = s.get_char(i);
            if c < '0' || c > '9' {
                return Err(DurationError::InvalidInput);
            }
            proof {
                let next = digits.subrange(0, i + 1);
                assert(next.drop_last() == digits.subrange(0, i as int));
                assert(next.last() == c);
                lemma_pow10_step(i as nat);
                lemma_pow10_bound(i as nat + 1);
            }
            hours = hours * 10 + (c as u32 - '0' as u32) as i64;
            i += 1;
        }
        assert(digits.subrange(0, i as int) == digits);
        if hours > MAX_DURATION {
            Err(DurationError::ExceedsMaximumDuration)
        } else {
            Ok(PositiveDuration { nanos: (hours as i128) * NANOS_PER_HOUR })
        }
    }

    /// Durations are equal exactly when their lengths are.
    pub proof fn lemma_view_injective(a: PositiveDuration, b: PositiveDuration)
        ensures
            a@ == b@ <==> a == b,
    {
    }

    /// The length of the duration in nanoseconds.
    pub fn as_nanos(&self) -> (r: i128)
        ensures
            r == self@,
            0 <= r <= MAX_DURATION * NANOS_PER_HOUR,
    {
        proof {
            use_type_invariant(self);
        }
        self.nanos
    }

    /// The number of whole milliseconds in the duration.
    pub fn num_milliseconds(&self) -> (r: i64)
        ensures
            r == self@ / (NANOS_PER_MILLISECOND as int),
    {
        proof {
            use_type_invariant(self);
        }
        (self.nanos / NANOS_PER_MILLISECOND) as i64
    }

    /// The number of whole hours in the duration.
    pub fn num_hours(&self) -> (r: i64)
        ensures
            r == self@ / (NANOS_PER_HOUR as int),
    {
        proof {
            use_type_invariant(self);
        }
        (self.nanos / NANOS_PER_HOUR) as i64
    }
}

impl Default for PositiveDuration {
    /// The duration of no time at all.
    fn default() -> (r: Self)
        ensures
            r@ == 0,
    {
        PositiveDuration::zero()
    }
}

/// Ten to the power of `n`.
pub open spec fn pow10(n: nat) -> int
    decreases n,
{
    if n == 0 {
        1
    } else {
        10 * pow10((n - 1) as nat)
    }
}

/// Each further digit makes a tenfold power.
proof fn lemma_pow10_step(n: nat)
    ensures
        pow10(n + 1) == 10 * pow10(n),
        pow10(n) >= 1,
    decreases n,
{
    if n > 0 {
        lemma_pow10_step((n - 1) as nat);
    }
}

/// A power of ten with at most twelve digits' worth stays below the limit
/// of the hours that a text may name.
proof fn lemma_pow10_bound(n: nat)
    requires
        n <= 12,
    ensures
        pow10(n) <= 1_000_000_000_000,
{
    reveal_with_fuel(pow10, 13);
}

/// A run of `n` digits names a number below ten to the power of `n`.
pub proof fn lemma_decimal_value_bound(digits: Seq<char>)
    requires
        forall|i: int| 0 <= i < digits.len() ==> is_digit(#[trigger] digits[i]),
    ensures
        0 <= decimal_value(digits) < pow10(digits.len()),
    decreases digits.len(),
{
    if digits.len() > 0 {
        lemma_decimal_value_bound(digits.drop_last());
        lemma_pow10_step((digits.len() - 1) as nat);
    }
}

/// No text of the grammar names more hours than a duration may hold: every
/// text that `is_hours_text` accepts is read as a duration.
pub proof fn lemma_hours_text_always_fits(s: Seq<char>)
    requires
        is_hours_text(s),
    ensures
        0 <= hours_of_text(s) <= MAX_DURATION,
        duration_of_text(s) is Ok,
{
    let digits = s.subrange(0, s.len() - 2);
    lemma_decimal_value_bound(digits);
    lemma_pow10_bound(digits.len());
}

} // verus!
