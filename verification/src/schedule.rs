//! The start, the finish and the duration of a task, and the rules that keep
//! the three in step: whenever a start and a finish are both known, the
//! finish is not before the start and the duration is the time between them.

use crate::duration::{PositiveDuration, MAX_DURATION, NANOS_PER_MILLISECOND};
use crate::error::PlanError;
use crate::instant::Instant;
use vstd::prelude::*;

verus! {

/// The three schedule fields of a task. Each may be unknown.
#[derive(Debug, Clone, Copy, PartialEq, Eq)]
pub struct Schedule {
    /// When the task starts.
    start: Option<Instant>,
    /// When the task finishes.
    finish: Option<Instant>,
    /// How long the task takes.
    duration: Option<PositiveDuration>,
}

/// The schedule fields as numbers: instants in nanoseconds from the Unix
/// epoch, the duration in nanoseconds.
pub struct ScheduleView {
    pub start: Option<int>,
    pub finish: Option<int>,
    pub duration: Option<int>,
}

/// The rule of the schedule fields: a known duration is not negative; a
/// start and a finish that are both known are in order, and the duration is
/// then known and is the time between them.
pub open spec fn consistent(v: ScheduleView) -> bool {
    &&& v.duration is Some ==> 0 <= v.duration->0
    &&& v.start is Some && v.finish is Some ==> v.start->0 <= v.finish->0 && v.duration == Some(
        v.finish->0 - v.start->0,
    )
}

/// Whether a span of nanoseconds that was computed from two instants can be
/// kept as a duration.
pub open spec fn span_fits(nanos: int) -> bool {
    0 <= nanos <= MAX_DURATION * NANOS_PER_MILLISECOND
}

/// Whether a number of nanoseconds that was computed from an instant and a
/// duration can be kept as an instant.
pub open spec fn instant_fits(nanos: int) -> bool {
    i128::MIN <= nanos <= i128::MAX
}

/// The fields after the start is set to `start`, or `None` where a derived
/// field would not fit. A known duration decides the finish. Without one, a
/// known finish that lies before the new start is pulled up to it, and the
/// duration is derived from the two.
pub open spec fn after_set_start(v: ScheduleView, start: int) -> Option<ScheduleView> {
    if v.duration is Some {
        if instant_fits(start + v.duration->0) {
            Some(
                ScheduleView {
                    start: Some(start),
                    finish: Some(start + v.duration->0),
                    duration: v.duration,
                },
            )
        } else {
            None
        }
    } else if v.finish is Some {
        if v.finish->0 < start {
            Some(ScheduleView { start: Some(start), finish: Some(start), duration: Some(0) })
        } else if span_fits(v.finish->0 - start) {
            Some(
                ScheduleView {
                    start: Some(start),
                    finish: v.finish,
                    duration: Some(v.finish->0 - start),
                },
            )
        } else {
            None
        }
    } else {
        Some(ScheduleView { start: Some(start), ..v })
    }
}

/// The fields after the finish is set to `finish`, or `None` where the
/// derived duration would not fit. A known start that lies after the new
/// finish is pushed back to it, and the duration is derived from the two,
/// whatever it was before.
pub open spec fn after_set_finish(v: ScheduleView, finish: int) -> Option<ScheduleView> {
    if v.start is Some {
        if finish < v.start->0 {
            Some(ScheduleView { start: Some(finish), finish: Some(finish), duration: Some(0) })
        } else if span_fits(finish - v.start->0) {
            Some(
                ScheduleView {
                    start: v.start,
                    finish: Some(finish),
                    duration: Some(finish - v.start->0),
                },
            )
        } else {
            None
        }
    } else {
        Some(ScheduleView { finish: Some(finish), ..v })
    }
}

/// The fields after the duration is set to `duration`, or `None` where the
/// derived finish would not fit. With a known start the finish becomes the
/// start plus the duration, whatever it was before.
pub open spec fn after_set_duration(v: ScheduleView, duration: int) -> Option<ScheduleView> {
    if v.start is Some {
        if instant_fits(v.start->0 + duration) {
            Some(
                ScheduleView {
                    start: v.start,
                    finish: Some(v.start->0 + duration),
                    duration: Some(duration),
                },
            )
        } else {
            None
        }
    } else {
        Some(ScheduleView { duration: Some(duration), ..v })
    }
}

/// Setting the start keeps the rule of the schedule fields.
pub proof fn lemma_set_start_consistent(v: ScheduleView, start: int)
    requires
        consistent(v),
    ensures
        after_set_start(v, start) matches Some(w) ==> consistent(w) && w.start == Some(start),
{
}

/// Setting the finish keeps the rule of the schedule fields.
pub proof fn lemma_set_finish_consistent(v: ScheduleView, finish: int)
    requires
        consistent(v),
    ensures
        after_set_finish(v, finish) matches Some(w) ==> consistent(w) && w.finish == Some(finish),
{
}

/// Setting the duration keeps the rule of the schedule fields.
pub proof fn lemma_set_duration_consistent(v: ScheduleView, duration: int)
    requires
        consistent(v),
        duration >= 0,
    ensures
        after_set_duration(v, duration) matches Some(w) ==> consistent(w) && w.duration == Some(
            duration,
        ),
{
}

impl View for Schedule {
    type V = ScheduleView;

    closed spec fn view(&self) -> ScheduleView {
        ScheduleView {
            start: match self.start {
                Some(s) => Some(s@),
                None => None,
            },
            finish: match self.finish {
                Some(f) => Some(f@),
                None => None,
            },
            duration: match self.duration {
                Some(d) => Some(d@),
                None => None,
            },
        }
    }
}

impl Schedule {
    #[verifier::type_invariant]
    spec fn in_step(self) -> bool {
        consistent(self@)
    }

    /// A schedule of which nothing is known.
    pub fn new() -> (r: Self)
        ensures
            r@ == (ScheduleView { start: None, finish: None, duration: None }),
    {
        Schedule { start: None, finish: None, duration: None }
    }

    /// The start, where it is known.
    pub fn start(&self) -> (r: Option<Instant>)
        ensures
            r is Some <==> self@.start is Some,
            r matches Some(s) ==> self@.start == Some(s@),
            consistent(self@),
    {
        proof {
            use_type_invariant(self);
        }
        self.start
    }

    /// The finish, where it is known.
    pub fn finish(&self) -> (r: Option<Instant>)
        ensures
            r is Some <==> self@.finish is Some,
            r matches Some(f) ==> self@.finish == Some(f@),
            consistent(self@),
    {
        proof {
            use_type_invariant(self);
        }
        self.finish
    }

    /// The duration, where it is known.
    pub fn duration(&self) -> (r: Option<PositiveDuration>)
        ensures
            r is Some <==> self@.duration is Some,
            r matches Some(d) ==> self@.duration == Some(d@),
            consistent(self@),
    {
        proof {
            use_type_invariant(self);
        }
        self.duration
    }

    /// Sets the start and brings the other fields in step with it. Where a
    /// derived field would not fit, nothing changes and the call fails with
    /// `InvariantViolation`.
    pub fn set_start(&mut self, start: Instant) -> (r: Result<(), PlanError>)
        ensures
            match r {
                Ok(()) => after_set_start(old(self)@, start@) == Some(final(self)@),
                Err(e) => e == PlanError::InvariantViolation && after_set_start(old(self)@, start@)
                    is None && *final(self) == *old(self),
            },
    {
        proof {
            use_type_invariant(&*self);
        }
        match self.duration {
            Some(duration) => {
                match start.checked_add_nanos(duration.as_nanos()) {
                    Some(finish) => {
                        *self = Schedule {
                            start: Some(start),
                            finish: Some(finish),
                            duration: Some(duration),
                        };
                        Ok(())
                    },
                    None => Err(PlanError::InvariantViolation),
                }
            },
            None => {
                match self.finish {
                    Some(finish) => {
                        if finish.is_before(&start) {
                            *self = Schedule {
                                start: Some(start),
                                finish: Some(start),
                                duration: Some(PositiveDuration::zero()),
                            };
                            Ok(())
                        } else {
                            match derived_duration(&start, &finish) {
                                Some(duration) => {
                                    *self = Schedule {
                                        start: Some(start),
                                        finish: Some(finish),
                                        duration: Some(duration),
                                    };
                                    Ok(())
                                },
                                None => Err(PlanError::InvariantViolation),
                            }
                        }
                    },
                    None => {
                        *self = Schedule { start: Some(start), finish: None, duration: None };
                        Ok(())
                    },
                }
            },
        }
    }

    /// Sets the finish and brings the other fields in step with it. Where
    /// the derived duration would not fit, nothing changes and the call
    /// fails with `InvariantViolation`.
    pub fn set_finish(&mut self, finish: Instant) -> (r: Result<(), PlanError>)
        ensures
            match r {
                Ok(()) => after_set_finish(old(self)@, finish@) == Some(final(self)@),
                Err(e) => e == PlanError::InvariantViolation && after_set_finish(old(self)@, finish@)
                    is None && *final(self) == *old(self),
            },
    {
        proof {
            use_type_invariant(&*self);
        }
        match self.start {
            Some(start) => {
                if finish.is_before(&start) {
                    *self = Schedule {
                        start: Some(finish),
                        finish: Some(finish),
                        duration: Some(PositiveDuration::zero()),
                    };
                    Ok(())
                } else {
                    match derived_duration(&start, &finish) {
                        Some(duration) => {
                            *self = Schedule {
                                start: Some(start),
                                finish: Some(finish),
                                duration: Some(duration),
                            };
                            Ok(())
                        },
                        None => Err(PlanError::InvariantViolation),
                    }
                }
            },
            None => {
                *self = Schedule { start: None, finish: Some(finish), duration: self.duration };
                Ok(())
            },
        }
    }

    /// Sets the duration and, where the start is known, moves the finish to
    /// the start plus the duration. Where that finish would not fit, nothing
    /// changes and the call fails with `InvariantViolation`.
    pub fn set_duration(&mut self, duration: PositiveDuration) -> (r: Result<(), PlanError>)
        ensures
            match r {
                Ok(()) => after_set_duration(old(self)@, duration@) == Some(final(self)@),
                Err(e) => e == PlanError::InvariantViolation && after_set_duration(
                    old(self)@,
                    duration@,
                ) is None && *final(self) == *old(self),
            },
    {
        proof {
            use_type_invariant(&*self);
        }
        let nanos = duration.as_nanos();
        match self.start {
            Some(start) => {
                match start.checked_add_nanos(nanos) {
                    Some(finish) => {
                        *self = Schedule {
                            start: Some(start),
                            finish: Some(finish),
                            duration: Some(duration),
                        };
                        Ok(())
                    },
                    None => Err(PlanError::InvariantViolation),
                }
            },
            None => {
                *self = Schedule { start: None, finish: self.finish, duration: Some(duration) };
                Ok(())
            },
        }
    }
}

impl Default for Schedule {
    /// A schedule of which nothing is known.
    fn default() -> (r: Self)
        ensures
            r@ == (ScheduleView { start: None, finish: None, duration: None }),
    {
        Schedule::new()
    }
}

/// The time from `start` to `finish` as a duration, where `finish` is not
/// before `start` and the time between them fits.
fn derived_duration(start: &Instant, finish: &Instant) -> (r: Option<PositiveDuration>)
    ensures
        r is Some <==> span_fits(finish@ - start@),
        r matches Some(d) ==> d@ == finish@ - start@,
{
    match finish.checked_nanos_since(start) {
        Some(span) => match PositiveDuration::try_from(span) {
            Ok(duration) => Some(duration),
            Err(_) => None,
        },
        None => None,
    }
}

} // verus!
