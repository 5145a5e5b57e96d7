//! The cron trigger source: several schedules, one wake cycle for the
//! earliest of their next occurrences, and all bindings that tie for it fire
//! together.

use crate::errors::{AncymonError, ConfigError};
use crate::events::{Event, EventView};
use crate::triggers::{Trigger, TriggerView};
use crate::values::{Value, ValueView};
use vstd::prelude::*;
use vstd::string::StringExecFns;

verus! {

/// The latest time, in seconds since the Unix epoch, from which a next
/// occurrence is asked for: the last second of the year 9999.
pub const MAX_NOW: i64 = 253_402_300_799;

/// The latest time in milliseconds since the Unix epoch that lies within
/// the second `MAX_NOW`.
pub const MAX_NOW_MILLIS: i64 = 253_402_300_799_999;

/// The type of a parsed schedule, as the `cron` crate holds it.
#[verifier::external_type_specification]
#[verifier::external_body]
pub struct ExSchedule(cron::Schedule);

/// Whether `pattern` is a cron expression that the `cron` crate accepts.
pub uninterp spec fn cron_valid(pattern: Seq<char>) -> bool;

/// The first time, in seconds since the Unix epoch, at which the schedule
/// written as `pattern` occurs after the time `after`, in UTC; nothing where
/// the `cron` crate finds none.
pub uninterp spec fn cron_next(pattern: Seq<char>, after: int) -> Option<int>;

/// A schedule: a cron expression together with what the `cron` crate
/// parsed it into. Only [`parse_schedule`] makes one, so the two agree.
pub struct CronSchedule {
    pattern: String,
    parsed: cron::Schedule,
}

impl CronSchedule {
    /// The cron expression that this schedule was parsed from.
    pub closed spec fn pattern(&self) -> Seq<char> {
        self.pattern@
    }
}

/// Parses a cron expression with `str::parse::<cron::Schedule>`. Whether
/// that succeeds is a function of the expression alone; the schedule keeps
/// the expression it was parsed from.
#[verifier::external_body]
fn parse_schedule(pattern: &str) -> (r: Option<CronSchedule>)
    ensures
        r is Some <==> cron_valid(pattern@),
        r matches Some(schedule) ==> schedule.pattern() == pattern@,
{
    pattern.parse::<cron::Schedule>().ok().map(
        |parsed| CronSchedule { pattern: pattern.to_owned(), parsed },
    )
}

/// The next occurrence of a schedule after `now`, both in seconds since the
/// Unix epoch: the first item of `cron::Schedule::after`, started at the
/// time that `chrono::DateTime::from_timestamp` makes of `now` in UTC, and
/// read back with `timestamp`; nothing where `chrono` has no such time. It
/// is a function of the schedule's expression and of `now` alone, and it
/// lies after `now`: `cron` looks from one second after the start onwards.
/// `now` is kept within the years in which `chrono` can add that second.
#[verifier::external_body]
fn next_after(schedule: &CronSchedule, now: i64) -> (r: Option<i64>)
    requires
        now <= MAX_NOW,
    ensures
        match r {
            Some(at) => cron_next(schedule.pattern(), now as int) == Some(at as int),
            None => cron_next(schedule.pattern(), now as int) is None,
        },
        r matches Some(at) ==> at > now,
{
    let start = chrono::DateTime::from_timestamp(now, 0)?;
    schedule.parsed.after(&start).next().map(|at| at.timestamp())
}

/// The current time in milliseconds since the Unix epoch: the time that
/// `chrono` makes of `std::time::SystemTime::now` by its conversion
/// `DateTime::<Utc>::from`, read with `timestamp_millis`. The conversion
/// takes every clock within the years that `chrono` holds, one that reads
/// before the epoch as well as one that reads after it. Nothing is known
/// of the result.
#[verifier::external_body]
fn current_time_millis() -> (now: i64) {
    chrono::DateTime::<chrono::Utc>::from(std::time::SystemTime::now()).timestamp_millis()
}

/// The schedule pattern of a trigger binding: its arguments, where they are
/// a string.
pub open spec fn pattern_of(trigger: TriggerView) -> Option<Seq<char>> {
    match trigger.arguments {
        ValueView::String(s) => Some(s),
        _ => None,
    }
}

/// A trigger binding that the cron source can serve: its arguments are a
/// string, and the string is a valid cron expression.
pub open spec fn schedulable(trigger: TriggerView) -> bool {
    pattern_of(trigger) matches Some(p) && cron_valid(p)
}

/// `i` is the first position among `triggers` of a binding that cannot be
/// served.
pub open spec fn first_unschedulable(triggers: Seq<Trigger>, i: int) -> bool {
    &&& 0 <= i < triggers.len()
    &&& forall|j: int| 0 <= j < i ==> schedulable((#[trigger] triggers[j])@)
    &&& !schedulable(triggers[i]@)
}

/// The error for a binding that cannot be served: an `InvalidValueType`
/// where its arguments are no string, an `InvalidValue` where the string is
/// no valid cron expression.
pub open spec fn is_schedule_error(e: AncymonError, trigger: TriggerView) -> bool {
    match pattern_of(trigger) {
        None => e matches AncymonError::ConfigError(ConfigError::InvalidValueType(text)) && text@
            == "Cron arguments: expected string"@,
        Some(_) => e matches AncymonError::ConfigError(ConfigError::InvalidValue(text)) && text@
            == "Cron arguments: invalid schedule pattern"@,
    }
}

/// `at` is the least of the times in `times`.
pub open spec fn is_earliest(times: Seq<Option<int>>, at: int) -> bool {
    &&& exists|i: int| 0 <= i < times.len() && times[i] == Some(at)
    &&& forall|i: int| 0 <= i < times.len() ==> ((#[trigger] times[i]) matches Some(t) ==> at <= t)
}

/// `indices` lists, in ascending order and each once, exactly the
/// positions at which `times` holds `at`.
pub open spec fn is_tie_set(times: Seq<Option<int>>, at: int, indices: Seq<usize>) -> bool {
    &&& forall|k: int| 0 <= k < indices.len() ==> 0 <= #[trigger] indices[k] < times.len()
    &&& forall|k: int, l: int| 0 <= k < l < indices.len() ==> indices[k] < indices[l]
    &&& forall|i: int|
        0 <= i < times.len() ==> ((#[trigger] times[i]) == Some(at) <==> exists|k: int|
            0 <= k < indices.len() && indices[k] == i)
}

/// The times of a list of next occurrences, as integers.
pub open spec fn times_view(times: Seq<Option<i64>>) -> Seq<Option<int>> {
    Seq::new(
        times.len(),
        |i: int|
            match times[i] {
                Some(t) => Some(t as int),
                None => None,
            },
    )
}

/// The earliest of a list of next occurrences, with the positions of all
/// that tie for it: every schedule whose next occurrence is exactly the
/// earliest one is listed, in ascending order, and no other. Nothing where
/// no schedule has a next occurrence.
pub fn earliest(times: &Vec<Option<i64>>) -> (r: Option<(i64, Vec<usize>)>)
    ensures
        match r {
            Some((at, indices)) => {
                &&& is_earliest(times_view(times@), at as int)
                &&& is_tie_set(times_view(times@), at as int, indices@)
            },
            None => forall|i: int| 0 <= i < times.len() ==> times[i] is None,
        },
{
    let ghost view = times_view(times@);
    let mut best: Option<i64> = None;
    let mut i: usize = 0;
    while i < times.len()
        invariant
            i <= times.len(),
            view == times_view(times@),
            match best {
                Some(at) => {
                    &&& exists|j: int| 0 <= j < i && view[j] == Some(at as int)
                    &&& forall|j: int|
                        0 <= j < i ==> ((#[trigger] view[j]) matches Some(t) ==> at <= t)
                },
                None => forall|j: int| 0 <= j < i ==> (#[trigger] view[j]) is None,
            },
        decreases times.len() - i,
    {
        assert(view[i as int] == times_view(times@)[i as int]);
        match (times[i], best) {
            (Some(t), Some(at)) => {
                if t < at {
                    best = Some(t);
                }
            },
            (Some(t), None) => {
                best = Some(t);
            },
            (None, _) => {},
        }
        i += 1;
    }
    let at = match best {
        Some(at) => at,
        None => {
            assert forall|j: int| 0 <= j < times.len() implies times[j] is None by {
                assert(view[j] is None);
            }
            return None;
        },
    };
    let mut indices: Vec<usize> = Vec::new();
    let mut i: usize = 0;
    while i < times.len()
        invariant
            i <= times.len(),
            view == times_view(times@),
            forall|k: int| 0 <= k < indices.len() ==> 0 <= #[trigger] indices[k] < i,
            forall|k: int, l: int| 0 <= k < l < indices.len() ==> indices[k] < indices[l],
            forall|j: int|
                0 <= j < i ==> ((#[trigger] view[j]) == Some(at as int) <==> exists|k: int|
                    0 <= k < indices.len() && indices[k] == j),
        decreases times.len() - i,
    {
        let ghost before = indices@;
        assert(view[i as int] == times_view(times@)[i as int]);
        match times[i] {
            Some(t) => {
                if t == at {
                    indices.push(i);
                    proof {
                        assert(indices[before.len() as int] == i);
                        assert forall|j: int| 0 <= j < i + 1 implies ((#[trigger] view[j]) == Some(
                            at as int,
                        ) <==> exists|k: int| 0 <= k < indices.len() && indices[k] == j) by {
                            if j < i {
                                if view[j] == Some(at as int) {
                                    let k = choose|k: int| 0 <= k < before.len() && before[k] == j;
                                    assert(indices[k] == j);
                                }
                                if exists|k: int| 0 <= k < indices.len() && indices[k] == j {
                                    let k = choose|k: int|
                                        0 <= k < indices.len() && indices[k] == j;
                                    assert(before[k] == j);
                                }
                            }
                        }
                    }
                }
            },
            None => {},
        }
        i += 1;
    }
    Some((at, indices))
}

/// How long to sleep, in milliseconds, from the time `now_millis` until
/// the second `deadline`: nothing where the deadline has come or passed.
pub open spec fn sleep_for(deadline: int, now_millis: int) -> int {
    let wait = deadline * 1000 - now_millis;
    if wait <= 0 {
        0
    } else if wait > u64::MAX {
        u64::MAX as int
    } else {
        wait
    }
}

/// The time to sleep before a deadline. A deadline that has come or passed
/// asks for no sleep at all.
pub fn sleep_millis(deadline: i64, now_millis: i64) -> (r: u64)
    ensures
        r == sleep_for(deadline as int, now_millis as int),
{
    let wait: i128 = (deadline as i128) * 1000 - (now_millis as i128);
    if wait <= 0 {
        0
    } else if wait > 0xffff_ffff_ffff_ffffi128 {
        0xffff_ffff_ffff_ffffu64
    } else {
        wait as u64
    }
}

/// The second in which a time given in milliseconds lies.
pub fn second_of(now_millis: i64) -> (r: i64)
    ensures
        r == now_millis as int / 1000,
{
    let shifted: i128 = now_millis as i128 + 9_223_372_036_854_776_000;
    let second: i128 = shifted / 1000 - 9_223_372_036_854_776;
    proof {
        vstd::arithmetic::div_mod::lemma_hoist_over_denominator(
            now_millis as int,
            9_223_372_036_854_776,
            1000,
        );
    }
    second as i64
}

/// One wake cycle: when to wake, how long to sleep until then, which
/// bindings fire, and the events they emit.
#[derive(Debug)]
pub struct Wake {
    /// The time to wake at, in seconds since the Unix epoch.
    pub deadline: i64,
    /// The time to sleep until then, in milliseconds.
    pub sleep_millis: u64,
    /// The positions of the bindings that fire, in ascending order.
    pub indices: Vec<usize>,
    /// The events to emit on waking, one for each binding that fires.
    pub events: Vec<Event>,
}

/// The cron trigger source: one schedule for each trigger binding routed to
/// it, position by position.
pub struct CronTrigger {
    schedules: Vec<CronSchedule>,
    triggers: Vec<Trigger>,
}

impl Default for CronTrigger {
    fn default() -> (r: Self)
        ensures
            r.patterns().len() == 0,
            r.emits().len() == 0,
    {
        CronTrigger { schedules: Vec::new(), triggers: Vec::new() }
    }
}

impl CronTrigger {
    #[verifier::type_invariant]
    spec fn aligned(self) -> bool {
        self.schedules.len() == self.triggers.len()
    }

    /// The cron expressions of the schedules, in order.
    pub closed spec fn patterns(self) -> Seq<Seq<char>> {
        Seq::new(self.schedules@.len(), |i: int| self.schedules@[i].pattern())
    }

    /// The names of the events that the bindings emit, in order.
    pub closed spec fn emits(self) -> Seq<Seq<char>> {
        Seq::new(self.triggers@.len(), |i: int| self.triggers@[i].emit@)
    }

    /// The next occurrence of every schedule after the time `now`.
    pub open spec fn due(self, now: int) -> Seq<Option<int>> {
        Seq::new(self.patterns().len(), |i: int| cron_next(self.patterns()[i], now))
    }

    /// Takes over the trigger bindings routed to this source.
    ///
    /// Succeeds where there is at least one binding and each can be served:
    /// the source then holds one schedule for each binding, in order. With
    /// no binding the error is a `MissingValue`; otherwise it is that of the
    /// first binding that cannot be served. On an error the source is left
    /// as it was.
    pub fn init(&mut self, config: &Value, triggers: Vec<Trigger>) -> (r: Result<
        (),
        AncymonError,
    >)
        ensures
            match r {
                Ok(()) => {
                    &&& triggers.len() > 0
                    &&& final(self).patterns().len() == triggers.len()
                    &&& final(self).emits().len() == triggers.len()
                    &&& forall|i: int|
                        0 <= i < triggers.len() ==> {
                            &&& schedulable((#[trigger] triggers[i])@)
                            &&& pattern_of(triggers[i]@) == Some(final(self).patterns()[i])
                            &&& final(self).emits()[i] == triggers[i].emit@
                        }
                },
                Err(e) => {
                    &&& *final(self) == *old(self)
                    &&& if triggers.len() == 0 {
                        e matches AncymonError::ConfigError(ConfigError::MissingValue(text))
                            && text@ == "No cron triggers specified"@
                    } else {
                        exists|i: int| #[trigger]
                            first_unschedulable(triggers@, i) && is_schedule_error(
                                e,
                                triggers[i]@,
                            )
                    }
                },
            },
    {
        if triggers.len() == 0 {
            return Err(
                AncymonError::ConfigError(
                    ConfigError::MissingValue(String::from_str("No cron triggers specified")),
                ),
            );
        }
        let mut schedules: Vec<CronSchedule> = Vec::new();
        let mut i: usize = 0;
        while i < triggers.len()
            invariant
                i <= triggers.len(),
                schedules.len() == i,
                forall|j: int|
                    0 <= j < i ==> {
                        &&& schedulable((#[trigger] triggers[j])@)
                        &&& pattern_of(triggers[j]@) == Some(schedules[j].pattern())
                    },
            decreases triggers.len() - i,
        {
            let pattern = match triggers[i].arguments.as_str() {
                Some(pattern) => pattern,
                None => {
                    let e = AncymonError::ConfigError(
                        ConfigError::InvalidValueType(
                            String::from_str("Cron arguments: expected string"),
                        ),
                    );
                    assert(first_unschedulable(triggers@, i as int));
                    return Err(e);
                },
            };
            match parse_schedule(pattern) {
                Some(schedule) => {
                    schedules.push(schedule);
                },
                None => {
                    let e = AncymonError::ConfigError(
                        ConfigError::InvalidValue(
                            String::from_str("Cron arguments: invalid schedule pattern"),
                        ),
                    );
                    assert(first_unschedulable(triggers@, i as int));
                    return Err(e);
                },
            }
            i += 1;
        }
        *self = CronTrigger { schedules, triggers };
        Ok(())
    }

    /// The next occurrence of every schedule after the time `now`, in
    /// seconds since the Unix epoch. Each lies strictly after `now`.
    pub fn upcoming(&self, now: i64) -> (times: Vec<Option<i64>>)
        requires
            now <= MAX_NOW,
        ensures
            times_view(times@) == self.due(now as int),
            forall|i: int|
                0 <= i < times.len() ==> ((#[trigger] times[i]) matches Some(t) ==> t > now),
    {
        let mut times: Vec<Option<i64>> = Vec::new();
        let mut i: usize = 0;
        while i < self.schedules.len()
            invariant
                i <= self.schedules.len(),
                times.len() == i,
                now <= MAX_NOW,
                forall|j: int|
                    0 <= j < i ==> times_view(times@)[j] == cron_next(
                        self.schedules[j].pattern(),
                        now as int,
                    ),
                forall|j: int| 0 <= j < i ==> ((#[trigger] times[j]) matches Some(t) ==> t > now),
            decreases self.schedules.len() - i,
        {
            let at = next_after(&self.schedules[i], now);
            let ghost before = times@;
            times.push(at);
            proof {
                assert forall|j: int| 0 <= j < i + 1 implies times_view(times@)[j] == cron_next(
                    self.schedules[j].pattern(),
                    now as int,
                ) by {
                    if j < i {
                        assert(times_view(before)[j] == times_view(times@)[j]);
                    }
                }
            }
            i += 1;
        }
        assert(times_view(times@) =~= self.due(now as int));
        times
    }

    /// What `wake` is of the time `now_millis`: nothing where no schedule
    /// has a next occurrence after it; else the earliest of the next
    /// occurrences as the deadline, which lies strictly after the second of
    /// `now_millis`, the sleep until then, the positions of all bindings
    /// that tie for the deadline, and for each of them, in order, an event
    /// named as the binding says that carries the deadline.
    pub open spec fn is_wake(self, now_millis: int, wake: Option<Wake>) -> bool {
        let due = self.due(now_millis / 1000);
        match wake {
            None => forall|i: int| 0 <= i < due.len() ==> (#[trigger] due[i]) is None,
            Some(w) => {
                &&& is_earliest(due, w.deadline as int)
                &&& w.deadline as int > now_millis / 1000
                &&& is_tie_set(due, w.deadline as int, w.indices@)
                &&& w.sleep_millis == sleep_for(w.deadline as int, now_millis)
                &&& w.events.len() == w.indices.len()
                &&& forall|k: int|
                    0 <= k < w.events.len() ==> (#[trigger] w.events[k])@ == (EventView {
                        name: self.emits()[w.indices[k] as int],
                        value: Ok(ValueView::Integer(w.deadline)),
                    })
            },
        }
    }

    /// Every binding whose schedule occurs next at the deadline fires in
    /// that wake cycle, with an event of its own that carries the deadline;
    /// a binding that fires has its next occurrence at the deadline; and a
    /// wake cycle fires at least one binding.
    pub proof fn lemma_ties_fire_together(self, now_millis: int, wake: Wake, i: int)
        requires
            self.is_wake(now_millis, Some(wake)),
            0 <= i < self.patterns().len(),
        ensures
            cron_next(self.patterns()[i], now_millis / 1000) == Some(wake.deadline as int)
                <==> exists|k: int| 0 <= k < wake.indices.len() && wake.indices[k] == i,
            forall|k: int|
                0 <= k < wake.indices.len() && wake.indices[k] == i ==> (
                #[trigger] wake.events[k])@ == (EventView {
                    name: self.emits()[i],
                    value: Ok(ValueView::Integer(wake.deadline)),
                }),
            forall|j: int|
                0 <= j < self.patterns().len() ==> (cron_next(
                    #[trigger] self.patterns()[j],
                    now_millis / 1000,
                ) matches Some(t) ==> wake.deadline <= t),
            wake.indices.len() > 0,
            wake.events.len() > 0,
    {
        let due = self.due(now_millis / 1000);
        assert(due[i] == cron_next(self.patterns()[i], now_millis / 1000));
        let first = choose|j: int| 0 <= j < due.len() && due[j] == Some(wake.deadline as int);
        assert(due[first] == Some(wake.deadline as int));
        assert forall|j: int| 0 <= j < self.patterns().len() implies (cron_next(
            #[trigger] self.patterns()[j],
            now_millis / 1000,
        ) matches Some(t) ==> wake.deadline <= t) by {
            assert(due[j] == cron_next(self.patterns()[j], now_millis / 1000));
        }
    }

    /// Plans the wake cycle that follows the time `now_millis`, given in
    /// milliseconds since the Unix epoch.
    pub fn wake_at(&self, now_millis: i64) -> (wake: Option<Wake>)
        requires
            now_millis <= MAX_NOW_MILLIS,
        ensures
            self.is_wake(now_millis as int, wake),
    {
        proof {
            use_type_invariant(self);
        }
        let now = second_of(now_millis);
        let times = self.upcoming(now);
        let (deadline, indices) = match earliest(&times) {
            Some(found) => found,
            None => {
                assert forall|i: int| 0 <= i < self.due(now as int).len() implies (
                #[trigger] self.due(now as int)[i]) is None by {
                    assert(times_view(times@)[i] is None);
                }
                return None;
            },
        };
        proof {
            let at = choose|i: int|
                0 <= i < times.len() && times_view(times@)[i] == Some(deadline as int);
            assert(times[at] == Some(deadline));
        }
        let mut events: Vec<Event> = Vec::new();
        let mut k: usize = 0;
        while k < indices.len()
            invariant
                k <= indices.len(),
                events.len() == k,
                self.schedules.len() == self.triggers.len(),
                times.len() == self.schedules.len(),
                forall|l: int| 0 <= l < indices.len() ==> 0 <= #[trigger] indices[l] < times.len(),
                forall|l: int|
                    0 <= l < k ==> (#[trigger] events[l])@ == (EventView {
                        name: self.emits()[indices[l] as int],
                        value: Ok(ValueView::Integer(deadline)),
                    }),
            decreases indices.len() - k,
        {
            let binding = &self.triggers[indices[k]];
            events.push(Event::new(binding.emit.clone(), Ok(Value::Integer(deadline))));
            k += 1;
        }
        Some(Wake { deadline, sleep_millis: sleep_millis(deadline, now_millis), indices, events })
    }

    /// What the plan for the time `now_millis` is: the one that `wake_at`
    /// makes for that time, and nothing where the time is later than the
    /// times that `wake_at` takes.
    pub open spec fn is_next(self, now_millis: int, wake: Option<Wake>) -> bool {
        if now_millis <= MAX_NOW_MILLIS {
            self.is_wake(now_millis, wake)
        } else {
            wake is None
        }
    }

    /// Plans the wake cycle that follows the time `now_millis`, whatever
    /// that time is: the plan of `wake_at` for a time that `wake_at` takes,
    /// and none for a later one.
    pub fn wake_for(&self, now_millis: i64) -> (wake: Option<Wake>)
        ensures
            self.is_next(now_millis as int, wake),
    {
        if now_millis > MAX_NOW_MILLIS {
            return None;
        }
        self.wake_at(now_millis)
    }

    /// Plans the wake cycle that follows the present, as the system clock
    /// gives it: whatever the clock says, the plan is that of `wake_for`
    /// for that time.
    pub fn next(&self) -> (wake: Option<Wake>)
        ensures
            exists|now_millis: int| #[trigger] self.is_next(now_millis, wake),
    {
        let now_millis = current_time_millis();
        let wake = self.wake_for(now_millis);
        assert(self.is_next(now_millis as int, wake));
        wake
    }
}

} // verus!
