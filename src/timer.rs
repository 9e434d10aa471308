//! Elapsed-time measurements, as the load tests report them.
use vstd::prelude::*;

use crate::clock::{elapsed_since, instant_now, whole_micros};
use crate::text::{decimal, decimal_string};

verus! {

/// The unit in which a `Time` is counted.
#[derive(Debug, Clone, Copy, PartialEq, Eq, Structural)]
pub enum TimerUnit {
    Micros,
    Millis,
}

impl TimerUnit {
    /// The suffix written after a count in this unit.
    pub open spec fn suffix(self) -> Seq<char> {
        match self {
            TimerUnit::Micros => "\u{3bc}s"@,
            TimerUnit::Millis => "ms"@,
        }
    }

    pub fn as_str(&self) -> (r: &'static str)
        ensures
            r@ == self.suffix(),
    {
        match *self {
            TimerUnit::Micros => "\u{3bc}s",
            TimerUnit::Millis => "ms",
        }
    }
}

/// A count of microseconds or milliseconds.
#[derive(Debug, Clone, Copy, PartialEq, Eq, Structural)]
pub struct Time {
    pub time: u128,
    pub unit: TimerUnit,
}

/// The number of microseconds that a count in a unit stands for.
pub open spec fn micros_of(time: nat, unit: TimerUnit) -> nat {
    match unit {
        TimerUnit::Micros => time,
        TimerUnit::Millis => time * 1000,
    }
}

/// How a count of microseconds is reported: below a millisecond in
/// microseconds, else in whole milliseconds.
pub open spec fn time_of_micros(micros: nat) -> (nat, TimerUnit) {
    if micros < 1000 {
        (micros, TimerUnit::Micros)
    } else {
        (micros / 1000, TimerUnit::Millis)
    }
}

/// The count followed by its unit, as in `12ms`.
pub open spec fn time_text(time: nat, unit: TimerUnit) -> Seq<char> {
    decimal(time) + unit.suffix()
}

impl Time {
    pub fn new(time: u128, unit: TimerUnit) -> (r: Self)
        ensures
            r.time == time,
            r.unit == unit,
    {
        Self { time, unit }
    }

    /// Reports `micros` microseconds in the unit that suits it.
    pub fn from_micros(micros: u128) -> (r: Self)
        ensures
            (r.time as nat, r.unit) == time_of_micros(micros as nat),
    {
        if micros < 1000 {
            Time::new(micros, TimerUnit::Micros)
        } else {
            Time::new(micros / 1000, TimerUnit::Millis)
        }
    }

    pub fn get_as_micros(&self) -> (r: u128)
        requires
            micros_of(self.time as nat, self.unit) <= u128::MAX,
        ensures
            r == micros_of(self.time as nat, self.unit),
    {
        match self.unit {
            TimerUnit::Micros => self.time,
            TimerUnit::Millis => self.time * 1000,
        }
    }

    /// The count followed by its unit.
    pub fn text(&self) -> (r: String)
        ensures
            r@ == time_text(self.time as nat, self.unit),
    {
        let mut s = decimal_string(self.time);
        s.append(self.unit.as_str());
        s
    }

    /// The log line for this time under `message`: `message: 12ms`.
    pub fn log(&self, message: &str) -> (r: String)
        ensures
            r@ == message@ + ": "@ + time_text(self.time as nat, self.unit),
    {
        let mut s = String::from_str(message);
        s.append(": ");
        let t = self.text();
        s.append(t.as_str());
        s
    }
}

/// The log lines for a series of times, numbered from zero: `3. 12ms`.
pub fn log_times(times: &Vec<Time>) -> (r: Vec<String>)
    ensures
        r@.len() == times@.len(),
        forall|i: int|
            0 <= i < times@.len() ==> #[trigger] r@[i]@ == decimal(i as nat) + ". "@ + time_text(
                times@[i].time as nat,
                times@[i].unit,
            ),
{
    let mut lines: Vec<String> = Vec::new();
    let mut index: usize = 0;
    while index < times.len()
        invariant
            index <= times@.len(),
            lines@.len() == index,
            forall|i: int|
                0 <= i < index ==> #[trigger] lines@[i]@ == decimal(i as nat) + ". "@ + time_text(
                    times@[i].time as nat,
                    times@[i].unit,
                ),
        decreases times@.len() - index,
    {
        let mut line = decimal_string(index as u128);
        line.append(". ");
        let t = times[index].text();
        line.append(t.as_str());
        lines.push(line);
        index = index + 1;
    }
    lines
}

/// The microseconds of the time at `i`.
pub open spec fn micros_at(times: Seq<Time>, i: int) -> nat {
    micros_of(times[i].time as nat, times[i].unit)
}

/// The bound below which a time counts as the fastest.
pub const FASTEST_BELOW_MICROS: u128 = 100000;

/// Where the fastest time of a series stands: the first of the least times,
/// if one is below a tenth of a second; else the first.
pub open spec fn is_fastest(times: Seq<Time>, a: int) -> bool {
    0 <= a < times.len() && if exists|i: int| 0 <= i < times.len() && micros_at(times, i) < 100000 {
        &&& micros_at(times, a) < 100000
        &&& forall|i: int| 0 <= i < times.len() ==> micros_at(times, a) <= micros_at(times, i)
        &&& forall|i: int| 0 <= i < a ==> micros_at(times, a) < micros_at(times, i)
    } else {
        a == 0
    }
}

/// Where the slowest time of a series stands: the first of the greatest
/// times, if one is above zero; else the first.
pub open spec fn is_slowest(times: Seq<Time>, b: int) -> bool {
    0 <= b < times.len() && if exists|i: int| 0 <= i < times.len() && micros_at(times, i) > 0 {
        &&& micros_at(times, b) > 0
        &&& forall|i: int| 0 <= i < times.len() ==> micros_at(times, i) <= micros_at(times, b)
        &&& forall|i: int| 0 <= i < b ==> micros_at(times, i) < micros_at(times, b)
    } else {
        b == 0
    }
}

/// The fastest and the slowest of a series of times.
pub fn get_time_range(request_times: &Vec<Time>) -> (r: (Time, Time))
    requires
        request_times@.len() > 0,
        forall|i: int| 0 <= i < request_times@.len() ==> micros_at(request_times@, i) <= u128::MAX,
    ensures
        exists|a: int| is_fastest(request_times@, a) && r.0 == request_times@[a],
        exists|b: int| is_slowest(request_times@, b) && r.1 == request_times@[b],
{
    let ghost ts = request_times@;
    let mut min_index: usize = 0;
    let mut min_micros: u128 = FASTEST_BELOW_MICROS;
    let mut max_index: usize = 0;
    let mut max_micros: u128 = 0;
    let mut index: usize = 0;
    while index < request_times.len()
        invariant
            ts == request_times@,
            index <= ts.len(),
            forall|i: int| 0 <= i < ts.len() ==> micros_at(ts, i) <= u128::MAX,
            min_index < ts.len(),
            max_index < ts.len(),
            min_micros == 100000 ==> min_index == 0 && forall|k: int| 0 <= k < index ==> micros_at(ts, k) >= 100000,
            min_micros < 100000 ==> {
                &&& min_index < index
                &&& min_micros == micros_at(ts, min_index as int)
                &&& forall|k: int| 0 <= k < index ==> min_micros <= micros_at(ts, k)
                &&& forall|k: int| 0 <= k < min_index ==> min_micros < micros_at(ts, k)
            },
            min_micros <= 100000,
            max_micros == 0 ==> max_index == 0 && forall|k: int| 0 <= k < index ==> micros_at(ts, k) == 0,
            max_micros > 0 ==> {
                &&& max_index < index
                &&& max_micros == micros_at(ts, max_index as int)
                &&& forall|k: int| 0 <= k < index ==> micros_at(ts, k) <= max_micros
                &&& forall|k: int| 0 <= k < max_index ==> micros_at(ts, k) < max_micros
            },
        decreases ts.len() - index,
    {
        let micros = request_times[index].get_as_micros();
        if micros < min_micros {
            min_index = index;
            min_micros = micros;
        }
        if micros > max_micros {
            max_index = index;
            max_micros = micros;
        }
        index = index + 1;
    }
    proof {
        if exists|i: int| 0 <= i < ts.len() && micros_at(ts, i) < 100000 {
            let i = choose|i: int| 0 <= i < ts.len() && micros_at(ts, i) < 100000;
            assert(min_micros < 100000);
        }
        assert(is_fastest(ts, min_index as int));
        if exists|i: int| 0 <= i < ts.len() && micros_at(ts, i) > 0 {
            let i = choose|i: int| 0 <= i < ts.len() && micros_at(ts, i) > 0;
            assert(max_micros > 0);
        }
        assert(is_slowest(ts, max_index as int));
    }
    (request_times[min_index], request_times[max_index])
}

/// The file under the log directory `dir` named `file`.
pub open spec fn log_file_path(dir: Seq<char>, file: Seq<char>) -> Seq<char> {
    dir + "/"@ + file
}

/// Measures time from its creation or its last reset.
#[derive(Debug)]
pub struct Timer {
    start_time: std::time::Instant,
    log_root_dir: String,
}

impl Timer {
    pub closed spec fn log_dir(&self) -> Seq<char> {
        self.log_root_dir@
    }

    pub fn new() -> (r: Self)
        ensures
            r.log_dir() == "logs"@,
    {
        Self { start_time: instant_now(), log_root_dir: String::from_str("logs") }
    }

    /// The time since the start, below a millisecond in microseconds, else
    /// in milliseconds.
    pub fn elapsed(&self) -> (r: Time)
        ensures
            exists|micros: nat| (r.time as nat, r.unit) == time_of_micros(micros),
    {
        let d = elapsed_since(&self.start_time);
        Time::from_micros(whole_micros(&d))
    }

    /// The time since the start, as text: `12ms`.
    pub fn elapsed_message(&self) -> (r: String)
        ensures
            exists|micros: nat|
                r@ == time_text(time_of_micros(micros).0, time_of_micros(micros).1),
    {
        self.elapsed().text()
    }

    pub fn reset(&mut self)
        ensures
            final(self).log_dir() == old(self).log_dir(),
    {
        self.start_time = instant_now();
    }

    /// Where the log named `file` lives.
    pub fn log_path(&self, file: &str) -> (r: String)
        ensures
            r@ == log_file_path(self.log_dir(), file@),
    {
        let mut s = self.log_root_dir.clone();
        s.append("/");
        s.append(file);
        s
    }
}

} // verus!
