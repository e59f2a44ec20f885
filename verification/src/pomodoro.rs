//! The Pomodoro state machine: phases, counters, transition operations and
//! the elapsed-time queries that decide phase expiry.

use vstd::prelude::*;
use vstd::string::StringExecFns;
use crate::clock::minutes_since;
use crate::clock::now_rfc3339;
use crate::clock::quote_free;
use crate::text::dec_str;
use crate::text::push_dec;

verus! {

pub const WORK_DURATION: u8 = 25;

pub const BREAK_DURATION: u8 = 5;

pub const LONG_BREAK_DURATION: u8 = 15;

pub const LONG_BREAK_COUNT: u8 = 4;

/// The mathematical value of a timer state: the timestamps as character
/// sequences, the counters as naturals, and the three phase flags.
pub struct StateView {
    pub start_date_time: Seq<char>,
    pub break_date_time: Seq<char>,
    pub work_count: nat,
    pub break_count: nat,
    pub working: bool,
    pub on_break: bool,
    pub on_long_break: bool,
}

/// At most one of the three phase flags is set, so the state is in exactly
/// one of the four phases Idle, Working, OnBreak, OnLongBreak.
pub open spec fn phase_exclusive(v: StateView) -> bool {
    &&& !(v.working && v.on_break)
    &&& !(v.working && v.on_long_break)
    &&& !(v.on_break && v.on_long_break)
}

pub open spec fn is_idle(v: StateView) -> bool {
    !v.working && !v.on_break && !v.on_long_break
}

pub open spec fn is_in_work(v: StateView) -> bool {
    v.working && !v.on_break && !v.on_long_break
}

pub open spec fn is_in_short_break(v: StateView) -> bool {
    !v.working && v.on_break && !v.on_long_break
}

pub open spec fn is_in_long_break(v: StateView) -> bool {
    !v.working && !v.on_break && v.on_long_break
}

/// The work timer is exceeded: the state is in a work phase and the elapsed
/// minutes are known and have reached the work duration.
pub open spec fn work_exceeded(v: StateView, elapsed: Option<i64>) -> bool {
    &&& v.working
    &&& elapsed matches Some(m) && m >= WORK_DURATION as i64
}

/// The break duration that currently applies: the long one once the break
/// count has reached the long-break threshold, the short one before that.
pub open spec fn applicable_break_duration(v: StateView) -> int {
    if v.break_count >= LONG_BREAK_COUNT as nat {
        LONG_BREAK_DURATION as int
    } else {
        BREAK_DURATION as int
    }
}

/// The break timer is exceeded: the state is in a break phase and the elapsed
/// minutes are known and have reached the applicable break duration.
pub open spec fn break_exceeded(v: StateView, elapsed: Option<i64>) -> bool {
    &&& v.on_break || v.on_long_break
    &&& elapsed matches Some(m) && m >= applicable_break_duration(v)
}

/// The status line for a state observed at the given elapsed minutes.
pub open spec fn spec_status(v: StateView, minutes: nat) -> Seq<char> {
    if is_idle(v) {
        "Idle"@
    } else if is_in_work(v) {
        "Work (#"@ + dec_str(v.work_count) + "): "@ + dec_str(minutes) + "m/"@ + dec_str(
            WORK_DURATION as nat,
        ) + "m"@
    } else if is_in_short_break(v) {
        "Break (#"@ + dec_str(v.break_count) + "): "@ + dec_str(minutes) + "m/"@ + dec_str(
            BREAK_DURATION as nat,
        ) + "m"@
    } else if is_in_long_break(v) {
        "Long Break (#"@ + dec_str(v.break_count) + "): "@ + dec_str(minutes) + "m/"@ + dec_str(
            LONG_BREAK_DURATION as nat,
        ) + "m"@
    } else {
        "???"@
    }
}

/// The timer state: phase-start timestamps, cycle counters, phase flags.
pub struct Pomodoro {
    pub start_date_time: String,
    pub break_date_time: String,
    pub work_count: u8,
    pub break_count: u8,
    pub working: bool,
    pub on_break: bool,
    pub on_long_break: bool,
}

impl View for Pomodoro {
    type V = StateView;

    open spec fn view(&self) -> StateView {
        StateView {
            start_date_time: self.start_date_time@,
            break_date_time: self.break_date_time@,
            work_count: self.work_count as nat,
            break_count: self.break_count as nat,
            working: self.working,
            on_break: self.on_break,
            on_long_break: self.on_long_break,
        }
    }
}

impl Pomodoro {
    /// A fresh Idle state: no timestamps, zero counters, no phase flag set.
    pub fn new() -> (r: Pomodoro)
        ensures
            is_idle(r@),
            phase_exclusive(r@),
            r@.start_date_time.len() == 0,
            r@.break_date_time.len() == 0,
            r@.work_count == 0,
            r@.break_count == 0,
    {
        Pomodoro {
            start_date_time: String::new(),
            break_date_time: String::new(),
            work_count: 0,
            break_count: 0,
            working: false,
            on_break: false,
            on_long_break: false,
        }
    }

    pub fn is_working(&mut self) -> (r: bool)
        ensures
            *final(self) == *old(self),
            r == old(self)@.working,
    {
        self.working
    }

    pub fn is_on_break(&mut self) -> (r: bool)
        ensures
            *final(self) == *old(self),
            r == (old(self)@.on_break || old(self)@.on_long_break),
    {
        self.on_break || self.on_long_break
    }

    /// Enters the work phase: stamps the current instant, bumps the work
    /// counter, clears the break flags.
    pub fn start_work(&mut self)
        requires
            old(self).work_count < 255,
        ensures
            is_in_work(final(self)@),
            phase_exclusive(final(self)@),
            final(self)@.work_count == old(self)@.work_count + 1,
            final(self)@.break_count == old(self)@.break_count,
            final(self)@.start_date_time.len() > 0,
            quote_free(final(self)@.start_date_time),
            final(self)@.break_date_time == old(self)@.break_date_time,
    {
        self.working = true;
        self.start_date_time = now_rfc3339();
        self.work_count = self.work_count + 1;
        self.on_break = false;
        self.on_long_break = false;
    }

    /// Enters a break phase: stamps the current instant, bumps the break
    /// counter, and takes a long break exactly when the new break count is a
    /// multiple of the long-break threshold.
    pub fn start_break(&mut self)
        requires
            old(self).break_count < 255,
        ensures
            !final(self)@.working,
            phase_exclusive(final(self)@),
            final(self)@.break_count == old(self)@.break_count + 1,
            final(self)@.work_count == old(self)@.work_count,
            final(self)@.on_long_break == ((old(self)@.break_count + 1) % (
            LONG_BREAK_COUNT as nat) == 0),
            final(self)@.on_break == !final(self)@.on_long_break,
            final(self)@.break_date_time.len() > 0,
            quote_free(final(self)@.break_date_time),
            final(self)@.start_date_time == old(self)@.start_date_time,
    {
        self.working = false;
        self.break_date_time = now_rfc3339();
        self.break_count = self.break_count + 1;
        if self.break_count % LONG_BREAK_COUNT == 0 {
            self.on_long_break = true;
            self.on_break = false;
        } else {
            self.on_break = true;
            self.on_long_break = false;
        }
    }

    /// Returns to Idle: clears the counters, the timestamps and every phase
    /// flag, whatever the prior state was.
    pub fn stop(&mut self)
        ensures
            is_idle(final(self)@),
            phase_exclusive(final(self)@),
            final(self)@.work_count == 0,
            final(self)@.break_count == 0,
            final(self)@.start_date_time.len() == 0,
            final(self)@.break_date_time.len() == 0,
    {
        self.working = false;
        self.on_break = false;
        self.on_long_break = false;
        self.work_count = 0;
        self.break_count = 0;
        self.start_date_time = String::new();
        self.break_date_time = String::new();
    }

    /// The work-timer decision on a known elapsed reading.
    pub fn exceeds_work_timer_at(&self, elapsed: Option<i64>) -> (r: bool)
        ensures
            r == work_exceeded(self@, elapsed),
    {
        match elapsed {
            Some(m) => self.working && m >= WORK_DURATION as i64,
            None => false,
        }
    }

    /// The break-timer decision on a known elapsed reading.
    pub fn exceeds_break_timer_at(&self, elapsed: Option<i64>) -> (r: bool)
        ensures
            r == break_exceeded(self@, elapsed),
    {
        match elapsed {
            Some(m) => {
                if self.on_break || self.on_long_break {
                    if self.break_count >= LONG_BREAK_COUNT {
                        m >= LONG_BREAK_DURATION as i64
                    } else {
                        m >= BREAK_DURATION as i64
                    }
                } else {
                    false
                }
            },
            None => false,
        }
    }

    /// Whether the current work phase has outlived the work duration. False
    /// whenever no work phase is running or the timestamp yields no elapsed
    /// reading; an empty timestamp never yields one.
    pub fn is_exceeding_work_timer(&mut self) -> (r: bool)
        ensures
            *final(self) == *old(self),
            exists|e: Option<i64>| r == work_exceeded(old(self)@, e),
            r ==> old(self)@.working,
            r ==> old(self)@.start_date_time.len() > 0,
            old(self)@.start_date_time.len() == 0 ==> !r,
            !old(self)@.working ==> !r,
    {
        let elapsed = minutes_since(self.start_date_time.as_str());
        self.exceeds_work_timer_at(elapsed)
    }

    /// Whether the current break phase has outlived the applicable break
    /// duration. False whenever no break phase is running or the timestamp
    /// yields no elapsed reading; an empty timestamp never yields one.
    pub fn is_exceeding_break_timer(&mut self) -> (r: bool)
        ensures
            *final(self) == *old(self),
            exists|e: Option<i64>| r == break_exceeded(old(self)@, e),
            r ==> old(self)@.on_break || old(self)@.on_long_break,
            r ==> old(self)@.break_date_time.len() > 0,
            old(self)@.break_date_time.len() == 0 ==> !r,
            !(old(self)@.on_break || old(self)@.on_long_break) ==> !r,
    {
        let elapsed = minutes_since(self.break_date_time.as_str());
        self.exceeds_break_timer_at(elapsed)
    }

    /// The status line for this state at the given elapsed minutes.
    pub fn render_status(&self, minutes: u64) -> (r: String)
        ensures
            r@ == spec_status(self@, minutes as nat),
    {
        let mut r = String::new();
        if !self.working && !self.on_break && !self.on_long_break {
            r.append("Idle");
            proof {
                assert(r@ =~= spec_status(self@, minutes as nat));
            }
        } else if self.working && !self.on_break && !self.on_long_break {
            r.append("Work (#");
            push_dec(&mut r, self.work_count as u64);
            r.append("): ");
            push_dec(&mut r, minutes);
            r.append("m/");
            push_dec(&mut r, WORK_DURATION as u64);
            r.append("m");
            proof {
                assert(r@ =~= spec_status(self@, minutes as nat));
            }
        } else if !self.working && self.on_break && !self.on_long_break {
            r.append("Break (#");
            push_dec(&mut r, self.break_count as u64);
            r.append("): ");
            push_dec(&mut r, minutes);
            r.append("m/");
            push_dec(&mut r, BREAK_DURATION as u64);
            r.append("m");
            proof {
                assert(r@ =~= spec_status(self@, minutes as nat));
            }
        } else if !self.working && !self.on_break && self.on_long_break {
            r.append("Long Break (#");
            push_dec(&mut r, self.break_count as u64);
            r.append("): ");
            push_dec(&mut r, minutes);
            r.append("m/");
            push_dec(&mut r, LONG_BREAK_DURATION as u64);
            r.append("m");
            proof {
                assert(r@ =~= spec_status(self@, minutes as nat));
            }
        } else {
            r.append("???");
            proof {
                assert(r@ =~= spec_status(self@, minutes as nat));
            }
        }
        r
    }

    /// The status line for this state, read against the clock: the elapsed
    /// minutes of the current phase, clamped to zero when the phase timestamp
    /// yields no reading or a negative one.
    pub fn status(&self) -> (r: String)
        ensures
            exists|m: nat| r@ == spec_status(self@, m),
            is_in_work(self@) && self@.start_date_time.len() == 0 ==> r@ == spec_status(self@, 0),
            !is_in_work(self@) && self@.break_date_time.len() == 0 ==> r@ == spec_status(self@, 0),
    {
        let ts: &str = if self.working {
            self.start_date_time.as_str()
        } else {
            self.break_date_time.as_str()
        };
        let minutes: u64 = match minutes_since(ts) {
            Some(m) => if m >= 0 {
                m as u64
            } else {
                0
            },
            None => 0,
        };
        let r = self.render_status(minutes);
        proof {
            assert(r@ == spec_status(self@, minutes as nat));
        }
        r
    }
}

} // verus!
