//! The decisions of the control loop, which runs once a second: writing the duty (taking
//! control again when the mode changed, noticing another writer), counting I2C failures,
//! following whether the GPU temperature can be read, and the texts it logs and publishes.

use vstd::prelude::*;
use crate::config::{curve_text, format_curve, Config, ConfigModel, CurveModel, Curve};
use crate::fanconnect::{
    take_control_plan, writes_of, Access, FanConnect, FanConnectError, MODE_HOST, REG_DUTY,
    REG_MODE,
};
use crate::text::{decimal, push_decimal, push_str};

verus! {

/// How often "another program is writing the duty" is repeated while it keeps happening.
pub const OTHER_WRITER_LOG_INTERVAL_MS: u64 = 60_000;
/// The control loop gives up after this many I2C failures in a row.
pub const MAX_I2C_FAILURES: u32 = 10;
/// While NVML is unavailable, opening it is retried this often.
pub const GPU_RETRY_MS: u64 = 5_000;
/// Duty used when the GPU temperature cannot be read or the daemon stops, in percent.
pub const FAILSAFE_DUTY: u32 = 100;

/// A known program that writes the FanConnect duty itself, if it is running.
pub fn other_controller_running(fan_service_running: bool) -> (r: Option<&'static str>)
    ensures
        fan_service_running ==> r == Some(
            "GPU Tweak III's external fan service (ASUSGPUFanServiceEx.exe)",
        ),
        !fan_service_running ==> r is None,
{
    if fan_service_running {
        Some("GPU Tweak III's external fan service (ASUSGPUFanServiceEx.exe)")
    } else {
        None
    }
}

// ----- writing the duty -----

/// Something worth logging that happened while writing the duty.
#[derive(Clone, Copy, Debug, PartialEq, Eq)]
pub enum WriterNote {
    /// The mode was not host mode, so control was taken again.
    RetakingControl { mode: u8 },
    /// The duty register did not hold the last value written.
    OtherWriter { current: u8, last: u8 },
}

/// Times are milliseconds on a clock that never goes back.
pub struct Writer {
    pub last_written: Option<u8>,
    pub other_writer_logged: Option<u64>,
    pub other_writer_seen: Option<u64>,
}

/// The duty register changed since our last write.
pub open spec fn other_writer(last: Option<u8>, current: u8) -> bool {
    last matches Some(l) && current != l
}

/// A minute or more since the last "other writer" message, or none yet.
pub open spec fn log_due(logged: Option<u64>, now: u64) -> bool {
    match logged {
        None => true,
        Some(t) => now - t >= OTHER_WRITER_LOG_INTERVAL_MS,
    }
}

/// The accesses of one successful write: mode read, host control again if needed, duty read
/// back, duty written.
pub open spec fn apply_accesses(mode: u8, current: u8, value: u8) -> Seq<Access> {
    seq![Access::Read(REG_MODE, mode)] + (if mode != MODE_HOST {
        writes_of(take_control_plan(), 3, false)
    } else {
        seq![]
    }) + seq![Access::Read(REG_DUTY, current), Access::Write(REG_DUTY, value)]
}

pub open spec fn apply_notes(w: Writer, mode: u8, current: u8, now: u64) -> Seq<WriterNote> {
    (if mode != MODE_HOST {
        seq![WriterNote::RetakingControl { mode }]
    } else {
        seq![]
    }) + (if other_writer(w.last_written, current) && log_due(w.other_writer_logged, now) {
        seq![WriterNote::OtherWriter { current, last: w.last_written->0 }]
    } else {
        seq![]
    })
}

/// The writer after writing `value` with `current` read back before.
pub open spec fn writer_after(w: Writer, current: u8, value: u8, now: u64) -> Writer {
    let other = other_writer(w.last_written, current);
    Writer {
        last_written: Some(value),
        other_writer_seen: if other {
            Some(now)
        } else {
            w.other_writer_seen
        },
        other_writer_logged: if other && log_due(w.other_writer_logged, now) {
            Some(now)
        } else {
            w.other_writer_logged
        },
    }
}

/// The status warning while another writer was seen in the last minute.
pub open spec fn writer_warning(w: Writer, now: u64, who: Option<&str>) -> Option<Seq<char>> {
    match w.other_writer_seen {
        Some(t) => if now - t < OTHER_WRITER_LOG_INTERVAL_MS {
            Some(
                match who {
                    Some(name) => name@,
                    None => "Another program"@,
                } + " is also setting the fan duty"@,
            )
        } else {
            None
        },
        None => None,
    }
}

/// The transfer `a` as it looks when it failed.
pub open spec fn as_failed(a: Access) -> Access {
    match a {
        Access::Read(reg, _) => Access::ReadFailed(reg),
        Access::Write(reg, value) => Access::WriteFailed(reg, value),
        other => other,
    }
}

/// The first `k` transfers of `plan` made, then transfer `k` failed and nothing more was tried.
pub open spec fn failed_at(plan: Seq<Access>, k: int) -> Seq<Access> {
    plan.take(k).push(as_failed(plan[k]))
}

/// The writer after a write cycle failed at transfer `k` of `apply_accesses(mode, current,
/// value)`: unchanged, unless only the duty write itself failed, when the other-writer state
/// was already updated (but nothing counts as written).
pub open spec fn writer_after_failure(w: Writer, mode: u8, current: u8, value: u8, now: u64, k: int) -> Writer {
    if k == apply_accesses(mode, current, value).len() - 1 {
        Writer {
            last_written: w.last_written,
            other_writer_seen: writer_after(w, current, value, now).other_writer_seen,
            other_writer_logged: writer_after(w, current, value, now).other_writer_logged,
        }
    } else {
        w
    }
}

/// The notes of a write cycle that failed at transfer `k`: none if the mode could not be read,
/// the note on taking control again once the mode was read as another one, and all of them if
/// only the duty write failed.
pub open spec fn notes_after_failure(w: Writer, mode: u8, current: u8, value: u8, now: u64, k: int) -> Seq<
    WriterNote,
> {
    if k == 0 {
        seq![]
    } else if k == apply_accesses(mode, current, value).len() - 1 {
        apply_notes(w, mode, current, now)
    } else if mode != MODE_HOST {
        seq![WriterNote::RetakingControl { mode }]
    } else {
        seq![]
    }
}

fn log_due_exec(logged: Option<u64>, now: u64) -> (b: bool)
    ensures
        b == log_due(logged, now),
{
    match logged {
        None => true,
        Some(t) => now >= t && now - t >= OTHER_WRITER_LOG_INTERVAL_MS,
    }
}

impl Writer {
    pub fn new() -> (w: Writer)
        ensures
            w.last_written is None,
            w.other_writer_logged is None,
            w.other_writer_seen is None,
    {
        Writer { last_written: None, other_writer_logged: None, other_writer_seen: None }
    }

    /// One control write of the duty register `value` at time `now_ms`: takes host control
    /// again if the mode changed, and notices when something else changed the duty since the
    /// last write.
    pub fn apply(
        &mut self,
        fc: &mut FanConnect,
        value: u8,
        now_ms: u64,
        notes: &mut Vec<WriterNote>,
    ) -> (r: Result<(), FanConnectError>)
        requires
            old(fc).wf(),
        ensures
            final(fc).wf(),
            r is Ok ==> exists|mode: u8, current: u8|
                #![trigger apply_accesses(mode, current, value)]
                final(fc).accesses() == old(fc).accesses() + apply_accesses(mode, current, value)
                    && *final(self) == writer_after(*old(self), current, value, now_ms)
                    && final(notes)@ == old(notes)@ + apply_notes(*old(self), mode, current, now_ms),
            r is Err ==> exists|mode: u8, current: u8, k: int|
                #![trigger failed_at(apply_accesses(mode, current, value), k)]
                0 <= k < apply_accesses(mode, current, value).len() && final(fc).accesses()
                    == old(fc).accesses() + failed_at(apply_accesses(mode, current, value), k)
                    && *final(self) == writer_after_failure(
                    *old(self),
                    mode,
                    current,
                    value,
                    now_ms,
                    k,
                ) && final(notes)@ == old(notes)@ + notes_after_failure(
                    *old(self),
                    mode,
                    current,
                    value,
                    now_ms,
                    k,
                ),
    {
        let ghost start = fc.accesses();
        let ghost notes0 = notes@;
        let ghost w0 = *self;
        let mode = match fc.mode() {
            Ok(m) => m,
            Err(e) => {
                proof {
                    let a = apply_accesses(0, 0, value);
                    assert(failed_at(a, 0) =~= seq![Access::ReadFailed(REG_MODE)]);
                    assert(fc.accesses() =~= start + failed_at(a, 0));
                    assert(notes@ =~= notes0 + notes_after_failure(w0, 0, 0, value, now_ms, 0));
                }
                return Err(e);
            },
        };
        let ghost tc: Seq<Access> = if mode != MODE_HOST {
            writes_of(take_control_plan(), 3, false)
        } else {
            seq![]
        };
        if mode != MODE_HOST {
            notes.push(WriterNote::RetakingControl { mode });
            let ghost before_take = fc.accesses();
            match fc.take_control() {
                Ok(()) => {},
                Err(e) => {
                    proof {
                        let n = choose|n: int|
                            0 <= n < 3 && fc.accesses() == before_take + writes_of(
                                take_control_plan(),
                                n,
                                true,
                            );
                        let a = apply_accesses(mode, 0, value);
                        let k = 1 + n;
                        assert(failed_at(a, k) =~= seq![Access::Read(REG_MODE, mode)] + writes_of(
                            take_control_plan(),
                            n,
                            true,
                        ));
                        assert(fc.accesses() =~= start + failed_at(a, k));
                        assert(notes@ =~= notes0 + notes_after_failure(w0, mode, 0, value, now_ms, k));
                    }
                    return Err(e);
                },
            }
        }
        assert(fc.accesses() =~= start + seq![Access::Read(REG_MODE, mode)] + tc);
        let current = match fc.duty_reg() {
            Ok(c) => c,
            Err(e) => {
                proof {
                    let a = apply_accesses(mode, 0, value);
                    let k: int = 1 + tc.len() as int;
                    assert(failed_at(a, k) =~= seq![Access::Read(REG_MODE, mode)] + tc + seq![
                        Access::ReadFailed(REG_DUTY),
                    ]);
                    assert(fc.accesses() =~= start + failed_at(a, k));
                    assert(notes@ =~= notes0 + notes_after_failure(w0, mode, 0, value, now_ms, k));
                }
                return Err(e);
            },
        };
        if let Some(last) = self.last_written {
            if current != last {
                self.other_writer_seen = Some(now_ms);
                if log_due_exec(self.other_writer_logged, now_ms) {
                    notes.push(WriterNote::OtherWriter { current, last });
                    self.other_writer_logged = Some(now_ms);
                }
            }
        }
        match fc.set_duty_reg(value) {
            Ok(()) => {},
            Err(e) => {
                proof {
                    let a = apply_accesses(mode, current, value);
                    let k: int = 2 + tc.len() as int;
                    assert(a.len() == 3 + tc.len());
                    assert(failed_at(a, k) =~= seq![Access::Read(REG_MODE, mode)] + tc + seq![
                        Access::Read(REG_DUTY, current),
                        Access::WriteFailed(REG_DUTY, value),
                    ]);
                    assert(fc.accesses() =~= start + failed_at(a, k));
                    assert(notes@ =~= notes0 + notes_after_failure(w0, mode, current, value, now_ms, k));
                    assert(*self == writer_after_failure(w0, mode, current, value, now_ms, k));
                }
                return Err(e);
            },
        }
        self.last_written = Some(value);
        proof {
            assert(fc.accesses() =~= start + apply_accesses(mode, current, value));
            assert(notes@ =~= notes0 + apply_notes(w0, mode, current, now_ms));
        }
        Ok(())
    }

    /// A warning for the status file while another writer was seen in the last minute.
    pub fn warning(&self, now_ms: u64, who: Option<&str>) -> (r: Option<String>)
        ensures
            match writer_warning(*self, now_ms, who) {
                Some(m) => r matches Some(s) && s@ == m,
                None => r is None,
            },
    {
        match self.other_writer_seen {
            Some(t) => {
                if now_ms < t || now_ms - t < OTHER_WRITER_LOG_INTERVAL_MS {
                    let mut s = String::new();
                    match who {
                        Some(name) => push_str(&mut s, name),
                        None => push_str(&mut s, "Another program"),
                    }
                    push_str(&mut s, " is also setting the fan duty");
                    proof {
                        let w = writer_warning(*self, now_ms, who);
                        assert(s@ =~= w->0);
                    }
                    Some(s)
                } else {
                    None
                }
            },
            None => None,
        }
    }
}

// ----- failures in a row -----

/// Consecutive failed control writes.
pub struct FailureCount {
    pub failures: u32,
}

/// The count after the outcomes of the writes in order (`true` for success).
pub open spec fn count_after(outcomes: Seq<bool>) -> nat
    decreases outcomes.len(),
{
    if outcomes.len() == 0 {
        0
    } else if outcomes.last() {
        0
    } else {
        count_after(outcomes.drop_last()) + 1
    }
}

impl FailureCount {
    pub fn new() -> (c: FailureCount)
        ensures
            c.failures == 0,
    {
        FailureCount { failures: 0 }
    }

    /// Counts one write; `true` means give up (the tenth failure in a row).
    pub fn record(&mut self, ok: bool) -> (give_up: bool)
        requires
            old(self).failures < MAX_I2C_FAILURES,
        ensures
            final(self).failures == (if ok {
                0
            } else {
                old(self).failures + 1
            }),
            give_up == (final(self).failures >= MAX_I2C_FAILURES),
    {
        if ok {
            self.failures = 0;
        } else {
            self.failures = self.failures + 1;
        }
        self.failures >= MAX_I2C_FAILURES
    }
}

/// The count is always the number of failures at the end of the outcomes since the last
/// success: the loop gives up exactly when the last ten writes all failed.
pub proof fn count_is_failures_in_a_row(outcomes: Seq<bool>)
    ensures
        count_after(outcomes) <= outcomes.len(),
        forall|i: int|
            outcomes.len() - count_after(outcomes) <= i < outcomes.len() ==> !outcomes[i],
        count_after(outcomes) < outcomes.len() ==> outcomes[outcomes.len() - 1 - count_after(
            outcomes,
        )],
    decreases outcomes.len(),
{
    if outcomes.len() > 0 && !outcomes.last() {
        let rest = outcomes.drop_last();
        count_is_failures_in_a_row(rest);
        assert forall|i: int|
            outcomes.len() - count_after(outcomes) <= i < outcomes.len() implies !outcomes[i] by {
            if i < outcomes.len() - 1 {
                assert(rest[i] == outcomes[i]);
            }
        }
        if count_after(outcomes) < outcomes.len() {
            assert(rest[rest.len() - 1 - count_after(rest)] == outcomes[outcomes.len() - 1
                - count_after(outcomes)]);
        }
    }
}

// ----- GPU temperature -----

/// How the GPU temperature read went this cycle.
#[derive(Clone, Copy, Debug, PartialEq, Eq)]
pub enum TempReading {
    Read,
    Failed,
    /// NVML is not open.
    NoGpu,
}

/// A change worth logging.
#[derive(Clone, Copy, Debug, PartialEq, Eq)]
pub enum TempNote {
    /// The read failed after working: the fail-safe duty is used.
    Unreadable,
    ReadableAgain,
}

pub struct TempWatch {
    pub temp_ok: bool,
}

impl TempWatch {
    pub fn new() -> (w: TempWatch)
        ensures
            w.temp_ok,
    {
        TempWatch { temp_ok: true }
    }

    /// Follows whether the temperature could be read; reports a change once.
    pub fn observe(&mut self, reading: TempReading) -> (note: Option<TempNote>)
        ensures
            final(self).temp_ok == (reading == TempReading::Read),
            note == (if reading == TempReading::Failed && old(self).temp_ok {
                Some(TempNote::Unreadable)
            } else if reading == TempReading::Read && !old(self).temp_ok {
                Some(TempNote::ReadableAgain)
            } else {
                None
            }),
    {
        let note = match reading {
            TempReading::Failed => if self.temp_ok {
                Some(TempNote::Unreadable)
            } else {
                None
            },
            TempReading::Read => if !self.temp_ok {
                Some(TempNote::ReadableAgain)
            } else {
                None
            },
            TempReading::NoGpu => None,
        };
        self.temp_ok = match reading {
            TempReading::Read => true,
            _ => false,
        };
        note
    }
}

/// Whether to try opening NVML again: it is closed and the last attempt was five seconds ago.
pub fn gpu_retry_due(has_gpu: bool, since_attempt_ms: u64) -> (b: bool)
    ensures
        b == (!has_gpu && since_attempt_ms >= GPU_RETRY_MS),
{
    !has_gpu && since_attempt_ms >= GPU_RETRY_MS
}

/// The warning published in the status file: an unreadable temperature (the fail-safe duty
/// is in use) comes before another writer.
pub fn status_warning(temp_readable: bool, writer_warning: Option<String>) -> (r: Option<String>)
    ensures
        !temp_readable ==> (r matches Some(s) && s@
            == "GPU temperature unreadable, fans at the fail-safe "@ + decimal(FAILSAFE_DUTY as nat)
            + " %"@),
        temp_readable ==> r == writer_warning,
{
    if temp_readable {
        writer_warning
    } else {
        let mut s = String::new();
        push_str(&mut s, "GPU temperature unreadable, fans at the fail-safe ");
        push_decimal(&mut s, FAILSAFE_DUTY as u128);
        push_str(&mut s, " %");
        Some(s)
    }
}

/// The settings as logged: the curve and the max temp.
pub open spec fn describe_text(c: ConfigModel) -> Seq<char> {
    match c.curve {
        CurveModel::Auto => "Auto curve, max temp "@ + decimal(c.max_temp as nat) + " °C"@,
        CurveModel::Custom(_) => "custom curve "@ + curve_text(c.curve) + ", max temp "@ + decimal(
            c.max_temp as nat,
        ) + " °C"@,
    }
}

pub fn describe(config: &Config) -> (r: String)
    ensures
        r@ == describe_text(config@),
{
    let mut s = String::new();
    match &config.curve {
        Curve::Auto => {
            push_str(&mut s, "Auto curve, max temp ");
        },
        Curve::Custom(_) => {
            push_str(&mut s, "custom curve ");
            let t = format_curve(&config.curve);
            push_str(&mut s, t.as_str());
            push_str(&mut s, ", max temp ");
        },
    }
    push_decimal(&mut s, config.max_temp as u128);
    push_str(&mut s, " °C");
    assert(s@ =~= describe_text(config@));
    s
}

/// A duty is only ever written with the controller in host mode: in every successful write
/// cycle the duty write comes last, and before it the mode was either read as host mode or
/// host mode was written.
pub proof fn duty_written_under_host_control(mode: u8, current: u8, value: u8)
    ensures
        apply_accesses(mode, current, value).last() == Access::Write(REG_DUTY, value),
        exists|i: int|
            0 <= i < apply_accesses(mode, current, value).len() - 1 && {
                ||| #[trigger] apply_accesses(mode, current, value)[i] == Access::Read(
                    REG_MODE,
                    MODE_HOST,
                )
                ||| apply_accesses(mode, current, value)[i] == Access::Write(REG_MODE, MODE_HOST)
            },
{
    let a = apply_accesses(mode, current, value);
    if mode == MODE_HOST {
        assert(a[0] == Access::Read(REG_MODE, MODE_HOST));
    } else {
        assert(a[1] == Access::Write(REG_MODE, MODE_HOST));
    }
}

/// Another writer is noticed only from the duty read back: when it is the value this daemon
/// wrote last (or nothing was written yet), nothing about another writer changes and no such
/// note is made, whatever new value is written; when it differs from the value written last,
/// another writer is seen now. Either way the new value counts as written.
pub proof fn other_writer_only_when_duty_changed(w: Writer, mode: u8, current: u8, value: u8, now: u64)
    ensures
        writer_after(w, current, value, now).last_written == Some(value),
        w.last_written == Some(current) || w.last_written is None ==> {
            &&& writer_after(w, current, value, now).other_writer_seen == w.other_writer_seen
            &&& writer_after(w, current, value, now).other_writer_logged == w.other_writer_logged
            &&& apply_notes(w, mode, current, now) == (if mode != MODE_HOST {
                seq![WriterNote::RetakingControl { mode }]
            } else {
                seq![]
            })
        },
        (w.last_written matches Some(last) && last != current) ==> writer_after(
            w,
            current,
            value,
            now,
        ).other_writer_seen == Some(now),
{
    if w.last_written == Some(current) || w.last_written is None {
        assert(apply_notes(w, mode, current, now) =~= (if mode != MODE_HOST {
            seq![WriterNote::RetakingControl { mode }]
        } else {
            seq![]
        }));
    }
}

} // verus!
