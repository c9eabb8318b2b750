//! The desktop app's live values: once a second a sample is taken, from the daemon's status when
//! it is fresh and otherwise from the card itself, and kept with ten minutes of history.

use vstd::prelude::*;
use crate::panel::Source;

verus! {

/// Ten minutes of history at one sample per second.
pub const HISTORY_LEN: usize = 600;
/// How long to wait before trying to open the controller again after a failed attempt.
pub const DIRECT_RETRY_MS: u64 = 5_000;
/// A fan that reports 0 RPM at this duty or more is worth a warning (percent).
pub const STALL_WARN_DUTY: u32 = 30;

/// The history after one more sample: appended at the end, the oldest dropped once full.
pub open spec fn history_after<T>(h: Seq<T>, s: T) -> Seq<T> {
    if h.len() >= HISTORY_LEN {
        h.drop_first().push(s)
    } else {
        h.push(s)
    }
}

/// Appends a sample to the history, dropping the oldest one once it holds `HISTORY_LEN`.
pub fn push_history<T>(h: &mut Vec<T>, s: T)
    ensures
        final(h)@ == history_after(old(h)@, s),
{
    if h.len() >= HISTORY_LEN {
        h.remove(0);
    }
    h.push(s);
    proof {
        if old(h)@.len() >= HISTORY_LEN {
            assert(old(h)@.remove(0) =~= old(h)@.drop_first());
        }
    }
}

/// Where this second's sample comes from: the daemon while its status is fresh, else the card.
pub fn live_source(status_fresh: bool) -> (s: Source)
    ensures
        s == (if status_fresh {
            Source::Daemon
        } else {
            Source::Direct
        }),
{
    if status_fresh {
        Source::Daemon
    } else {
        Source::Direct
    }
}

/// Whether to try opening the controller for direct reads now: only while none is open, and
/// at most once every `DIRECT_RETRY_MS` after the last attempt.
pub fn direct_open_due(controller_open: bool, last_attempt_ms: Option<u64>, now_ms: u64) -> (r: bool)
    ensures
        r == (!controller_open && match last_attempt_ms {
            None => true,
            Some(a) => now_ms >= a + DIRECT_RETRY_MS,
        }),
{
    if controller_open {
        return false;
    }
    match last_attempt_ms {
        None => true,
        Some(a) => now_ms >= a && now_ms - a >= DIRECT_RETRY_MS,
    }
}

/// The note under a fan's speed: a warning when it reports 0 RPM although the duty read back
/// from the card is at least `STALL_WARN_DUTY` percent (register value 77 or more).
pub open spec fn stall_warning(rpm: u32, duty_reg: Option<u8>) -> Seq<char> {
    if rpm == 0 && (duty_reg matches Some(d) && d * 100 >= STALL_WARN_DUTY * 255) {
        "⚠ Reports 0 RPM"@
    } else {
        ""@
    }
}

/// The note under a fan's speed, from its RPM and the duty register of the latest sample.
pub fn zero_rpm_warning(rpm: u32, duty_reg: Option<u8>) -> (r: &'static str)
    ensures
        r@ == stall_warning(rpm, duty_reg),
{
    let stalled = match duty_reg {
        Some(d) => rpm == 0 && d as u32 * 100 >= STALL_WARN_DUTY * 255,
        None => false,
    };
    if stalled {
        "⚠ Reports 0 RPM"
    } else {
        ""
    }
}

/// What one second's collection produced.
pub enum Reading<T> {
    /// A sample from the daemon's fresh status, and where the daemon found the controller
    /// (empty if it did not say).
    FromDaemon { sample: T, controller: String },
    /// A sample read from the card directly, and where the controller is.
    FromCard { sample: T, controller: String },
    /// Neither worked, and why.
    Failed { error: String },
}

/// The live values the app shows: the latest sample, the history, where they come from, the
/// last error and where the controller is.
pub struct Live<T> {
    history: Vec<T>,
    has_latest: bool,
    source: Option<Source>,
    error: Option<String>,
    controller: Option<String>,
}

impl<T> Live<T> {
    /// The samples kept, oldest first.
    pub closed spec fn history_view(&self) -> Seq<T> {
        self.history@
    }

    /// The latest sample, if the last collection produced one.
    pub closed spec fn latest_view(&self) -> Option<T> {
        if self.has_latest && self.history@.len() > 0 {
            Some(self.history@.last())
        } else {
            None
        }
    }

    /// Where the latest sample came from; `None` while there is none.
    pub closed spec fn source_view(&self) -> Option<Source> {
        self.source
    }

    /// Why the last collection failed, if it did.
    pub closed spec fn error_view(&self) -> Option<Seq<char>> {
        match self.error {
            Some(e) => Some(e@),
            None => None,
        }
    }

    /// Where the controller is, when known.
    pub closed spec fn controller_view(&self) -> Option<Seq<char>> {
        match self.controller {
            Some(c) => Some(c@),
            None => None,
        }
    }

    /// Nothing collected yet.
    pub fn new() -> (l: Live<T>)
        ensures
            l.history_view() == Seq::<T>::empty(),
            l.latest_view() is None,
            l.source_view() is None,
            l.error_view() is None,
            l.controller_view() is None,
    {
        Live { history: Vec::new(), has_latest: false, source: None, error: None, controller: None }
    }

    /// Takes in one second's reading. A sample becomes the latest and joins the history; a
    /// failure clears the latest sample and keeps its error. The source, the error and the
    /// controller's location always describe the last reading.
    pub fn record(&mut self, reading: Reading<T>)
        ensures
            match reading {
                Reading::FromDaemon { sample, controller } => {
                    &&& final(self).history_view() == history_after(old(self).history_view(), sample)
                    &&& final(self).latest_view() == Some(sample)
                    &&& final(self).source_view() == Some(Source::Daemon)
                    &&& final(self).error_view() is None
                    &&& final(self).controller_view() == (if controller@.len() == 0 {
                        None
                    } else {
                        Some(controller@)
                    })
                },
                Reading::FromCard { sample, controller } => {
                    &&& final(self).history_view() == history_after(old(self).history_view(), sample)
                    &&& final(self).latest_view() == Some(sample)
                    &&& final(self).source_view() == Some(Source::Direct)
                    &&& final(self).error_view() is None
                    &&& final(self).controller_view() == Some(controller@)
                },
                Reading::Failed { error } => {
                    &&& final(self).history_view() == old(self).history_view()
                    &&& final(self).latest_view() is None
                    &&& final(self).source_view() is None
                    &&& final(self).error_view() == Some(error@)
                    &&& final(self).controller_view() is None
                },
            },
    {
        match reading {
            Reading::FromDaemon { sample, controller } => {
                push_history(&mut self.history, sample);
                self.has_latest = true;
                self.source = Some(Source::Daemon);
                self.error = None;
                self.controller = if controller.as_str().unicode_len() == 0 {
                    None
                } else {
                    Some(controller)
                };
            },
            Reading::FromCard { sample, controller } => {
                push_history(&mut self.history, sample);
                self.has_latest = true;
                self.source = Some(Source::Direct);
                self.error = None;
                self.controller = Some(controller);
            },
            Reading::Failed { error } => {
                self.has_latest = false;
                self.source = None;
                self.error = Some(error);
                self.controller = None;
            },
        }
    }

    /// Where the latest sample came from; `None` while there is none.
    pub fn source(&self) -> (r: Option<Source>)
        ensures
            r == self.source_view(),
    {
        self.source
    }

    /// Why the last collection failed, if it did.
    pub fn error(&self) -> (r: Option<&str>)
        ensures
            match r {
                Some(e) => self.error_view() == Some(e@),
                None => self.error_view() is None,
            },
    {
        match &self.error {
            Some(e) => Some(e.as_str()),
            None => None,
        }
    }

    /// Where the controller is, when known.
    pub fn controller(&self) -> (r: Option<&str>)
        ensures
            match r {
                Some(c) => self.controller_view() == Some(c@),
                None => self.controller_view() is None,
            },
    {
        match &self.controller {
            Some(c) => Some(c.as_str()),
            None => None,
        }
    }

    /// The samples kept, oldest first.
    pub fn history(&self) -> (r: &Vec<T>)
        ensures
            r@ == self.history_view(),
    {
        &self.history
    }

    /// The latest sample, if the last collection produced one.
    pub fn latest(&self) -> (r: Option<&T>)
        ensures
            match r {
                Some(s) => self.latest_view() == Some(*s),
                None => self.latest_view() is None,
            },
    {
        let n = self.history.len();
        if self.has_latest && n > 0 {
            Some(&self.history[n - 1])
        } else {
            None
        }
    }
}

/// The history never holds more than `HISTORY_LEN` samples, however many are added, and the
/// newest sample is always its last.
pub proof fn history_stays_bounded<T>(h: Seq<T>, s: T)
    requires
        h.len() <= HISTORY_LEN,
    ensures
        history_after(h, s).len() <= HISTORY_LEN,
        history_after(h, s).last() == s,
        h.len() < HISTORY_LEN ==> history_after(h, s).len() == h.len() + 1,
        h.len() == HISTORY_LEN ==> history_after(h, s).len() == HISTORY_LEN,
{
}

} // verus!
