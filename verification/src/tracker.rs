//! The activity tracker: which language the time between two samples goes to,
//! which time is left out as idle, and how the sums are handed over.
//!
//! Instants are nanoseconds on a clock that never goes back, counted from any
//! origin; durations are nanoseconds.

use crate::times::{credit, lemma_total_bounds_each, lemma_total_credit, total, LanguageTimes};
use vstd::prelude::*;

verus! {

/// One second, in the nanoseconds that instants and durations are counted in.
pub const SECOND: u64 = 1_000_000_000;

/// The time between two looks at the focused window.
pub const CHECK_INTERVAL: u64 = 5 * SECOND;

/// The time after which the sums are handed over again.
pub const SEND_INTERVAL: u64 = 45 * SECOND;

/// The shortest duration worth sending.
pub const MIN_SEND_DURATION: u64 = 30 * SECOND;

/// A gap between two samples of this length or more is idle time.
pub const IDLE_THRESHOLD: u64 = 60 * SECOND;

/// The file in focus, as a sample found it.
pub struct Identity {
    pub language: Seq<char>,
    pub file_name: Seq<char>,
}

/// What an `ActivityTracker` stands for.
pub struct TrackerState {
    /// The time credited to each language since the sums were last handed over.
    pub accumulated: Map<Seq<char>, nat>,
    /// When the latest sample was taken; before the first one, when the
    /// tracker was made.
    pub last_activity_at: nat,
    /// When the sums were last handed over; before that, when the tracker was
    /// made.
    pub last_flush_at: nat,
    /// The file that the latest sample found in focus.
    pub current: Option<Identity>,
}

impl TrackerState {
    /// The state of a tracker made at `now`.
    pub open spec fn fresh(now: nat) -> TrackerState {
        TrackerState {
            accumulated: Map::empty(),
            last_activity_at: now,
            last_flush_at: now,
            current: None,
        }
    }

    /// The time from the latest sample to `now`.
    pub open spec fn gap(self, now: nat) -> nat {
        if now >= self.last_activity_at {
            (now - self.last_activity_at) as nat
        } else {
            0
        }
    }

    /// Whether the time from the latest sample to `now` is credited: it is
    /// shorter than the idle threshold, and an earlier sample says to whom.
    pub open spec fn credits(self, now: nat) -> bool {
        self.current is Some && self.gap(now) < IDLE_THRESHOLD
    }

    /// The state after a sample of `file_name`, written in `language`, taken at
    /// `now`. The time since the sample before goes to the language of that
    /// earlier sample, never to `language`.
    pub open spec fn after_record(
        self,
        language: Seq<char>,
        file_name: Seq<char>,
        now: nat,
    ) -> TrackerState {
        TrackerState {
            accumulated: if self.credits(now) {
                credit(self.accumulated, self.current->0.language, self.gap(now))
            } else {
                self.accumulated
            },
            last_activity_at: now,
            last_flush_at: self.last_flush_at,
            current: Some(Identity { language, file_name }),
        }
    }

    /// Whether a sample of `file_name`, written in `language`, finds another
    /// file or another language in focus than the sample before it.
    pub open spec fn changes(self, language: Seq<char>, file_name: Seq<char>) -> bool {
        self.current != Some(Identity { language, file_name })
    }

    /// Whether at `now` it is time to hand the sums over again.
    pub open spec fn send_is_due(self, now: nat) -> bool {
        now - self.last_flush_at >= SEND_INTERVAL
    }

    /// The state after the sums have been handed over at `now`.
    pub open spec fn after_reset(self, now: nat) -> TrackerState {
        TrackerState {
            accumulated: Map::empty(),
            last_activity_at: self.last_activity_at,
            last_flush_at: now,
            current: self.current,
        }
    }
}

/// Accumulates, per language, the time during which files of that language
/// were in focus.
#[derive(Debug)]
pub struct ActivityTracker {
    language_times: LanguageTimes,
    last_activity: u64,
    last_sent: u64,
    current_language: Option<String>,
    current_file: Option<String>,
}

impl View for ActivityTracker {
    type V = TrackerState;

    closed spec fn view(&self) -> TrackerState {
        TrackerState {
            accumulated: self.language_times@,
            last_activity_at: self.last_activity as nat,
            last_flush_at: self.last_sent as nat,
            current: match (self.current_language, self.current_file) {
                (Some(language), Some(file_name)) => Some(
                    Identity { language: language@, file_name: file_name@ },
                ),
                _ => None,
            },
        }
    }
}

impl ActivityTracker {
    /// The tracker's invariant: the language and the file in focus are known
    /// together or not at all, and all the time credited lies before the
    /// latest sample.
    pub closed spec fn wf(&self) -> bool {
        &&& self.language_times.wf()
        &&& self.current_language is Some <==> self.current_file is Some
        &&& total(self.language_times@) <= self.last_activity
    }

    /// What holds of the state of every well-formed tracker.
    pub proof fn lemma_wf(&self)
        requires
            self.wf(),
        ensures
            self@.accumulated.dom().finite(),
            total(self@.accumulated) <= self@.last_activity_at,
            self@.last_activity_at <= u64::MAX,
            self@.last_flush_at <= u64::MAX,
    {
        self.language_times.lemma_order();
    }

    /// A tracker made at `now`, with nothing recorded.
    pub fn new(now: u64) -> (tracker: ActivityTracker)
        ensures
            tracker.wf(),
            tracker@ == TrackerState::fresh(now as nat),
    {
        ActivityTracker {
            language_times: LanguageTimes::new(),
            last_activity: now,
            last_sent: now,
            current_language: None,
            current_file: None,
        }
    }

    /// Takes in a sample: at `now` the file `filename`, written in `language`,
    /// is in focus. Tells whether that is another file or another language
    /// than at the sample before.
    ///
    /// The time since the sample before is credited to the language of that
    /// earlier sample if it is shorter than `IDLE_THRESHOLD`; a gap of that
    /// length or more is idle time and credited to nobody. The first sample
    /// of all credits nothing.
    ///
    /// `now` is read from a clock that never goes back, so it is not before
    /// the sample that the tracker saw last.
    pub fn record_activity(
        &mut self,
        language: String,
        filename: String,
        now: u64,
    ) -> (changed: bool)
        requires
            old(self).wf(),
            old(self)@.last_activity_at <= now,
        ensures
            final(self).wf(),
            final(self)@ == old(self)@.after_record(language@, filename@, now as nat),
            changed == old(self)@.changes(language@, filename@),
    {
        let time_since_last = now - self.last_activity;
        if time_since_last < IDLE_THRESHOLD {
            if let Some(lang) = &self.current_language {
                proof {
                    self.language_times.lemma_order();
                    lemma_total_bounds_each(self.language_times@, lang@);
                    lemma_total_credit(self.language_times@, lang@, time_since_last as nat);
                }
                self.language_times.add(lang.as_str(), time_since_last);
            }
        }
        let activity_changed = match (&self.current_language, &self.current_file) {
            (Some(lang), Some(file)) => !(*lang == language) || !(*file == filename),
            _ => true,
        };
        self.current_language = Some(language);
        self.current_file = Some(filename);
        self.last_activity = now;
        activity_changed
    }

    /// Whether at `now` it is time to hand the sums over again: `SEND_INTERVAL`
    /// or more has passed since they last were.
    pub fn should_send(&self, now: u64) -> (due: bool)
        ensures
            due == self@.send_is_due(now as nat),
    {
        now >= self.last_sent && now - self.last_sent >= SEND_INTERVAL
    }

    /// The time credited to each language since the sums were last handed
    /// over.
    pub fn language_times(&self) -> (times: &LanguageTimes)
        requires
            self.wf(),
        ensures
            times.wf(),
            times@ == self@.accumulated,
    {
        &self.language_times
    }

    /// When the latest sample was taken.
    pub fn last_activity(&self) -> (at: u64)
        ensures
            at == self@.last_activity_at,
    {
        self.last_activity
    }

    /// When the sums were last handed over.
    pub fn last_sent(&self) -> (at: u64)
        ensures
            at == self@.last_flush_at,
    {
        self.last_sent
    }

    /// The language of the file that the latest sample found in focus.
    pub fn current_language(&self) -> (language: Option<&str>)
        requires
            self.wf(),
        ensures
            match language {
                Some(name) => self@.current is Some && name@ == self@.current->0.language,
                None => self@.current is None,
            },
    {
        match &self.current_language {
            Some(language) => Some(language.as_str()),
            None => None,
        }
    }

    /// The file that the latest sample found in focus.
    pub fn current_file(&self) -> (file_name: Option<&str>)
        requires
            self.wf(),
        ensures
            match file_name {
                Some(name) => self@.current is Some && name@ == self@.current->0.file_name,
                None => self@.current is None,
            },
    {
        match &self.current_file {
            Some(file_name) => Some(file_name.as_str()),
            None => None,
        }
    }

    /// Hands over the sums and starts again from nothing, at `now`.
    pub fn get_and_reset(&mut self, now: u64) -> (data: LanguageTimes)
        requires
            old(self).wf(),
        ensures
            final(self).wf(),
            data.wf(),
            data@ == old(self)@.accumulated,
            final(self)@ == old(self)@.after_reset(now as nat),
    {
        self.last_sent = now;
        let mut data = LanguageTimes::new();
        core::mem::swap(&mut data, &mut self.language_times);
        data
    }
}

} // verus!
