//! What the two periodic tasks decide: on each look at the focused window,
//! what to record and whether to announce it; on each turn of the sender,
//! whether to hand the sums over and which of them to send.
//!
//! The tasks themselves, their timers and the lock round the tracker are the
//! caller's part.

use crate::language::{detect_language, display_name, get_display_name, language_of};
use crate::times::{lasting, LanguageTimes};
use crate::tracker::{ActivityTracker, MIN_SEND_DURATION, SECOND};
use vstd::prelude::*;

verus! {

/// The file in focus is announced again once more than this has passed
/// without a notice.
pub const QUIET_INTERVAL: u64 = 300 * SECOND;

/// A notice for the log: the file now tracked and the label of its language.
#[derive(Debug)]
pub struct Notice {
    pub file_name: String,
    pub language_label: &'static str,
}

impl Notice {
    /// Whether this is the notice for the file named `file_name`.
    pub open spec fn is_for(self, file_name: Seq<char>) -> bool {
        &&& self.file_name@ == file_name
        &&& self.language_label@ == display_name(language_of(file_name))
    }

    /// The notice for the file named `file_name`.
    pub fn for_file(file_name: String) -> (notice: Notice)
        ensures
            notice.is_for(file_name@),
    {
        let language = detect_language(file_name.as_str());
        let language_label = get_display_name(language.as_str());
        Notice { file_name, language_label }
    }
}

/// The task that looks at the focused window: it remembers when it last wrote
/// a notice.
#[derive(Debug)]
pub struct Poller {
    last_periodic_log: u64,
}

impl View for Poller {
    type V = nat;

    /// When the last notice was written; before the first one, when the
    /// poller was made.
    closed spec fn view(&self) -> nat {
        self.last_periodic_log as nat
    }
}

impl Poller {
    /// Whether a sample taken at `now` is announced: it found a change, or
    /// more than `QUIET_INTERVAL` has passed since the last notice.
    pub open spec fn announces(last_notice_at: nat, changed: bool, now: nat) -> bool {
        changed || now - last_notice_at > QUIET_INTERVAL
    }

    /// A poller made at `now`.
    pub fn new(now: u64) -> (poller: Poller)
        ensures
            poller@ == now,
    {
        Poller { last_periodic_log: now }
    }

    /// One look at the focused window, at `now`. `file_name` is the file that
    /// the editor shows, or `None` where the editor does not have the focus or
    /// shows no file: then there is no sample, and nothing changes. Nor is
    /// there one where `now` lies before the sample that the tracker saw last:
    /// the clock never goes back, so such a reading is dropped.
    ///
    /// Else the file is recorded under the language of its name, and the
    /// result is the notice to write, if one is due.
    pub fn tick(
        &mut self,
        tracker: &mut ActivityTracker,
        file_name: Option<String>,
        now: u64,
    ) -> (notice: Option<Notice>)
        requires
            old(tracker).wf(),
        ensures
            final(tracker).wf(),
            if file_name is Some && old(tracker)@.last_activity_at <= now {
                let name = file_name->0@;
                let changed = old(tracker)@.changes(language_of(name), name);
                &&& final(tracker)@ == old(tracker)@.after_record(
                    language_of(name),
                    name,
                    now as nat,
                )
                &&& notice is Some <==> Self::announces(old(self)@, changed, now as nat)
                &&& notice is Some ==> notice->0.is_for(name)
                &&& final(self)@ == if notice is Some {
                    now as nat
                } else {
                    old(self)@
                }
            } else {
                &&& notice is None
                &&& *final(tracker) == *old(tracker)
                &&& final(self)@ == old(self)@
            },
    {
        match file_name {
            None => None,
            Some(filename) => {
                if now < tracker.last_activity() {
                    return None;
                }
                let language = detect_language(filename.as_str());
                let language_label = get_display_name(language.as_str());
                let activity_changed = tracker.record_activity(language, filename.clone(), now);
                let quiet = now >= self.last_periodic_log && now - self.last_periodic_log
                    > QUIET_INTERVAL;
                if activity_changed || quiet {
                    self.last_periodic_log = now;
                    Some(Notice { file_name: filename, language_label })
                } else {
                    None
                }
            },
        }
    }
}

/// The sums that are sent: those of `MIN_SEND_DURATION` or more. Shorter ones
/// are dropped.
pub fn sendable(data: &LanguageTimes) -> (to_send: LanguageTimes)
    requires
        data.wf(),
    ensures
        to_send.wf(),
        to_send@ == lasting(data@, MIN_SEND_DURATION as nat),
{
    data.at_least(MIN_SEND_DURATION)
}

/// One turn of the sender, at `now`. Where sending is due, the tracker hands
/// its sums over and starts again from nothing, and the result holds those of
/// the sums that are sent. Where it is not due, nothing changes and nothing is
/// sent.
pub fn flush_tick(tracker: &mut ActivityTracker, now: u64) -> (to_send: LanguageTimes)
    requires
        old(tracker).wf(),
    ensures
        final(tracker).wf(),
        to_send.wf(),
        old(tracker)@.send_is_due(now as nat) ==> {
            &&& final(tracker)@ == old(tracker)@.after_reset(now as nat)
            &&& to_send@ == lasting(old(tracker)@.accumulated, MIN_SEND_DURATION as nat)
        },
        !old(tracker)@.send_is_due(now as nat) ==> {
            &&& *final(tracker) == *old(tracker)
            &&& to_send@ == Map::<Seq<char>, nat>::empty()
        },
{
    if tracker.should_send(now) {
        let data = tracker.get_and_reset(now);
        sendable(&data)
    } else {
        LanguageTimes::new()
    }
}

} // verus!
