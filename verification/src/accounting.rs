//! What holds of the tracker's accounting over any run of samples: no time is
//! counted twice and none is lost.

use crate::times::{credit, lemma_total_credit, total};
use crate::tracker::{TrackerState, IDLE_THRESHOLD, SEND_INTERVAL};
use vstd::prelude::*;

verus! {

/// One look at the focused window: at the instant `at` the file `file_name`,
/// written in `language`, was in focus.
pub struct Sample {
    pub language: Seq<char>,
    pub file_name: Seq<char>,
    pub at: nat,
}

/// The state after `samples` have been recorded one after the other.
pub open spec fn replay(state: TrackerState, samples: Seq<Sample>) -> TrackerState
    decreases samples.len(),
{
    if samples.len() == 0 {
        state
    } else {
        let first = samples.first();
        replay(
            state.after_record(first.language, first.file_name, first.at),
            samples.drop_first(),
        )
    }
}

/// The time from `from` to `to` where it is left out as idle, else nothing.
pub open spec fn idle_part(from: nat, to: nat) -> nat {
    if to - from >= IDLE_THRESHOLD {
        (to - from) as nat
    } else {
        0
    }
}

/// All the time left out as idle between a sample taken at `since` and the
/// last of `samples`, which follow it.
pub open spec fn idle_time(since: nat, samples: Seq<Sample>) -> nat
    decreases samples.len(),
{
    if samples.len() == 0 {
        0
    } else {
        idle_part(since, samples.first().at) + idle_time(
            samples.first().at,
            samples.drop_first(),
        )
    }
}

/// Whether the clock never went back: no sample is earlier than the one before
/// it, and the first is not earlier than `since`.
pub open spec fn in_order(since: nat, samples: Seq<Sample>) -> bool {
    &&& samples.len() > 0 ==> since <= samples[0].at
    &&& forall|i: int, j: int| 0 <= i <= j < samples.len() ==> samples[i].at <= samples[j].at
}

/// Whether every sample is later than the one before it.
pub open spec fn strictly_increasing(samples: Seq<Sample>) -> bool {
    forall|i: int, j: int| 0 <= i < j < samples.len() ==> samples[i].at < samples[j].at
}

/// Once a first sample has been recorded, every span of time between two
/// samples is either credited to a language or left out as idle, whole and
/// once: over any run of samples in order, the credited time and the idle
/// time grow together by exactly the time that passed.
pub proof fn lemma_time_is_accounted_for(state: TrackerState, samples: Seq<Sample>)
    requires
        state.accumulated.dom().finite(),
        state.current is Some,
        in_order(state.last_activity_at, samples),
    ensures
        replay(state, samples).accumulated.dom().finite(),
        replay(state, samples).current is Some,
        replay(state, samples).last_activity_at == if samples.len() > 0 {
            samples.last().at
        } else {
            state.last_activity_at
        },
        total(replay(state, samples).accumulated) + idle_time(state.last_activity_at, samples)
            == total(state.accumulated) + (replay(state, samples).last_activity_at
            - state.last_activity_at),
    decreases samples.len(),
{
    if samples.len() > 0 {
        let first = samples.first();
        let next = state.after_record(first.language, first.file_name, first.at);
        let rest = samples.drop_first();
        if state.credits(first.at) {
            lemma_total_credit(state.accumulated, state.current->0.language, state.gap(first.at));
        }
        assert(in_order(first.at, rest)) by {
            assert forall|i: int, j: int| 0 <= i <= j < rest.len() implies rest[i].at
                <= rest[j].at by {
                assert(rest[i] == samples[i + 1]);
                assert(rest[j] == samples[j + 1]);
            }
            if rest.len() > 0 {
                assert(rest[0] == samples[1]);
            }
        }
        lemma_time_is_accounted_for(next, rest);
        if rest.len() > 0 {
            assert(rest.last() == samples.last());
        }
    }
}

/// On a tracker that starts with nothing recorded, samples with strictly
/// increasing timestamps leave the time from the first to the last of them
/// fully accounted for: the sum of all that is credited, over all languages,
/// and of all the gaps left out as idle is the time that passed from the first
/// sample to the last.
pub proof fn lemma_fresh_tracker_accounts_for_all_time(made_at: nat, samples: Seq<Sample>)
    requires
        samples.len() > 0,
        strictly_increasing(samples),
    ensures
        total(replay(TrackerState::fresh(made_at), samples).accumulated) + idle_time(
            samples.first().at,
            samples.drop_first(),
        ) == samples.last().at - samples.first().at,
{
    let first = samples.first();
    let rest = samples.drop_first();
    let started = TrackerState::fresh(made_at).after_record(
        first.language,
        first.file_name,
        first.at,
    );
    assert(started.accumulated == Map::<Seq<char>, nat>::empty());
    assert(in_order(first.at, rest)) by {
        assert forall|i: int, j: int| 0 <= i <= j < rest.len() implies rest[i].at
            <= rest[j].at by {
            assert(rest[i] == samples[i + 1]);
            assert(rest[j] == samples[j + 1]);
        }
        if rest.len() > 0 {
            assert(rest[0] == samples[1]);
        }
    }
    lemma_time_is_accounted_for(started, rest);
    if rest.len() > 0 {
        assert(rest.last() == samples.last());
    }
}

/// Handing the sums over twice in a row, with no sample between, hands over
/// nothing the second time.
pub proof fn lemma_second_reset_hands_over_nothing(state: TrackerState, first: nat, second: nat)
    ensures
        state.after_reset(first).accumulated == Map::<Seq<char>, nat>::empty(),
        state.after_reset(first).after_reset(second).accumulated == Map::<Seq<char>, nat>::empty(),
{
}

/// Right after the sums were handed over, sending is not due again, and it is
/// not before `SEND_INTERVAL` has passed.
pub proof fn lemma_no_send_right_after_reset(state: TrackerState, now: nat, later: nat)
    ensures
        !state.after_reset(now).send_is_due(now),
        state.after_reset(now).send_is_due(later) <==> later >= now + SEND_INTERVAL,
{
}

/// The idle threshold itself is idle: a gap of exactly `IDLE_THRESHOLD`, like
/// any longer one, is credited to nobody, while the latest sample still moves
/// to `now`.
pub proof fn lemma_gap_at_the_threshold_is_idle(
    state: TrackerState,
    language: Seq<char>,
    file_name: Seq<char>,
    now: nat,
)
    requires
        now - state.last_activity_at >= IDLE_THRESHOLD,
    ensures
        state.after_record(language, file_name, now).accumulated == state.accumulated,
        state.after_record(language, file_name, now).last_activity_at == now,
{
}

/// A gap shorter than `IDLE_THRESHOLD`, be it by one nanosecond, is credited
/// in full to the language of the sample before.
pub proof fn lemma_gap_under_the_threshold_is_credited(
    state: TrackerState,
    language: Seq<char>,
    file_name: Seq<char>,
    now: nat,
)
    requires
        state.current is Some,
        state.last_activity_at <= now < state.last_activity_at + IDLE_THRESHOLD,
    ensures
        state.after_record(language, file_name, now).accumulated == credit(
            state.accumulated,
            state.current->0.language,
            (now - state.last_activity_at) as nat,
        ),
        state.after_record(language, file_name, now).last_activity_at == now,
{
}

/// A sample reports a change exactly when its file name or its language
/// differs from that of the sample before it; two equal samples in a row
/// report none.
pub proof fn lemma_change_is_a_new_identity(
    state: TrackerState,
    language: Seq<char>,
    file_name: Seq<char>,
    at: nat,
    next_language: Seq<char>,
    next_file_name: Seq<char>,
)
    ensures
        state.after_record(language, file_name, at).changes(next_language, next_file_name) <==> (
        next_language != language || next_file_name != file_name),
        !state.after_record(language, file_name, at).changes(language, file_name),
{
}

/// The time between two samples goes to the language that was in focus when
/// it began: the later sample's own language gains nothing by it, unless it is
/// the same language.
pub proof fn lemma_interval_goes_to_the_earlier_language(
    state: TrackerState,
    language: Seq<char>,
    file_name: Seq<char>,
    now: nat,
    other: Seq<char>,
)
    requires
        state.current is Some,
        other != state.current->0.language,
    ensures
        state.after_record(language, file_name, now).accumulated.contains_key(other)
            == state.accumulated.contains_key(other),
        state.after_record(language, file_name, now).accumulated[other] == state.accumulated[other],
{
}

/// Nothing is lost or counted twice across a handing over: whether a sample is
/// recorded just before the sums are handed over or just after, what is
/// handed over then and what is left for the next time add up to the same.
pub proof fn lemma_nothing_lost_across_reset(
    state: TrackerState,
    language: Seq<char>,
    file_name: Seq<char>,
    now: nat,
    reset_at: nat,
)
    requires
        state.accumulated.dom().finite(),
    ensures
        total(state.after_record(language, file_name, now).accumulated) + total(
            state.after_record(language, file_name, now).after_reset(reset_at).accumulated,
        ) == total(state.accumulated) + total(
            state.after_reset(reset_at).after_record(language, file_name, now).accumulated,
        ),
{
    if state.credits(now) {
        let to = state.current->0.language;
        lemma_total_credit(state.accumulated, to, state.gap(now));
        lemma_total_credit(Map::<Seq<char>, nat>::empty(), to, state.gap(now));
    }
}

} // verus!
