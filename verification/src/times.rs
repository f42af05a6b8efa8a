//! Time spent per language: a finite map from language identifiers to
//! durations, and the sum of all it holds.
//!
//! Durations are whole nanoseconds.

use vstd::prelude::*;

verus! {

/// The sum of all durations in `times`, for a map with finitely many entries.
pub open spec fn total(times: Map<Seq<char>, nat>) -> nat
    decreases times.dom().len(),
    when times.dom().finite()
    via total_decreases
{
    if times.dom().len() == 0 {
        0
    } else {
        let language = times.dom().choose();
        times[language] + total(times.remove(language))
    }
}

/// Taking one entry out of a finite map leaves fewer.
#[via_fn]
proof fn total_decreases(times: Map<Seq<char>, nat>) {
    if times.dom().len() != 0 {
        let language = times.dom().choose();
        assert(times.dom().contains(language));
        assert(times.remove(language).dom() == times.dom().remove(language));
    }
}

/// The duration that `times` holds for `language`: none where it has no entry.
pub open spec fn time_of(times: Map<Seq<char>, nat>, language: Seq<char>) -> nat {
    if times.contains_key(language) {
        times[language]
    } else {
        0
    }
}

/// `times` after `amount` more has been spent on `language`. A language without
/// an entry gets one, also where `amount` is nothing.
pub open spec fn credit(times: Map<Seq<char>, nat>, language: Seq<char>, amount: nat) -> Map<
    Seq<char>,
    nat,
> {
    times.insert(language, time_of(times, language) + amount)
}

/// The entries of `times` whose duration is `minimum` or more.
pub open spec fn lasting(times: Map<Seq<char>, nat>, minimum: nat) -> Map<Seq<char>, nat> {
    Map::new(
        |language: Seq<char>| times.contains_key(language) && times[language] >= minimum,
        |language: Seq<char>| times[language],
    )
}

/// The sum is that of any one entry and of all the others.
pub proof fn lemma_total_remove(times: Map<Seq<char>, nat>, language: Seq<char>)
    requires
        times.dom().finite(),
        times.contains_key(language),
    ensures
        total(times) == times[language] + total(times.remove(language)),
    decreases times.dom().len(),
{
    let chosen = times.dom().choose();
    if chosen != language {
        let without_chosen = times.remove(chosen);
        let without_language = times.remove(language);
        assert(without_chosen.dom() == times.dom().remove(chosen));
        assert(without_language.dom() == times.dom().remove(language));
        lemma_total_remove(without_chosen, language);
        lemma_total_remove(without_language, chosen);
        assert(without_chosen.remove(language) == without_language.remove(chosen));
    }
}

/// Time spent on one language adds to the sum exactly what was spent.
pub proof fn lemma_total_credit(times: Map<Seq<char>, nat>, language: Seq<char>, amount: nat)
    requires
        times.dom().finite(),
    ensures
        credit(times, language, amount).dom().finite(),
        total(credit(times, language, amount)) == total(times) + amount,
{
    let after = credit(times, language, amount);
    lemma_total_remove(after, language);
    if times.contains_key(language) {
        lemma_total_remove(times, language);
        assert(after.remove(language) == times.remove(language));
    } else {
        assert(after.remove(language) == times);
    }
}

/// No language has more time than all of them together.
pub proof fn lemma_total_bounds_each(times: Map<Seq<char>, nat>, language: Seq<char>)
    requires
        times.dom().finite(),
    ensures
        time_of(times, language) <= total(times),
{
    if times.contains_key(language) {
        lemma_total_remove(times, language);
    }
}

/// One language and the time spent on it.
#[derive(Debug)]
struct Entry {
    language: String,
    duration: u64,
}

/// Time spent per language. Its view is the map from each language that has an
/// entry to the nanoseconds spent on it.
#[derive(Debug)]
pub struct LanguageTimes {
    entries: Vec<Entry>,
}

impl View for LanguageTimes {
    type V = Map<Seq<char>, nat>;

    closed spec fn view(&self) -> Map<Seq<char>, nat> {
        let languages = self.order();
        Map::new(
            |language: Seq<char>| languages.contains(language),
            |language: Seq<char>| self.entries@[languages.index_of(language)].duration as nat,
        )
    }
}

impl LanguageTimes {
    /// The languages that have an entry, in the order in which a walk by index
    /// meets them.
    pub closed spec fn order(&self) -> Seq<Seq<char>> {
        self.entries@.map_values(|entry: Entry| entry.language@)
    }

    /// No language has two entries.
    pub closed spec fn wf(&self) -> bool {
        self.order().no_duplicates()
    }

    /// The entry at `index` is the one that the view holds for its language.
    proof fn lemma_entry(&self, index: int)
        requires
            self.wf(),
            0 <= index < self.entries@.len(),
        ensures
            self.order()[index] == self.entries@[index].language@,
            self@.contains_key(self.order()[index]),
            self@[self.order()[index]] == self.entries@[index].duration,
    {
        let languages = self.order();
        assert(languages.contains(languages[index]));
        assert(languages.index_of(languages[index]) == index);
    }

    /// What a walk by index meets is what the view holds: every language once.
    pub proof fn lemma_order(&self)
        requires
            self.wf(),
        ensures
            self.order().no_duplicates(),
            self.order().to_set() == self@.dom(),
            self.order().len() == self@.dom().len(),
            self@.dom().finite(),
    {
        assert(self.order().to_set() =~= self@.dom());
        self.order().unique_seq_to_set();
        vstd::seq_lib::seq_to_set_is_finite(self.order());
    }

    /// Times with no entry.
    pub fn new() -> (times: LanguageTimes)
        ensures
            times.wf(),
            times@ == Map::<Seq<char>, nat>::empty(),
    {
        let times = LanguageTimes { entries: Vec::new() };
        assert(times@ =~= Map::<Seq<char>, nat>::empty());
        times
    }

    /// How many languages have an entry.
    pub fn len(&self) -> (count: usize)
        requires
            self.wf(),
        ensures
            count == self@.dom().len(),
            count == self.order().len(),
    {
        proof {
            self.lemma_order();
        }
        self.entries.len()
    }

    /// Whether no language has an entry.
    pub fn is_empty(&self) -> (empty: bool)
        requires
            self.wf(),
        ensures
            empty == (self@ == Map::<Seq<char>, nat>::empty()),
    {
        proof {
            self.lemma_order();
            if self.entries@.len() == 0 {
                assert(self@ =~= Map::<Seq<char>, nat>::empty());
            } else {
                self.lemma_entry(0);
            }
        }
        self.entries.len() == 0
    }

    /// Where the entry of `language` stands, if it has one.
    fn position(&self, language: &String) -> (found: Option<usize>)
        requires
            self.wf(),
        ensures
            match found {
                Some(index) => index < self.entries@.len() && self.order()[index as int]
                    == language@,
                None => !self.order().contains(language@),
            },
    {
        let mut index: usize = 0;
        while index < self.entries.len()
            invariant
                index <= self.entries@.len(),
                forall|earlier: int| 0 <= earlier < index ==> self.order()[earlier] != language@,
            decreases self.entries@.len() - index,
        {
            if self.entries[index].language == *language {
                return Some(index);
            }
            index += 1;
        }
        None
    }

    /// The time spent on `language`, where it has an entry.
    pub fn get(&self, language: &str) -> (duration: Option<u64>)
        requires
            self.wf(),
        ensures
            match duration {
                Some(spent) => self@.contains_key(language@) && self@[language@] == spent,
                None => !self@.contains_key(language@),
            },
    {
        let wanted = language.to_owned();
        match self.position(&wanted) {
            Some(index) => {
                proof {
                    self.lemma_entry(index as int);
                }
                Some(self.entries[index].duration)
            },
            None => None,
        }
    }

    /// The language of the entry at `index`.
    pub fn language_at(&self, index: usize) -> (language: &str)
        requires
            self.wf(),
            index < self.order().len(),
        ensures
            language@ == self.order()[index as int],
            self@.contains_key(language@),
    {
        proof {
            self.lemma_entry(index as int);
        }
        self.entries[index].language.as_str()
    }

    /// The time spent on the language of the entry at `index`.
    pub fn duration_at(&self, index: usize) -> (duration: u64)
        requires
            self.wf(),
            index < self.order().len(),
        ensures
            duration == self@[self.order()[index as int]],
    {
        proof {
            self.lemma_entry(index as int);
        }
        self.entries[index].duration
    }

    /// Gives `language`, which has no entry yet, one of `duration`.
    fn append(&mut self, language: String, duration: u64)
        requires
            old(self).wf(),
            !old(self)@.contains_key(language@),
        ensures
            final(self).wf(),
            final(self)@ == old(self)@.insert(language@, duration as nat),
            final(self).order() == old(self).order().push(language@),
    {
        let ghost before = *self;
        self.entries.push(Entry { language, duration });
        proof {
            let after = *self;
            assert(after.order() == before.order().push(language@));
            assert(!before.order().contains(language@));
            assert forall|key: Seq<char>|
                after@.contains_key(key) <==> before@.insert(
                    language@,
                    duration as nat,
                ).contains_key(key) by {
                if before.order().contains(key) {
                    let at = before.order().index_of(key);
                    assert(after.order()[at] == key);
                }
                if key == language@ {
                    assert(after.order()[after.order().len() - 1] == key);
                }
            }
            assert forall|key: Seq<char>| after@.contains_key(key) implies after@[key]
                == before@.insert(language@, duration as nat)[key] by {
                let at = after.order().index_of(key);
                after.lemma_entry(at);
                if at < before.order().len() {
                    before.lemma_entry(at);
                }
            }
            assert(after@ =~= before@.insert(language@, duration as nat));
        }
    }

    /// Adds `amount` to the time spent on `language`. A language without an
    /// entry gets one.
    pub fn add(&mut self, language: &str, amount: u64)
        requires
            old(self).wf(),
            time_of(old(self)@, language@) + amount <= u64::MAX,
        ensures
            final(self).wf(),
            final(self)@ == credit(old(self)@, language@, amount as nat),
            final(self).order() == if old(self)@.contains_key(language@) {
                old(self).order()
            } else {
                old(self).order().push(language@)
            },
    {
        let ghost before = *self;
        let name = language.to_owned();
        match self.position(&name) {
            Some(index) => {
                proof {
                    before.lemma_entry(index as int);
                }
                let spent = self.entries[index].duration;
                self.entries[index].duration = spent + amount;
                proof {
                    let after = *self;
                    assert(after.order() == before.order());
                    assert forall|key: Seq<char>| after@.contains_key(key) implies after@[key]
                        == credit(before@, language@, amount as nat)[key] by {
                        let at = after.order().index_of(key);
                        after.lemma_entry(at);
                        before.lemma_entry(at);
                    }
                    assert(after@ =~= credit(before@, language@, amount as nat));
                }
            },
            None => {
                self.append(name, amount);
            },
        }
    }

    /// The entries whose duration is `minimum` or more.
    pub fn at_least(&self, minimum: u64) -> (long: LanguageTimes)
        requires
            self.wf(),
        ensures
            long.wf(),
            long@ == lasting(self@, minimum as nat),
    {
        let mut long = LanguageTimes::new();
        let mut index: usize = 0;
        while index < self.entries.len()
            invariant
                self.wf(),
                long.wf(),
                index <= self.entries@.len(),
                forall|key: Seq<char>|
                    long@.contains_key(key) <==> exists|at: int|
                        0 <= at < index && #[trigger] self.order()[at] == key
                            && self.entries@[at].duration >= minimum,
                forall|key: Seq<char>| long@.contains_key(key) ==> long@[key] == self@[key],
            decreases self.entries@.len() - index,
        {
            proof {
                self.lemma_entry(index as int);
            }
            if self.entries[index].duration >= minimum {
                let language = self.entries[index].language.clone();
                long.append(language, self.entries[index].duration);
            }
            index += 1;
        }
        proof {
            assert forall|key: Seq<char>|
                long@.contains_key(key) <==> lasting(self@, minimum as nat).contains_key(
                    key,
                ) by {
                if self@.contains_key(key) {
                    let at = self.order().index_of(key);
                    self.lemma_entry(at);
                }
                if long@.contains_key(key) {
                    let at = choose|at: int|
                        0 <= at < index && #[trigger] self.order()[at] == key
                            && self.entries@[at].duration >= minimum;
                    self.lemma_entry(at);
                }
            }
            assert(long@ =~= lasting(self@, minimum as nat));
        }
        long
    }
}

} // verus!
