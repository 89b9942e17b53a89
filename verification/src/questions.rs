use vstd::prelude::*;

use crate::error::OsakanaError;
use crate::kanji::{kanjis_view, Kanji, KanjiView};
use rand::seq::IndexedRandom;

verus! {

/// Number of questions a full round asks for; a smaller catalog yields a
/// correspondingly shorter round.
pub const ROUND_SIZE: usize = 10;

/// Round length a fresh state starts with, in milliseconds.
pub const DEFAULT_TOTAL_MS: u64 = 60000;

/// One question of the current round: its ordinal index (the stable
/// handle clients answer with), the kanji it tests, and whether someone
/// has already solved it.
#[derive(Debug)]
pub struct Question {
    pub index: usize,
    pub kanji: Kanji,
    pub is_solved: bool,
}

/// Mathematical image of a [`Question`].
pub ghost struct QuestionView {
    pub index: int,
    pub kanji: KanjiView,
    pub is_solved: bool,
}

impl View for Question {
    type V = QuestionView;

    open spec fn view(&self) -> QuestionView {
        QuestionView { index: self.index as int, kanji: self.kanji@, is_solved: self.is_solved }
    }
}

impl Clone for Question {
    fn clone(&self) -> (r: Self)
        ensures
            r@ == self@,
    {
        Question { index: self.index, kanji: self.kanji.clone(), is_solved: self.is_solved }
    }
}

impl Question {
    pub fn new(index: usize, kanji: Kanji) -> (r: Self)
        ensures
            r@ == (QuestionView { index: index as int, kanji: kanji@, is_solved: false }),
    {
        Question { index, kanji, is_solved: false }
    }

    /// Whether the submitted identifier names exactly this question's
    /// kanji; reads only.
    pub fn judge_correction(&self, kanji_unicode: &str) -> (r: bool)
        ensures
            r == (self@.kanji.unicode == kanji_unicode@),
    {
        self.kanji.unicode == String::from_str(kanji_unicode)
    }

    /// Marks the question solved; solving it again changes nothing.
    pub fn solved(&mut self)
        ensures
            final(self)@ == (QuestionView { is_solved: true, ..old(self)@ }),
    {
        self.is_solved = true;
    }
}

pub open spec fn questions_view(s: Seq<Question>) -> Seq<QuestionView> {
    s.map_values(|q: Question| q@)
}

/// The round's question sequence together with its countdown, in
/// milliseconds.
#[derive(Debug)]
pub struct Questions {
    pub current: Vec<Question>,
    pub total_time: u64,
    pub remaining_time: u64,
}

impl Clone for Questions {
    fn clone(&self) -> (r: Self)
        ensures
            r.view_eq(*self),
    {
        let mut qs: Vec<Question> = Vec::new();
        let mut i: usize = 0;
        while i < self.current.len()
            invariant
                i <= self.current@.len(),
                qs@.len() == i,
                forall|j: int| 0 <= j < i ==> (#[trigger] qs@[j])@ == self.current@[j]@,
            decreases self.current@.len() - i,
        {
            let q = self.current[i].clone();
            qs.push(q);
            i += 1;
        }
        proof {
            assert(questions_view(qs@) =~= questions_view(self.current@));
        }
        Questions { current: qs, total_time: self.total_time, remaining_time: self.remaining_time }
    }
}

/// `picks` witnesses that `qs` was drawn from `cat` without replacement:
/// distinct positions, one per drawn element.
pub open spec fn sampled_views(qs: Seq<KanjiView>, cat: Seq<KanjiView>, picks: Seq<int>) -> bool {
    &&& picks.no_duplicates()
    &&& picks.len() == qs.len()
    &&& forall|i: int| 0 <= i < qs.len() ==> 0 <= #[trigger] picks[i] < cat.len() && qs[i] == cat[picks[i]]
}

/// The kanji of each question, in round order.
pub open spec fn question_kanjis(qs: Seq<QuestionView>) -> Seq<KanjiView> {
    qs.map_values(|q: QuestionView| q.kanji)
}

/// What a freshly reset round looks like: min(ROUND_SIZE, catalog size)
/// questions, indexed 0 upward, none solved, their kanji drawn from the
/// catalog without replacement.
pub open spec fn fresh_round(qs: Seq<QuestionView>, cat: Seq<KanjiView>) -> bool {
    &&& qs.len() == vstd::math::min(ROUND_SIZE as int, cat.len() as int)
    &&& forall|i: int| 0 <= i < qs.len() ==> (#[trigger] qs[i]).index == i && !qs[i].is_solved
    &&& exists|picks: Seq<int>| #[trigger] sampled_views(question_kanjis(qs), cat, picks)
}

/// Relies on rand's `IndexedRandom::choose_multiple` (with `rand::rng()`):
/// uniformly samples `n` elements without replacement — that is, from `n`
/// distinct positions — in random order, or all elements when the slice
/// has fewer than `n`.
#[verifier::external_body]
fn sample_kanjis(catalog: &Vec<Kanji>, n: usize) -> (r: Vec<Kanji>)
    ensures
        r@.len() == vstd::math::min(n as int, catalog@.len() as int),
        exists|picks: Seq<int>|
            sampled_views(kanjis_view(r@), kanjis_view(catalog@), picks),
{
    catalog.choose_multiple(&mut rand::rng(), n).cloned().collect()
}

impl Default for Questions {
    /// An empty round with the default duration on both clocks.
    fn default() -> (r: Self)
        ensures
            r.current@.len() == 0,
            r.total_time == DEFAULT_TOTAL_MS,
            r.remaining_time == DEFAULT_TOTAL_MS,
    {
        Questions {
            current: Vec::new(),
            total_time: DEFAULT_TOTAL_MS,
            remaining_time: DEFAULT_TOTAL_MS,
        }
    }
}

impl Questions {
    /// Both clocks agree that no more time remains than the round has.
    pub open spec fn time_ok(self) -> bool {
        self.remaining_time <= self.total_time
    }

    /// The percentage of the round still remaining; 0 for the degenerate
    /// zero-length round.
    pub open spec fn percentage_spec(self) -> int {
        if self.total_time == 0 {
            0
        } else {
            self.remaining_time * 100 / self.total_time as int
        }
    }

    /// Mutable access to the question at `question_id`, when the round
    /// has one; only that slot of the state can change through it.
    pub fn get_mut(&mut self, question_id: usize) -> (r: Option<&mut Question>)
        ensures
            question_id < old(self).current@.len() ==> (match r {
                Some(q) => *q == old(self).current@[question_id as int]
                    && final(self).current@ == old(self).current@.update(
                        question_id as int,
                        *final(q),
                    ),
                None => false,
            }),
            question_id >= old(self).current@.len() ==> r is None
                && final(self).current@ == old(self).current@,
            final(self).total_time == old(self).total_time,
            final(self).remaining_time == old(self).remaining_time,
    {
        if question_id < self.current.len() {
            Some(vstd::std_specs::vec::vec_index_mut(&mut self.current, question_id))
        } else {
            None
        }
    }

    pub fn current(&self) -> (r: &Vec<Question>)
        ensures
            r@ == self.current@,
    {
        &self.current
    }

    /// Replaces the round with a fresh sample from the catalog and winds
    /// the countdown back to the full duration.
    pub fn reset(&mut self, catalog: &Vec<Kanji>)
        ensures
            final(self).total_time == old(self).total_time,
            final(self).remaining_time == final(self).total_time,
            fresh_round(questions_view(final(self).current@), kanjis_view(catalog@)),
    {
        let sampled = sample_kanjis(catalog, ROUND_SIZE);
        let mut qs: Vec<Question> = Vec::new();
        let mut i: usize = 0;
        while i < sampled.len()
            invariant
                i <= sampled@.len(),
                qs@.len() == i,
                forall|j: int| 0 <= j < i ==> (#[trigger] qs@[j])@.index == j
                    && !qs@[j]@.is_solved
                    && qs@[j]@.kanji == sampled@[j]@,
            decreases sampled@.len() - i,
        {
            let q = Question::new(i, sampled[i].clone());
            qs.push(q);
            i += 1;
        }
        proof {
            let rv = kanjis_view(sampled@);
            let picks = choose|picks: Seq<int>|
                sampled_views(rv, kanjis_view(catalog@), picks);
            assert(question_kanjis(questions_view(qs@)) =~= rv);
            assert(sampled_views(question_kanjis(questions_view(qs@)), kanjis_view(catalog@), picks));
        }
        self.current = qs;
        self.remaining_time = self.total_time;
    }

    /// Reconfigures the round length for subsequent resets; the running
    /// countdown is left alone.
    pub fn set_total_time(&mut self, time_ms: u64)
        ensures
            final(self).total_time == time_ms,
            final(self).remaining_time == old(self).remaining_time,
            final(self).current@ == old(self).current@,
    {
        self.total_time = time_ms;
    }

    /// Saturating countdown step: remaining time never drops below zero.
    pub fn decrease_remaining_time(&mut self, delta_ms: u64)
        ensures
            final(self).remaining_time == if old(self).remaining_time >= delta_ms {
                old(self).remaining_time - delta_ms
            } else {
                0
            },
            final(self).total_time == old(self).total_time,
            final(self).current@ == old(self).current@,
    {
        self.remaining_time = self.remaining_time.saturating_sub(delta_ms);
    }

    /// Winds the countdown back to the full round length.
    pub fn reset_time(&mut self)
        ensures
            final(self).remaining_time == old(self).total_time,
            final(self).total_time == old(self).total_time,
            final(self).current@ == old(self).current@,
    {
        self.remaining_time = self.total_time;
    }

    pub fn is_remaining_time_zero(&self) -> (r: bool)
        ensures
            r == (self.remaining_time == 0),
    {
        self.remaining_time == 0
    }

    /// How much of the round remains, in whole percent, between 0 and 100.
    pub fn remaining_time_percentage(&self) -> (r: u64)
        requires
            self.time_ok(),
        ensures
            r == self.percentage_spec(),
            0 <= r <= 100,
    {
        if self.total_time == 0 {
            0
        } else {
            let p: u128 = (self.remaining_time as u128) * 100 / (self.total_time as u128);
            proof {
                lemma_percentage_in_range(*self);
            }
            p as u64
        }
    }

    /// Whether the submitted identifier names the kanji at `index`; an
    /// index past the round is refused as not found, never judged false.
    pub fn judge(&self, index: usize, kanji_unicode: &str) -> (r: Result<bool, OsakanaError>)
        ensures
            index < self.current@.len() ==> r == Ok::<bool, OsakanaError>(
                questions_view(self.current@)[index as int].kanji.unicode == kanji_unicode@,
            ),
            index >= self.current@.len() ==> r == Err::<bool, OsakanaError>(OsakanaError::NotFound),
    {
        if index < self.current.len() {
            Ok(self.current[index].judge_correction(kanji_unicode))
        } else {
            Err(OsakanaError::NotFound)
        }
    }

    /// Sets the solved flag at `index`; idempotent, and everything else
    /// is left alone.
    pub fn mark_solved(&mut self, index: usize) -> (r: Result<(), OsakanaError>)
        ensures
            index < old(self).current@.len() ==> r == Ok::<(), OsakanaError>(())
                && questions_view(final(self).current@) == questions_view(old(self).current@)
                    .update(index as int, QuestionView {
                        is_solved: true,
                        ..questions_view(old(self).current@)[index as int]
                    }),
            index >= old(self).current@.len() ==> r == Err::<(), OsakanaError>(OsakanaError::NotFound)
                && final(self).current@ == old(self).current@,
            final(self).total_time == old(self).total_time,
            final(self).remaining_time == old(self).remaining_time,
    {
        match self.get_mut(index) {
            Some(q) => {
                q.solved();
                proof {
                    assert(questions_view(self.current@) =~= questions_view(old(self).current@)
                        .update(index as int, QuestionView {
                            is_solved: true,
                            ..questions_view(old(self).current@)[index as int]
                        }));
                }
                Ok(())
            },
            None => Err(OsakanaError::NotFound),
        }
    }
}

/// Two round states that agree mathematically: same question views and
/// the same clocks.
impl Questions {
    pub open spec fn view_eq(self, other: Questions) -> bool {
        &&& questions_view(self.current@) == questions_view(other.current@)
        &&& self.total_time == other.total_time
        &&& self.remaining_time == other.remaining_time
    }
}

/// Wherever the clocks agree that no more time remains than the round
/// has — which every construction and every transition preserves — the
/// remaining percentage lies between 0 and 100.
pub proof fn lemma_percentage_in_range(q: Questions)
    requires
        q.time_ok(),
    ensures
        0 <= q.percentage_spec() <= 100,
{
    if q.total_time != 0 {
        assert(q.remaining_time * 100 <= q.total_time * 100) by (nonlinear_arith)
            requires q.remaining_time <= q.total_time;
        assert(q.remaining_time * 100 / q.total_time as int <= q.total_time * 100
            / q.total_time as int) by {
            vstd::arithmetic::div_mod::lemma_div_is_ordered(
                q.remaining_time * 100,
                q.total_time * 100,
                q.total_time as int,
            );
        }
        assert(q.total_time * 100 / q.total_time as int == 100) by (nonlinear_arith)
            requires q.total_time > 0;
        assert(q.remaining_time * 100 / q.total_time as int >= 0) by {
            vstd::arithmetic::div_mod::lemma_div_is_ordered(
                0,
                q.remaining_time * 100,
                q.total_time as int,
            );
        }
    }
}

/// When the catalog holds no kanji twice, neither does a fresh round:
/// sampling without replacement cannot repeat an entry.
pub proof fn lemma_fresh_round_distinct(qs: Seq<QuestionView>, cat: Seq<KanjiView>)
    requires
        fresh_round(qs, cat),
        forall|i: int, j: int| 0 <= i < j < cat.len() ==> cat[i] != cat[j],
    ensures
        forall|i: int, j: int| 0 <= i < j < qs.len() ==> qs[i].kanji != qs[j].kanji,
{
    let kv = question_kanjis(qs);
    let picks = choose|picks: Seq<int>| sampled_views(kv, cat, picks);
    assert forall|i: int, j: int| 0 <= i < j < qs.len() implies qs[i].kanji != qs[j].kanji by {
        assert(kv[i] == cat[picks[i]]);
        assert(kv[j] == cat[picks[j]]);
        assert(picks[i] != picks[j]);
        if picks[i] < picks[j] {
            assert(cat[picks[i]] != cat[picks[j]]);
        } else {
            assert(cat[picks[j]] != cat[picks[i]]);
        }
    }
}

} // verus!
