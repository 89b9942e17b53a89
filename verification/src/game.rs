use vstd::prelude::*;

use crate::error::OsakanaError;
use crate::kanji::{kanjis_view, Kanji};
use crate::questions::{fresh_round, questions_view, QuestionView, Questions};
use crate::sse_event::SseEvent;
use crate::user::{first_user_index, users_view, User, UserView, Users};
use tokio::sync::broadcast;

verus! {

/// The one shared aggregate every request handler and the clock task
/// mutate, always under the caller's exclusive lock: the current round,
/// the participant roster, the append-only ranking list, and the send
/// side of the event fan-out.
pub struct GameState {
    pub questions: Questions,
    pub participants: Users,
    pub ranking: Vec<User>,
    pub tx: broadcast::Sender<SseEvent>,
}

/// Relies on `uuid::Uuid::new_v4` and its rendering: a freshly drawn
/// random version-4 UUID in the hyphenated form of 36 characters.
#[verifier::external_body]
fn fresh_user_id() -> (r: String)
    ensures
        r@.len() == 36,
{
    uuid::Uuid::new_v4().to_string()
}

/// A fresh vector holding the same participants, view for view.
fn clone_users(v: &Vec<User>) -> (r: Vec<User>)
    ensures
        users_view(r@) == users_view(v@),
{
    let mut r: Vec<User> = Vec::new();
    let mut i: usize = 0;
    while i < v.len()
        invariant
            i <= v@.len(),
            r@.len() == i,
            forall|j: int| 0 <= j < i ==> (#[trigger] r@[j])@ == v@[j]@,
        decreases v@.len() - i,
    {
        let u = v[i].clone();
        r.push(u);
        i += 1;
    }
    proof {
        assert(users_view(r@) =~= users_view(v@));
    }
    r
}

/// What one answer submission does to the round and the roster: nothing
/// on an unknown question index or participant id; otherwise the judged
/// participant's streak grows by one on a hit — with the question marked
/// solved — and collapses to zero on a miss.
pub open spec fn submit_effect(
    qs: Seq<QuestionView>,
    uv: Seq<UserView>,
    question_index: int,
    unicode: Seq<char>,
    user_id: Seq<char>,
) -> (Seq<QuestionView>, Seq<UserView>) {
    let idx = first_user_index(uv, user_id);
    if question_index < 0 || question_index >= qs.len() || idx < 0 {
        (qs, uv)
    } else {
        let correct = qs[question_index].kanji.unicode == unicode;
        let combo: u32 = if correct {
            ((uv[idx].combo + 1) as u32)
        } else {
            0
        };
        let uv2 = uv.update(idx, UserView { combo, ..uv[idx] });
        let qs2 = if correct {
            qs.update(question_index, QuestionView { is_solved: true, ..qs[question_index] })
        } else {
            qs
        };
        (qs2, uv2)
    }
}

/// Two answer submissions by different participants commute: whichever
/// of the two serial orders the state lock happens to grant, the round
/// and the roster end up the same, so concurrent submissions can never
/// corrupt either participant's streak.
pub proof fn lemma_submit_effect_commutes(
    qs: Seq<QuestionView>,
    uv: Seq<UserView>,
    q1: int,
    a1: Seq<char>,
    id1: Seq<char>,
    q2: int,
    a2: Seq<char>,
    id2: Seq<char>,
)
    requires
        id1 != id2,
    ensures
        ({
            let first = submit_effect(qs, uv, q1, a1, id1);
            let both_a = submit_effect(first.0, first.1, q2, a2, id2);
            let second = submit_effect(qs, uv, q2, a2, id2);
            let both_b = submit_effect(second.0, second.1, q1, a1, id1);
            both_a == both_b
        }),
{
    let i1 = first_user_index(uv, id1);
    let i2 = first_user_index(uv, id2);
    crate::user::lemma_first_user_index_bounds(uv, id1);
    crate::user::lemma_first_user_index_bounds(uv, id2);
    let first = submit_effect(qs, uv, q1, a1, id1);
    let second = submit_effect(qs, uv, q2, a2, id2);
    assert(first.0.len() == qs.len() && first.1.len() == uv.len());
    assert(second.0.len() == qs.len() && second.1.len() == uv.len());
    assert(forall|j: int| 0 <= j < uv.len() ==> (#[trigger] first.1[j]).id == uv[j].id);
    assert(forall|j: int| 0 <= j < uv.len() ==> (#[trigger] second.1[j]).id == uv[j].id);
    crate::user::lemma_first_user_index_same_ids(first.1, uv, id2);
    crate::user::lemma_first_user_index_same_ids(second.1, uv, id1);
    assert(forall|j: int| 0 <= j < qs.len() ==> (#[trigger] first.0[j]).kanji == qs[j].kanji);
    assert(forall|j: int| 0 <= j < qs.len() ==> (#[trigger] second.0[j]).kanji == qs[j].kanji);
    if i1 >= 0 && i2 >= 0 {
        assert(uv[i1].id == id1);
        assert(uv[i2].id == id2);
        assert(i1 != i2);
    }
    let both_a = submit_effect(first.0, first.1, q2, a2, id2);
    let both_b = submit_effect(second.0, second.1, q1, a1, id1);
    let valid1 = 0 <= q1 < qs.len() && i1 >= 0;
    let valid2 = 0 <= q2 < qs.len() && i2 >= 0;
    if !valid1 && !valid2 {
    } else if valid1 && !valid2 {
        assert(both_a == first);
        assert(both_b == first);
    } else if !valid1 && valid2 {
        assert(both_a == second);
        assert(both_b == second);
    } else {
        assert(first.1[i2] == uv[i2]);
        assert(second.1[i1] == uv[i1]);
        let c1 = qs[q1].kanji.unicode == a1;
        let c2 = qs[q2].kanji.unicode == a2;
        assert(first.0[q2].kanji == qs[q2].kanji);
        assert(second.0[q1].kanji == qs[q1].kanji);
        assert(both_a.1 =~= both_b.1);
        if c1 && c2 {
            assert(first.0[q2].index == qs[q2].index);
            assert(second.0[q1].index == qs[q1].index);
            if q1 == q2 {
                assert(both_a.0 =~= both_b.0);
            } else {
                assert(both_a.0 =~= both_b.0);
            }
        } else {
            assert(both_a.0 =~= both_b.0);
        }
        assert(both_a == both_b);
    }
}

impl GameState {
    /// The aggregate's standing invariant: the countdown never shows
    /// more time than the round has.
    pub open spec fn wf(self) -> bool {
        self.questions.time_ok()
    }

    /// A fresh game over the given catalog: a full newly sampled round
    /// on the default clock, nobody registered, an empty ranking.
    pub fn new(tx: broadcast::Sender<SseEvent>, catalog: &Vec<Kanji>) -> (r: Self)
        ensures
            r.wf(),
            fresh_round(questions_view(r.questions.current@), kanjis_view(catalog@)),
            r.questions.remaining_time == r.questions.total_time,
            r.questions.total_time == crate::questions::DEFAULT_TOTAL_MS,
            r.participants.0@.len() == 0,
            r.ranking@.len() == 0,
            r.tx == tx,
    {
        let mut questions = Questions::default();
        questions.reset(catalog);
        GameState { questions, participants: Users::new(), ranking: Vec::new(), tx }
    }

    /// Admits a new participant under a freshly drawn identifier, which
    /// is returned; the streak starts at zero with no name.
    pub fn create_user(&mut self) -> (r: String)
        ensures
            r@.len() == 36,
            users_view(final(self).participants.0@) == users_view(old(self).participants.0@)
                .push(UserView { id: r@, username: None, combo: 0 }),
            final(self).questions == old(self).questions,
            final(self).ranking@ == old(self).ranking@,
            final(self).tx == old(self).tx,
    {
        let id = fresh_user_id();
        let user = User::new(id.clone());
        self.participants.add(user);
        proof {
            assert(users_view(self.participants.0@) =~= users_view(old(self).participants.0@)
                .push(UserView { id: id@, username: None, combo: 0 }));
        }
        id
    }

    /// The core transition: judge the submitted identifier against the
    /// question, then update the participant's streak, all or nothing.
    /// An unknown question index or participant id is refused as not
    /// found with no mutation at all; otherwise the judged outcome and
    /// the resulting streak come back, exactly as `submit_effect` says.
    pub fn submit_answer(
        &mut self,
        question_index: usize,
        kanji_unicode: &str,
        user_id: &str,
    ) -> (r: Result<(bool, u32), OsakanaError>)
        requires
            old(self).wf(),
            ({
                let uv = users_view(old(self).participants.0@);
                let idx = first_user_index(uv, user_id@);
                idx >= 0 ==> uv[idx].combo < u32::MAX
            }),
        ensures
            final(self).wf(),
            ({
                let qs = questions_view(old(self).questions.current@);
                let uv = users_view(old(self).participants.0@);
                let idx = first_user_index(uv, user_id@);
                let effect = submit_effect(qs, uv, question_index as int, kanji_unicode@, user_id@);
                &&& r is Ok <==> (question_index < qs.len() && idx >= 0)
                &&& r is Err ==> r == Err::<(bool, u32), OsakanaError>(OsakanaError::NotFound)
                    && questions_view(final(self).questions.current@) == qs
                    && users_view(final(self).participants.0@) == uv
                &&& (r matches Ok((correct, combo)) ==> {
                    &&& correct == (qs[question_index as int].kanji.unicode == kanji_unicode@)
                    &&& combo == if correct { (uv[idx].combo + 1) as u32 } else { 0u32 }
                    &&& questions_view(final(self).questions.current@) == effect.0
                    &&& users_view(final(self).participants.0@) == effect.1
                })
            }),
            final(self).questions.total_time == old(self).questions.total_time,
            final(self).questions.remaining_time == old(self).questions.remaining_time,
            final(self).ranking@ == old(self).ranking@,
            final(self).tx == old(self).tx,
    {
        let ghost qs = questions_view(old(self).questions.current@);
        let ghost uv = users_view(old(self).participants.0@);
        let is_correct = match self.questions.judge(question_index, kanji_unicode) {
            Ok(b) => b,
            Err(e) => {
                return Err(e);
            },
        };
        let combo: u32;
        match self.participants.get_mut(user_id) {
            Some(u) => {
                proof {
                    let idx = first_user_index(uv, user_id@);
                    crate::user::lemma_first_user_index_bounds(uv, user_id@);
                    assert(old(self).participants.0@[idx]@ == uv[idx]);
                }
                if is_correct {
                    u.increment_combo();
                } else {
                    u.reset_combo();
                }
                combo = u.combo();
            },
            None => {
                return Err(OsakanaError::NotFound);
            },
        }
        proof {
            let idx = first_user_index(uv, user_id@);
            assert(users_view(self.participants.0@) =~= uv.update(
                idx,
                UserView { combo, ..uv[idx] },
            ));
        }
        if is_correct {
            let _ = self.questions.mark_solved(question_index);
        }
        SseEvent::Answer { index: question_index, is_correct }.send_by(&self.tx);
        Ok((is_correct, combo))
    }

    /// Writes the participant's display name and appends a snapshot of
    /// them — name and streak as of this moment — to the ranking list;
    /// registering again appends again, deliberately without dedup. An
    /// unknown participant id is refused as not found with no mutation.
    pub fn register_ranking(&mut self, user_id: &str, username: &str) -> (r: Result<
        (),
        OsakanaError,
    >)
        ensures
            ({
                let uv = users_view(old(self).participants.0@);
                let idx = first_user_index(uv, user_id@);
                &&& r is Ok <==> idx >= 0
                &&& r is Err ==> r == Err::<(), OsakanaError>(OsakanaError::NotFound)
                    && users_view(final(self).participants.0@) == uv
                    && users_view(final(self).ranking@) == users_view(old(self).ranking@)
                &&& idx >= 0 ==> ({
                    let named = UserView { username: Some(username@), ..uv[idx] };
                    &&& users_view(final(self).participants.0@) == uv.update(idx, named)
                    &&& users_view(final(self).ranking@) == users_view(old(self).ranking@).push(
                        named,
                    )
                })
            }),
            final(self).questions == old(self).questions,
            final(self).tx == old(self).tx,
    {
        let ghost uv = users_view(old(self).participants.0@);
        let snapshot: User;
        match self.participants.get_mut(user_id) {
            Some(u) => {
                proof {
                    let idx = first_user_index(uv, user_id@);
                    crate::user::lemma_first_user_index_bounds(uv, user_id@);
                    assert(old(self).participants.0@[idx]@ == uv[idx]);
                }
                u.set_username(String::from_str(username));
                snapshot = u.clone();
            },
            None => {
                return Err(OsakanaError::NotFound);
            },
        }
        proof {
            let idx = first_user_index(uv, user_id@);
            let named = UserView { username: Some(username@), ..uv[idx] };
            assert(users_view(self.participants.0@) =~= uv.update(idx, named));
        }
        self.ranking.push(snapshot);
        proof {
            let idx = first_user_index(uv, user_id@);
            let named = UserView { username: Some(username@), ..uv[idx] };
            assert(users_view(self.ranking@) =~= users_view(old(self).ranking@).push(named));
        }
        let ranking = clone_users(&self.ranking);
        SseEvent::UpdateRanking { ranking }.send_by(&self.tx);
        Ok(())
    }

    /// A read-only snapshot of the ranking list, in registration order.
    pub fn current_ranking(&self) -> (r: Vec<User>)
        ensures
            users_view(r@) == users_view(self.ranking@),
    {
        clone_users(&self.ranking)
    }

    /// Reconfigures the round length and immediately winds the countdown
    /// back to the new full duration.
    pub fn set_round_duration(&mut self, seconds: u64)
        requires
            seconds * 1000 <= u64::MAX,
        ensures
            final(self).wf(),
            final(self).questions.total_time == seconds * 1000,
            final(self).questions.remaining_time == seconds * 1000,
            final(self).questions.current@ == old(self).questions.current@,
            final(self).participants.0@ == old(self).participants.0@,
            final(self).ranking@ == old(self).ranking@,
            final(self).tx == old(self).tx,
    {
        self.questions.set_total_time(seconds * 1000);
        self.questions.reset_time();
    }

    /// One step of the round clock: the countdown loses the interval,
    /// saturating at zero; a countdown thereby exhausted starts a fresh
    /// round over the catalog with the full duration back on the clock.
    /// Subscribers are then told the countdown's new standing either
    /// way — even on the tick that reset it, so they see the full clock
    /// at once.
    pub fn tick(&mut self, interval_ms: u64, catalog: &Vec<Kanji>)
        requires
            old(self).wf(),
        ensures
            final(self).wf(),
            final(self).questions.total_time == old(self).questions.total_time,
            old(self).questions.remaining_time > interval_ms ==> ({
                &&& final(self).questions.remaining_time == old(self).questions.remaining_time
                    - interval_ms
                &&& final(self).questions.current@ == old(self).questions.current@
            }),
            old(self).questions.remaining_time <= interval_ms ==> ({
                &&& final(self).questions.remaining_time == old(self).questions.total_time
                &&& fresh_round(
                    questions_view(final(self).questions.current@),
                    kanjis_view(catalog@),
                )
            }),
            final(self).participants.0@ == old(self).participants.0@,
            final(self).ranking@ == old(self).ranking@,
            final(self).tx == old(self).tx,
    {
        self.questions.decrease_remaining_time(interval_ms);
        if self.questions.is_remaining_time_zero() {
            self.questions.reset(catalog);
            let questions = self.questions.clone();
            SseEvent::ReloadQuestions { questions }.send_by(&self.tx);
        }
        let remaining_ms = self.questions.remaining_time;
        let total_ms = self.questions.total_time;
        SseEvent::RemainingTimePercentage { remaining_ms, total_ms }.send_by(&self.tx);
    }
}

} // verus!
