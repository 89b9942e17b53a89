use osakana::error::OsakanaError;
use osakana::game::GameState;
use osakana::kanji::{load_kanjis, Kanji};
use osakana::questions::{Question, Questions};
use osakana::sse_event::SseEvent;
use osakana::user::{User, Users};
use tokio::sync::broadcast;

fn catalog(n: u32) -> Vec<Kanji> {
    let mut csv = String::new();
    for i in 0..n {
        csv.push_str(&format!("{},yomi{},1,extra,0x{:x}\n", i, i, 0x6f22 + i));
    }
    load_kanjis(&csv)
}

/// A state whose round and roster are chosen by hand, so outcomes are
/// deterministic.
fn fixed_state(unicodes: &[&str], user_ids: &[&str]) -> GameState {
    let (tx, _rx) = broadcast::channel::<SseEvent>(16);
    let mut questions = Questions::default();
    for (i, u) in unicodes.iter().enumerate() {
        let csv = format!("1,yomi,1,extra,0x{}\n", u);
        let k = load_kanjis(&csv).into_iter().next().unwrap();
        questions.current.push(Question::new(i, k));
    }
    let mut participants = Users::new();
    for id in user_ids {
        participants.add(User::new(id.to_string()));
    }
    GameState { questions, participants, ranking: Vec::new(), tx }
}

#[test]
fn combo_grows_on_hits_and_collapses_on_a_miss() {
    let mut gs = fixed_state(&["6f22", "5b57"], &["p"]);
    // correct: 0 -> 1
    assert_eq!(gs.submit_answer(0, "6f22", "p"), Ok((true, 1)));
    // correct again on the other question: 1 -> 2
    assert_eq!(gs.submit_answer(1, "5b57", "p"), Ok((true, 2)));
    // incorrect: back to 0, whatever it was
    assert_eq!(gs.submit_answer(0, "0000", "p"), Ok((false, 0)));
    assert_eq!(gs.participants.0[0].combo, 0);
}

#[test]
fn answering_marks_only_hits_solved() {
    let mut gs = fixed_state(&["6f22", "5b57"], &["p"]);
    assert_eq!(gs.submit_answer(0, "6f22", "p"), Ok((true, 1)));
    assert!(gs.questions.current()[0].is_solved);
    assert!(!gs.questions.current()[1].is_solved);
    assert_eq!(gs.submit_answer(1, "bad", "p"), Ok((false, 0)));
    assert!(!gs.questions.current()[1].is_solved);
}

#[test]
fn unknown_question_or_participant_mutates_nothing() {
    let mut gs = fixed_state(&["6f22"], &["p"]);
    assert_eq!(gs.submit_answer(9, "6f22", "p"), Err(OsakanaError::NotFound));
    assert_eq!(gs.submit_answer(0, "6f22", "ghost"), Err(OsakanaError::NotFound));
    // in particular the question was not marked solved on the second try
    assert!(!gs.questions.current()[0].is_solved);
    assert_eq!(gs.participants.0[0].combo, 0);
}

#[test]
fn concurrent_answers_serialize_to_the_same_state() {
    // two participants answering the same question: both serial orders
    // leave the same round and the same streaks
    let run = |first: (&str, &str), second: (&str, &str)| {
        let mut gs = fixed_state(&["6f22"], &["a", "b"]);
        gs.submit_answer(0, first.1, first.0).unwrap();
        gs.submit_answer(0, second.1, second.0).unwrap();
        (
            gs.questions.current()[0].is_solved,
            gs.participants.0[0].combo,
            gs.participants.0[1].combo,
        )
    };
    let ab = run(("a", "6f22"), ("b", "0000"));
    let ba = run(("b", "0000"), ("a", "6f22"));
    assert_eq!(ab, ba);
    assert_eq!(ab, (true, 1, 0));
}

#[test]
fn scenario_round_expiry_resets_the_round() {
    let cat = catalog(12);
    let (tx, _rx) = broadcast::channel::<SseEvent>(16);
    let mut gs = GameState::new(tx, &cat);
    gs.set_round_duration(30);
    assert_eq!(gs.questions.total_time, 30000);
    // three ticks of ten seconds each on the countdown
    gs.questions.decrease_remaining_time(10000);
    gs.questions.decrease_remaining_time(10000);
    gs.questions.decrease_remaining_time(10000);
    assert_eq!(gs.questions.remaining_time, 0);
    assert!(gs.questions.is_remaining_time_zero());
    // the next clock tick reshuffles and the full 30s come back
    gs.tick(10000, &cat);
    assert_eq!(gs.questions.remaining_time, 30000);
    assert_eq!(gs.questions.current().len(), 10);
    assert!(gs.questions.current().iter().all(|q| !q.is_solved));
}

#[test]
fn tick_counts_down_without_reshuffling_early() {
    let cat = catalog(12);
    let (tx, _rx) = broadcast::channel::<SseEvent>(16);
    let mut gs = GameState::new(tx, &cat);
    gs.set_round_duration(30);
    let before: Vec<String> =
        gs.questions.current().iter().map(|q| q.kanji.unicode.clone()).collect();
    gs.tick(500, &cat);
    assert_eq!(gs.questions.remaining_time, 29500);
    let after: Vec<String> =
        gs.questions.current().iter().map(|q| q.kanji.unicode.clone()).collect();
    assert_eq!(before, after);
}

#[test]
fn create_user_admits_a_fresh_participant() {
    let cat = catalog(12);
    let (tx, _rx) = broadcast::channel::<SseEvent>(16);
    let mut gs = GameState::new(tx, &cat);
    let id = gs.create_user();
    assert_eq!(id.chars().count(), 36);
    assert_eq!(gs.participants.0.len(), 1);
    assert_eq!(gs.participants.0[0].id, id);
    assert_eq!(gs.participants.0[0].combo, 0);
    assert!(gs.participants.0[0].username.is_none());
    let other = gs.create_user();
    assert_ne!(id, other);
}

#[test]
fn scenario_registering_twice_appends_twice() {
    let mut gs = fixed_state(&["6f22"], &["p"]);
    assert_eq!(gs.register_ranking("p", "Alice"), Ok(()));
    assert_eq!(gs.register_ranking("p", "Alice"), Ok(()));
    let ranking = gs.current_ranking();
    assert_eq!(ranking.len(), 2);
    for entry in &ranking {
        assert_eq!(entry.id, "p");
        assert_eq!(entry.username.as_deref(), Some("Alice"));
    }
    assert_eq!(gs.register_ranking("ghost", "Bob"), Err(OsakanaError::NotFound));
    assert_eq!(gs.current_ranking().len(), 2);
}

#[test]
fn ranking_snapshots_freeze_the_streak() {
    let mut gs = fixed_state(&["6f22"], &["p"]);
    gs.submit_answer(0, "6f22", "p").unwrap();
    gs.register_ranking("p", "Alice").unwrap();
    gs.submit_answer(0, "bad", "p").unwrap();
    let ranking = gs.current_ranking();
    // the snapshot keeps the streak as of registration
    assert_eq!(ranking[0].combo, 1);
    assert_eq!(gs.participants.0[0].combo, 0);
}

#[test]
fn scenario_subscriber_sees_only_later_events_in_order() {
    let mut gs = fixed_state(&["6f22", "5b57"], &["p"]);
    // three events go out before anyone listens
    gs.submit_answer(0, "6f22", "p").unwrap();
    gs.submit_answer(1, "bad", "p").unwrap();
    gs.register_ranking("p", "Alice").unwrap();
    // now a subscriber attaches
    let mut rx = gs.tx.subscribe();
    gs.submit_answer(1, "5b57", "p").unwrap();
    gs.register_ranking("p", "Alice").unwrap();
    // it sees exactly the two later events, in send order
    match rx.try_recv().unwrap() {
        SseEvent::Answer { index, is_correct } => {
            assert_eq!(index, 1);
            assert!(is_correct);
        },
        _ => panic!("expected the answer event first"),
    }
    match rx.try_recv().unwrap() {
        SseEvent::UpdateRanking { ranking } => {
            assert_eq!(ranking.len(), 2);
        },
        _ => panic!("expected the ranking event second"),
    }
    assert!(rx.try_recv().is_err());
}

#[test]
fn tick_announces_the_countdown_and_resets() {
    let cat = catalog(12);
    let (tx, _rx) = broadcast::channel::<SseEvent>(16);
    let mut gs = GameState::new(tx, &cat);
    gs.set_round_duration(30);
    let mut rx = gs.tx.subscribe();
    gs.tick(15000, &cat);
    match rx.try_recv().unwrap() {
        SseEvent::RemainingTimePercentage { remaining_ms, total_ms } => {
            assert_eq!(remaining_ms, 15000);
            assert_eq!(total_ms, 30000);
        },
        _ => panic!("expected a countdown event"),
    }
    gs.tick(20000, &cat);
    match rx.try_recv().unwrap() {
        SseEvent::ReloadQuestions { questions } => {
            assert_eq!(questions.current().len(), 10);
        },
        _ => panic!("expected the round reset first"),
    }
    match rx.try_recv().unwrap() {
        SseEvent::RemainingTimePercentage { remaining_ms, total_ms } => {
            // the full clock is announced on the very tick that reset it
            assert_eq!(remaining_ms, 30000);
            assert_eq!(total_ms, 30000);
        },
        _ => panic!("expected the full clock after the reset"),
    }
}
