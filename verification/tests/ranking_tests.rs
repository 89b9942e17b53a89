use osakana::game::GameState;
use osakana::kanji::load_kanjis;
use osakana::questions::{Question, Questions};
use osakana::ranking::{encode_ranking, parse_ranking};
use osakana::sse_event::SseEvent;
use osakana::user::{User, Users};
use tokio::sync::broadcast;

fn user(id: &str, name: Option<&str>, combo: u32) -> User {
    let mut u = User::new(id.to_string());
    if let Some(n) = name {
        u.set_username(n.to_string());
    }
    u.combo = combo;
    u
}

fn assert_users_eq(a: &[User], b: &[User]) {
    assert_eq!(a.len(), b.len());
    for (x, y) in a.iter().zip(b.iter()) {
        assert_eq!(x.id, y.id);
        assert_eq!(x.username, y.username);
        assert_eq!(x.combo, y.combo);
    }
}

#[test]
fn encode_writes_the_expected_text() {
    let l = vec![user("abc", None, 0)];
    assert_eq!(encode_ranking(&l), "[{\"id\":\"abc\",\"username\":null,\"combo\":0}]");
    let l = vec![user("a", Some("Alice"), 3)];
    assert_eq!(encode_ranking(&l), "[{\"id\":\"a\",\"username\":\"Alice\",\"combo\":3}]");
    let l: Vec<User> = Vec::new();
    assert_eq!(encode_ranking(&l), "[]");
    let l = vec![user("a", None, 1), user("b", Some("B"), 2)];
    assert_eq!(
        encode_ranking(&l),
        "[{\"id\":\"a\",\"username\":null,\"combo\":1},{\"id\":\"b\",\"username\":\"B\",\"combo\":2}]"
    );
}

#[test]
fn encode_escapes_quotes_and_backslashes() {
    let l = vec![user("a\\b", Some("say \"hi\""), 1)];
    let text = encode_ranking(&l);
    assert_eq!(
        text,
        "[{\"id\":\"a\\\\b\",\"username\":\"say \\\"hi\\\"\",\"combo\":1}]"
    );
    let back = parse_ranking(&text).unwrap();
    assert_users_eq(&back, &l);
}

#[test]
fn ranking_survives_the_round_trip() {
    let l = vec![
        user("9be0c3f1-0000-4000-8000-000000000001", Some("Alice"), 7),
        user("9be0c3f1-0000-4000-8000-000000000002", None, 0),
        user("id with spaces", Some(""), 4294967295),
        user("", Some("名前"), 12),
    ];
    let text = encode_ranking(&l);
    let back = parse_ranking(&text).unwrap();
    assert_users_eq(&back, &l);
    // the empty list survives too
    let text = encode_ranking(&Vec::new());
    assert!(parse_ranking(&text).unwrap().is_empty());
}

#[test]
fn parse_accepts_only_well_formed_text() {
    assert!(parse_ranking("").is_none());
    assert!(parse_ranking("[").is_none());
    assert!(parse_ranking("]").is_none());
    assert!(parse_ranking("[]x").is_none());
    assert!(parse_ranking("[{]").is_none());
    assert!(parse_ranking("[{\"id\":\"a\",\"username\":null,\"combo\":0}").is_none());
    assert!(parse_ranking("[{\"id\":\"a\",\"username\":null,\"combo\":}]").is_none());
    assert!(parse_ranking("[{\"id\":\"a\",\"username\":null,\"combo\":0},]").is_none());
    assert!(parse_ranking("[{\"id\":\"a\",\"username\":none,\"combo\":0}]").is_none());
    // an unknown escape refuses the text
    assert!(parse_ranking("[{\"id\":\"a\\n\",\"username\":null,\"combo\":0}]").is_none());
    assert!(parse_ranking("[{\"id\":\"a\\u0041\",\"username\":null,\"combo\":0}]").is_none());
    // a streak beyond the counter refuses the text
    assert!(parse_ranking("[{\"id\":\"a\",\"username\":null,\"combo\":4294967296}]").is_none());
    let l = parse_ranking("[{\"id\":\"a\",\"username\":null,\"combo\":4294967295}]").unwrap();
    assert_eq!(l[0].combo, u32::MAX);
}

#[test]
fn a_registered_ranking_survives_persistence() {
    let (tx, _rx) = broadcast::channel::<SseEvent>(8);
    let csv = "1,かん,1,extra,0x6f22\n";
    let k = load_kanjis(csv).into_iter().next().unwrap();
    let mut questions = Questions::default();
    questions.current.push(Question::new(0, k));
    let mut participants = Users::new();
    participants.add(User::new("p".to_string()));
    let mut gs = GameState { questions, participants, ranking: Vec::new(), tx };

    gs.submit_answer(0, "6f22", "p").unwrap();
    gs.register_ranking("p", "Alice").unwrap();
    gs.register_ranking("p", "Bob").unwrap();

    let before = gs.current_ranking();
    let text = encode_ranking(&before);
    let after = parse_ranking(&text).unwrap();
    assert_users_eq(&after, &before);
    assert_eq!(after.len(), 2);
    assert_eq!(after[0].username.as_deref(), Some("Alice"));
    assert_eq!(after[1].username.as_deref(), Some("Bob"));
    assert_eq!(after[0].combo, 1);
}

#[test]
fn control_characters_are_escaped_as_strict_json() {
    let l = vec![user("x", Some("a\nb"), 0)];
    let text = encode_ranking(&l);
    assert_eq!(text, "[{\"id\":\"x\",\"username\":\"a\\u000ab\",\"combo\":0}]");
    let back = parse_ranking(&text).unwrap();
    assert_users_eq(&back, &l);

    let l = vec![user("tab\tand\rcr", Some("\u{1}\u{1f}"), 2)];
    let text = encode_ranking(&l);
    assert_eq!(
        text,
        "[{\"id\":\"tab\\u0009and\\u000dcr\",\"username\":\"\\u0001\\u001f\",\"combo\":2}]"
    );
    let back = parse_ranking(&text).unwrap();
    assert_users_eq(&back, &l);
}

#[test]
fn parse_reads_control_escapes_back() {
    let l = parse_ranking("[{\"id\":\"a\\u0009b\",\"username\":null,\"combo\":0}]").unwrap();
    assert_eq!(l[0].id, "a\tb");
}

#[test]
fn parse_reads_leading_zeros_as_plain_numerals() {
    let l = parse_ranking("[{\"id\":\"a\",\"username\":null,\"combo\":007}]").unwrap();
    assert_eq!(l[0].combo, 7);
}
