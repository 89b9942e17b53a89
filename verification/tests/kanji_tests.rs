use osakana::kanji::{load_kanjis, Kanji, KanjiDifficulty};

fn sample_csv() -> String {
    let mut s = String::new();
    s.push_str("1,かん,1,extra,0x6f22\n");
    s.push_str("2,じ,2,extra,0x5b57\n");
    s.push_str("3,みず,3,extra,0x6c34\n");
    s
}

#[test]
fn load_kanjis_from_csv() {
    assert!(!load_kanjis(&sample_csv()).is_empty());
}

#[test]
fn load_kanjis_reads_fields() {
    let ks: Vec<Kanji> = load_kanjis(&sample_csv());
    assert_eq!(ks.len(), 3);
    assert_eq!(ks[0].unicode, "6f22");
    assert_eq!(ks[0].yomi, "かん");
    assert_eq!(ks[0].kanji, '漢');
    assert_eq!(ks[0].difficulty, KanjiDifficulty::Easy);
    assert_eq!(ks[1].difficulty, KanjiDifficulty::Medium);
    assert_eq!(ks[1].kanji, '字');
    assert_eq!(ks[2].difficulty, KanjiDifficulty::Hard);
    assert_eq!(ks[2].kanji, '水');
}

#[test]
fn load_kanjis_skips_malformed_rows() {
    let mut s = String::new();
    s.push_str("1,かん,1,extra,0x6f22\n");
    s.push_str("\n"); // empty line
    s.push_str("too,few,fields\n"); // fewer than five fields
    s.push_str("2,よみ,9,extra,0x5b57\n"); // unknown difficulty token
    s.push_str("3,よみ,2,extra,5b57\n"); // missing 0x prefix
    s.push_str("4,よみ,2,extra,0xZZZZ\n"); // not hex digits
    s.push_str("5,よみ,2,extra,0x\n"); // empty hex
    s.push_str("6,よみ,2,extra,0xd800\n"); // surrogate, not a scalar value
    s.push_str("7,よみ,2,extra,0x110000\n"); // beyond the last code point
    s.push_str("8,じ,2,extra,0x5b57\n");
    let ks = load_kanjis(&s);
    assert_eq!(ks.len(), 2);
    assert_eq!(ks[0].unicode, "6f22");
    assert_eq!(ks[1].unicode, "5b57");
}

#[test]
fn load_kanjis_handles_crlf_and_empty() {
    let ks = load_kanjis("1,かん,1,extra,0x6f22\r\n2,じ,2,extra,0x5b57\r\n");
    assert_eq!(ks.len(), 2);
    assert!(load_kanjis("").is_empty());
}
