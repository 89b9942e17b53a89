use osakana::error::OsakanaError;
use osakana::kanji::{load_kanjis, Kanji};
use osakana::questions::{Question, Questions};
use std::collections::HashSet;

fn catalog(n: u32) -> Vec<Kanji> {
    // n distinct CJK code points starting at U+6F22
    let mut csv = String::new();
    for i in 0..n {
        csv.push_str(&format!("{},yomi{},1,extra,0x{:x}\n", i, i, 0x6f22 + i));
    }
    load_kanjis(&csv)
}

fn one_question_round(unicode_hex: &str) -> Questions {
    let csv = format!("1,yomi,1,extra,0x{}\n", unicode_hex);
    let ks = load_kanjis(&csv);
    let mut q = Questions::default();
    q.current.push(Question::new(0, ks.into_iter().next().unwrap()));
    q
}

#[test]
fn judge_matches_only_the_stored_unicode() {
    let q = one_question_round("6f22");
    assert_eq!(q.judge(0, "6f22"), Ok(true));
    assert_eq!(q.judge(0, "5b57"), Ok(false));
    assert_eq!(q.judge(0, ""), Ok(false));
    // one past the last valid index fails as not found, never as false
    assert_eq!(q.judge(1, "6f22"), Err(OsakanaError::NotFound));
    assert_eq!(q.judge(usize::MAX, "6f22"), Err(OsakanaError::NotFound));
}

#[test]
fn judge_correction_reads_only() {
    let q = one_question_round("6f22");
    assert!(q.current()[0].judge_correction("6f22"));
    assert!(!q.current()[0].judge_correction("6f23"));
    assert!(!q.current()[0].is_solved);
}

#[test]
fn mark_solved_is_idempotent() {
    let mut q = one_question_round("6f22");
    assert_eq!(q.mark_solved(0), Ok(()));
    assert!(q.current()[0].is_solved);
    assert_eq!(q.mark_solved(0), Ok(()));
    assert!(q.current()[0].is_solved);
    assert_eq!(q.mark_solved(5), Err(OsakanaError::NotFound));
}

#[test]
fn reset_takes_ten_from_a_larger_catalog() {
    let cat = catalog(12);
    assert_eq!(cat.len(), 12);
    let mut q = Questions::default();
    q.reset(&cat);
    assert_eq!(q.current().len(), 10);
    for (i, question) in q.current().iter().enumerate() {
        assert_eq!(question.index, i);
        assert!(!question.is_solved);
    }
    // drawn without replacement: no kanji repeats
    let uniq: HashSet<String> = q.current().iter().map(|x| x.kanji.unicode.clone()).collect();
    assert_eq!(uniq.len(), 10);
    // every drawn kanji comes from the catalog
    let pool: HashSet<String> = cat.iter().map(|k| k.unicode.clone()).collect();
    for question in q.current() {
        assert!(pool.contains(&question.kanji.unicode));
    }
}

#[test]
fn reset_takes_all_of_a_smaller_catalog() {
    let cat = catalog(3);
    let mut q = Questions::default();
    q.reset(&cat);
    assert_eq!(q.current().len(), 3);
    let indices: Vec<usize> = q.current().iter().map(|x| x.index).collect();
    assert_eq!(indices, vec![0, 1, 2]);
}

#[test]
fn reset_restores_the_clock() {
    let cat = catalog(3);
    let mut q = Questions::default();
    q.set_total_time(30000);
    q.decrease_remaining_time(50000);
    q.reset(&cat);
    assert_eq!(q.total_time, 30000);
    assert_eq!(q.remaining_time, 30000);
}

#[test]
fn decrease_remaining_time_saturates() {
    let mut q = Questions::default();
    q.set_total_time(30000);
    q.reset_time();
    q.decrease_remaining_time(10000);
    assert_eq!(q.remaining_time, 20000);
    q.decrease_remaining_time(25000);
    assert_eq!(q.remaining_time, 0);
    q.decrease_remaining_time(1);
    assert_eq!(q.remaining_time, 0);
    assert!(q.is_remaining_time_zero());
}

#[test]
fn remaining_time_percentage_stays_in_range() {
    let mut q = Questions::default();
    q.set_total_time(60000);
    q.reset_time();
    assert_eq!(q.remaining_time_percentage(), 100);
    q.decrease_remaining_time(30000);
    assert_eq!(q.remaining_time_percentage(), 50);
    q.decrease_remaining_time(29000);
    // 1000 / 60000 rounds down to one percent
    assert_eq!(q.remaining_time_percentage(), 1);
    q.decrease_remaining_time(60000);
    assert_eq!(q.remaining_time_percentage(), 0);
    // a zero-length round reads as zero instead of dividing by zero
    let mut z = Questions::default();
    z.set_total_time(0);
    z.reset_time();
    assert_eq!(z.remaining_time_percentage(), 0);
}

#[test]
fn set_total_time_leaves_remaining_alone() {
    let mut q = Questions::default();
    q.set_total_time(5000);
    // remaining still holds the default until reset_time
    assert_eq!(q.remaining_time, 60000);
    q.reset_time();
    assert_eq!(q.remaining_time, 5000);
}
