use std::collections::HashMap;

use coursedata::course::{Chapter, Course, SectionGroup, Textbook};
use coursedata::overall::OverallProgress;
use coursedata::progress::{CourseCompletion, CourseCompletionTextbook};
use coursedata::store::{ProgressStore, Settings};

fn course(id: u128) -> Course {
    Course {
        uuid: id,
        title: "c".to_string(),
        description: None,
        books: vec![Textbook {
            label: "b".to_string(),
            file: "b".to_string(),
            chapters: vec![Chapter {
                root: None,
                groups: vec![SectionGroup { weight: 1, sections: vec!["a".to_string(), "b".to_string()] }],
            }],
        }],
    }
}

fn record(done: &[&str], time_spent: u64) -> CourseCompletion {
    let mut books = HashMap::new();
    books.insert(
        0usize,
        CourseCompletionTextbook {
            completed_sections: done.iter().map(|x| x.to_string()).collect(),
            position: Some("p".to_string()),
        },
    );
    CourseCompletion { completed: None, books, time_spent }
}

#[test]
fn written_record_reads_back() {
    let mut store = ProgressStore::new();
    assert!(store.record(1).is_none());
    store.set_course_completion(&course(1), record(&["a"], 30), 5);
    let back = store.record(1).unwrap();
    assert_eq!(back.time_spent, 30);
    assert_eq!(back.completed, None);
    assert_eq!(back.books[&0].completed_sections, vec!["a".to_string()]);
    assert_eq!(back.books[&0].position, Some("p".to_string()));
}

#[test]
fn sequential_updates_count_time_once() {
    let mut store = ProgressStore::new();
    let c = course(1);
    store.set_course_completion(&c, record(&[], 100), 7);
    assert_eq!(store.overall.time_spent[&7], 100);
    store.set_course_completion(&c, record(&[], 150), 7);
    assert_eq!(store.overall.time_spent[&7], 150);
}

#[test]
fn updates_of_two_courses_are_both_kept() {
    let mut store = ProgressStore::new();
    store.set_course_completion(&course(1), record(&["a"], 40), 7);
    store.set_course_completion(&course(2), record(&["a", "b"], 60), 7);
    assert_eq!(store.overall.time_spent[&7], 100);
    assert_eq!(store.overall.chapters_completed[&7], 1_500_000);
    assert!(store.record(1).is_some());
    assert!(store.record(2).is_some());
}

#[test]
fn progress_view_from_store() {
    let mut store = ProgressStore::new();
    let c = course(3);
    let empty = store.get_course_progress(&c, 1);
    assert_eq!(empty.completion[0].chapter_completion, vec![0]);
    assert_eq!(empty.time_spent_today, 0);
    store.set_course_completion(&c, record(&["a", "b"], 90), 1);
    let p = store.get_course_progress(&c, 1);
    assert!(p.completed);
    assert_eq!(p.time_spent_today, 90);
}

#[test]
fn buckets_never_go_below_zero() {
    let mut o = OverallProgress::new();
    o.update(-5, -5, 1);
    assert!(o.chapters_completed.is_empty());
    assert!(o.time_spent.is_empty());
    o.update(2_000_000, 30, 1);
    o.update(-3_000_000, -50, 1);
    assert_eq!(o.chapters_completed[&1], 0);
    assert_eq!(o.time_spent[&1], 0);
    o.update(0, 0, 2);
    assert!(!o.time_spent.contains_key(&2));
    o.update(i128::MAX, 10, 3);
    assert_eq!(o.chapters_completed[&3], u64::MAX);
}

#[test]
fn losing_progress_lowers_the_bucket() {
    let mut store = ProgressStore::new();
    let c = course(4);
    store.set_course_completion(&c, record(&["a", "b"], 10), 2);
    assert_eq!(store.overall.chapters_completed[&2], 1_000_000);
    store.set_course_completion(&c, record(&["a"], 10), 2);
    assert_eq!(store.overall.chapters_completed[&2], 500_000);
}

#[test]
fn default_settings() {
    let s = Settings::default();
    assert!(s.show_course_clock);
    assert_eq!(s.maximum_course_time, 150);
    assert_eq!(s.maximum_daily_time, 300);
    assert_eq!(s.maximum_daily_chapters, 1_500_000);
    assert_eq!(s.weeks_displayed, 24);
}
