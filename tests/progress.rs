use std::collections::HashMap;

use coursedata::course::{Chapter, Course, SectionGroup, Textbook};
use coursedata::offsets::CourseTimeOffsets;
use coursedata::progress::{book_completion, chapter_completion, CourseCompletion, CourseCompletionTextbook, CourseProgress, ONE};

fn s(x: &str) -> String {
    x.to_string()
}

fn group(weight: i32, sections: &[&str]) -> SectionGroup {
    SectionGroup { weight, sections: sections.iter().map(|x| s(x)).collect() }
}

fn course_of(chapters: Vec<Chapter>) -> Course {
    Course {
        uuid: 7,
        title: s("Course"),
        description: None,
        books: vec![Textbook { label: s("Book"), file: s("book"), chapters }],
    }
}

fn record(done: &[&str], time_spent: u64) -> CourseCompletion {
    let mut books = HashMap::new();
    books.insert(
        0usize,
        CourseCompletionTextbook { completed_sections: done.iter().map(|x| s(x)).collect(), position: None },
    );
    CourseCompletion { completed: None, books, time_spent }
}

#[test]
fn half_of_one_group_gives_half() {
    let course = course_of(vec![Chapter { root: None, groups: vec![group(1, &["a", "b"])] }]);
    let mut offsets = CourseTimeOffsets::new();
    let p = CourseProgress::calculate(&course, &record(&["a"], 0), &mut offsets, 100);
    assert_eq!(p.completion.len(), 1);
    assert_eq!(p.completion[0].chapter_completion, vec![500_000]);
    assert_eq!(p.completion[0].overall_completion, 500_000);
    assert!(!p.completed);
}

#[test]
fn completed_root_makes_chapter_whole() {
    let ch = Chapter { root: Some(s("r")), groups: vec![group(1, &["a", "b"]), group(3, &["c"])] };
    let done = vec![s("r")];
    assert_eq!(chapter_completion(&done, &ch), ONE);
}

#[test]
fn empty_group_adds_nothing() {
    let ch = Chapter { root: None, groups: vec![group(1, &[]), group(1, &["a"])] };
    let done = vec![s("a")];
    assert_eq!(chapter_completion(&done, &ch), 500_000);
    let lone = Chapter { root: None, groups: vec![group(1, &[])] };
    assert_eq!(chapter_completion(&done, &lone), 0);
}

#[test]
fn chapter_without_groups_is_zero() {
    let ch = Chapter { root: None, groups: vec![] };
    assert_eq!(chapter_completion(&vec![s("a")], &ch), 0);
    let book = book_completion(&vec![], &vec![]);
    assert_eq!(book.overall_completion, 0);
    assert!(book.chapter_completion.is_empty());
}

#[test]
fn weights_and_negative_weights() {
    let ch = Chapter { root: None, groups: vec![group(3, &["a"]), group(1, &["b"]), group(-5, &["c"])] };
    assert_eq!(chapter_completion(&vec![s("a")], &ch), 750_000);
    let zero = Chapter { root: None, groups: vec![group(0, &["a"]), group(-1, &["b"])] };
    assert_eq!(chapter_completion(&vec![s("a"), s("b")], &zero), 0);
}

#[test]
fn fractional_weights() {
    // Weights of 0.5 and 1.5: the completed second group counts three quarters.
    let ch = Chapter { root: None, groups: vec![group(500, &["a"]), group(1500, &["b"])] };
    assert_eq!(chapter_completion(&vec![s("b")], &ch), 750_000);
    assert_eq!(chapter_completion(&vec![s("a")], &ch), 250_000);
}

#[test]
fn book_is_mean_of_chapters() {
    let chapters = vec![
        Chapter { root: None, groups: vec![group(1, &["a"])] },
        Chapter { root: None, groups: vec![group(1, &["b", "c", "d", "e"])] },
    ];
    let b = book_completion(&vec![s("a"), s("b")], &chapters);
    assert_eq!(b.chapter_completion, vec![ONE, 250_000]);
    assert_eq!(b.overall_completion, 625_000);
}

#[test]
fn whole_course_is_completed_and_mark_overrides() {
    let course = course_of(vec![Chapter { root: None, groups: vec![group(1, &["a"])] }]);
    let mut offsets = CourseTimeOffsets::new();
    let p = CourseProgress::calculate(&course, &record(&["a"], 0), &mut offsets, 1);
    assert!(p.completed);
    let mut marked = record(&[], 0);
    marked.completed = Some(true);
    assert!(CourseProgress::calculate(&course, &marked, &mut offsets, 1).completed);
    let mut unmarked = record(&["a"], 0);
    unmarked.completed = Some(false);
    assert!(!CourseProgress::calculate(&course, &unmarked, &mut offsets, 1).completed);
}

#[test]
fn course_without_textbooks_is_not_completed() {
    let course = Course { uuid: 1, title: s("t"), description: None, books: vec![] };
    let mut offsets = CourseTimeOffsets::new();
    let p = CourseProgress::calculate(&course, &CourseCompletion::new(), &mut offsets, 1);
    assert!(!p.completed);
    assert!(p.completion.is_empty());
}

#[test]
fn missing_textbook_record_counts_nothing() {
    let course = course_of(vec![Chapter { root: None, groups: vec![group(1, &["a"])] }]);
    let mut offsets = CourseTimeOffsets::new();
    let p = CourseProgress::calculate(&course, &CourseCompletion::new(), &mut offsets, 1);
    assert_eq!(p.completion[0].chapter_completion, vec![0]);
    assert_eq!(p.completion[0].overall_completion, 0);
}

#[test]
fn calculate_twice_gives_same_view() {
    let course = course_of(vec![Chapter { root: None, groups: vec![group(2, &["a", "b", "c"])] }]);
    let rec = record(&["a", "c"], 40);
    let mut offsets = CourseTimeOffsets::new();
    let p1 = CourseProgress::calculate(&course, &rec, &mut offsets, 9);
    let p2 = CourseProgress::calculate(&course, &rec, &mut offsets, 9);
    assert_eq!(p1.completed, p2.completed);
    assert_eq!(p1.time_spent_today, p2.time_spent_today);
    assert_eq!(p1.completion[0].chapter_completion, p2.completion[0].chapter_completion);
    assert_eq!(p1.completion[0].overall_completion, p2.completion[0].overall_completion);
    assert_eq!(p1.completion[0].chapter_completion, vec![666_666]);
}

#[test]
fn time_today_counts_from_first_touch() {
    let course = course_of(vec![]);
    let mut offsets = CourseTimeOffsets::new();
    let p = CourseProgress::calculate(&course, &record(&[], 500), &mut offsets, 3);
    assert_eq!(p.time_spent_today, 0);
    let p = CourseProgress::calculate(&course, &record(&[], 560), &mut offsets, 3);
    assert_eq!(p.time_spent_today, 60);
    let p = CourseProgress::calculate(&course, &record(&[], 600), &mut offsets, 4);
    assert_eq!(p.time_spent_today, 0);
}

#[test]
fn offset_is_seeded_once_a_day() {
    let mut offsets = CourseTimeOffsets::new();
    assert_eq!(offsets.today(5, 100, 10), 100);
    assert_eq!(offsets.today(5, 170, 10), 100);
    assert_eq!(offsets.today(6, 30, 10), 30);
    assert_eq!(offsets.today(5, 200, 11), 200);
    assert_eq!(offsets.offsets.len(), 1);
    assert_eq!(offsets.date, Some(11));
}

#[test]
fn time_and_chapter_diffs() {
    let before = record(&[], 100);
    let after = record(&["a"], 150);
    assert_eq!(CourseCompletion::calculate_time_diff_secs(&before, &after), 50);
    assert_eq!(CourseCompletion::calculate_time_diff_secs(&after, &before), -50);
    let course = course_of(vec![
        Chapter { root: None, groups: vec![group(1, &["a", "b"])] },
        Chapter { root: Some(s("a")), groups: vec![] },
    ]);
    let mut offsets = CourseTimeOffsets::new();
    let p0 = CourseProgress::calculate(&course, &before, &mut offsets, 1);
    let p1 = CourseProgress::calculate(&course, &after, &mut offsets, 1);
    assert_eq!(CourseProgress::calculate_chapter_diff(&p0, &p1), 1_500_000);
    assert_eq!(CourseProgress::calculate_chapter_diff(&p1, &p0), -1_500_000);
}
