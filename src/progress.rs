//! The progress engine: weighted completion of a course from its raw record.
//!
//! Fractions are fixed-point numbers in millionths: `ONE` is a whole.
use vstd::prelude::*;
use std::collections::HashMap;

use crate::course::{Chapter, Course, SectionGroup, Textbook};
use crate::offsets::{lemma_offset_stable, offset_today, table_after, CourseTimeOffsets, OffsetsModel};

verus! {

broadcast use vstd::std_specs::hash::group_hash_axioms;

/// A whole, in millionths.
pub const ONE: u64 = 1_000_000;

/// The raw record of one textbook's completion.
#[derive(Debug)]
pub struct CourseCompletionTextbook {
    /// The section ids completed within the textbook.
    pub completed_sections: Vec<String>,
    /// The reader's last position in the textbook.
    pub position: Option<String>,
}

/// The raw record of a course's completion.
#[derive(Debug)]
pub struct CourseCompletion {
    /// A completion status marked by hand, which overrides the computed one.
    pub completed: Option<bool>,
    /// Per textbook, by its index in the course.
    pub books: HashMap<usize, CourseCompletionTextbook>,
    /// Cumulative time spent in the course, in seconds.
    pub time_spent: u64,
}

/// The progress through one textbook.
#[derive(Debug)]
pub struct TextbookProgress {
    /// The mean of the chapter fractions, in millionths.
    pub overall_completion: u64,
    /// Each chapter's fraction, in millionths.
    pub chapter_completion: Vec<u64>,
}

/// The progress through a course, computed from a course and its record.
#[derive(Debug)]
pub struct CourseProgress {
    pub completed: bool,
    pub completion: Vec<TextbookProgress>,
    /// Seconds spent in the course today.
    pub time_spent_today: i128,
}

/// What a progress view holds, as mathematical values.
pub struct ProgressModel {
    pub completed: bool,
    /// Per textbook: its overall fraction and its chapter fractions.
    pub books: Seq<(nat, Seq<nat>)>,
    pub time_spent_today: int,
}

impl TextbookProgress {
    pub open spec fn model(&self) -> (nat, Seq<nat>) {
        (self.overall_completion as nat, self.chapter_completion@.map_values(|x: u64| x as nat))
    }
}

impl CourseProgress {
    pub open spec fn model(&self) -> ProgressModel {
        ProgressModel {
            completed: self.completed,
            books: self.completion@.map_values(|b: TextbookProgress| b.model()),
            time_spent_today: self.time_spent_today as int,
        }
    }
}

/// `s` is among the completed sections `done`.
pub open spec fn is_done(done: Seq<String>, s: Seq<char>) -> bool {
    exists|j: int| 0 <= j < done.len() && #[trigger] done[j]@ == s
}

/// How many of `secs` are completed.
pub open spec fn count_done(done: Seq<String>, secs: Seq<String>) -> nat
    decreases secs.len(),
{
    if secs.len() == 0 {
        0
    } else {
        count_done(done, secs.drop_last()) + if is_done(done, secs.last()@) {
            1nat
        } else {
            0nat
        }
    }
}

pub open spec fn clamped_weight(g: SectionGroup) -> nat {
    if g.weight < 0 {
        0
    } else {
        g.weight as nat
    }
}

/// A group's weighted completion, in millionths of its weight: the completed
/// share of its sections times its weight, and nothing for an empty group.
pub open spec fn group_progress(done: Seq<String>, g: SectionGroup) -> nat {
    if g.sections@.len() == 0 {
        0
    } else {
        (clamped_weight(g) * (ONE as nat) * count_done(done, g.sections@)) / g.sections@.len()
    }
}

pub open spec fn sum_progress(done: Seq<String>, gs: Seq<SectionGroup>) -> nat
    decreases gs.len(),
{
    if gs.len() == 0 {
        0
    } else {
        sum_progress(done, gs.drop_last()) + group_progress(done, gs.last())
    }
}

pub open spec fn sum_weight(gs: Seq<SectionGroup>) -> nat
    decreases gs.len(),
{
    if gs.len() == 0 {
        0
    } else {
        sum_weight(gs.drop_last()) + clamped_weight(gs.last())
    }
}

pub open spec fn root_reached(done: Seq<String>, ch: Chapter) -> bool {
    match ch.root {
        Some(r) => is_done(done, r@),
        None => false,
    }
}

/// A chapter's fraction: whole once its root is completed, else the weighted
/// mean of its groups' completion, and zero where the weights sum to zero.
pub open spec fn chapter_fraction(done: Seq<String>, ch: Chapter) -> nat {
    if root_reached(done, ch) {
        ONE as nat
    } else if sum_weight(ch.groups@) == 0 {
        0
    } else {
        sum_progress(done, ch.groups@) / sum_weight(ch.groups@)
    }
}

pub open spec fn seq_sum(s: Seq<nat>) -> nat
    decreases s.len(),
{
    if s.len() == 0 {
        0
    } else {
        seq_sum(s.drop_last()) + s.last()
    }
}

/// The arithmetic mean, and zero for no values.
pub open spec fn mean(s: Seq<nat>) -> nat {
    if s.len() == 0 {
        0
    } else {
        seq_sum(s) / s.len()
    }
}

/// The sections completed in the textbook at `i`, by the per-textbook records
/// `books`.
pub open spec fn done_in_book(books: Map<usize, CourseCompletionTextbook>, i: int) -> Seq<String> {
    if books.contains_key(i as usize) {
        books[i as usize].completed_sections@
    } else {
        Seq::empty()
    }
}

pub open spec fn chapter_fractions(done: Seq<String>, chs: Seq<Chapter>) -> Seq<nat> {
    chs.map_values(|ch: Chapter| chapter_fraction(done, ch))
}

pub open spec fn book_model(course: Course, books: Map<usize, CourseCompletionTextbook>, i: int) -> (nat, Seq<nat>) {
    let fr = chapter_fractions(done_in_book(books, i), course.books@[i].chapters@);
    (mean(fr), fr)
}

/// The course is completed: by the record's own mark `mark` where it has one,
/// else where it has textbooks and each of them is whole.
pub open spec fn completed_spec(course: Course, mark: Option<bool>, books: Map<usize, CourseCompletionTextbook>) -> bool {
    match mark {
        Some(b) => b,
        None => course.books@.len() > 0 && forall|i: int|
            0 <= i < course.books@.len() ==> #[trigger] book_model(course, books, i).0 == ONE,
    }
}

/// The progress view of `course` under a record with the mark `mark`, the
/// per-textbook records `books` and the cumulative time `time_spent`, where
/// `offset` is the time recorded at the start of the day.
pub open spec fn progress_of(
    course: Course,
    mark: Option<bool>,
    books: Map<usize, CourseCompletionTextbook>,
    time_spent: u64,
    offset: u64,
) -> ProgressModel {
    ProgressModel {
        completed: completed_spec(course, mark, books),
        books: Seq::new(course.books@.len(), |i: int| book_model(course, books, i)),
        time_spent_today: time_spent - offset,
    }
}

/// The progress view of `course` under the record `c`.
pub open spec fn progress_spec(course: Course, c: CourseCompletion, offset: u64) -> ProgressModel {
    progress_of(course, c.completed, c.books@, c.time_spent, offset)
}

proof fn lemma_count_done_le(done: Seq<String>, secs: Seq<String>)
    ensures
        count_done(done, secs) <= secs.len(),
    decreases secs.len(),
{
    if secs.len() > 0 {
        lemma_count_done_le(done, secs.drop_last());
    }
}

/// Whether `s` is among `done`.
fn contains_section(done: &Vec<String>, s: &String) -> (r: bool)
    ensures
        r == is_done(done@, s@),
{
    let mut j: usize = 0;
    while j < done.len()
        invariant
            j <= done@.len(),
            forall|k: int| 0 <= k < j ==> done@[k]@ != s@,
        decreases done@.len() - j,
    {
        if done[j] == *s {
            return true;
        }
        j = j + 1;
    }
    false
}

/// How many sections of the group are completed.
fn count_completed(done: &Vec<String>, secs: &Vec<String>) -> (r: usize)
    ensures
        r == count_done(done@, secs@),
{
    let mut n: usize = 0;
    let mut i: usize = 0;
    while i < secs.len()
        invariant
            i <= secs@.len(),
            n == count_done(done@, secs@.take(i as int)),
            n <= i,
        decreases secs@.len() - i,
    {
        assert(secs@.take(i as int + 1).drop_last() =~= secs@.take(i as int));
        if contains_section(done, &secs[i]) {
            n = n + 1;
        }
        i = i + 1;
    }
    assert(secs@.take(secs@.len() as int) =~= secs@);
    n
}

/// The weighted completion of one section group, in millionths of its weight.
fn group_completion(done: &Vec<String>, g: &SectionGroup) -> (r: u128)
    ensures
        r == group_progress(done@, *g),
        r <= clamped_weight(*g) * ONE,
{
    let n = g.sections.len();
    if n == 0 {
        return 0;
    }
    let c = count_completed(done, &g.sections);
    proof {
        lemma_count_done_le(done@, g.sections@);
    }
    let w: u128 = if g.weight < 0 { 0 } else { g.weight as u128 };
    assert(w * 1_000_000 * (c as u128) <= 0x8000_0000u128 * 1_000_000 * 0xffff_ffff_ffff_ffffu128) by (nonlinear_arith)
        requires w <= 0x8000_0000u128, c <= 0xffff_ffff_ffff_ffffu128;
    let p = w * 1_000_000 * (c as u128);
    assert(p / (n as u128) <= w * 1_000_000) by (nonlinear_arith)
        requires p == w * 1_000_000 * (c as u128), c <= n, n > 0;
    p / (n as u128)
}

/// The fraction of one chapter, in millionths.
pub fn chapter_completion(done: &Vec<String>, ch: &Chapter) -> (r: u64)
    ensures
        r == chapter_fraction(done@, *ch),
        r <= ONE,
{
    if let Some(root) = &ch.root {
        if contains_section(done, root) {
            return ONE;
        }
    }
    let mut progress: u128 = 0;
    let mut total: u128 = 0;
    let mut i: usize = 0;
    while i < ch.groups.len()
        invariant
            i <= ch.groups@.len(),
            progress == sum_progress(done@, ch.groups@.take(i as int)),
            total == sum_weight(ch.groups@.take(i as int)),
            total <= i * 0x8000_0000,
            progress <= total * ONE,
        decreases ch.groups@.len() - i,
    {
        assert(ch.groups@.take(i as int + 1).drop_last() =~= ch.groups@.take(i as int));
        let g = &ch.groups[i];
        let gp = group_completion(done, g);
        let w: u128 = if g.weight < 0 { 0 } else { g.weight as u128 };
        assert(total * ONE + w * ONE == (total + w) * ONE) by (nonlinear_arith);
        assert((i + 1) * 0x8000_0000 <= 0x1_0000_0000_0000_0000u128 * 0x8000_0000) by (nonlinear_arith)
            requires i < 0x1_0000_0000_0000_0000u128;
        assert(total * ONE <= 0x1_0000_0000_0000_0000u128 * 0x8000_0000 * ONE) by (nonlinear_arith)
            requires total <= i * 0x8000_0000, i < 0x1_0000_0000_0000_0000u128;
        progress = progress + gp;
        total = total + w;
        i = i + 1;
    }
    assert(ch.groups@.take(ch.groups@.len() as int) =~= ch.groups@);
    if total == 0 {
        0
    } else {
        assert(progress / total <= ONE) by (nonlinear_arith)
            requires progress <= total * ONE, total > 0;
        (progress / total) as u64
    }
}


/// The number of chapters across the textbooks `bs`.
pub open spec fn course_chapter_count(bs: Seq<Textbook>) -> nat
    decreases bs.len(),
{
    if bs.len() == 0 {
        0
    } else {
        course_chapter_count(bs.drop_last()) + bs.last().chapters@.len()
    }
}

/// The number of chapter fractions in a view.
pub open spec fn chapter_count(bs: Seq<(nat, Seq<nat>)>) -> nat
    decreases bs.len(),
{
    if bs.len() == 0 {
        0
    } else {
        chapter_count(bs.drop_last()) + bs.last().1.len()
    }
}

/// The sum of all chapter fractions in a view.
pub open spec fn chapter_total(bs: Seq<(nat, Seq<nat>)>) -> nat
    decreases bs.len(),
{
    if bs.len() == 0 {
        0
    } else {
        chapter_total(bs.drop_last()) + seq_sum(bs.last().1)
    }
}

/// The summed chapter fractions of `course` under the per-textbook records
/// `books`.
pub open spec fn chapters_done(course: Course, books: Map<usize, CourseCompletionTextbook>) -> nat {
    chapter_total(Seq::new(course.books@.len(), |i: int| book_model(course, books, i)))
}

/// Each fraction of a view is at most a whole.
pub open spec fn fractions_bounded(bs: Seq<(nat, Seq<nat>)>) -> bool {
    forall|i: int, j: int|
        0 <= i < bs.len() && 0 <= j < bs[i].1.len() ==> #[trigger] bs[i].1[j] <= ONE && bs[i].0 <= ONE
}

/// The progress through one textbook, from its chapters.
pub fn book_completion(done: &Vec<String>, chapters: &Vec<Chapter>) -> (r: TextbookProgress)
    ensures
        r.model() == (mean(chapter_fractions(done@, chapters@)), chapter_fractions(done@, chapters@)),
        r.overall_completion <= ONE,
        forall|j: int| 0 <= j < r.chapter_completion@.len() ==> #[trigger] r.chapter_completion@[j] <= ONE,
{
    let ghost fr = chapter_fractions(done@, chapters@);
    let mut cs: Vec<u64> = Vec::new();
    let mut sum: u128 = 0;
    let mut i: usize = 0;
    while i < chapters.len()
        invariant
            i <= chapters@.len(),
            fr == chapter_fractions(done@, chapters@),
            cs@.len() == i,
            forall|k: int| 0 <= k < i ==> #[trigger] cs@[k] == fr[k] && cs@[k] <= ONE,
            sum == seq_sum(fr.take(i as int)),
            sum <= i * ONE,
        decreases chapters@.len() - i,
    {
        assert(fr.take(i as int + 1).drop_last() =~= fr.take(i as int));
        let c = chapter_completion(done, &chapters[i]);
        cs.push(c);
        sum = sum + c as u128;
        i = i + 1;
    }
    assert(fr.take(i as int) =~= fr);
    assert(cs@.map_values(|x: u64| x as nat) =~= fr);
    let overall: u64 = if i == 0 {
        0
    } else {
        assert(sum / (i as u128) <= ONE) by (nonlinear_arith)
            requires sum <= i * ONE, i > 0;
        (sum / (i as u128)) as u64
    };
    TextbookProgress { overall_completion: overall, chapter_completion: cs }
}

impl CourseProgress {
    /// The progress view of `course` under its record `completion` on day
    /// `date`. The course's time offset for the day is taken from `offsets`,
    /// and seeded there on the first call of the day.
    pub fn calculate(course: &Course, completion: &CourseCompletion, offsets: &mut CourseTimeOffsets, date: i32) -> (r: Self)
        ensures
            r.model() == progress_spec(*course, *completion, offset_today(old(offsets)@, course.uuid, completion.time_spent, date)),
            final(offsets)@ == crate::offsets::table_after(old(offsets)@, course.uuid, completion.time_spent, date),
            fractions_bounded(r.model().books),
            chapter_count(r.model().books) == course_chapter_count(course.books@),
    {
        let empty: Vec<String> = Vec::new();
        let mut books: Vec<TextbookProgress> = Vec::new();
        let ghost target = Seq::new(course.books@.len(), |i: int| book_model(*course, completion.books@, i));
        let mut all_whole = true;
        let ghost mut witness: int = 0;
        let mut i: usize = 0;
        while i < course.books.len()
            invariant
                i <= course.books@.len(),
                empty@.len() == 0,
                target == Seq::new(course.books@.len(), |i: int| book_model(*course, completion.books@, i)),
                books@.len() == i,
                forall|k: int| 0 <= k < i ==> (#[trigger] books@[k]).model() == target[k],
                forall|k: int| 0 <= k < i ==> (#[trigger] books@[k]).overall_completion <= ONE,
                forall|k: int, j: int| 0 <= k < i && 0 <= j < books@[k].chapter_completion@.len()
                    ==> #[trigger] books@[k].chapter_completion@[j] <= ONE,
                all_whole ==> forall|k: int| 0 <= k < i ==> #[trigger] target[k].0 == ONE,
                !all_whole ==> 0 <= witness < i && target[witness].0 != ONE,
                chapter_count(books@.map_values(|b: TextbookProgress| b.model())) == course_chapter_count(course.books@.take(i as int)),
            decreases course.books@.len() - i,
        {
            let done: &Vec<String> = match completion.books.get(&i) {
                Some(b) => &b.completed_sections,
                None => &empty,
            };
            assert(done@ == done_in_book(completion.books@, i as int));
            let tp = book_completion(done, &course.books[i].chapters);
            assert(tp.model() == target[i as int]);
            let ghost prev = books@;
            if tp.overall_completion != ONE {
                all_whole = false;
                proof {
                    witness = i as int;
                }
            }
            books.push(tp);
            proof {
                assert(books@.map_values(|b: TextbookProgress| b.model()).drop_last()
                    =~= prev.map_values(|b: TextbookProgress| b.model()));
                assert(course.books@.take(i as int + 1).drop_last() =~= course.books@.take(i as int));
            }
            i = i + 1;
        }
        let completed = match completion.completed {
            Some(b) => b,
            None => i > 0 && all_whole,
        };
        let offset = offsets.today(course.uuid, completion.time_spent, date);
        let r = CourseProgress {
            completed,
            completion: books,
            time_spent_today: completion.time_spent as i128 - offset as i128,
        };
        proof {
            assert(r.model().books =~= target);
            if completion.completed.is_none() {
                if completed {
                    assert forall|k: int| 0 <= k < course.books@.len() implies #[trigger] book_model(*course, completion.books@, k).0 == ONE by {
                        assert(target[k] == book_model(*course, completion.books@, k));
                    }
                } else if i > 0 {
                    assert(target[witness] == book_model(*course, completion.books@, witness));
                }
                assert(completed == completed_spec(*course, completion.completed, completion.books@));
            }
            assert(course.books@.take(i as int) =~= course.books@);
        }
        r
    }
}

proof fn lemma_count_prefix(bs: Seq<(nat, Seq<nat>)>, i: int)
    requires
        0 <= i < bs.len(),
    ensures
        chapter_count(bs.take(i)) + bs[i].1.len() == chapter_count(bs.take(i + 1)),
        chapter_count(bs.take(i + 1)) <= chapter_count(bs),
    decreases bs.len(),
{
    assert(bs.take(i + 1).drop_last() =~= bs.take(i));
    if i + 1 < bs.len() {
        lemma_count_prefix(bs.drop_last(), i);
        assert(bs.drop_last().take(i) =~= bs.take(i));
        assert(bs.drop_last().take(i + 1) =~= bs.take(i + 1));
    } else {
        assert(bs.take(i + 1) =~= bs);
    }
}

impl CourseCompletion {
    /// An empty record: nothing completed, no mark, no time.
    pub fn new() -> (r: Self)
        ensures
            r.completed.is_none(),
            r.books@ == Map::<usize, CourseCompletionTextbook>::empty(),
            r.time_spent == 0,
    {
        CourseCompletion { completed: None, books: HashMap::new(), time_spent: 0 }
    }

    /// The change in cumulative time, in seconds, from `before` to `after`.
    pub fn calculate_time_diff_secs(before: &Self, after: &Self) -> (r: i128)
        ensures
            r == after.time_spent - before.time_spent,
    {
        after.time_spent as i128 - before.time_spent as i128
    }
}

/// The sum of the chapter fractions of a view.
fn chapter_sum(p: &CourseProgress) -> (r: u128)
    requires
        fractions_bounded(p.model().books),
        chapter_count(p.model().books) <= usize::MAX,
    ensures
        r == chapter_total(p.model().books),
        r <= chapter_count(p.model().books) * ONE,
{
    let ghost m = p.model().books;
    let mut acc: u128 = 0;
    let mut i: usize = 0;
    while i < p.completion.len()
        invariant
            m == p.model().books,
            fractions_bounded(m),
            chapter_count(m) <= usize::MAX,
            i <= m.len(),
            acc == chapter_total(m.take(i as int)),
            acc <= chapter_count(m.take(i as int)) * ONE,
        decreases m.len() - i,
    {
        proof {
            lemma_count_prefix(m, i as int);
            assert(m.take(i as int + 1).drop_last() =~= m.take(i as int));
        }
        let cs = &p.completion[i].chapter_completion;
        let ghost base = acc;
        let ghost fr = m[i as int].1;
        let mut j: usize = 0;
        while j < cs.len()
            invariant
                m == p.model().books,
                fractions_bounded(m),
                i < m.len(),
                fr == m[i as int].1,
                cs@.map_values(|x: u64| x as nat) == fr,
                chapter_count(m.take(i as int)) + fr.len() <= usize::MAX,
                j <= cs@.len(),
                acc == base + seq_sum(fr.take(j as int)),
                acc <= (chapter_count(m.take(i as int)) + j) * ONE,
            decreases cs@.len() - j,
        {
            assert(fr.take(j as int + 1).drop_last() =~= fr.take(j as int));
            assert(fr[j as int] <= ONE);
            let c = cs[j];
            assert((chapter_count(m.take(i as int)) + j) * ONE + ONE == (chapter_count(m.take(i as int)) + j + 1) * ONE) by (nonlinear_arith);
            assert((chapter_count(m.take(i as int)) + j + 1) * ONE <= 0x1_0000_0000_0000_0000u128 * ONE) by (nonlinear_arith)
                requires chapter_count(m.take(i as int)) + j + 1 <= 0x1_0000_0000_0000_0000u128;
            acc = acc + c as u128;
            j = j + 1;
        }
        assert(fr.take(j as int) =~= fr);
        i = i + 1;
    }
    assert(m.take(i as int) =~= m);
    acc
}

impl CourseProgress {
    /// The change in the summed chapter fractions, in millionths, from `before`
    /// to `after`.
    pub fn calculate_chapter_diff(before: &Self, after: &Self) -> (r: i128)
        requires
            fractions_bounded(before.model().books),
            fractions_bounded(after.model().books),
            chapter_count(before.model().books) <= usize::MAX,
            chapter_count(after.model().books) <= usize::MAX,
        ensures
            r == chapter_total(after.model().books) - chapter_total(before.model().books),
    {
        let b = chapter_sum(before);
        let a = chapter_sum(after);
        assert(a <= 0x1_0000_0000_0000_0000u128 * ONE) by (nonlinear_arith)
            requires a <= chapter_count(after.model().books) * ONE, chapter_count(after.model().books) <= 0xffff_ffff_ffff_ffffu128;
        assert(b <= 0x1_0000_0000_0000_0000u128 * ONE) by (nonlinear_arith)
            requires b <= chapter_count(before.model().books) * ONE, chapter_count(before.model().books) <= 0xffff_ffff_ffff_ffffu128;
        a as i128 - b as i128
    }
}

/// A chapter whose root section is completed is whole, whatever its groups.
pub proof fn lemma_root_completes_chapter(done: Seq<String>, ch: Chapter)
    requires
        root_reached(done, ch),
    ensures
        chapter_fraction(done, ch) == ONE,
{
}

/// A section group without sections adds nothing to its chapter's progress.
pub proof fn lemma_empty_group_adds_nothing(done: Seq<String>, g: SectionGroup)
    requires
        g.sections@.len() == 0,
    ensures
        group_progress(done, g) == 0,
{
}

/// Calculating a course's progress twice on one day, with the same record,
/// gives the same view; the second calculation leaves the offsets as the first
/// left them.
pub proof fn lemma_calculate_idempotent(course: Course, c: CourseCompletion, t: OffsetsModel, date: i32)
    ensures
        progress_spec(course, c, offset_today(table_after(t, course.uuid, c.time_spent, date), course.uuid, c.time_spent, date))
            == progress_spec(course, c, offset_today(t, course.uuid, c.time_spent, date)),
        table_after(table_after(t, course.uuid, c.time_spent, date), course.uuid, c.time_spent, date)
            == table_after(t, course.uuid, c.time_spent, date),
{
    lemma_offset_stable(t, course.uuid, c.time_spent, c.time_spent, date);
}

} // verus!
