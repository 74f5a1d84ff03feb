//! The progress store: completion records, the time offsets of the day and
//! the aggregate series, updated together.
use vstd::prelude::*;
use std::collections::HashMap;

use crate::course::Course;
use crate::offsets::{offset_today, table_after, CourseTimeOffsets};
use crate::overall::{overall_after, OverallModel, OverallProgress};
use crate::progress::{
    chapters_done, course_chapter_count, progress_of, progress_spec, CourseCompletion, CourseCompletionTextbook,
    CourseProgress,
};

verus! {

broadcast use vstd::std_specs::hash::group_hash_axioms;

/// Completion records by course identifier, with the aggregate series that
/// sums their changes and the time offsets of the day.
///
/// Each update takes the store by unique reference, so that reading the prior
/// record, writing the new one and adjusting the aggregate form one step.
#[derive(Debug)]
pub struct ProgressStore {
    pub records: HashMap<u128, CourseCompletion>,
    pub overall: OverallProgress,
    pub offsets: CourseTimeOffsets,
}

/// The per-textbook records of course `id`, or none where it has no record.
pub open spec fn prior_books(records: Map<u128, CourseCompletion>, id: u128) -> Map<usize, CourseCompletionTextbook> {
    if records.contains_key(id) {
        records[id].books@
    } else {
        Map::empty()
    }
}

/// The cumulative time of course `id`, zero where it has no record.
pub open spec fn prior_time(records: Map<u128, CourseCompletion>, id: u128) -> u64 {
    if records.contains_key(id) {
        records[id].time_spent
    } else {
        0
    }
}

/// The aggregate after the record of `course` was replaced by `data` on `date`.
pub open spec fn overall_after_set(
    o: OverallModel,
    records: Map<u128, CourseCompletion>,
    course: Course,
    data: CourseCompletion,
    date: i32,
) -> OverallModel {
    overall_after(
        o,
        chapters_done(course, data.books@) - chapters_done(course, prior_books(records, course.uuid)),
        data.time_spent - prior_time(records, course.uuid),
        date,
    )
}

impl ProgressStore {
    /// A store with no records and empty series.
    pub fn new() -> (r: Self)
        ensures
            r.records@ == Map::<u128, CourseCompletion>::empty(),
            r.overall@.chapters_completed == Map::<i32, u64>::empty(),
            r.overall@.time_spent == Map::<i32, u64>::empty(),
            r.offsets@.date.is_none(),
    {
        ProgressStore { records: HashMap::new(), overall: OverallProgress::new(), offsets: CourseTimeOffsets::new() }
    }

    /// The stored record of course `id`.
    pub fn record(&self, id: u128) -> (r: Option<&CourseCompletion>)
        ensures
            r matches Some(c) ==> self.records@.contains_key(id) && *c == self.records@[id],
            r is None ==> !self.records@.contains_key(id),
    {
        self.records.get(&id)
    }

    /// The progress view of `course` on day `date`, from its stored record or
    /// from an empty one.
    pub fn get_course_progress(&mut self, course: &Course, date: i32) -> (r: CourseProgress)
        ensures
            old(self).records@.contains_key(course.uuid) ==> r.model() == progress_spec(
                *course,
                old(self).records@[course.uuid],
                offset_today(old(self).offsets@, course.uuid, old(self).records@[course.uuid].time_spent, date),
            ),
            !old(self).records@.contains_key(course.uuid) ==> r.model() == progress_of(
                *course,
                None,
                Map::empty(),
                0,
                offset_today(old(self).offsets@, course.uuid, 0, date),
            ),
            final(self).records == old(self).records,
            final(self).overall == old(self).overall,
            final(self).offsets@ == table_after(old(self).offsets@, course.uuid, prior_time(old(self).records@, course.uuid), date),
    {
        match self.records.get(&course.uuid) {
            Some(c) => CourseProgress::calculate(course, c, &mut self.offsets, date),
            None => {
                let empty = CourseCompletion::new();
                CourseProgress::calculate(course, &empty, &mut self.offsets, date)
            },
        }
    }

    /// Replaces the record of `course` by `data` on day `date`, and moves the
    /// day's aggregate buckets by the change in summed chapter fractions and in
    /// cumulative time between the prior record (an empty one where there was
    /// none) and `data`.
    pub fn set_course_completion(&mut self, course: &Course, data: CourseCompletion, date: i32)
        requires
            course_chapter_count(course.books@) <= usize::MAX,
        ensures
            final(self).records@ == old(self).records@.insert(course.uuid, data),
            final(self).overall@ == overall_after_set(old(self).overall@, old(self).records@, *course, data, date),
            final(self).offsets@ == table_after(old(self).offsets@, course.uuid, prior_time(old(self).records@, course.uuid), date),
    {
        let empty = CourseCompletion::new();
        let time_change: i128;
        let chapter_change: i128;
        {
            let prior: &CourseCompletion = match self.records.get(&course.uuid) {
                Some(c) => c,
                None => &empty,
            };
            assert(prior.books@ == prior_books(self.records@, course.uuid));
            assert(prior.time_spent == prior_time(self.records@, course.uuid));
            let old_progress = CourseProgress::calculate(course, prior, &mut self.offsets, date);
            let new_progress = CourseProgress::calculate(course, &data, &mut self.offsets, date);
            time_change = CourseCompletion::calculate_time_diff_secs(prior, &data);
            chapter_change = CourseProgress::calculate_chapter_diff(&old_progress, &new_progress);
        }
        proof {
            crate::offsets::lemma_offset_stable(
                old(self).offsets@,
                course.uuid,
                prior_time(old(self).records@, course.uuid),
                data.time_spent,
                date,
            );
        }
        self.records.insert(course.uuid, data);
        self.overall.update(chapter_change, time_change, date);
    }
}

/// Writing a record and reading it back gives the same record.
pub proof fn lemma_record_round_trip(records: Map<u128, CourseCompletion>, id: u128, data: CourseCompletion)
    ensures
        records.insert(id, data).contains_key(id),
        records.insert(id, data)[id] == data,
{
}

/// The time bucket of a day, zero where there is none.
pub open spec fn time_on(o: OverallModel, date: i32) -> int {
    if o.time_spent.contains_key(date) {
        o.time_spent[date] as int
    } else {
        0
    }
}

/// One update on a day with grown cumulative time moves that day's time bucket
/// by the growth from the stored record (or from zero where there is none),
/// short of the bucket's upper limit, and stores the new record.
pub proof fn lemma_update_time_bucket(
    o: OverallModel,
    records: Map<u128, CourseCompletion>,
    course: Course,
    data: CourseCompletion,
    date: i32,
)
    requires
        prior_time(records, course.uuid) <= data.time_spent,
        time_on(o, date) + data.time_spent - prior_time(records, course.uuid) <= u64::MAX,
    ensures
        time_on(overall_after_set(o, records, course, data, date), date)
            == time_on(o, date) + data.time_spent - prior_time(records, course.uuid),
        records.insert(course.uuid, data)[course.uuid] == data,
{
}

/// Two updates of one course on one day, with growing cumulative time, move
/// the day's time bucket by the growth from the prior record to the last one:
/// the time of the first update is not counted twice.
pub proof fn lemma_same_course_updates(
    o: OverallModel,
    records: Map<u128, CourseCompletion>,
    course: Course,
    d1: CourseCompletion,
    d2: CourseCompletion,
    date: i32,
)
    requires
        prior_time(records, course.uuid) <= d1.time_spent <= d2.time_spent,
        time_on(o, date) + d2.time_spent - prior_time(records, course.uuid) <= u64::MAX,
    ensures
        time_on(
            overall_after_set(
                overall_after_set(o, records, course, d1, date),
                records.insert(course.uuid, d1),
                course,
                d2,
                date,
            ),
            date,
        ) == time_on(o, date) + d2.time_spent - prior_time(records, course.uuid),
{
    let p = prior_time(records, course.uuid);
    assert(prior_time(records.insert(course.uuid, d1), course.uuid) == d1.time_spent);
    crate::overall::lemma_changes_accumulate(o.time_spent, date, d1.time_spent - p, d2.time_spent - d1.time_spent);
}

/// Updates of two different courses are both kept: each record is stored, and
/// the day's time bucket holds the growth of both.
pub proof fn lemma_two_courses_updates(
    o: OverallModel,
    records: Map<u128, CourseCompletion>,
    c1: Course,
    d1: CourseCompletion,
    c2: Course,
    d2: CourseCompletion,
    date: i32,
)
    requires
        c1.uuid != c2.uuid,
        prior_time(records, c1.uuid) <= d1.time_spent,
        prior_time(records, c2.uuid) <= d2.time_spent,
        time_on(o, date) + (d1.time_spent - prior_time(records, c1.uuid)) + (d2.time_spent - prior_time(records, c2.uuid)) <= u64::MAX,
    ensures
        records.insert(c1.uuid, d1).insert(c2.uuid, d2)[c1.uuid] == d1,
        records.insert(c1.uuid, d1).insert(c2.uuid, d2)[c2.uuid] == d2,
        time_on(
            overall_after_set(
                overall_after_set(o, records, c1, d1, date),
                records.insert(c1.uuid, d1),
                c2,
                d2,
                date,
            ),
            date,
        ) == time_on(o, date) + (d1.time_spent - prior_time(records, c1.uuid)) + (d2.time_spent - prior_time(records, c2.uuid)),
{
    let p1 = prior_time(records, c1.uuid);
    let p2 = prior_time(records, c2.uuid);
    assert(prior_time(records.insert(c1.uuid, d1), c2.uuid) == p2);
    crate::overall::lemma_changes_accumulate(o.time_spent, date, d1.time_spent - p1, d2.time_spent - p2);
}

/// The user's display settings.
#[derive(Debug, Clone, Copy)]
pub struct Settings {
    pub show_course_clock: bool,
    /// Minutes.
    pub maximum_course_time: u16,
    /// Minutes.
    pub maximum_daily_time: u16,
    /// Chapters, in millionths.
    pub maximum_daily_chapters: u64,
    pub weeks_displayed: u8,
}

impl Default for Settings {
    fn default() -> (r: Self)
        ensures
            r.show_course_clock,
            r.maximum_course_time == 150,
            r.maximum_daily_time == 300,
            r.maximum_daily_chapters == 1_500_000,
            r.weeks_displayed == 24,
    {
        Settings {
            show_course_clock: true,
            maximum_course_time: 150,
            maximum_daily_time: 300,
            maximum_daily_chapters: 1_500_000,
            weeks_displayed: 24,
        }
    }
}

/// Marks course `id` active or not in the list of active courses, which holds
/// each identifier at most once.
pub fn set_course_active_status(active: &mut Vec<u128>, id: u128, data: bool)
    requires
        old(active)@.no_duplicates(),
    ensures
        final(active)@.no_duplicates(),
        final(active)@.to_set() == if data {
            old(active)@.to_set().insert(id)
        } else {
            old(active)@.to_set().remove(id)
        },
{
    let mut j: usize = 0;
    let mut at: Option<usize> = None;
    while j < active.len()
        invariant
            j <= active@.len(),
            at matches Some(k) ==> k < active@.len() && active@[k as int] == id,
            at is None ==> forall|k: int| 0 <= k < j ==> active@[k] != id,
        decreases active@.len() - j,
    {
        if active[j] == id {
            at = Some(j);
        }
        j = j + 1;
    }
    let ghost before = active@;
    match at {
        Some(k) => {
            if !data {
                active.remove(k);
                proof {
                    assert forall|x: u128| #[trigger] active@.to_set().contains(x) == before.to_set().remove(id).contains(x) by {
                        if x != id && before.contains(x) {
                            let p = choose|p: int| 0 <= p < before.len() && before[p] == x;
                            if p < k {
                                assert(active@[p] == x);
                            } else {
                                assert(active@[p - 1] == x);
                            }
                        }
                        if active@.contains(x) {
                            let p = choose|p: int| 0 <= p < active@.len() && active@[p] == x;
                            if p < k {
                                assert(before[p] == x);
                            } else {
                                assert(before[p + 1] == x);
                            }
                            assert(x != id);
                        }
                    }
                    assert(active@.to_set() =~= before.to_set().remove(id));
                }
            } else {
                proof {
                    assert(before.contains(id));
                    assert(active@.to_set() =~= before.to_set().insert(id));
                }
            }
        },
        None => {
            if data {
                active.push(id);
                proof {
                    assert forall|x: u128| #[trigger] active@.to_set().contains(x) == before.to_set().insert(id).contains(x) by {
                        if before.contains(x) {
                            let p = choose|p: int| 0 <= p < before.len() && before[p] == x;
                            assert(active@[p] == x);
                        }
                        if x == id {
                            assert(active@[before.len() as int] == x);
                        }
                        if active@.contains(x) {
                            let p = choose|p: int| 0 <= p < active@.len() && active@[p] == x;
                            if p < before.len() {
                                assert(before[p] == x);
                            }
                        }
                    }
                    assert(active@.to_set() =~= before.to_set().insert(id));
                }
            } else {
                proof {
                    assert(!before.contains(id));
                    assert(active@.to_set() =~= before.to_set().remove(id));
                }
            }
        },
    }
}

} // verus!
