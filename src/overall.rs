//! The aggregate time series of progress across all courses.
use vstd::prelude::*;
use std::collections::HashMap;

verus! {

broadcast use vstd::std_specs::hash::group_hash_axioms;

/// Progress across all courses, by day number.
#[derive(Debug)]
pub struct OverallProgress {
    /// Chapters completed per day, in millionths of a chapter.
    pub chapters_completed: HashMap<i32, u64>,
    /// Seconds spent in any course per day.
    pub time_spent: HashMap<i32, u64>,
}

/// What the series hold.
pub struct OverallModel {
    pub chapters_completed: Map<i32, u64>,
    pub time_spent: Map<i32, u64>,
}

impl View for OverallProgress {
    type V = OverallModel;

    open spec fn view(&self) -> OverallModel {
        OverallModel { chapters_completed: self.chapters_completed@, time_spent: self.time_spent@ }
    }
}

/// `x` held to the range of a bucket: never below zero.
pub open spec fn clamp_bucket(x: int) -> u64 {
    if x < 0 {
        0
    } else if x > u64::MAX {
        u64::MAX
    } else {
        x as u64
    }
}

/// A series after the change `delta` on `date`: an existing bucket moves by
/// `delta` and stays at or above zero; a missing one is made only by a
/// positive change.
pub open spec fn bucket_after(m: Map<i32, u64>, date: i32, delta: int) -> Map<i32, u64> {
    if m.contains_key(date) {
        m.insert(date, clamp_bucket(m[date] + delta))
    } else if delta > 0 {
        m.insert(date, clamp_bucket(delta))
    } else {
        m
    }
}

pub open spec fn overall_after(o: OverallModel, chapter_change: int, time_change: int, date: i32) -> OverallModel {
    OverallModel {
        chapters_completed: bucket_after(o.chapters_completed, date, chapter_change),
        time_spent: bucket_after(o.time_spent, date, time_change),
    }
}

/// The series after `delta` on `date`.
fn apply_change(m: &mut HashMap<i32, u64>, date: i32, delta: i128)
    ensures
        final(m)@ == bucket_after(old(m)@, date, delta as int),
{
    let current = match m.get(&date) {
        Some(v) => Some(*v),
        None => None,
    };
    match current {
        Some(v) => {
            let updated: u64 = if delta >= 0x1_0000_0000_0000_0000i128 {
                u64::MAX
            } else if delta <= -0x1_0000_0000_0000_0000i128 {
                0
            } else {
                let sum = v as i128 + delta;
                if sum < 0 {
                    0
                } else if sum > u64::MAX as i128 {
                    u64::MAX
                } else {
                    sum as u64
                }
            };
            m.insert(date, updated);
        },
        None => {
            if delta > 0 {
                let created: u64 = if delta > u64::MAX as i128 {
                    u64::MAX
                } else {
                    delta as u64
                };
                m.insert(date, created);
            }
        },
    }
}

impl OverallProgress {
    /// Empty series.
    pub fn new() -> (r: Self)
        ensures
            r@.chapters_completed == Map::<i32, u64>::empty(),
            r@.time_spent == Map::<i32, u64>::empty(),
    {
        OverallProgress { chapters_completed: HashMap::new(), time_spent: HashMap::new() }
    }

    /// Applies a change in chapters completed (in millionths) and in time
    /// spent (in seconds) to the buckets of day `date`.
    pub fn update(&mut self, chapter_change: i128, time_change_secs: i128, date: i32)
        ensures
            final(self)@ == overall_after(old(self)@, chapter_change as int, time_change_secs as int, date),
    {
        apply_change(&mut self.chapters_completed, date, chapter_change);
        apply_change(&mut self.time_spent, date, time_change_secs);
    }
}

/// Two increases on one day add up in that day's bucket: the first is not
/// counted again by the second (short of the bucket's upper limit).
pub proof fn lemma_changes_accumulate(m: Map<i32, u64>, date: i32, d1: int, d2: int)
    requires
        d1 >= 0,
        d2 >= 0,
        (if m.contains_key(date) { m[date] as int } else { 0 }) + d1 + d2 <= u64::MAX,
    ensures
        bucket_after(bucket_after(m, date, d1), date, d2).contains_key(date) == (m.contains_key(date) || d1 + d2 > 0),
        bucket_after(bucket_after(m, date, d1), date, d2).contains_key(date) ==>
            bucket_after(bucket_after(m, date, d1), date, d2)[date]
                == (if m.contains_key(date) { m[date] as int } else { 0 }) + d1 + d2,
        forall|k: i32| k != date ==> #[trigger] bucket_after(bucket_after(m, date, d1), date, d2).contains_key(k)
            == m.contains_key(k),
{
}

/// A change on one day leaves every other day's bucket as it was.
pub proof fn lemma_other_days_unchanged(m: Map<i32, u64>, date: i32, delta: int, other: i32)
    requires
        other != date,
    ensures
        bucket_after(m, date, delta).contains_key(other) == m.contains_key(other),
        m.contains_key(other) ==> bucket_after(m, date, delta)[other] == m[other],
{
}

} // verus!
