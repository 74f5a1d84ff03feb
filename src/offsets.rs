//! The table of time offsets: the cumulative time of each course at the
//! start of the current day.
use vstd::prelude::*;
use std::collections::HashMap;

verus! {

broadcast use vstd::std_specs::hash::group_hash_axioms;

/// The time offsets of one day, by course identifier.
#[derive(Debug)]
pub struct CourseTimeOffsets {
    /// The day (as a day number) that the offsets belong to, if any.
    pub date: Option<i32>,
    pub offsets: HashMap<u128, u64>,
}

/// What an offset table holds.
pub struct OffsetsModel {
    pub date: Option<i32>,
    pub offsets: Map<u128, u64>,
}

impl View for CourseTimeOffsets {
    type V = OffsetsModel;

    open spec fn view(&self) -> OffsetsModel {
        OffsetsModel { date: self.date, offsets: self.offsets@ }
    }
}

/// The offsets that stand on `date`: none where the table is of another day.
pub open spec fn offsets_on(t: OffsetsModel, date: i32) -> Map<u128, u64> {
    if t.date == Some(date) {
        t.offsets
    } else {
        Map::empty()
    }
}

/// The offset of `id` on `date`: the one seeded earlier that day, else the
/// course's current cumulative time `time_spent`.
pub open spec fn offset_today(t: OffsetsModel, id: u128, time_spent: u64, date: i32) -> u64 {
    let m = offsets_on(t, date);
    if m.contains_key(id) {
        m[id]
    } else {
        time_spent
    }
}

/// The table after the offset of `id` was asked for on `date`.
pub open spec fn table_after(t: OffsetsModel, id: u128, time_spent: u64, date: i32) -> OffsetsModel {
    let m = offsets_on(t, date);
    OffsetsModel {
        date: Some(date),
        offsets: if m.contains_key(id) {
            m
        } else {
            m.insert(id, time_spent)
        },
    }
}

impl CourseTimeOffsets {
    /// An empty table, of no day.
    pub fn new() -> (r: Self)
        ensures
            r@.date.is_none(),
            r@.offsets == Map::<u128, u64>::empty(),
    {
        CourseTimeOffsets { date: None, offsets: HashMap::new() }
    }

    /// The offset of course `id` on day `date`, where `time_spent` is its
    /// cumulative time now. The table is emptied on the first call of a new day,
    /// and the first call for an identifier on a day seeds its offset.
    pub fn today(&mut self, id: u128, time_spent: u64, date: i32) -> (r: u64)
        ensures
            r == offset_today(old(self)@, id, time_spent, date),
            final(self)@ == table_after(old(self)@, id, time_spent, date),
    {
        if self.date != Some(date) {
            self.date = Some(date);
            self.offsets = HashMap::new();
        }
        match self.offsets.get(&id) {
            Some(v) => *v,
            None => {
                self.offsets.insert(id, time_spent);
                time_spent
            },
        }
    }
}

/// Once seeded, an offset stays the same for the rest of the day, whatever the
/// cumulative time given later, and asking again leaves the table as it is.
pub proof fn lemma_offset_stable(t: OffsetsModel, id: u128, t1: u64, t2: u64, date: i32)
    ensures
        offset_today(table_after(t, id, t1, date), id, t2, date) == offset_today(t, id, t1, date),
        table_after(table_after(t, id, t1, date), id, t2, date) == table_after(t, id, t1, date),
{
}

} // verus!
