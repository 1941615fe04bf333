use vstd::prelude::*;

use crate::date::Date;
use crate::diff::{diff_canteen_meals, diff_of};
use crate::types::{groups_view, CanteenMealDiff, CanteenMealsDay, CanteenMealsDayView, HasChanges, MealGroup};

verus! {

/// What to do with a freshly extracted day menu: whether to overwrite the
/// cache entry, and the diff to report for today, if any.
pub struct CachePlan {
    pub write: bool,
    pub diff: Option<CanteenMealDiff>,
}

/// The cached menu, read back, as a day of the canteen `id`.
pub open spec fn cached_day(id: u32, cached_groups: Option<Vec<MealGroup>>) -> Option<CanteenMealsDayView> {
    match cached_groups {
        Some(g) => Some(CanteenMealsDayView { canteen_id: id, meal_groups: groups_view(g@) }),
        None => None,
    }
}

/// The cache entry must be written when there is none or when its text
/// differs from the fresh serialization.
pub open spec fn must_write(fresh_text: Seq<char>, cached_text: Option<String>) -> bool {
    match cached_text {
        None => true,
        Some(c) => c@ != fresh_text,
    }
}

/// Decides what happens to one canteen's day after extraction.
/// `fresh_text` is the serialization of the fresh menu, `cached_text` the
/// cache entry for the same canteen and date, and `cached_groups` that entry
/// read back. A changed entry is overwritten; when the date is today the
/// change is diffed against the cached menu and reported if the diff has
/// changes.
pub fn plan_cache_update(
    fresh: &CanteenMealsDay,
    fresh_text: &String,
    cached_text: &Option<String>,
    cached_groups: Option<Vec<MealGroup>>,
    date: &Date,
    today: &Date,
) -> (r: CachePlan)
    ensures
        r.write == must_write(fresh_text@, *cached_text),
        match r.diff {
            Some(d) => r.write && *date == *today && d@ == diff_of(
                cached_day(fresh.canteen_id, cached_groups),
                fresh@,
            ) && d@.has_changes(),
            None => !(r.write && *date == *today && diff_of(
                cached_day(fresh.canteen_id, cached_groups),
                fresh@,
            ).has_changes()),
        },
{
    let write = match cached_text {
        None => true,
        Some(c) => *c != *fresh_text,
    };
    if !write || *date != *today {
        return CachePlan { write, diff: None };
    }
    let old = match cached_groups {
        Some(g) => Some(CanteenMealsDay { canteen_id: fresh.canteen_id, meal_groups: g }),
        None => None,
    };
    let d = diff_canteen_meals(old, fresh);
    if d.has_changes() {
        CachePlan { write, diff: Some(d) }
    } else {
        CachePlan { write, diff: None }
    }
}

/// Whether a canteen's list of days shows it open on one of them: the list
/// is not empty and not every day is closed.
pub fn has_open_day(closed: &Vec<bool>) -> (r: bool)
    ensures
        r == exists|i: int| 0 <= i < closed.len() && !closed@[i],
{
    let mut i: usize = 0;
    while i < closed.len()
        invariant
            i <= closed.len(),
            forall|j: int| 0 <= j < i ==> closed@[j],
        decreases closed.len() - i,
    {
        if !closed[i] {
            return true;
        }
        i += 1;
    }
    false
}

} // verus!
