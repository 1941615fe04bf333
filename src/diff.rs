use vstd::prelude::*;

use crate::types::{
    groups_view, meals_view, CanteenMealDiff, CanteenMealDiffView, CanteenMealsDay,
    CanteenMealsDayView, MealGroup, MealGroupView, SingleMeal, SingleMealView,
};

verus! {

/// `i` is the position of the first group of category `t`.
pub open spec fn is_first_of_type(groups: Seq<MealGroupView>, t: Seq<char>, i: int) -> bool {
    &&& 0 <= i < groups.len()
    &&& groups[i].meal_type == t
    &&& forall|j: int| 0 <= j < i ==> groups[j].meal_type != t
}

/// Some group has category `t`.
pub open spec fn has_type(groups: Seq<MealGroupView>, t: Seq<char>) -> bool {
    exists|i: int| 0 <= i < groups.len() && groups[i].meal_type == t
}

/// The first group of category `t`, if any.
pub open spec fn group_of(groups: Seq<MealGroupView>, t: Seq<char>) -> Option<MealGroupView> {
    if exists|i: int| is_first_of_type(groups, t, i) {
        Some(groups[choose|i: int| is_first_of_type(groups, t, i)])
    } else {
        None
    }
}

/// Some meal of `meals` is called `name`.
pub open spec fn has_name(meals: Seq<SingleMealView>, name: Seq<char>) -> bool {
    exists|i: int| 0 <= i < meals.len() && meals[i].name == name
}

/// A meal that is not in `olds` but whose name is: the dish stayed and changed.
pub open spec fn is_modified(olds: Seq<SingleMealView>) -> spec_fn(SingleMealView) -> bool {
    |m: SingleMealView| !olds.contains(m) && has_name(olds, m.name)
}

/// A meal whose name is not in `olds`: a new dish.
pub open spec fn is_added(olds: Seq<SingleMealView>) -> spec_fn(SingleMealView) -> bool {
    |m: SingleMealView| !olds.contains(m) && !has_name(olds, m.name)
}

/// An old meal whose name is not among the new meals: the dish is gone.
pub open spec fn is_removed(news: Seq<SingleMealView>) -> spec_fn(SingleMealView) -> bool {
    |m: SingleMealView| !has_name(news, m.name)
}

/// An old group whose category is not among the new groups.
pub open spec fn is_dropped(news: Seq<MealGroupView>) -> spec_fn(MealGroupView) -> bool {
    |g: MealGroupView| !has_type(news, g.meal_type)
}

/// The group `(t, meals)` as a list of one, or nothing when `meals` is empty.
pub open spec fn group_if_any(t: Seq<char>, meals: Seq<SingleMealView>) -> Seq<MealGroupView> {
    if meals.len() == 0 {
        seq![]
    } else {
        seq![MealGroupView { meal_type: t, sub_meals: meals }]
    }
}

/// What a new group adds to the new meals of the diff.
pub open spec fn added_of(g: MealGroupView, olds: Seq<MealGroupView>) -> Seq<MealGroupView> {
    match group_of(olds, g.meal_type) {
        None => seq![g],
        Some(og) => group_if_any(g.meal_type, g.sub_meals.filter(is_added(og.sub_meals))),
    }
}

/// What a new group adds to the modified meals of the diff.
pub open spec fn modified_of(g: MealGroupView, olds: Seq<MealGroupView>) -> Seq<MealGroupView> {
    match group_of(olds, g.meal_type) {
        None => seq![],
        Some(og) => group_if_any(g.meal_type, g.sub_meals.filter(is_modified(og.sub_meals))),
    }
}

/// What a new group adds to the removed meals of the diff.
pub open spec fn removed_of(g: MealGroupView, olds: Seq<MealGroupView>) -> Seq<MealGroupView> {
    match group_of(olds, g.meal_type) {
        None => seq![],
        Some(og) => group_if_any(g.meal_type, og.sub_meals.filter(is_removed(g.sub_meals))),
    }
}

pub open spec fn added_groups(news: Seq<MealGroupView>, olds: Seq<MealGroupView>) -> Seq<MealGroupView>
    decreases news.len(),
{
    if news.len() == 0 {
        seq![]
    } else {
        added_groups(news.drop_last(), olds) + added_of(news.last(), olds)
    }
}

pub open spec fn modified_groups(news: Seq<MealGroupView>, olds: Seq<MealGroupView>) -> Seq<MealGroupView>
    decreases news.len(),
{
    if news.len() == 0 {
        seq![]
    } else {
        modified_groups(news.drop_last(), olds) + modified_of(news.last(), olds)
    }
}

pub open spec fn removed_groups(news: Seq<MealGroupView>, olds: Seq<MealGroupView>) -> Seq<MealGroupView>
    decreases news.len(),
{
    if news.len() == 0 {
        seq![]
    } else {
        removed_groups(news.drop_last(), olds) + removed_of(news.last(), olds)
    }
}

pub open spec fn some_if_any(s: Seq<MealGroupView>) -> Option<Seq<MealGroupView>> {
    if s.len() == 0 {
        None
    } else {
        Some(s)
    }
}

pub open spec fn opt_day_view(d: Option<CanteenMealsDay>) -> Option<CanteenMealsDayView> {
    match d {
        Some(d) => Some(d@),
        None => None,
    }
}

/// The diff of `new` against `old`. Without an old menu nothing is reported.
/// Otherwise a meal is unchanged when an equal meal is in the old group of its
/// category, modified when only its name is there, and new otherwise; an old
/// meal whose name is gone from its category is removed, and so is every old
/// group whose category is gone.
pub open spec fn diff_of(old: Option<CanteenMealsDayView>, new: CanteenMealsDayView) -> CanteenMealDiffView {
    match old {
        None => CanteenMealDiffView {
            canteen_id: new.canteen_id,
            new_meals: None,
            modified_meals: None,
            removed_meals: None,
        },
        Some(o) => CanteenMealDiffView {
            canteen_id: new.canteen_id,
            new_meals: some_if_any(added_groups(new.meal_groups, o.meal_groups)),
            modified_meals: some_if_any(modified_groups(new.meal_groups, o.meal_groups)),
            removed_meals: some_if_any(
                removed_groups(new.meal_groups, o.meal_groups) + o.meal_groups.filter(
                    is_dropped(new.meal_groups),
                ),
            ),
        },
    }
}

pub proof fn lemma_filter_take<A>(s: Seq<A>, i: int, p: spec_fn(A) -> bool)
    requires
        0 <= i < s.len(),
    ensures
        s.take(i + 1).filter(p) == (if p(s[i]) {
            s.take(i).filter(p).push(s[i])
        } else {
            s.take(i).filter(p)
        }),
{
    reveal(Seq::filter);
    assert(s.take(i + 1).drop_last() =~= s.take(i));
}

pub proof fn lemma_first_is_chosen(groups: Seq<MealGroupView>, t: Seq<char>, i: int)
    requires
        is_first_of_type(groups, t, i),
    ensures
        group_of(groups, t) == Some(groups[i]),
        (choose|k: int| is_first_of_type(groups, t, k)) == i,
{
    let k = choose|k: int| is_first_of_type(groups, t, k);
    assert(is_first_of_type(groups, t, k));
    if k < i {
        assert(groups[k].meal_type != t);
    } else if i < k {
        assert(groups[i].meal_type != t);
    }
}

/// Index of the first group of category `t`.
pub(crate) fn find_group(groups: &Vec<MealGroup>, t: &String) -> (r: Option<usize>)
    ensures
        match r {
            Some(i) => i < groups.len() && is_first_of_type(groups_view(groups@), t@, i as int)
                && group_of(groups_view(groups@), t@) == Some(groups@[i as int]@),
            None => group_of(groups_view(groups@), t@) is None && !has_type(groups_view(groups@), t@),
        },
{
    let ghost gv = groups_view(groups@);
    let mut i: usize = 0;
    while i < groups.len()
        invariant
            i <= groups.len(),
            gv == groups_view(groups@),
            forall|j: int| 0 <= j < i ==> gv[j].meal_type != t@,
        decreases groups.len() - i,
    {
        if groups[i].meal_type == *t {
            proof {
                lemma_first_is_chosen(gv, t@, i as int);
            }
            return Some(i);
        }
        i += 1;
    }
    None
}

pub(crate) fn contains_meal(meals: &Vec<SingleMeal>, m: &SingleMeal) -> (r: bool)
    ensures
        r == meals_view(meals@).contains(m@),
{
    let ghost mv = meals_view(meals@);
    let mut i: usize = 0;
    while i < meals.len()
        invariant
            i <= meals.len(),
            mv == meals_view(meals@),
            forall|j: int| 0 <= j < i ==> mv[j] != m@,
        decreases meals.len() - i,
    {
        if meals[i].same_as(m) {
            assert(mv[i as int] == m@);
            return true;
        }
        i += 1;
    }
    false
}

fn has_meal_named(meals: &Vec<SingleMeal>, name: &String) -> (r: bool)
    ensures
        r == has_name(meals_view(meals@), name@),
{
    let ghost mv = meals_view(meals@);
    let mut i: usize = 0;
    while i < meals.len()
        invariant
            i <= meals.len(),
            mv == meals_view(meals@),
            forall|j: int| 0 <= j < i ==> mv[j].name != name@,
        decreases meals.len() - i,
    {
        if meals[i].name == *name {
            assert(mv[i as int].name == name@);
            return true;
        }
        i += 1;
    }
    false
}

fn has_group_typed(groups: &Vec<MealGroup>, t: &String) -> (r: bool)
    ensures
        r == has_type(groups_view(groups@), t@),
{
    match find_group(groups, t) {
        Some(i) => {
            assert(groups_view(groups@)[i as int].meal_type == t@) by {
                let gv = groups_view(groups@);
                let k = choose|k: int| is_first_of_type(gv, t@, k);
                assert(is_first_of_type(gv, t@, k));
            }
            true
        },
        None => false,
    }
}

/// Splits the meals of a new group that are not in the old group into those
/// whose name the old group has (modified) and the others (new).
fn split_changed(news: &Vec<SingleMeal>, olds: &Vec<SingleMeal>) -> (r: (Vec<SingleMeal>, Vec<SingleMeal>))
    ensures
        meals_view(r.0@) == meals_view(news@).filter(is_modified(meals_view(olds@))),
        meals_view(r.1@) == meals_view(news@).filter(is_added(meals_view(olds@))),
{
    let ghost nv = meals_view(news@);
    let ghost ov = meals_view(olds@);
    let mut modified: Vec<SingleMeal> = Vec::new();
    let mut added: Vec<SingleMeal> = Vec::new();
    let mut i: usize = 0;
    proof {
        reveal(Seq::filter);
    }
    while i < news.len()
        invariant
            i <= news.len(),
            nv == meals_view(news@),
            ov == meals_view(olds@),
            meals_view(modified@) == nv.take(i as int).filter(is_modified(ov)),
            meals_view(added@) == nv.take(i as int).filter(is_added(ov)),
        decreases news.len() - i,
    {
        proof {
            lemma_filter_take(nv, i as int, is_modified(ov));
            lemma_filter_take(nv, i as int, is_added(ov));
        }
        let m = &news[i];
        if !contains_meal(olds, m) {
            let c = m.clone();
            if has_meal_named(olds, &m.name) {
                proof {
                    assert(meals_view(modified@.push(c)) =~= meals_view(modified@).push(c@));
                }
                modified.push(c);
            } else {
                proof {
                    assert(meals_view(added@.push(c)) =~= meals_view(added@).push(c@));
                }
                added.push(c);
            }
        }
        i += 1;
    }
    proof {
        assert(nv.take(news.len() as int) =~= nv);
    }
    (modified, added)
}

/// The meals of an old group whose name no meal of the new group has.
fn removed_meals_of(news: &Vec<SingleMeal>, olds: &Vec<SingleMeal>) -> (r: Vec<SingleMeal>)
    ensures
        meals_view(r@) == meals_view(olds@).filter(is_removed(meals_view(news@))),
{
    let ghost nv = meals_view(news@);
    let ghost ov = meals_view(olds@);
    let mut removed: Vec<SingleMeal> = Vec::new();
    let mut i: usize = 0;
    proof {
        reveal(Seq::filter);
    }
    while i < olds.len()
        invariant
            i <= olds.len(),
            nv == meals_view(news@),
            ov == meals_view(olds@),
            meals_view(removed@) == ov.take(i as int).filter(is_removed(nv)),
        decreases olds.len() - i,
    {
        proof {
            lemma_filter_take(ov, i as int, is_removed(nv));
        }
        let m = &olds[i];
        if !has_meal_named(news, &m.name) {
            let c = m.clone();
            proof {
                assert(meals_view(removed@.push(c)) =~= meals_view(removed@).push(c@));
            }
            removed.push(c);
        }
        i += 1;
    }
    proof {
        assert(ov.take(olds.len() as int) =~= ov);
    }
    removed
}

fn some_if_nonempty(v: Vec<MealGroup>) -> (r: Option<Vec<MealGroup>>)
    ensures
        crate::types::opt_groups_view(r) == some_if_any(groups_view(v@)),
{
    if v.len() == 0 {
        None
    } else {
        Some(v)
    }
}

/// Compares a freshly read day menu against the previous one of the same
/// canteen and classifies every meal as new, modified or removed.
pub fn diff_canteen_meals(old_canteenmeals: Option<CanteenMealsDay>, new_canteenmeals: &CanteenMealsDay) -> (r: CanteenMealDiff)
    requires
        old_canteenmeals matches Some(o) ==> o.canteen_id == new_canteenmeals.canteen_id,
    ensures
        r@ == diff_of(opt_day_view(old_canteenmeals), new_canteenmeals@),
{
    let mut new_meals: Vec<MealGroup> = Vec::new();
    let mut modified_meals: Vec<MealGroup> = Vec::new();
    let mut removed_meals: Vec<MealGroup> = Vec::new();
    if let Some(old) = old_canteenmeals {
        let news = &new_canteenmeals.meal_groups;
        let olds = &old.meal_groups;
        let ghost nv = groups_view(news@);
        let ghost ov = groups_view(olds@);
        let mut j: usize = 0;
        while j < news.len()
            invariant
                j <= news.len(),
                nv == groups_view(news@),
                ov == groups_view(olds@),
                groups_view(new_meals@) == added_groups(nv.take(j as int), ov),
                groups_view(modified_meals@) == modified_groups(nv.take(j as int), ov),
                groups_view(removed_meals@) == removed_groups(nv.take(j as int), ov),
            decreases news.len() - j,
        {
            let group = &news[j];
            proof {
                assert(nv.take(j as int + 1).drop_last() =~= nv.take(j as int));
                assert(nv.take(j as int + 1).last() == group@);
            }
            match find_group(olds, &group.meal_type) {
                None => {
                    let c = group.clone();
                    proof {
                        assert(groups_view(new_meals@.push(c)) =~= groups_view(new_meals@) + seq![c@]);
                        assert(groups_view(modified_meals@) =~= groups_view(modified_meals@) + seq![]);
                        assert(groups_view(removed_meals@) =~= groups_view(removed_meals@) + seq![]);
                    }
                    new_meals.push(c);
                },
                Some(k) => {
                    let old_group = &olds[k];
                    let (changed, added) = split_changed(&group.sub_meals, &old_group.sub_meals);
                    let removed = removed_meals_of(&group.sub_meals, &old_group.sub_meals);
                    if changed.len() > 0 {
                        let g = MealGroup { meal_type: group.meal_type.clone(), sub_meals: changed };
                        proof {
                            assert(groups_view(modified_meals@.push(g)) =~= groups_view(modified_meals@) + seq![g@]);
                        }
                        modified_meals.push(g);
                    } else {
                        assert(groups_view(modified_meals@) =~= groups_view(modified_meals@) + seq![]);
                    }
                    if added.len() > 0 {
                        let g = MealGroup { meal_type: group.meal_type.clone(), sub_meals: added };
                        proof {
                            assert(groups_view(new_meals@.push(g)) =~= groups_view(new_meals@) + seq![g@]);
                        }
                        new_meals.push(g);
                    } else {
                        assert(groups_view(new_meals@) =~= groups_view(new_meals@) + seq![]);
                    }
                    if removed.len() > 0 {
                        let g = MealGroup { meal_type: group.meal_type.clone(), sub_meals: removed };
                        proof {
                            assert(groups_view(removed_meals@.push(g)) =~= groups_view(removed_meals@) + seq![g@]);
                        }
                        removed_meals.push(g);
                    } else {
                        assert(groups_view(removed_meals@) =~= groups_view(removed_meals@) + seq![]);
                    }
                },
            }
            j += 1;
        }
        proof {
            assert(nv.take(news.len() as int) =~= nv);
        }
        let ghost before = groups_view(removed_meals@);
        let mut i: usize = 0;
        proof {
            reveal(Seq::filter);
        }
        while i < olds.len()
            invariant
                i <= olds.len(),
                nv == groups_view(news@),
                ov == groups_view(olds@),
                groups_view(removed_meals@) == before + ov.take(i as int).filter(is_dropped(nv)),
            decreases olds.len() - i,
        {
            proof {
                lemma_filter_take(ov, i as int, is_dropped(nv));
            }
            if !has_group_typed(news, &olds[i].meal_type) {
                let c = olds[i].clone();
                proof {
                    assert(groups_view(removed_meals@.push(c)) =~= groups_view(removed_meals@).push(c@));
                }
                removed_meals.push(c);
            }
            i += 1;
        }
        proof {
            assert(ov.take(olds.len() as int) =~= ov);
        }
    }
    CanteenMealDiff {
        canteen_id: new_canteenmeals.canteen_id,
        new_meals: some_if_nonempty(new_meals),
        modified_meals: some_if_nonempty(modified_meals),
        removed_meals: some_if_nonempty(removed_meals),
    }
}

/// Category labels are unique among the groups of a day.
pub open spec fn unique_types(groups: Seq<MealGroupView>) -> bool {
    forall|i: int, j: int|
        0 <= i < groups.len() && 0 <= j < groups.len() && groups[i].meal_type == groups[j].meal_type
            ==> i == j
}

proof fn lemma_filter_none<A>(s: Seq<A>, p: spec_fn(A) -> bool)
    requires
        forall|i: int| 0 <= i < s.len() ==> !p(s[i]),
    ensures
        s.filter(p) == Seq::<A>::empty(),
    decreases s.len(),
{
    reveal(Seq::filter);
    if s.len() > 0 {
        lemma_filter_none(s.drop_last(), p);
    }
}

proof fn lemma_filter_one<A>(s: Seq<A>, p: spec_fn(A) -> bool, k: int)
    requires
        0 <= k < s.len(),
        p(s[k]),
        forall|i: int| 0 <= i < s.len() && i != k ==> !p(s[i]),
    ensures
        s.filter(p) == seq![s[k]],
    decreases s.len(),
{
    reveal(Seq::filter);
    if k == s.len() - 1 {
        lemma_filter_none(s.drop_last(), p);
        assert(s.filter(p) =~= seq![s[k]]);
    } else {
        lemma_filter_one(s.drop_last(), p, k);
    }
}

/// Every group of a day with unique categories finds itself as its old
/// counterpart, and nothing in it is new, modified or removed.
proof fn lemma_group_against_itself(gs: Seq<MealGroupView>, k: int)
    requires
        unique_types(gs),
        0 <= k < gs.len(),
    ensures
        added_of(gs[k], gs).len() == 0,
        modified_of(gs[k], gs).len() == 0,
        removed_of(gs[k], gs).len() == 0,
{
    assert(is_first_of_type(gs, gs[k].meal_type, k));
    lemma_first_is_chosen(gs, gs[k].meal_type, k);
    let ms = gs[k].sub_meals;
    assert forall|i: int| 0 <= i < ms.len() implies ms.contains(ms[i]) && has_name(ms, ms[i].name) by {
        assert(ms[i] == ms[i]);
    }
    lemma_filter_none(ms, is_added(ms));
    lemma_filter_none(ms, is_modified(ms));
    lemma_filter_none(ms, is_removed(ms));
}

proof fn lemma_prefix_against_itself(gs: Seq<MealGroupView>, n: int)
    requires
        unique_types(gs),
        0 <= n <= gs.len(),
    ensures
        added_groups(gs.take(n), gs).len() == 0,
        modified_groups(gs.take(n), gs).len() == 0,
        removed_groups(gs.take(n), gs).len() == 0,
    decreases n,
{
    if n > 0 {
        lemma_prefix_against_itself(gs, n - 1);
        assert(gs.take(n).drop_last() =~= gs.take(n - 1));
        lemma_group_against_itself(gs, n - 1);
    }
}

/// Without a previous menu a diff reports nothing.
pub proof fn lemma_no_baseline_no_changes(new: CanteenMealsDayView)
    ensures
        !diff_of(None, new).has_changes(),
{
}

/// A day menu compared against itself has no changes.
pub proof fn lemma_self_diff_has_no_changes(day: CanteenMealsDayView)
    requires
        unique_types(day.meal_groups),
    ensures
        !diff_of(Some(day), day).has_changes(),
{
    let gs = day.meal_groups;
    lemma_prefix_against_itself(gs, gs.len() as int);
    assert(gs.take(gs.len() as int) =~= gs);
    assert forall|i: int| 0 <= i < gs.len() implies !is_dropped(gs)(gs[i]) by {
        assert(gs[i].meal_type == gs[i].meal_type);
    }
    lemma_filter_none(gs, is_dropped(gs));
}

/// `m` with another price.
pub open spec fn with_price(m: SingleMealView, price: Seq<char>) -> SingleMealView {
    SingleMealView { price, ..m }
}

/// The group `g` of `os`, with the price of meal `k` changed, against `os`.
proof fn lemma_price_changed_group(os: Seq<MealGroupView>, g: int, k: int, price: Seq<char>)
    requires
        is_first_of_type(os, os[g].meal_type, g),
        0 <= k < os[g].sub_meals.len(),
        !os[g].sub_meals.contains(with_price(os[g].sub_meals[k], price)),
    ensures
        ({
            let changed = with_price(os[g].sub_meals[k], price);
            let ng = MealGroupView { sub_meals: os[g].sub_meals.update(k, changed), ..os[g] };
            &&& added_of(ng, os).len() == 0
            &&& removed_of(ng, os).len() == 0
            &&& modified_of(ng, os) == seq![MealGroupView { meal_type: os[g].meal_type, sub_meals: seq![changed] }]
        }),
{
    let t = os[g].meal_type;
    let olds = os[g].sub_meals;
    let changed = with_price(olds[k], price);
    let news = olds.update(k, changed);
    lemma_first_is_chosen(os, t, g);
    assert(has_name(olds, changed.name)) by {
        assert(olds[k].name == changed.name);
    }
    assert forall|i: int| 0 <= i < news.len() && i != k implies olds.contains(news[i]) by {
        assert(olds[i] == news[i]);
    }
    lemma_filter_none(news, is_added(olds));
    lemma_filter_one(news, is_modified(olds), k);
    assert forall|i: int| 0 <= i < olds.len() implies has_name(news, olds[i].name) by {
        assert(news[i].name == olds[i].name);
    }
    lemma_filter_none(olds, is_removed(news));
    assert(news[k] == changed);
    assert(news.filter(is_modified(olds)) == seq![changed]);
}

/// The day `old` with the price of meal `k` of group `g` changed.
pub open spec fn day_with_price(old: CanteenMealsDayView, g: int, k: int, price: Seq<char>) -> CanteenMealsDayView {
    let og = old.meal_groups[g];
    CanteenMealsDayView {
        meal_groups: old.meal_groups.update(
            g,
            MealGroupView { sub_meals: og.sub_meals.update(k, with_price(og.sub_meals[k], price)), ..og },
        ),
        ..old
    }
}

proof fn lemma_price_change_prefix(old: CanteenMealsDayView, g: int, k: int, price: Seq<char>, n: int)
    requires
        unique_types(old.meal_groups),
        0 <= g < old.meal_groups.len(),
        0 <= k < old.meal_groups[g].sub_meals.len(),
        !old.meal_groups[g].sub_meals.contains(with_price(old.meal_groups[g].sub_meals[k], price)),
        0 <= n <= old.meal_groups.len(),
    ensures
        ({
            let os = old.meal_groups;
            let ns = day_with_price(old, g, k, price).meal_groups;
            let changed = with_price(os[g].sub_meals[k], price);
            &&& added_groups(ns.take(n), os).len() == 0
            &&& removed_groups(ns.take(n), os).len() == 0
            &&& modified_groups(ns.take(n), os) == if n > g {
                seq![MealGroupView { meal_type: os[g].meal_type, sub_meals: seq![changed] }]
            } else {
                Seq::<MealGroupView>::empty()
            }
        }),
    decreases n,
{
    let os = old.meal_groups;
    let ns = day_with_price(old, g, k, price).meal_groups;
    if n == 0 {
        assert(ns.take(0) =~= Seq::<MealGroupView>::empty());
    } else {
        lemma_price_change_prefix(old, g, k, price, n - 1);
        assert(ns.take(n).drop_last() =~= ns.take(n - 1));
        assert(ns.take(n).last() == ns[n - 1]);
        if n - 1 == g {
            assert(is_first_of_type(os, os[g].meal_type, g));
            lemma_price_changed_group(os, g, k, price);
            assert(modified_groups(ns.take(n), os) =~= Seq::<MealGroupView>::empty() + modified_of(ns[g], os));
        } else {
            assert(ns[n - 1] == os[n - 1]);
            lemma_group_against_itself(os, n - 1);
            let prev = modified_groups(ns.take(n - 1), os);
            assert(modified_groups(ns.take(n), os) =~= prev);
        }
    }
}

/// When one meal of a day with unique categories changes its price and
/// nothing else, and no meal of its group already equals the changed meal,
/// the diff lists that meal as modified, in a group of its category, and
/// nothing as new or removed.
pub proof fn lemma_price_change_is_modification(old: CanteenMealsDayView, g: int, k: int, price: Seq<char>)
    requires
        unique_types(old.meal_groups),
        0 <= g < old.meal_groups.len(),
        0 <= k < old.meal_groups[g].sub_meals.len(),
        !old.meal_groups[g].sub_meals.contains(with_price(old.meal_groups[g].sub_meals[k], price)),
    ensures
        diff_of(Some(old), day_with_price(old, g, k, price)) == (CanteenMealDiffView {
            canteen_id: old.canteen_id,
            new_meals: None,
            modified_meals: Some(
                seq![
                    MealGroupView {
                        meal_type: old.meal_groups[g].meal_type,
                        sub_meals: seq![with_price(old.meal_groups[g].sub_meals[k], price)],
                    },
                ],
            ),
            removed_meals: None,
        }),
{
    let os = old.meal_groups;
    let ns = day_with_price(old, g, k, price).meal_groups;
    lemma_price_change_prefix(old, g, k, price, os.len() as int);
    assert(ns.take(os.len() as int) =~= ns);
    assert forall|i: int| 0 <= i < os.len() implies !is_dropped(ns)(os[i]) by {
        assert(ns[i].meal_type == os[i].meal_type);
    }
    lemma_filter_none(os, is_dropped(ns));
    assert(removed_groups(ns, os) + os.filter(is_dropped(ns)) =~= Seq::<MealGroupView>::empty());
}

} // verus!
