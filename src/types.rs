use vstd::prelude::*;

verus! {

/// A canteen as the directory lists it.
#[derive(Debug)]
pub struct Canteen {
    pub id: u32,
    pub name: String,
}

/// An alternative preparation of a dish.
#[derive(Debug)]
pub struct MealVariation {
    pub name: String,
    pub allergens_and_add: Option<String>,
}

/// One dish on a day's menu.
#[derive(Debug)]
pub struct SingleMeal {
    pub name: String,
    pub additional_ingredients: Vec<String>,
    pub allergens: Option<String>,
    pub variations: Option<Vec<MealVariation>>,
    pub price: String,
}

/// The dishes of one category ("Hauptgericht", "Beilage", ...).
#[derive(Debug)]
pub struct MealGroup {
    pub meal_type: String,
    pub sub_meals: Vec<SingleMeal>,
}

/// The menu of one canteen on one date.
#[derive(Debug)]
pub struct CanteenMealsDay {
    pub canteen_id: u32,
    pub meal_groups: Vec<MealGroup>,
}

/// What changed between two versions of a canteen's day menu. A field is
/// `Some` only when its list is not empty.
#[derive(Debug)]
pub struct CanteenMealDiff {
    pub canteen_id: u32,
    pub new_meals: Option<Vec<MealGroup>>,
    pub modified_meals: Option<Vec<MealGroup>>,
    pub removed_meals: Option<Vec<MealGroup>>,
}

pub struct CanteenView {
    pub id: u32,
    pub name: Seq<char>,
}

pub struct MealVariationView {
    pub name: Seq<char>,
    pub allergens_and_add: Option<Seq<char>>,
}

pub struct SingleMealView {
    pub name: Seq<char>,
    pub additional_ingredients: Seq<Seq<char>>,
    pub allergens: Option<Seq<char>>,
    pub variations: Option<Seq<MealVariationView>>,
    pub price: Seq<char>,
}

pub struct MealGroupView {
    pub meal_type: Seq<char>,
    pub sub_meals: Seq<SingleMealView>,
}

pub struct CanteenMealsDayView {
    pub canteen_id: u32,
    pub meal_groups: Seq<MealGroupView>,
}

pub struct CanteenMealDiffView {
    pub canteen_id: u32,
    pub new_meals: Option<Seq<MealGroupView>>,
    pub modified_meals: Option<Seq<MealGroupView>>,
    pub removed_meals: Option<Seq<MealGroupView>>,
}

pub open spec fn opt_str_view(o: Option<String>) -> Option<Seq<char>> {
    match o {
        Some(s) => Some(s@),
        None => None,
    }
}

pub open spec fn strings_view(v: Seq<String>) -> Seq<Seq<char>> {
    v.map_values(|s: String| s@)
}

pub open spec fn variations_view(v: Seq<MealVariation>) -> Seq<MealVariationView> {
    v.map_values(|x: MealVariation| x@)
}

pub open spec fn meals_view(v: Seq<SingleMeal>) -> Seq<SingleMealView> {
    v.map_values(|m: SingleMeal| m@)
}

pub open spec fn groups_view(v: Seq<MealGroup>) -> Seq<MealGroupView> {
    v.map_values(|g: MealGroup| g@)
}

pub open spec fn opt_groups_view(o: Option<Vec<MealGroup>>) -> Option<Seq<MealGroupView>> {
    match o {
        Some(v) => Some(groups_view(v@)),
        None => None,
    }
}

impl View for Canteen {
    type V = CanteenView;

    open spec fn view(&self) -> CanteenView {
        CanteenView { id: self.id, name: self.name@ }
    }
}

impl View for MealVariation {
    type V = MealVariationView;

    open spec fn view(&self) -> MealVariationView {
        MealVariationView { name: self.name@, allergens_and_add: opt_str_view(self.allergens_and_add) }
    }
}

impl View for SingleMeal {
    type V = SingleMealView;

    open spec fn view(&self) -> SingleMealView {
        SingleMealView {
            name: self.name@,
            additional_ingredients: strings_view(self.additional_ingredients@),
            allergens: opt_str_view(self.allergens),
            variations: match self.variations {
                Some(v) => Some(variations_view(v@)),
                None => None,
            },
            price: self.price@,
        }
    }
}

impl View for MealGroup {
    type V = MealGroupView;

    open spec fn view(&self) -> MealGroupView {
        MealGroupView { meal_type: self.meal_type@, sub_meals: meals_view(self.sub_meals@) }
    }
}

impl View for CanteenMealsDay {
    type V = CanteenMealsDayView;

    open spec fn view(&self) -> CanteenMealsDayView {
        CanteenMealsDayView { canteen_id: self.canteen_id, meal_groups: groups_view(self.meal_groups@) }
    }
}

impl View for CanteenMealDiff {
    type V = CanteenMealDiffView;

    open spec fn view(&self) -> CanteenMealDiffView {
        CanteenMealDiffView {
            canteen_id: self.canteen_id,
            new_meals: opt_groups_view(self.new_meals),
            modified_meals: opt_groups_view(self.modified_meals),
            removed_meals: opt_groups_view(self.removed_meals),
        }
    }
}

impl CanteenMealDiffView {
    pub open spec fn has_changes(self) -> bool {
        self.new_meals is Some || self.modified_meals is Some || self.removed_meals is Some
    }
}

/// Whether a diff reports anything.
pub trait HasChanges {
    fn has_changes(&self) -> bool;
}

impl HasChanges for CanteenMealDiff {
    fn has_changes(&self) -> (r: bool)
        ensures
            r == self@.has_changes(),
    {
        self.new_meals.is_some() || self.modified_meals.is_some() || self.removed_meals.is_some()
    }
}

pub fn clone_opt_string(o: &Option<String>) -> (r: Option<String>)
    ensures
        opt_str_view(r) == opt_str_view(*o),
{
    match o {
        Some(s) => Some(s.clone()),
        None => None,
    }
}

pub fn clone_strings(v: &Vec<String>) -> (r: Vec<String>)
    ensures
        strings_view(r@) == strings_view(v@),
{
    let mut r: Vec<String> = Vec::new();
    let mut i: usize = 0;
    while i < v.len()
        invariant
            i <= v.len(),
            r.len() == i,
            forall|j: int| 0 <= j < i ==> (#[trigger] r@[j])@ == v@[j]@,
        decreases v.len() - i,
    {
        r.push(v[i].clone());
        i += 1;
    }
    assert(strings_view(r@) =~= strings_view(v@));
    r
}

impl Clone for Canteen {
    fn clone(&self) -> (r: Self)
        ensures
            r@ == self@,
    {
        Canteen { id: self.id, name: self.name.clone() }
    }
}

impl Clone for MealVariation {
    fn clone(&self) -> (r: Self)
        ensures
            r@ == self@,
    {
        MealVariation { name: self.name.clone(), allergens_and_add: clone_opt_string(&self.allergens_and_add) }
    }
}

pub fn clone_variations(v: &Vec<MealVariation>) -> (r: Vec<MealVariation>)
    ensures
        variations_view(r@) == variations_view(v@),
{
    let mut r: Vec<MealVariation> = Vec::new();
    let mut i: usize = 0;
    while i < v.len()
        invariant
            i <= v.len(),
            r.len() == i,
            forall|j: int| 0 <= j < i ==> (#[trigger] r@[j])@ == v@[j]@,
        decreases v.len() - i,
    {
        r.push(v[i].clone());
        i += 1;
    }
    assert(variations_view(r@) =~= variations_view(v@));
    r
}

impl Clone for SingleMeal {
    fn clone(&self) -> (r: Self)
        ensures
            r@ == self@,
    {
        let variations = match &self.variations {
            Some(v) => Some(clone_variations(v)),
            None => None,
        };
        SingleMeal {
            name: self.name.clone(),
            additional_ingredients: clone_strings(&self.additional_ingredients),
            allergens: clone_opt_string(&self.allergens),
            variations,
            price: self.price.clone(),
        }
    }
}

pub fn clone_meals(v: &Vec<SingleMeal>) -> (r: Vec<SingleMeal>)
    ensures
        meals_view(r@) == meals_view(v@),
{
    let mut r: Vec<SingleMeal> = Vec::new();
    let mut i: usize = 0;
    while i < v.len()
        invariant
            i <= v.len(),
            r.len() == i,
            forall|j: int| 0 <= j < i ==> (#[trigger] r@[j])@ == v@[j]@,
        decreases v.len() - i,
    {
        r.push(v[i].clone());
        i += 1;
    }
    assert(meals_view(r@) =~= meals_view(v@));
    r
}

impl Clone for MealGroup {
    fn clone(&self) -> (r: Self)
        ensures
            r@ == self@,
    {
        MealGroup { meal_type: self.meal_type.clone(), sub_meals: clone_meals(&self.sub_meals) }
    }
}

pub fn clone_groups(v: &Vec<MealGroup>) -> (r: Vec<MealGroup>)
    ensures
        groups_view(r@) == groups_view(v@),
{
    let mut r: Vec<MealGroup> = Vec::new();
    let mut i: usize = 0;
    while i < v.len()
        invariant
            i <= v.len(),
            r.len() == i,
            forall|j: int| 0 <= j < i ==> (#[trigger] r@[j])@ == v@[j]@,
        decreases v.len() - i,
    {
        r.push(v[i].clone());
        i += 1;
    }
    assert(groups_view(r@) =~= groups_view(v@));
    r
}

fn clone_opt_groups(o: &Option<Vec<MealGroup>>) -> (r: Option<Vec<MealGroup>>)
    ensures
        opt_groups_view(r) == opt_groups_view(*o),
{
    match o {
        Some(v) => Some(clone_groups(v)),
        None => None,
    }
}

impl Clone for CanteenMealsDay {
    fn clone(&self) -> (r: Self)
        ensures
            r@ == self@,
    {
        CanteenMealsDay { canteen_id: self.canteen_id, meal_groups: clone_groups(&self.meal_groups) }
    }
}

impl Clone for CanteenMealDiff {
    fn clone(&self) -> (r: Self)
        ensures
            r@ == self@,
    {
        CanteenMealDiff {
            canteen_id: self.canteen_id,
            new_meals: clone_opt_groups(&self.new_meals),
            modified_meals: clone_opt_groups(&self.modified_meals),
            removed_meals: clone_opt_groups(&self.removed_meals),
        }
    }
}

pub fn opt_string_eq(a: &Option<String>, b: &Option<String>) -> (r: bool)
    ensures
        r == (opt_str_view(*a) == opt_str_view(*b)),
{
    match (a, b) {
        (Some(x), Some(y)) => *x == *y,
        (None, None) => true,
        _ => false,
    }
}

pub fn strings_eq(a: &Vec<String>, b: &Vec<String>) -> (r: bool)
    ensures
        r == (strings_view(a@) == strings_view(b@)),
{
    if a.len() != b.len() {
        proof {
            assert(strings_view(a@).len() != strings_view(b@).len());
        }
        return false;
    }
    let mut i: usize = 0;
    while i < a.len()
        invariant
            i <= a.len(),
            a.len() == b.len(),
            forall|j: int| 0 <= j < i ==> (#[trigger] a@[j])@ == b@[j]@,
        decreases a.len() - i,
    {
        if a[i] != b[i] {
            proof {
                assert(strings_view(a@)[i as int] != strings_view(b@)[i as int]);
            }
            return false;
        }
        i += 1;
    }
    assert(strings_view(a@) =~= strings_view(b@));
    true
}

impl MealVariation {
    pub fn same_as(&self, other: &MealVariation) -> (r: bool)
        ensures
            r == (self@ == other@),
    {
        self.name == other.name && opt_string_eq(&self.allergens_and_add, &other.allergens_and_add)
    }
}

pub fn variations_eq(a: &Vec<MealVariation>, b: &Vec<MealVariation>) -> (r: bool)
    ensures
        r == (variations_view(a@) == variations_view(b@)),
{
    if a.len() != b.len() {
        proof {
            assert(variations_view(a@).len() != variations_view(b@).len());
        }
        return false;
    }
    let mut i: usize = 0;
    while i < a.len()
        invariant
            i <= a.len(),
            a.len() == b.len(),
            forall|j: int| 0 <= j < i ==> (#[trigger] a@[j])@ == b@[j]@,
        decreases a.len() - i,
    {
        if !a[i].same_as(&b[i]) {
            proof {
                assert(variations_view(a@)[i as int] != variations_view(b@)[i as int]);
            }
            return false;
        }
        i += 1;
    }
    assert(variations_view(a@) =~= variations_view(b@));
    true
}

impl SingleMeal {
    /// Structural equality: every field is compared.
    pub fn same_as(&self, other: &SingleMeal) -> (r: bool)
        ensures
            r == (self@ == other@),
    {
        let vars_eq = match (&self.variations, &other.variations) {
            (Some(x), Some(y)) => variations_eq(x, y),
            (None, None) => true,
            _ => false,
        };
        self.name == other.name && strings_eq(&self.additional_ingredients, &other.additional_ingredients)
            && opt_string_eq(&self.allergens, &other.allergens) && vars_eq && self.price == other.price
    }
}

pub fn meals_eq(a: &Vec<SingleMeal>, b: &Vec<SingleMeal>) -> (r: bool)
    ensures
        r == (meals_view(a@) == meals_view(b@)),
{
    if a.len() != b.len() {
        proof {
            assert(meals_view(a@).len() != meals_view(b@).len());
        }
        return false;
    }
    let mut i: usize = 0;
    while i < a.len()
        invariant
            i <= a.len(),
            a.len() == b.len(),
            forall|j: int| 0 <= j < i ==> (#[trigger] a@[j])@ == b@[j]@,
        decreases a.len() - i,
    {
        if !a[i].same_as(&b[i]) {
            proof {
                assert(meals_view(a@)[i as int] != meals_view(b@)[i as int]);
            }
            return false;
        }
        i += 1;
    }
    assert(meals_view(a@) =~= meals_view(b@));
    true
}

impl PartialEq for MealVariation {
    fn eq(&self, other: &MealVariation) -> (r: bool) {
        self.same_as(other)
    }
}

impl vstd::std_specs::cmp::PartialEqSpecImpl for MealVariation {
    open spec fn obeys_eq_spec() -> bool {
        true
    }

    open spec fn eq_spec(&self, other: &MealVariation) -> bool {
        self@ == other@
    }
}

impl PartialEq for SingleMeal {
    fn eq(&self, other: &SingleMeal) -> (r: bool) {
        self.same_as(other)
    }
}

impl vstd::std_specs::cmp::PartialEqSpecImpl for SingleMeal {
    open spec fn obeys_eq_spec() -> bool {
        true
    }

    open spec fn eq_spec(&self, other: &SingleMeal) -> bool {
        self@ == other@
    }
}

impl PartialEq for MealGroup {
    fn eq(&self, other: &MealGroup) -> (r: bool) {
        self.meal_type == other.meal_type && meals_eq(&self.sub_meals, &other.sub_meals)
    }
}

impl vstd::std_specs::cmp::PartialEqSpecImpl for MealGroup {
    open spec fn obeys_eq_spec() -> bool {
        true
    }

    open spec fn eq_spec(&self, other: &MealGroup) -> bool {
        self@ == other@
    }
}

} // verus!
