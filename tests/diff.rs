use mensa_api::diff::diff_canteen_meals;
use mensa_api::types::{CanteenMealsDay, HasChanges, MealGroup, MealVariation, SingleMeal};

fn meal(name: &str, price: &str) -> SingleMeal {
    SingleMeal {
        name: name.to_string(),
        additional_ingredients: vec!["Zwiebeln".to_string()],
        allergens: Some("A, G".to_string()),
        variations: Some(vec![MealVariation { name: "klein".to_string(), allergens_and_add: None }]),
        price: price.to_string(),
    }
}

fn group(t: &str, meals: Vec<SingleMeal>) -> MealGroup {
    MealGroup { meal_type: t.to_string(), sub_meals: meals }
}

fn day(groups: Vec<MealGroup>) -> CanteenMealsDay {
    CanteenMealsDay { canteen_id: 106, meal_groups: groups }
}

fn sample_day() -> CanteenMealsDay {
    day(vec![
        group("Hauptgericht", vec![meal("Linsensuppe", "2,50 €"), meal("Schnitzel", "4,10 €")]),
        group("Beilage", vec![meal("Reis", "0,90 €")]),
    ])
}

#[test]
fn diff_without_baseline_has_no_changes() {
    let d = diff_canteen_meals(None, &sample_day());
    assert!(!d.has_changes());
    assert_eq!(d.canteen_id, 106);
    assert!(d.new_meals.is_none() && d.modified_meals.is_none() && d.removed_meals.is_none());
}

#[test]
fn diff_of_day_against_itself_has_no_changes() {
    let d = diff_canteen_meals(Some(sample_day()), &sample_day());
    assert!(!d.has_changes());
}

#[test]
fn price_change_is_a_modification() {
    let old = day(vec![group("Hauptgericht", vec![meal("Linsensuppe", "2,50 €"), meal("Schnitzel", "4,10 €")])]);
    let new = day(vec![group("Hauptgericht", vec![meal("Linsensuppe", "2,70 €"), meal("Schnitzel", "4,10 €")])]);
    let d = diff_canteen_meals(Some(old), &new);
    assert!(d.has_changes());
    assert!(d.new_meals.is_none());
    assert!(d.removed_meals.is_none());
    assert_eq!(d.modified_meals, Some(vec![group("Hauptgericht", vec![meal("Linsensuppe", "2,70 €")])]));
}

#[test]
fn new_dish_is_reported_as_new() {
    let old = day(vec![group("Hauptgericht", vec![meal("M1", "1,00 €")])]);
    let new = day(vec![group("Hauptgericht", vec![meal("M1", "1,00 €"), meal("M2", "2,00 €")])]);
    let d = diff_canteen_meals(Some(old), &new);
    assert_eq!(d.new_meals, Some(vec![group("Hauptgericht", vec![meal("M2", "2,00 €")])]));
    assert!(d.modified_meals.is_none());
    assert!(d.removed_meals.is_none());
}

#[test]
fn dropped_dish_is_reported_as_removed() {
    let old = day(vec![group("Beilage", vec![meal("M1", "1,00 €"), meal("M2", "2,00 €")])]);
    let new = day(vec![group("Beilage", vec![meal("M1", "1,00 €")])]);
    let d = diff_canteen_meals(Some(old), &new);
    assert_eq!(d.removed_meals, Some(vec![group("Beilage", vec![meal("M2", "2,00 €")])]));
    assert!(d.new_meals.is_none());
    assert!(d.modified_meals.is_none());
}

#[test]
fn new_category_is_new_as_a_whole() {
    let old = day(vec![group("Hauptgericht", vec![meal("M1", "1,00 €")])]);
    let new = day(vec![
        group("Hauptgericht", vec![meal("M1", "1,00 €")]),
        group("Dessert", vec![meal("Pudding", "1,20 €"), meal("Obst", "0,80 €")]),
    ]);
    let d = diff_canteen_meals(Some(old), &new);
    assert_eq!(d.new_meals, Some(vec![group("Dessert", vec![meal("Pudding", "1,20 €"), meal("Obst", "0,80 €")])]));
    assert!(d.modified_meals.is_none());
    assert!(d.removed_meals.is_none());
}

#[test]
fn vanished_category_is_removed_as_a_whole() {
    let old = sample_day();
    let new = day(vec![group("Hauptgericht", vec![meal("Linsensuppe", "2,50 €"), meal("Schnitzel", "4,10 €")])]);
    let d = diff_canteen_meals(Some(old), &new);
    assert_eq!(d.removed_meals, Some(vec![group("Beilage", vec![meal("Reis", "0,90 €")])]));
    assert!(d.new_meals.is_none());
    assert!(d.modified_meals.is_none());
}

#[test]
fn mixed_changes_in_one_category() {
    let old = day(vec![group("Hauptgericht", vec![meal("A", "1"), meal("B", "2"), meal("C", "3")])]);
    let mut changed_b = meal("B", "2");
    changed_b.allergens = None;
    let new = day(vec![group("Hauptgericht", vec![meal("A", "1"), changed_b.clone(), meal("D", "4")])]);
    let d = diff_canteen_meals(Some(old), &new);
    assert_eq!(d.modified_meals, Some(vec![group("Hauptgericht", vec![changed_b])]));
    assert_eq!(d.new_meals, Some(vec![group("Hauptgericht", vec![meal("D", "4")])]));
    assert_eq!(d.removed_meals, Some(vec![group("Hauptgericht", vec![meal("C", "3")])]));
}

#[test]
fn meal_equality_compares_every_field() {
    let a = meal("A", "1");
    let mut b = meal("A", "1");
    assert!(a == b);
    b.additional_ingredients.push("Salz".to_string());
    assert!(a != b);
    let mut c = meal("A", "1");
    c.variations = None;
    assert!(a != c);
}

#[test]
fn price_change_in_a_day_of_several_groups_is_a_modification() {
    let new = day(vec![
        group("Hauptgericht", vec![meal("Linsensuppe", "2,50 €"), meal("Schnitzel", "4,10 €")]),
        group("Beilage", vec![meal("Reis", "1,10 €")]),
    ]);
    let d = diff_canteen_meals(Some(sample_day()), &new);
    assert_eq!(d.modified_meals, Some(vec![group("Beilage", vec![meal("Reis", "1,10 €")])]));
    assert!(d.new_meals.is_none());
    assert!(d.removed_meals.is_none());
}
