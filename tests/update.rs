use mensa_api::date::Date;
use mensa_api::types::{CanteenMealsDay, MealGroup, SingleMeal};
use mensa_api::update::{has_open_day, plan_cache_update};

fn meal(name: &str) -> SingleMeal {
    SingleMeal {
        name: name.to_string(),
        additional_ingredients: vec![],
        allergens: None,
        variations: None,
        price: "1,00 €".to_string(),
    }
}

fn groups(names: &[&str]) -> Vec<MealGroup> {
    vec![MealGroup { meal_type: "Hauptgericht".to_string(), sub_meals: names.iter().map(|n| meal(n)).collect() }]
}

fn date(d: u32) -> Date {
    Date::new(2024, 7, d).unwrap()
}

#[test]
fn unchanged_entry_is_left_alone() {
    let fresh = CanteenMealsDay { canteen_id: 1, meal_groups: groups(&["A"]) };
    let text = "[A]".to_string();
    let plan = plan_cache_update(&fresh, &text, &Some("[A]".to_string()), Some(groups(&["A"])), &date(11), &date(11));
    assert!(!plan.write);
    assert!(plan.diff.is_none());
}

#[test]
fn changed_entry_of_today_is_written_and_diffed() {
    let fresh = CanteenMealsDay { canteen_id: 1, meal_groups: groups(&["A", "B"]) };
    let text = "[A,B]".to_string();
    let plan = plan_cache_update(&fresh, &text, &Some("[A]".to_string()), Some(groups(&["A"])), &date(11), &date(11));
    assert!(plan.write);
    let d = plan.diff.unwrap();
    assert_eq!(d.canteen_id, 1);
    assert_eq!(d.new_meals, Some(groups(&["B"])));
}

#[test]
fn changed_entry_of_another_day_is_written_only() {
    let fresh = CanteenMealsDay { canteen_id: 1, meal_groups: groups(&["A", "B"]) };
    let text = "[A,B]".to_string();
    let plan = plan_cache_update(&fresh, &text, &Some("[A]".to_string()), Some(groups(&["A"])), &date(12), &date(11));
    assert!(plan.write);
    assert!(plan.diff.is_none());
}

#[test]
fn first_entry_is_written_without_a_diff() {
    let fresh = CanteenMealsDay { canteen_id: 1, meal_groups: groups(&["A"]) };
    let plan = plan_cache_update(&fresh, &"[A]".to_string(), &None, None, &date(11), &date(11));
    assert!(plan.write);
    assert!(plan.diff.is_none());
}

#[test]
fn open_days_are_detected() {
    assert!(!has_open_day(&vec![]));
    assert!(!has_open_day(&vec![true, true]));
    assert!(has_open_day(&vec![true, false]));
}
