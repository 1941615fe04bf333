use mensa_api::date::Date;
use mensa_api::dom::{extract_data_from_html, PageSelectors};
use mensa_api::extract::{group_meals, meal_from, ExtractionError, RawMeal};
use mensa_api::registry::Registry;
use mensa_api::types::Canteen;

const PAGE: &str = r#"
<div class="date-buttons">
  <button class="date-button" data-date="2024-07-10">Mi</button>
  <button class="date-button is--active" data-date="2024-07-11">Do</button>
</div>
<h3>Mensa am Park</h3>
<div class="meal-overview">
  <div class="type--meal">
    <div class="meal-tags"><span class="tag">Hauptgericht</span></div>
    <h4>Nudeln &amp; Tomatensoße</h4>
    <div class="meal-components">Tomaten · Käse · Tomaten</div>
    <div class="meal-prices"><span>2,50 €</span><span> / 4,00 €</span></div>
    <div class="meal-allergens"><p>A, G</p></div>
    <div class="meal-subitems"><div><h5> klein </h5><p><b>Allergene</b>: A</p></div></div>
  </div>
  <div class="type--meal">
    <div class="meal-tags"><span class="tag">Hauptgericht</span></div>
    <h4>Nudeln &amp; Tomatensoße</h4>
    <div class="meal-components">Tomaten · Käse · Tomaten</div>
    <div class="meal-prices"><span>2,50 €</span><span> / 4,00 €</span></div>
    <div class="meal-allergens"><p>A, G</p></div>
    <div class="meal-subitems"><div><h5> klein </h5><p><b>Allergene</b>: A</p></div></div>
  </div>
  <div class="type--meal">
    <div class="meal-tags"><span class="tag">Beilage</span></div>
    <h4>Reis</h4>
    <div class="meal-components"></div>
    <div class="meal-prices"><span>0,90 €</span></div>
  </div>
  <div class="type--meal">
    <h4>Ohne Kategorie</h4>
  </div>
</div>
<ul id="locations">
  <li data-location="118"><span>Mensa Academica</span></li>
  <li data-location="106"><span>Mensa am Park</span></li>
</ul>
"#;

fn july(day: u32) -> Date {
    Date::new(2024, 7, day).unwrap()
}

fn selectors() -> PageSelectors {
    PageSelectors::new().unwrap()
}

#[test]
fn page_is_extracted_into_groups() {
    let registry = Registry::new();
    let x = extract_data_from_html(PAGE, &july(11), &registry, &selectors()).unwrap();
    assert_eq!(x.days.len(), 1);
    let day = &x.days[0];
    assert_eq!(day.canteen_id, 106);
    assert_eq!(day.meal_groups.len(), 2);
    let main = &day.meal_groups[0];
    assert_eq!(main.meal_type, "Hauptgericht");
    assert_eq!(main.sub_meals.len(), 1);
    let m = &main.sub_meals[0];
    assert_eq!(m.name, "Nudeln & Tomatensoße");
    assert_eq!(m.additional_ingredients, vec!["Tomaten".to_string(), "Käse".to_string()]);
    assert_eq!(m.price, "2,50 € / 4,00 €");
    assert_eq!(m.allergens, Some("A, G".to_string()));
    let vars = m.variations.as_ref().unwrap();
    assert_eq!(vars.len(), 1);
    assert_eq!(vars[0].name, "klein");
    assert_eq!(vars[0].allergens_and_add, Some("A".to_string()));
    let side = &day.meal_groups[1];
    assert_eq!(side.meal_type, "Beilage");
    assert_eq!(side.sub_meals[0].additional_ingredients, Vec::<String>::new());
    assert_eq!(side.sub_meals[0].allergens, None);
    assert!(side.sub_meals[0].variations.is_none());
}

#[test]
fn duplicate_meal_entries_are_kept_once() {
    let registry = Registry::new();
    let x = extract_data_from_html(PAGE, &july(11), &registry, &selectors()).unwrap();
    let main = &x.days[0].meal_groups[0];
    assert_eq!(main.sub_meals.len(), 1);
}

#[test]
fn unknown_canteen_is_identified_through_the_directory() {
    let registry = Registry::new();
    let x = extract_data_from_html(PAGE, &july(11), &registry, &selectors()).unwrap();
    assert_eq!(x.discovered.len(), 1);
    assert_eq!(x.discovered[0].id, 106);
    assert_eq!(x.discovered[0].name, "Mensa am Park");
}

#[test]
fn registered_canteen_is_resolved_through_the_registry() {
    let mut registry = Registry::new();
    assert!(registry.insert_if_absent(Canteen { id: 7, name: "Mensa am Park".to_string() }));
    let x = extract_data_from_html(PAGE, &july(11), &registry, &selectors()).unwrap();
    assert_eq!(x.days[0].canteen_id, 7);
    assert!(x.discovered.is_empty());
}

#[test]
fn fallback_date_yields_no_menus() {
    let page = PAGE.replace("2024-07-11", "2024-07-15");
    let registry = Registry::new();
    let x = extract_data_from_html(&page, &july(11), &registry, &selectors()).unwrap();
    assert!(x.days.is_empty());
    assert!(x.discovered.is_empty());
}

#[test]
fn page_without_date_marker_is_an_error() {
    let page = PAGE.replace("is--active", "");
    let registry = Registry::new();
    let r = extract_data_from_html(&page, &july(11), &registry, &selectors());
    assert_eq!(r.err(), Some(ExtractionError::MissingDateMarker));
}

#[test]
fn page_without_sections_is_an_error() {
    let page = r#"<button class="date-button is--active" data-date="2024-07-11">Do</button><p>geschlossen</p>"#;
    let registry = Registry::new();
    let r = extract_data_from_html(page, &july(11), &registry, &selectors());
    assert_eq!(r.err(), Some(ExtractionError::NoMealSections));
}

#[test]
fn canteen_missing_from_directory_is_an_error() {
    let page = PAGE.replace("<h3>Mensa am Park</h3>", "<h3>Cafeteria Dittrichring</h3>");
    let registry = Registry::new();
    let r = extract_data_from_html(&page, &july(11), &registry, &selectors());
    assert_eq!(r.err(), Some(ExtractionError::UnknownCanteen));
}

#[test]
fn canteen_title_entities_are_decoded() {
    let page = PAGE
        .replace("<h3>Mensa am Park</h3>", "<h3>Mensa&nbsp;am Park</h3>")
        .replace("<span>Mensa am Park</span>", "<span>Mensa&nbsp;am Park</span>");
    let registry = Registry::new();
    let x = extract_data_from_html(&page, &july(11), &registry, &selectors()).unwrap();
    assert_eq!(x.discovered[0].name, "Mensa am Park");
    assert_eq!(x.days[0].canteen_id, 106);
}

fn raw(category: Option<&str>, title: Option<&str>) -> RawMeal {
    RawMeal {
        category: category.map(|s| s.to_string()),
        title: title.map(|s| s.to_string()),
        components: None,
        prices: vec![" 1,00&nbsp;€".to_string(), " ".to_string()],
        allergens: None,
        variations: None,
    }
}

#[test]
fn entry_without_category_fails() {
    assert_eq!(meal_from(&raw(None, Some("Reis"))).err(), Some(ExtractionError::MissingMealCategory));
}

#[test]
fn entry_without_title_fails() {
    assert_eq!(meal_from(&raw(Some("Beilage"), None)).err(), Some(ExtractionError::MissingMealTitle));
}

#[test]
fn price_parts_are_decoded_joined_and_trimmed() {
    let (t, m) = meal_from(&raw(Some("Beilage"), Some("Reis"))).unwrap();
    assert_eq!(t, "Beilage");
    assert_eq!(m.price, "1,00 €");
}

#[test]
fn unreadable_entries_do_not_stop_the_others() {
    let groups = group_meals(&vec![
        raw(None, Some("A")),
        raw(Some("Beilage"), Some("Reis")),
        raw(Some("Beilage"), None),
        raw(Some("Dessert"), Some("Obst")),
        raw(Some("Beilage"), Some("Reis")),
    ]);
    assert_eq!(groups.len(), 2);
    assert_eq!(groups[0].meal_type, "Beilage");
    assert_eq!(groups[0].sub_meals.len(), 1);
    assert_eq!(groups[1].meal_type, "Dessert");
}

#[test]
fn listed_id_held_by_another_canteen_is_an_error() {
    let mut registry = Registry::new();
    assert!(registry.insert_if_absent(Canteen { id: 106, name: "Mensa Academica".to_string() }));
    let r = extract_data_from_html(PAGE, &july(11), &registry, &selectors());
    assert_eq!(r.err(), Some(ExtractionError::UnknownCanteen));
}

#[test]
fn canteen_found_twice_on_a_page_is_returned_once() {
    let page = PAGE.replace(
        "<ul id=\"locations\">",
        "<h3>Mensa am Park</h3><div class=\"meal-overview\"></div><ul id=\"locations\">",
    );
    let registry = Registry::new();
    let x = extract_data_from_html(&page, &july(11), &registry, &selectors()).unwrap();
    assert_eq!(x.days.len(), 2);
    assert_eq!(x.days[1].canteen_id, 106);
    assert!(x.days[1].meal_groups.is_empty());
    assert_eq!(x.discovered.len(), 1);
}

#[test]
fn markup_inside_a_title_keeps_its_attribute_order() {
    let page = PAGE.replace(
        "<h4>Reis</h4>",
        r#"<h4><abbr title="x" class="y" id="z">Reis</abbr></h4>"#,
    );
    let registry = Registry::new();
    for _ in 0..3 {
        let x = extract_data_from_html(&page, &july(11), &registry, &selectors()).unwrap();
        let side = &x.days[0].meal_groups[1];
        assert_eq!(side.sub_meals[0].name, r#"<abbr title="x" class="y" id="z">Reis</abbr>"#);
    }
}
