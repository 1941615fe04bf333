use std::sync::RwLock;

use mensa_api::date::Date;
use mensa_api::dom::{extract_data_from_html, PageSelectors};
use mensa_api::registry::{invert_map, Registry};
use mensa_api::types::Canteen;

fn canteen(id: u32, name: &str) -> Canteen {
    Canteen { id, name: name.to_string() }
}

#[test]
fn registry_resolves_both_ways() {
    let r = Registry::from_directory(&vec![("Mensa am Park".to_string(), 106), ("Mensa Academica".to_string(), 118)]);
    assert_eq!(r.resolve(&"Mensa Academica".to_string()), Some(118));
    assert_eq!(r.resolve(&"Mensa am Elsterbecken".to_string()), None);
    assert_eq!(r.name_of(106), Some("Mensa am Park".to_string()));
    assert_eq!(r.name_of(115), None);
    assert_eq!(r.canteens().len(), 2);
}

#[test]
fn registration_keeps_the_mapping_one_to_one() {
    let mut r = Registry::new();
    assert!(r.insert_if_absent(canteen(106, "Mensa am Park")));
    assert!(!r.insert_if_absent(canteen(106, "Mensa am Park")));
    assert!(!r.insert_if_absent(canteen(107, "Mensa am Park")));
    assert!(!r.insert_if_absent(canteen(106, "Mensa Academica")));
    assert_eq!(r.resolve(&"Mensa am Park".to_string()), Some(106));
    assert_eq!(r.resolve(&"Mensa Academica".to_string()), None);
}

#[test]
fn register_all_returns_the_winners() {
    let mut r = Registry::new();
    let won = r.register_all(&vec![canteen(1, "A"), canteen(2, "B"), canteen(3, "A")]);
    assert_eq!(won.len(), 2);
    assert_eq!(won[0].name, "A");
    assert_eq!(won[1].name, "B");
    assert_eq!(r.resolve(&"A".to_string()), Some(1));
}

#[test]
fn inverted_pairs_swap_in_order() {
    let inv = invert_map(&vec![(106, "Mensa am Park".to_string()), (118, "Mensa Academica".to_string())]);
    assert_eq!(inv, vec![("Mensa am Park".to_string(), 106), ("Mensa Academica".to_string(), 118)]);
}

fn page(date: &str) -> String {
    format!(
        r#"<button class="date-button is--active" data-date="{date}">x</button>
<h3>Mensa Neu</h3><div class="meal-overview"><div class="type--meal">
<div class="meal-tags"><span class="tag">Hauptgericht</span></div><h4>Suppe</h4></div></div>
<ul id="locations"><li data-location="+042"><span>Mensa Neu</span></li></ul>"#
    )
}

#[test]
fn canteen_found_on_two_dates_is_persisted_once() {
    let shared = RwLock::new(Registry::new());
    let sels = PageSelectors::new().unwrap();
    let d1 = Date::new(2024, 7, 11).unwrap();
    let d2 = Date::new(2024, 7, 12).unwrap();
    let x1 = extract_data_from_html(&page("2024-07-11"), &d1, &shared.read().unwrap(), &sels).unwrap();
    let x2 = extract_data_from_html(&page("2024-07-12"), &d2, &shared.read().unwrap(), &sels).unwrap();
    assert_eq!(x1.discovered.len(), 1);
    assert_eq!(x2.discovered.len(), 1);
    assert_eq!(x1.discovered[0].id, 42);
    let mut persisted: Vec<Canteen> = Vec::new();
    persisted.extend(shared.write().unwrap().register_all(&x1.discovered));
    persisted.extend(shared.write().unwrap().register_all(&x2.discovered));
    assert_eq!(persisted.len(), 1);
    assert_eq!(persisted[0].name, "Mensa Neu");
    assert_eq!(shared.read().unwrap().resolve(&"Mensa Neu".to_string()), Some(42));
}
