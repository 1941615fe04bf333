//! Canteen menus: extraction of daily menus from the canteen site's pages,
//! the registry of known canteens, and the diff between two versions of a
//! canteen's day menu.
//!
//! - `types`: the menu data and its mathematical views.
//! - `text`: entity decoding, trimming and the component list of a meal.
//! - `date`: calendar dates, their ISO form and the working days ahead.
//! - `extract`: from what a page holds to day menus, and the grouping rules.
//! - `dom`: reading a page's parts out of its markup.
//! - `registry`: the one-to-one mapping between canteen names and ids.
//! - `diff`: new, modified and removed meals between two day menus.
//! - `update`: what happens to the cache and the subscribers after a fetch.

pub mod date;
pub mod diff;
pub mod dom;
pub mod extract;
pub mod registry;
pub mod text;
pub mod types;
pub mod update;
