use vstd::prelude::*;

use crate::date::{build_date_string, Date};
use crate::diff::{find_group, is_first_of_type, lemma_first_is_chosen, unique_types};
use crate::registry::{
    canteens_view, has_canteen_id, has_canteen_name, id_of, is_bijective, is_fresh, registered_all, won_all,
    Registry,
};
use crate::text::{
    decode_entities, decoded, parse_components, components_of, strip_label_sep,
    trim_text, trimmed, without_prefix,
};
use crate::types::{
    clone_opt_string, opt_str_view, strings_view,
    groups_view, meals_view, variations_view, Canteen, CanteenMealsDay, CanteenMealsDayView,
    CanteenView, MealGroup, MealGroupView, MealVariation, MealVariationView, SingleMeal,
    SingleMealView,
};

verus! {

/// Why a page, or one entry of it, could not be read.
#[derive(Clone, Copy, Debug, PartialEq, Eq, Structural)]
pub enum ExtractionError {
    /// The page has no active date marker: it is malformed or blocked.
    MissingDateMarker,
    /// The page is for the requested date but lists no canteen.
    NoMealSections,
    /// A meal entry has no category tag.
    MissingMealCategory,
    /// A meal entry has no title.
    MissingMealTitle,
    /// A canteen is neither registered nor in the page's directory listing,
    /// or the listing gives it an id that another canteen holds.
    UnknownCanteen,
}

/// A variation of a meal as the page gives it: the text of its heading and
/// of its detail paragraph.
pub struct RawVariation {
    pub heading: Option<String>,
    pub detail: Option<String>,
}

/// A meal entry as the page gives it: the markup of each part, where present.
pub struct RawMeal {
    pub category: Option<String>,
    pub title: Option<String>,
    pub components: Option<String>,
    pub prices: Vec<String>,
    pub allergens: Option<String>,
    pub variations: Option<Vec<RawVariation>>,
}

/// A canteen's section of the page: its title and its meal entries.
pub struct RawSection {
    pub title: String,
    pub meals: Vec<RawMeal>,
}

/// An entry of the page's directory of canteens: its display text and its
/// location id attribute.
pub struct RawListing {
    pub label: Option<String>,
    pub location: Option<String>,
}

/// What the extraction reads from a menu page.
pub struct RawPage {
    pub has_date_marker: bool,
    pub marker_date: Option<String>,
    pub sections: Vec<RawSection>,
    pub listings: Vec<RawListing>,
}

pub struct RawVariationView {
    pub heading: Option<Seq<char>>,
    pub detail: Option<Seq<char>>,
}

pub struct RawMealView {
    pub category: Option<Seq<char>>,
    pub title: Option<Seq<char>>,
    pub components: Option<Seq<char>>,
    pub prices: Seq<Seq<char>>,
    pub allergens: Option<Seq<char>>,
    pub variations: Option<Seq<RawVariationView>>,
}

pub struct RawSectionView {
    pub title: Seq<char>,
    pub meals: Seq<RawMealView>,
}

pub struct RawListingView {
    pub label: Option<Seq<char>>,
    pub location: Option<Seq<char>>,
}

pub struct RawPageView {
    pub has_date_marker: bool,
    pub marker_date: Option<Seq<char>>,
    pub sections: Seq<RawSectionView>,
    pub listings: Seq<RawListingView>,
}

pub open spec fn raw_variations_view(v: Seq<RawVariation>) -> Seq<RawVariationView> {
    v.map_values(|x: RawVariation| x@)
}

pub open spec fn raw_meals_view(v: Seq<RawMeal>) -> Seq<RawMealView> {
    v.map_values(|x: RawMeal| x@)
}

pub open spec fn raw_sections_view(v: Seq<RawSection>) -> Seq<RawSectionView> {
    v.map_values(|x: RawSection| x@)
}

pub open spec fn raw_listings_view(v: Seq<RawListing>) -> Seq<RawListingView> {
    v.map_values(|x: RawListing| x@)
}

impl View for RawVariation {
    type V = RawVariationView;

    open spec fn view(&self) -> RawVariationView {
        RawVariationView { heading: opt_str_view(self.heading), detail: opt_str_view(self.detail) }
    }
}

impl View for RawMeal {
    type V = RawMealView;

    open spec fn view(&self) -> RawMealView {
        RawMealView {
            category: opt_str_view(self.category),
            title: opt_str_view(self.title),
            components: opt_str_view(self.components),
            prices: strings_view(self.prices@),
            allergens: opt_str_view(self.allergens),
            variations: match self.variations {
                Some(vs) => Some(raw_variations_view(vs@)),
                None => None,
            },
        }
    }
}

impl View for RawSection {
    type V = RawSectionView;

    open spec fn view(&self) -> RawSectionView {
        RawSectionView { title: self.title@, meals: raw_meals_view(self.meals@) }
    }
}

impl View for RawListing {
    type V = RawListingView;

    open spec fn view(&self) -> RawListingView {
        RawListingView { label: opt_str_view(self.label), location: opt_str_view(self.location) }
    }
}

impl View for RawPage {
    type V = RawPageView;

    open spec fn view(&self) -> RawPageView {
        RawPageView {
            has_date_marker: self.has_date_marker,
            marker_date: opt_str_view(self.marker_date),
            sections: raw_sections_view(self.sections@),
            listings: raw_listings_view(self.listings@),
        }
    }
}

/// The menus read from a page, and the canteens that the registry did not
/// know and that the page's directory identified.
pub struct Extraction {
    pub days: Vec<CanteenMealsDay>,
    pub discovered: Vec<Canteen>,
}

pub open spec fn is_digit(c: char) -> bool {
    '0' as u32 <= c as u32 <= '9' as u32
}

pub open spec fn digits_value(s: Seq<char>) -> int
    decreases s.len(),
{
    if s.len() == 0 {
        0
    } else {
        digits_value(s.drop_last()) * 10 + (s.last() as u32 - '0' as u32)
    }
}

/// The `u32` that `s` writes in decimal, with an optional leading `+`.
pub open spec fn decimal_u32(s: Seq<char>) -> Option<u32> {
    let d = if s.len() > 0 && s[0] == '+' {
        s.skip(1)
    } else {
        s
    };
    if d.len() > 0 && (forall|i: int| 0 <= i < d.len() ==> is_digit(#[trigger] d[i])) && digits_value(d)
        <= u32::MAX {
        Some(digits_value(d) as u32)
    } else {
        None
    }
}

/// Relies on `<u32 as FromStr>::from_str`: decimal digits with an optional
/// leading `+`, and a value that fits; anything else is an error.
#[verifier::external_body]
fn parse_u32(s: &str) -> (r: Option<u32>)
    ensures
        r == decimal_u32(s@),
{
    s.parse::<u32>().ok()
}

pub open spec fn variation_of(v: RawVariationView) -> MealVariationView {
    MealVariationView {
        name: match v.heading {
            Some(h) => trimmed(h),
            None => seq![],
        },
        allergens_and_add: match v.detail {
            Some(d) => Some(without_prefix(d, seq![':', ' '])),
            None => None,
        },
    }
}

/// The decoded prices, one after the other.
pub open spec fn joined_prices(ps: Seq<Seq<char>>) -> Seq<char>
    decreases ps.len(),
{
    if ps.len() == 0 {
        seq![]
    } else {
        joined_prices(ps.drop_last()) + decoded(ps.last())
    }
}

/// The meal that an entry describes, with its category.
pub open spec fn meal_of(m: RawMealView) -> Result<(Seq<char>, SingleMealView), ExtractionError> {
    match m.category {
        None => Err(ExtractionError::MissingMealCategory),
        Some(c) => match m.title {
            None => Err(ExtractionError::MissingMealTitle),
            Some(t) => Ok(
                (
                    c,
                    SingleMealView {
                        name: decoded(t),
                        additional_ingredients: match m.components {
                            Some(b) => components_of(b),
                            None => seq![],
                        },
                        allergens: m.allergens,
                        variations: match m.variations {
                            Some(vs) => Some(vs.map_values(|v: RawVariationView| variation_of(v))),
                            None => None,
                        },
                        price: trimmed(joined_prices(m.prices)),
                    },
                ),
            ),
        },
    }
}

/// `groups` with meal `m` of category `t` added: into the first group of
/// that category unless an equal meal is there already, or as a new group.
pub open spec fn insert_meal(groups: Seq<MealGroupView>, t: Seq<char>, m: SingleMealView) -> Seq<MealGroupView> {
    if exists|i: int| is_first_of_type(groups, t, i) {
        let i = choose|i: int| is_first_of_type(groups, t, i);
        if groups[i].sub_meals.contains(m) {
            groups
        } else {
            groups.update(i, MealGroupView { meal_type: t, sub_meals: groups[i].sub_meals.push(m) })
        }
    } else {
        groups.push(MealGroupView { meal_type: t, sub_meals: seq![m] })
    }
}

/// The groups that the entries make, in order; an entry that cannot be read
/// is left out.
pub open spec fn grouped(meals: Seq<RawMealView>) -> Seq<MealGroupView>
    decreases meals.len(),
{
    if meals.len() == 0 {
        seq![]
    } else {
        let g = grouped(meals.drop_last());
        match meal_of(meals.last()) {
            Ok((t, m)) => insert_meal(g, t, m),
            Err(_) => g,
        }
    }
}

/// The id that the page's directory gives the canteen called `name`: that of
/// its first entry with that display text.
pub open spec fn listed_id(listings: Seq<RawListingView>, name: Seq<char>) -> Option<u32>
    decreases listings.len(),
{
    if listings.len() == 0 {
        None
    } else {
        let l = listings[0];
        if l.label is Some && decoded(l.label->Some_0) == name {
            match l.location {
                Some(loc) => decimal_u32(loc),
                None => None,
            }
        } else {
            listed_id(listings.skip(1), name)
        }
    }
}

pub open spec fn day_view(id: u32, groups: Seq<MealGroupView>) -> CanteenMealsDayView {
    CanteenMealsDayView { canteen_id: id, meal_groups: groups }
}

pub open spec fn days_view(v: Seq<CanteenMealsDay>) -> Seq<CanteenMealsDayView> {
    v.map_values(|d: CanteenMealsDay| d@)
}

/// The menus of the sections, in order, and the canteens found on the way
/// in the page's directory, each once; the first section whose canteen
/// cannot be identified, or whose listed id another canteen holds, fails
/// the page.
pub open spec fn sections_of(
    secs: Seq<RawSectionView>,
    listings: Seq<RawListingView>,
    known: Seq<CanteenView>,
) -> Result<(Seq<CanteenMealsDayView>, Seq<CanteenView>), ExtractionError>
    decreases secs.len(),
{
    if secs.len() == 0 {
        Ok((seq![], seq![]))
    } else {
        match sections_of(secs.drop_last(), listings, known) {
            Err(e) => Err(e),
            Ok((days, found)) => {
                let s = secs.last();
                let name = decoded(s.title);
                let groups = grouped(s.meals);
                match id_of(known, name) {
                    Some(id) => Ok((days.push(day_view(id, groups)), found)),
                    None => match listed_id(listings, name) {
                        Some(id) => if has_canteen_name(found, name) {
                            Ok((days.push(day_view(id, groups)), found))
                        } else if has_canteen_id(known, id) || has_canteen_id(found, id) {
                            Err(ExtractionError::UnknownCanteen)
                        } else {
                            Ok((days.push(day_view(id, groups)), found.push(CanteenView { id, name })))
                        },
                        None => Err(ExtractionError::UnknownCanteen),
                    },
                }
            },
        }
    }
}

/// What a page yields for the requested date. A page without a date marker
/// is an error; a page for another date (the site falls back to a default
/// date) yields nothing; a page for the date without sections is an error.
pub open spec fn extraction_of(page: RawPageView, requested: Date, known: Seq<CanteenView>) -> Result<
    (Seq<CanteenMealsDayView>, Seq<CanteenView>),
    ExtractionError,
> {
    if !page.has_date_marker {
        Err(ExtractionError::MissingDateMarker)
    } else if page.marker_date != Some(requested.iso()) {
        Ok((seq![], seq![]))
    } else if page.sections.len() == 0 {
        Err(ExtractionError::NoMealSections)
    } else {
        sections_of(page.sections, page.listings, known)
    }
}

fn variation_from(v: &RawVariation) -> (r: MealVariation)
    ensures
        r@ == variation_of(v@),
{
    let name = match &v.heading {
        Some(h) => trim_text(h.as_str()),
        None => String::new(),
    };
    let allergens_and_add = match &v.detail {
        Some(d) => Some(strip_label_sep(d.as_str())),
        None => None,
    };
    MealVariation { name, allergens_and_add }
}

fn variations_from(vs: &Vec<RawVariation>) -> (r: Vec<MealVariation>)
    ensures
        variations_view(r@) == raw_variations_view(vs@).map_values(|v: RawVariationView| variation_of(v)),
{
    let mut out: Vec<MealVariation> = Vec::new();
    let mut i: usize = 0;
    while i < vs.len()
        invariant
            i <= vs.len(),
            out.len() == i,
            forall|j: int| 0 <= j < i ==> (#[trigger] out@[j])@ == variation_of(vs@[j]@),
        decreases vs.len() - i,
    {
        out.push(variation_from(&vs[i]));
        i += 1;
    }
    assert(variations_view(out@) =~= raw_variations_view(vs@).map_values(|v: RawVariationView| variation_of(v)));
    out
}

/// The price of a meal: its price parts decoded, joined and trimmed.
fn price_from(ps: &Vec<String>) -> (r: String)
    ensures
        r@ == trimmed(joined_prices(strings_view(ps@))),
{
    let ghost sv = strings_view(ps@);
    let mut joined = String::new();
    let mut i: usize = 0;
    while i < ps.len()
        invariant
            i <= ps.len(),
            sv == strings_view(ps@),
            joined@ == joined_prices(sv.take(i as int)),
        decreases ps.len() - i,
    {
        let part = decode_entities(ps[i].as_str());
        proof {
            assert(sv.take(i as int + 1).drop_last() =~= sv.take(i as int));
        }
        joined.append(part.as_str());
        i += 1;
    }
    proof {
        assert(sv.take(ps.len() as int) =~= sv);
    }
    trim_text(joined.as_str())
}

/// Reads one meal entry. An entry without a category or a title fails.
pub fn meal_from(m: &RawMeal) -> (r: Result<(String, SingleMeal), ExtractionError>)
    ensures
        match r {
            Ok((t, meal)) => meal_of(m@) == Ok::<(Seq<char>, SingleMealView), ExtractionError>((t@, meal@)),
            Err(e) => meal_of(m@) == Err::<(Seq<char>, SingleMealView), ExtractionError>(e),
        },
{
    let category = match &m.category {
        None => return Err(ExtractionError::MissingMealCategory),
        Some(c) => c.clone(),
    };
    let title = match &m.title {
        None => return Err(ExtractionError::MissingMealTitle),
        Some(t) => t,
    };
    let name = decode_entities(title.as_str());
    let additional_ingredients = match &m.components {
        Some(b) => parse_components(b.as_str()),
        None => {
            let v: Vec<String> = Vec::new();
            assert(crate::types::strings_view(v@) =~= Seq::<Seq<char>>::empty());
            v
        },
    };
    let variations = match &m.variations {
        Some(vs) => Some(variations_from(vs)),
        None => None,
    };
    let meal = SingleMeal {
        name,
        additional_ingredients,
        allergens: clone_opt_string(&m.allergens),
        variations,
        price: price_from(&m.prices),
    };
    Ok((category, meal))
}

proof fn lemma_insert_keeps_types(groups: Seq<MealGroupView>, t: Seq<char>, m: SingleMealView)
    requires
        unique_types(groups),
    ensures
        unique_types(insert_meal(groups, t, m)),
{
    if !(exists|i: int| is_first_of_type(groups, t, i)) {
        let r = insert_meal(groups, t, m);
        assert forall|i: int, j: int|
            0 <= i < r.len() && 0 <= j < r.len() && r[i].meal_type == r[j].meal_type implies i == j by {
            if i < groups.len() && j == groups.len() {
                assert(is_first_of_type(groups, t, i));
            } else if j < groups.len() && i == groups.len() {
                assert(is_first_of_type(groups, t, j));
            }
        }
    }
}

/// Groups the readable entries by category, dropping repeated meals.
pub fn group_meals(meals: &Vec<RawMeal>) -> (r: Vec<MealGroup>)
    ensures
        groups_view(r@) == grouped(raw_meals_view(meals@)),
        unique_types(groups_view(r@)),
{
    let ghost mv = raw_meals_view(meals@);
    let mut groups: Vec<MealGroup> = Vec::new();
    let mut i: usize = 0;
    while i < meals.len()
        invariant
            i <= meals.len(),
            mv == raw_meals_view(meals@),
            groups_view(groups@) == grouped(mv.take(i as int)),
            unique_types(groups_view(groups@)),
        decreases meals.len() - i,
    {
        proof {
            assert(mv.take(i as int + 1).drop_last() =~= mv.take(i as int));
            assert(mv.take(i as int + 1).last() == meals@[i as int]@);
        }
        match meal_from(&meals[i]) {
            Err(_) => {},
            Ok((t, meal)) => {
                let ghost gv = groups_view(groups@);
                proof {
                    lemma_insert_keeps_types(gv, t@, meal@);
                }
                match find_group(&groups, &t) {
                    None => {
                        let g = MealGroup { meal_type: t, sub_meals: vec![meal] };
                        proof {
                            assert(meals_view(g.sub_meals@) =~= seq![meal@]);
                            assert(groups_view(groups@.push(g)) =~= gv.push(g@));
                            assert(!(exists|k: int| is_first_of_type(gv, g.meal_type@, k)));
                        }
                        groups.push(g);
                    },
                    Some(k) => {
                        proof {
                            lemma_first_is_chosen(gv, t@, k as int);
                        }
                        if !crate::diff::contains_meal(&groups[k].sub_meals, &meal) {
                            let mut g = groups.remove(k);
                            let ghost old_subs = meals_view(g.sub_meals@);
                            let ghost mv = meal@;
                            g.sub_meals.push(meal);
                            proof {
                                assert(meals_view(g.sub_meals@) =~= old_subs.push(mv));
                            }
                            groups.insert(k, g);
                            proof {
                                assert(groups_view(groups@) =~= gv.update(
                                    k as int,
                                    MealGroupView { meal_type: t@, sub_meals: old_subs.push(mv) },
                                ));
                            }
                        }
                    },
                }
            },
        }
        i += 1;
    }
    proof {
        assert(mv.take(meals.len() as int) =~= mv);
    }
    groups
}

/// The id that the page's directory gives the canteen called `name`.
fn listed_id_of(listings: &Vec<RawListing>, name: &String) -> (r: Option<u32>)
    ensures
        r == listed_id(raw_listings_view(listings@), name@),
{
    let ghost lv = raw_listings_view(listings@);
    let mut i: usize = 0;
    assert(lv.skip(0) =~= lv);
    while i < listings.len()
        invariant
            i <= listings.len(),
            lv == raw_listings_view(listings@),
            listed_id(lv, name@) == listed_id(lv.skip(i as int), name@),
        decreases listings.len() - i,
    {
        proof {
            assert(lv.skip(i as int).skip(1) =~= lv.skip(i as int + 1));
            assert(lv.skip(i as int)[0] == listings@[i as int]@);
        }
        let l = &listings[i];
        if let Some(label) = &l.label {
            let text = decode_entities(label.as_str());
            if text == *name {
                return match &l.location {
                    Some(loc) => parse_u32(loc.as_str()),
                    None => None,
                };
            }
        }
        i += 1;
    }
    None
}

fn found_name(v: &Vec<Canteen>, name: &String) -> (r: bool)
    ensures
        r == has_canteen_name(canteens_view(v@), name@),
{
    let mut i: usize = 0;
    while i < v.len()
        invariant
            i <= v.len(),
            forall|j: int| 0 <= j < i ==> v@[j].name@ != name@,
        decreases v.len() - i,
    {
        if v[i].name == *name {
            assert(canteens_view(v@)[i as int].name == name@);
            return true;
        }
        i += 1;
    }
    assert forall|j: int| 0 <= j < v.len() implies canteens_view(v@)[j].name != name@ by {
        assert(canteens_view(v@)[j] == v@[j]@);
    }
    false
}

fn found_id(v: &Vec<Canteen>, id: u32) -> (r: bool)
    ensures
        r == has_canteen_id(canteens_view(v@), id),
{
    let mut i: usize = 0;
    while i < v.len()
        invariant
            i <= v.len(),
            forall|j: int| 0 <= j < i ==> v@[j].id != id,
        decreases v.len() - i,
    {
        if v[i].id == id {
            assert(canteens_view(v@)[i as int].id == id);
            return true;
        }
        i += 1;
    }
    assert forall|j: int| 0 <= j < v.len() implies canteens_view(v@)[j].id != id by {
        assert(canteens_view(v@)[j] == v@[j]@);
    }
    false
}

/// Reads the menus of a page for the requested date. Canteens are
/// identified through the registry, else through the page's directory; those
/// found in the directory are returned for registration.
pub fn extract_page(page: &RawPage, requested: &Date, registry: &Registry) -> (r: Result<Extraction, ExtractionError>)
    requires
        registry.wf(),
    ensures
        match r {
            Ok(x) => extraction_of(page@, *requested, registry@) == Ok::<
                (Seq<CanteenMealsDayView>, Seq<CanteenView>),
                ExtractionError,
            >((days_view(x.days@), canteens_view(x.discovered@))) && forall|j: int|
                0 <= j < x.days.len() ==> unique_types(#[trigger] x.days@[j]@.meal_groups),
            Err(e) => extraction_of(page@, *requested, registry@) == Err::<
                (Seq<CanteenMealsDayView>, Seq<CanteenView>),
                ExtractionError,
            >(e),
        },
{
    let mut days: Vec<CanteenMealsDay> = Vec::new();
    let mut discovered: Vec<Canteen> = Vec::new();
    if !page.has_date_marker {
        return Err(ExtractionError::MissingDateMarker);
    }
    let wanted = build_date_string(requested);
    let same_date = match &page.marker_date {
        Some(d) => *d == wanted,
        None => false,
    };
    if !same_date {
        proof {
            assert(days_view(days@) =~= Seq::<CanteenMealsDayView>::empty());
            assert(canteens_view(discovered@) =~= Seq::<CanteenView>::empty());
        }
        return Ok(Extraction { days, discovered });
    }
    if page.sections.len() == 0 {
        return Err(ExtractionError::NoMealSections);
    }
    let secs = &page.sections;
    let ghost known = registry@;
    let ghost sv = raw_sections_view(secs@);
    let ghost lv = raw_listings_view(page.listings@);
    let mut i: usize = 0;
    proof {
        assert(sv.take(0) =~= Seq::<RawSectionView>::empty());
        assert(days_view(days@) =~= Seq::<CanteenMealsDayView>::empty());
        assert(canteens_view(discovered@) =~= Seq::<CanteenView>::empty());
    }
    while i < secs.len()
        invariant
            i <= secs.len(),
            registry.wf(),
            known == registry@,
            page.has_date_marker,
            secs@ == page.sections@,
            sv == raw_sections_view(secs@),
            lv == raw_listings_view(page.listings@),
            opt_str_view(page.marker_date) == Some(requested.iso()),
            page.sections.len() > 0,
            forall|j: int| 0 <= j < days.len() ==> unique_types(#[trigger] days@[j]@.meal_groups),
            sections_of(sv.take(i as int), lv, known) == Ok::<
                (Seq<CanteenMealsDayView>, Seq<CanteenView>),
                ExtractionError,
            >((days_view(days@), canteens_view(discovered@))),
        decreases secs.len() - i,
    {
        proof {
            assert(sv.take(i as int + 1).drop_last() =~= sv.take(i as int));
            assert(sv.take(i as int + 1).last() == secs@[i as int]@);
        }
        let sec = &secs[i];
        let name = decode_entities(sec.title.as_str());
        let groups = group_meals(&sec.meals);
        let id = match registry.resolve(&name) {
            Some(id) => id,
            None => match listed_id_of(&page.listings, &name) {
                Some(id) => {
                    if found_name(&discovered, &name) {
                        id
                    } else if registry.name_of(id).is_some() || found_id(&discovered, id) {
                        proof {
                            let p = sv.take(i as int + 1);
                            assert(sections_of(p, lv, known) == Err::<
                                (Seq<CanteenMealsDayView>, Seq<CanteenView>),
                                ExtractionError,
                            >(ExtractionError::UnknownCanteen));
                            lemma_sections_error_stays(sv, lv, known, i as int + 1);
                            assert(sv.take(secs.len() as int) =~= sv);
                        }
                        return Err(ExtractionError::UnknownCanteen);
                    } else {
                        let c = Canteen { id, name: name.clone() };
                        proof {
                            assert(canteens_view(discovered@.push(c)) =~= canteens_view(discovered@).push(c@));
                        }
                        discovered.push(c);
                        id
                    }
                },
                None => {
                    proof {
                        let p = sv.take(i as int + 1);
                        assert(sections_of(p, lv, known) == Err::<
                            (Seq<CanteenMealsDayView>, Seq<CanteenView>),
                            ExtractionError,
                        >(ExtractionError::UnknownCanteen));
                        lemma_sections_error_stays(sv, lv, known, i as int + 1);
                        assert(sv.take(secs.len() as int) =~= sv);
                    }
                    return Err(ExtractionError::UnknownCanteen);
                },
            },
        };
        let day = CanteenMealsDay { canteen_id: id, meal_groups: groups };
        proof {
            assert(days_view(days@.push(day)) =~= days_view(days@).push(day@));
        }
        days.push(day);
        i += 1;
    }
    proof {
        assert(sv.take(secs.len() as int) =~= sv);
    }
    Ok(Extraction { days, discovered })
}

proof fn lemma_sections_error_stays(secs: Seq<RawSectionView>, listings: Seq<RawListingView>, known: Seq<CanteenView>, n: int)
    requires
        0 <= n <= secs.len(),
        sections_of(secs.take(n), listings, known) is Err,
    ensures
        sections_of(secs.take(secs.len() as int), listings, known) == sections_of(secs.take(n), listings, known),
    decreases secs.len() - n,
{
    if n < secs.len() {
        assert(secs.take(n + 1).drop_last() =~= secs.take(n));
        lemma_sections_error_stays(secs, listings, known, n + 1);
    }
}

/// The first group of category `t` holds `m`.
pub open spec fn holds_meal(groups: Seq<MealGroupView>, t: Seq<char>, m: SingleMealView) -> bool {
    exists|k: int| is_first_of_type(groups, t, k) && groups[k].sub_meals.contains(m)
}

proof fn lemma_insert_keeps_meal(
    groups: Seq<MealGroupView>,
    t: Seq<char>,
    m: SingleMealView,
    t2: Seq<char>,
    m2: SingleMealView,
)
    requires
        holds_meal(groups, t, m),
    ensures
        holds_meal(insert_meal(groups, t2, m2), t, m),
{
    let k = choose|k: int| is_first_of_type(groups, t, k) && groups[k].sub_meals.contains(m);
    let r = insert_meal(groups, t2, m2);
    assert(r.len() >= groups.len());
    assert(forall|j: int| 0 <= j < groups.len() ==> r[j].meal_type == groups[j].meal_type);
    assert forall|j: int| 0 <= j < k implies r[j].meal_type != t by {
        assert(groups[j].meal_type != t);
    }
    assert(r[k].meal_type == groups[k].meal_type);
    assert(is_first_of_type(r, t, k));
    if r[k].sub_meals != groups[k].sub_meals {
        let j = groups[k].sub_meals.index_of(m);
        assert(r[k].sub_meals[j] == m);
    }
}

proof fn lemma_some_first(groups: Seq<MealGroupView>, t: Seq<char>, j: int)
    requires
        0 <= j < groups.len(),
        groups[j].meal_type == t,
    ensures
        exists|k: int| is_first_of_type(groups, t, k),
    decreases j,
{
    if exists|i: int| 0 <= i < j && groups[i].meal_type == t {
        let i = choose|i: int| 0 <= i < j && groups[i].meal_type == t;
        lemma_some_first(groups, t, i);
    } else {
        assert(is_first_of_type(groups, t, j));
    }
}

proof fn lemma_entry_is_held(meals: Seq<RawMealView>, i: int)
    requires
        0 <= i < meals.len(),
        meal_of(meals[i]) is Ok,
    ensures
        holds_meal(grouped(meals), meal_of(meals[i])->Ok_0.0, meal_of(meals[i])->Ok_0.1),
    decreases meals.len(),
{
    let (t, m) = meal_of(meals[i])->Ok_0;
    let g = grouped(meals.drop_last());
    if i == meals.len() - 1 {
        let r = insert_meal(g, t, m);
        if exists|k: int| is_first_of_type(g, t, k) {
            let k = choose|k: int| is_first_of_type(g, t, k);
            assert forall|j: int| 0 <= j < k implies r[j].meal_type != t by {
                assert(g[j].meal_type != t);
            }
            assert(is_first_of_type(g, t, k));
            assert(r.len() == g.len());
            assert(r[k].meal_type == t);
            assert(is_first_of_type(r, t, k));
            if !g[k].sub_meals.contains(m) {
                assert(r[k].sub_meals.last() == m);
            }
        } else {
            let k = g.len() as int;
            assert forall|j: int| 0 <= j < k implies r[j].meal_type != t by {
                if g[j].meal_type == t {
                    lemma_some_first(g, t, j);
                }
            }
            assert(is_first_of_type(r, t, k));
            assert(r[k].sub_meals[0] == m);
        }
    } else {
        lemma_entry_is_held(meals.drop_last(), i);
        match meal_of(meals.last()) {
            Ok((t2, m2)) => lemma_insert_keeps_meal(g, t, m, t2, m2),
            Err(_) => {},
        }
    }
}

/// An entry that repeats an earlier entry of the same section changes
/// nothing: the meal stands once in its group.
pub proof fn lemma_repeated_entry_changes_nothing(meals: Seq<RawMealView>, i: int)
    requires
        0 <= i < meals.len(),
    ensures
        grouped(meals.push(meals[i])) == grouped(meals),
{
    let s = meals.push(meals[i]);
    assert(s.drop_last() =~= meals);
    if meal_of(meals[i]) is Ok {
        lemma_entry_is_held(meals, i);
        let (t, m) = meal_of(meals[i])->Ok_0;
        let g = grouped(meals);
        let k = choose|k: int| is_first_of_type(g, t, k) && g[k].sub_meals.contains(m);
        lemma_first_is_chosen(g, t, k);
    }
}

proof fn lemma_bijective_id_of(entries: Seq<CanteenView>, k: int)
    requires
        is_bijective(entries),
        0 <= k < entries.len(),
    ensures
        id_of(entries, entries[k].name) == Some(entries[k].id),
{
    let name = entries[k].name;
    assert(has_canteen_name(entries, name));
    let j = choose|j: int| 0 <= j < entries.len() && entries[j].name == name;
    assert(j == k);
}

/// Registering a list that keeps the registry one-to-one adds all of it.
proof fn lemma_register_fresh_list(known: Seq<CanteenView>, found: Seq<CanteenView>)
    requires
        is_bijective(known + found),
    ensures
        registered_all(known, found) == known + found,
        won_all(known, found) == found,
    decreases found.len(),
{
    if found.len() == 0 {
        assert(known + found =~= known);
    } else {
        let prev = found.drop_last();
        let all = known + found;
        assert(known + prev =~= all.drop_last());
        assert(is_bijective(known + prev)) by {
            assert forall|i: int, j: int|
                0 <= i < (known + prev).len() && 0 <= j < (known + prev).len() && i != j implies (known
                    + prev)[i].name != (known + prev)[j].name && (known + prev)[i].id != (known
                    + prev)[j].id by {
                assert((known + prev)[i] == all[i]);
                assert((known + prev)[j] == all[j]);
            }
        }
        lemma_register_fresh_list(known, prev);
        let last = all.len() - 1;
        assert(all[last] == found.last());
        assert(!has_canteen_name(known + prev, found.last().name)) by {
            if has_canteen_name(known + prev, found.last().name) {
                let i = choose|i: int| 0 <= i < (known + prev).len() && (known + prev)[i].name == found.last().name;
                assert(all[i] == (known + prev)[i]);
            }
        }
        assert(!has_canteen_id(known + prev, found.last().id)) by {
            if has_canteen_id(known + prev, found.last().id) {
                let i = choose|i: int| 0 <= i < (known + prev).len() && (known + prev)[i].id == found.last().id;
                assert(all[i] == (known + prev)[i]);
            }
        }
        assert(is_fresh(known + prev, found.last()));
        assert((known + prev).push(found.last()) =~= all);
        assert(prev.push(found.last()) =~= found);
    }
}

/// What holds of every prefix of the sections that reads without error.
pub open spec fn sections_consistent(
    secs: Seq<RawSectionView>,
    listings: Seq<RawListingView>,
    known: Seq<CanteenView>,
    days: Seq<CanteenMealsDayView>,
    found: Seq<CanteenView>,
) -> bool {
    &&& days.len() == secs.len()
    &&& is_bijective(known + found)
    &&& forall|k: int| 0 <= k < found.len() ==> listed_id(listings, #[trigger] found[k].name) == Some(found[k].id)
    &&& forall|i: int|
        0 <= i < secs.len() ==> id_of(known + found, decoded(#[trigger] secs[i].title)) == Some(
            days[i].canteen_id,
        )
}

proof fn lemma_sections_consistent(secs: Seq<RawSectionView>, listings: Seq<RawListingView>, known: Seq<CanteenView>)
    requires
        is_bijective(known),
        sections_of(secs, listings, known) is Ok,
    ensures
        sections_consistent(
            secs,
            listings,
            known,
            sections_of(secs, listings, known)->Ok_0.0,
            sections_of(secs, listings, known)->Ok_0.1,
        ),
    decreases secs.len(),
{
    if secs.len() == 0 {
        assert(known + Seq::<CanteenView>::empty() =~= known);
    } else {
        let prev = secs.drop_last();
        lemma_sections_consistent(prev, listings, known);
        let (days0, found0) = sections_of(prev, listings, known)->Ok_0;
        let (days, found) = sections_of(secs, listings, known)->Ok_0;
        let s = secs.last();
        let name = decoded(s.title);
        let all0 = known + found0;
        assert forall|i: int| 0 <= i < prev.len() implies #[trigger] secs[i] == prev[i] by {}
        match id_of(known, name) {
            Some(id) => {
                assert(found == found0);
                let k = choose|k: int| 0 <= k < known.len() && known[k].name == name;
                assert(all0[k] == known[k]);
                lemma_bijective_id_of(known, k);
                lemma_bijective_id_of(all0, k);
                assert forall|i: int| 0 <= i < secs.len() implies id_of(all0, decoded(#[trigger] secs[i].title))
                    == Some(days[i].canteen_id) by {
                    if i < prev.len() {
                        assert(secs[i] == prev[i]);
                    }
                }
            },
            None => {
                let id = listed_id(listings, name)->Some_0;
                if has_canteen_name(found0, name) {
                    assert(found == found0);
                    let k = choose|k: int| 0 <= k < found0.len() && found0[k].name == name;
                    assert(all0[known.len() + k] == found0[k]);
                    lemma_bijective_id_of(all0, known.len() + k);
                    assert forall|i: int| 0 <= i < secs.len() implies id_of(all0, decoded(#[trigger] secs[i].title))
                        == Some(days[i].canteen_id) by {
                        if i < prev.len() {
                            assert(secs[i] == prev[i]);
                        }
                    }
                } else {
                    let c = CanteenView { id, name };
                    assert(found == found0.push(c));
                    let all = known + found;
                    assert(all =~= all0.push(c));
                    assert(!has_canteen_name(known, name)) by {
                        if has_canteen_name(known, name) {
                            assert(id_of(known, name) is Some);
                        }
                    }
                    assert(is_bijective(all)) by {
                        assert forall|i: int, j: int|
                            0 <= i < all.len() && 0 <= j < all.len() && i != j implies all[i].name
                                != all[j].name && all[i].id != all[j].id by {
                            let n = all0.len() as int;
                            if i < n && j < n {
                                assert(all[i] == all0[i] && all[j] == all0[j]);
                            } else if i == n && j < n {
                                assert(all[j] == all0[j]);
                                if j < known.len() {
                                    assert(all0[j] == known[j]);
                                    assert(known[j].name != name);
                                    assert(known[j].id != id);
                                } else {
                                    assert(all0[j] == found0[j - known.len()]);
                                    assert(found0[j - known.len()].name != name);
                                    assert(found0[j - known.len()].id != id);
                                }
                            } else if j == n && i < n {
                                assert(all[i] == all0[i]);
                                if i < known.len() {
                                    assert(all0[i] == known[i]);
                                    assert(known[i].name != name);
                                    assert(known[i].id != id);
                                } else {
                                    assert(all0[i] == found0[i - known.len()]);
                                    assert(found0[i - known.len()].name != name);
                                    assert(found0[i - known.len()].id != id);
                                }
                            }
                        }
                    }
                    assert forall|k: int| 0 <= k < found.len() implies listed_id(listings, #[trigger] found[k].name)
                        == Some(found[k].id) by {
                        if k < found0.len() {
                            assert(found[k] == found0[k]);
                        }
                    }
                    assert forall|i: int| 0 <= i < secs.len() implies id_of(all, decoded(#[trigger] secs[i].title))
                        == Some(days[i].canteen_id) by {
                        if i < prev.len() {
                            assert(secs[i] == prev[i]);
                            let t = decoded(prev[i].title);
                            assert(id_of(all0, t) is Some);
                            let k = choose|k: int| 0 <= k < all0.len() && all0[k].name == t;
                            lemma_bijective_id_of(all0, k);
                            assert(all[k] == all0[k]);
                            lemma_bijective_id_of(all, k);
                        } else {
                            lemma_bijective_id_of(all, all0.len() as int);
                        }
                    }
                }
            },
        }
    }
}

/// Once the canteens that an extraction found are registered on the registry
/// it read, every section of the page is registered under its day's canteen
/// id, and every found canteen is one to persist.
pub proof fn lemma_extraction_registers_sections(page: RawPageView, requested: Date, known: Seq<CanteenView>)
    requires
        is_bijective(known),
        extraction_of(page, requested, known) is Ok,
    ensures
        ({
            let (days, found) = extraction_of(page, requested, known)->Ok_0;
            &&& won_all(known, found) == found
            &&& is_bijective(registered_all(known, found))
            &&& forall|i: int|
                0 <= i < days.len() ==> id_of(registered_all(known, found), decoded(#[trigger] page.sections[i].title))
                    == Some(days[i].canteen_id)
        }),
{
    let (days, found) = extraction_of(page, requested, known)->Ok_0;
    if page.marker_date != Some(requested.iso()) {
        assert(found == Seq::<CanteenView>::empty());
        assert(known + found =~= known);
        lemma_register_fresh_list(known, found);
    } else {
        lemma_sections_consistent(page.sections, page.listings, known);
        lemma_register_fresh_list(known, found);
    }
}

proof fn lemma_registered_extends(entries: Seq<CanteenView>, cs: Seq<CanteenView>)
    ensures
        registered_all(entries, cs).len() >= entries.len(),
        forall|i: int| 0 <= i < entries.len() ==> #[trigger] registered_all(entries, cs)[i] == entries[i],
    decreases cs.len(),
{
    if cs.len() > 0 {
        lemma_registered_extends(entries, cs.drop_last());
    }
}

proof fn lemma_won_not_named_before(entries: Seq<CanteenView>, cs: Seq<CanteenView>)
    ensures
        forall|k: int|
            0 <= k < won_all(entries, cs).len() ==> !has_canteen_name(entries, #[trigger] won_all(entries, cs)[k].name),
    decreases cs.len(),
{
    if cs.len() > 0 {
        let prev = cs.drop_last();
        lemma_won_not_named_before(entries, prev);
        lemma_registered_extends(entries, prev);
        let before = registered_all(entries, prev);
        let w = won_all(entries, cs);
        assert forall|k: int| 0 <= k < w.len() implies !has_canteen_name(entries, #[trigger] w[k].name) by {
            if k < won_all(entries, prev).len() {
                assert(w[k] == won_all(entries, prev)[k]);
            } else {
                assert(w[k] == cs.last());
                assert(is_fresh(before, cs.last()));
                if has_canteen_name(entries, cs.last().name) {
                    let i = choose|i: int| 0 <= i < entries.len() && entries[i].name == cs.last().name;
                    assert(before[i] == entries[i]);
                }
            }
        }
    }
}

/// Two extractions read against the same registry, for instance of two dates
/// at once, that both find a canteen: once the first's finds are registered,
/// registering the second's persists none of the names the first persisted.
pub proof fn lemma_found_twice_persisted_once(
    p1: RawPageView,
    d1: Date,
    p2: RawPageView,
    d2: Date,
    known: Seq<CanteenView>,
)
    requires
        is_bijective(known),
        extraction_of(p1, d1, known) is Ok,
        extraction_of(p2, d2, known) is Ok,
    ensures
        ({
            let f1 = extraction_of(p1, d1, known)->Ok_0.1;
            let f2 = extraction_of(p2, d2, known)->Ok_0.1;
            let r1 = registered_all(known, f1);
            &&& won_all(known, f1) == f1
            &&& forall|k: int|
                0 <= k < won_all(r1, f2).len() ==> !has_canteen_name(f1, #[trigger] won_all(r1, f2)[k].name)
        }),
{
    let f1 = extraction_of(p1, d1, known)->Ok_0.1;
    let f2 = extraction_of(p2, d2, known)->Ok_0.1;
    lemma_extraction_registers_sections(p1, d1, known);
    if p1.marker_date != Some(d1.iso()) {
        assert(known + f1 =~= known);
    } else {
        lemma_sections_consistent(p1.sections, p1.listings, known);
    }
    lemma_register_fresh_list(known, f1);
    let r1 = registered_all(known, f1);
    lemma_won_not_named_before(r1, f2);
    assert forall|k: int| 0 <= k < won_all(r1, f2).len() implies !has_canteen_name(f1, #[trigger] won_all(r1, f2)[k].name) by {
        let n = won_all(r1, f2)[k].name;
        if has_canteen_name(f1, n) {
            let j = choose|j: int| 0 <= j < f1.len() && f1[j].name == n;
            assert(r1[known.len() + j] == f1[j]);
        }
    }
}

/// Every meal of every group comes from an entry of that category.
pub open spec fn from_entries(groups: Seq<MealGroupView>, meals: Seq<RawMealView>) -> bool {
    forall|g: int, x: int|
        0 <= g < groups.len() && 0 <= x < groups[g].sub_meals.len() ==> exists|k: int|
            0 <= k < meals.len() && meal_of(#[trigger] meals[k]) == Ok::<(Seq<char>, SingleMealView), ExtractionError>(
                (groups[g].meal_type, #[trigger] groups[g].sub_meals[x]),
            )
}

/// No group holds a meal twice.
pub open spec fn no_repeats(groups: Seq<MealGroupView>) -> bool {
    forall|g: int| 0 <= g < groups.len() ==> (#[trigger] groups[g]).sub_meals.no_duplicates()
}

proof fn lemma_grouped_shape(meals: Seq<RawMealView>)
    ensures
        unique_types(grouped(meals)),
        no_repeats(grouped(meals)),
        from_entries(grouped(meals), meals),
    decreases meals.len(),
{
    if meals.len() > 0 {
        let prev = meals.drop_last();
        lemma_grouped_shape(prev);
        let g0 = grouped(prev);
        let r = grouped(meals);
        assert forall|k: int| 0 <= k < prev.len() implies #[trigger] meals[k] == prev[k] by {}
        match meal_of(meals.last()) {
            Err(_) => {
                assert forall|g: int, x: int|
                    0 <= g < r.len() && 0 <= x < r[g].sub_meals.len() implies exists|k: int|
                        0 <= k < meals.len() && meal_of(#[trigger] meals[k]) == Ok::<
                            (Seq<char>, SingleMealView),
                            ExtractionError,
                        >((r[g].meal_type, #[trigger] r[g].sub_meals[x])) by {
                    let k = choose|k: int|
                        0 <= k < prev.len() && meal_of(#[trigger] prev[k]) == Ok::<
                            (Seq<char>, SingleMealView),
                            ExtractionError,
                        >((g0[g].meal_type, g0[g].sub_meals[x]));
                    assert(meals[k] == prev[k]);
                }
            },
            Ok((t, m)) => {
                lemma_insert_keeps_types(g0, t, m);
                let last = meals.len() - 1;
                assert(meals[last] == meals.last());
                if exists|i: int| is_first_of_type(g0, t, i) {
                    let i = choose|i: int| is_first_of_type(g0, t, i);
                    if !g0[i].sub_meals.contains(m) {
                        assert(r == g0.update(i, MealGroupView { meal_type: t, sub_meals: g0[i].sub_meals.push(m) }));
                        assert forall|g: int| 0 <= g < r.len() implies (#[trigger] r[g]).sub_meals.no_duplicates() by {
                            if g == i {
                                assert(g0[i].sub_meals.no_duplicates());
                                assert forall|a: int, b: int|
                                    0 <= a < r[g].sub_meals.len() && 0 <= b < r[g].sub_meals.len() && a != b implies r[g].sub_meals[a]
                                        != r[g].sub_meals[b] by {
                                    let n = g0[i].sub_meals.len() as int;
                                    if a == n {
                                        assert(r[g].sub_meals[b] == g0[i].sub_meals[b]);
                                    } else if b == n {
                                        assert(r[g].sub_meals[a] == g0[i].sub_meals[a]);
                                    } else {
                                        assert(r[g].sub_meals[a] == g0[i].sub_meals[a]);
                                        assert(r[g].sub_meals[b] == g0[i].sub_meals[b]);
                                    }
                                }
                            } else {
                                assert(r[g] == g0[g]);
                            }
                        }
                        assert forall|g: int, x: int|
                            0 <= g < r.len() && 0 <= x < r[g].sub_meals.len() implies exists|k: int|
                                0 <= k < meals.len() && meal_of(#[trigger] meals[k]) == Ok::<
                                    (Seq<char>, SingleMealView),
                                    ExtractionError,
                                >((r[g].meal_type, #[trigger] r[g].sub_meals[x])) by {
                            if g == i && x == g0[i].sub_meals.len() {
                                assert(r[g].sub_meals[x] == m);
                                assert(r[g].meal_type == t);
                                assert(meal_of(meals[last]) == Ok::<(Seq<char>, SingleMealView), ExtractionError>((t, m)));
                            } else {
                                assert(r[g].meal_type == g0[g].meal_type);
                                assert(r[g].sub_meals[x] == g0[g].sub_meals[x]);
                                let k = choose|k: int|
                                    0 <= k < prev.len() && meal_of(#[trigger] prev[k]) == Ok::<
                                        (Seq<char>, SingleMealView),
                                        ExtractionError,
                                    >((g0[g].meal_type, g0[g].sub_meals[x]));
                                assert(meals[k] == prev[k]);
                            }
                        }
                    } else {
                        assert(r == g0);
                        assert forall|g: int, x: int|
                            0 <= g < r.len() && 0 <= x < r[g].sub_meals.len() implies exists|k: int|
                                0 <= k < meals.len() && meal_of(#[trigger] meals[k]) == Ok::<
                                    (Seq<char>, SingleMealView),
                                    ExtractionError,
                                >((r[g].meal_type, #[trigger] r[g].sub_meals[x])) by {
                            let k = choose|k: int|
                                0 <= k < prev.len() && meal_of(#[trigger] prev[k]) == Ok::<
                                    (Seq<char>, SingleMealView),
                                    ExtractionError,
                                >((g0[g].meal_type, g0[g].sub_meals[x]));
                            assert(meals[k] == prev[k]);
                        }
                    }
                } else {
                    let n = g0.len() as int;
                    assert(r == g0.push(MealGroupView { meal_type: t, sub_meals: seq![m] }));
                    assert forall|g: int| 0 <= g < r.len() implies (#[trigger] r[g]).sub_meals.no_duplicates() by {
                        if g < n {
                            assert(r[g] == g0[g]);
                        }
                    }
                    assert forall|g: int, x: int|
                        0 <= g < r.len() && 0 <= x < r[g].sub_meals.len() implies exists|k: int|
                            0 <= k < meals.len() && meal_of(#[trigger] meals[k]) == Ok::<
                                (Seq<char>, SingleMealView),
                                ExtractionError,
                            >((r[g].meal_type, #[trigger] r[g].sub_meals[x])) by {
                        if g == n {
                            assert(r[g].sub_meals[x] == m);
                            assert(meal_of(meals[last]) == Ok::<(Seq<char>, SingleMealView), ExtractionError>((t, m)));
                        } else {
                            assert(r[g] == g0[g]);
                            let k = choose|k: int|
                                0 <= k < prev.len() && meal_of(#[trigger] prev[k]) == Ok::<
                                    (Seq<char>, SingleMealView),
                                    ExtractionError,
                                >((g0[g].meal_type, g0[g].sub_meals[x]));
                            assert(meals[k] == prev[k]);
                        }
                    }
                }
            },
        }
    }
}

/// Two equal entries of one category, and no other entry of it, anywhere
/// in a section: the section has one group of that category, holding the
/// meal once.
pub proof fn lemma_equal_entries_give_one_meal(meals: Seq<RawMealView>, i: int, j: int)
    requires
        0 <= i < j < meals.len(),
        meals[i] == meals[j],
        meal_of(meals[i]) is Ok,
        forall|k: int|
            0 <= k < meals.len() && k != i && k != j && (#[trigger] meal_of(meals[k])) is Ok ==> meal_of(
                meals[k],
            )->Ok_0.0 != meal_of(meals[i])->Ok_0.0,
    ensures
        ({
            let (t, m) = meal_of(meals[i])->Ok_0;
            let gs = grouped(meals);
            exists|g: int|
                0 <= g < gs.len() && gs[g].meal_type == t && gs[g].sub_meals == seq![m] && forall|h: int|
                    0 <= h < gs.len() && (#[trigger] gs[h]).meal_type == t ==> h == g
        }),
{
    let (t, m) = meal_of(meals[i])->Ok_0;
    let gs = grouped(meals);
    lemma_entry_is_held(meals, i);
    lemma_grouped_shape(meals);
    let g = choose|g: int| is_first_of_type(gs, t, g) && gs[g].sub_meals.contains(m);
    let subs = gs[g].sub_meals;
    assert forall|x: int| 0 <= x < subs.len() implies subs[x] == m by {
        let k = choose|k: int|
            0 <= k < meals.len() && meal_of(#[trigger] meals[k]) == Ok::<(Seq<char>, SingleMealView), ExtractionError>(
                (gs[g].meal_type, #[trigger] gs[g].sub_meals[x]),
            );
        if k != i && k != j {
            assert(meal_of(meals[k]) is Ok);
        }
    }
    assert(subs.no_duplicates());
    if subs.len() >= 2 {
        assert(subs[0] == m && subs[1] == m);
    }
    assert(subs.len() >= 1);
    assert(subs =~= seq![m]);
    assert forall|h: int| 0 <= h < gs.len() && (#[trigger] gs[h]).meal_type == t implies h == g by {}
}

} // verus!
