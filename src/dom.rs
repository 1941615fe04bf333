use scraper::Element;
use scraper::ElementRef;
use scraper::Html;
use scraper::Selector;
use vstd::prelude::*;

use crate::date::Date;
use crate::extract::{
    days_view, extract_page, extraction_of, raw_listings_view, raw_meals_view, raw_sections_view,
    raw_variations_view, Extraction, ExtractionError, RawListing, RawListingView, RawMeal, RawMealView,
    RawPage, RawPageView, RawSection, RawSectionView, RawVariation, RawVariationView,
};
use crate::registry::{canteens_view, Registry};
use crate::types::{opt_str_view, strings_view, CanteenMealsDayView, CanteenView};

verus! {

#[verifier::external_type_specification]
#[verifier::external_body]
pub struct ExHtml(Html);

#[verifier::external_type_specification]
#[verifier::external_body]
pub struct ExSelector(Selector);

#[verifier::external_type_specification]
#[verifier::external_body]
pub struct ExElementRef<'a>(ElementRef<'a>);

// Elements of a page are named by their position in the document order of
// the tree that scraper builds from the page's markup, so each name below
// is a function of the markup and plain values. For the serialized markup
// of an element this rests on scraper's `deterministic` feature, which keeps
// attributes in source order; without it their order is that of a randomly
// seeded hash map.

/// The elements of the whole document that match `css`, in the order in
/// which the parser created their nodes.
pub uninterp spec fn doc_selection(html: Seq<char>, css: Seq<char>) -> Seq<usize>;

/// The descendants of element `e` that match `css`, in document order.
pub uninterp spec fn scoped_selection(html: Seq<char>, e: usize, css: Seq<char>) -> Seq<usize>;

/// The markup inside element `e`.
pub uninterp spec fn inner_html_of(html: Seq<char>, e: usize) -> Seq<char>;

/// The value of attribute `name` of element `e`.
pub uninterp spec fn attribute_of(html: Seq<char>, e: usize, name: Seq<char>) -> Option<Seq<char>>;

/// The next sibling of element `e` that is an element.
pub uninterp spec fn next_sibling_of(html: Seq<char>, e: usize) -> Option<usize>;

/// The first child of element `e` that is an element.
pub uninterp spec fn first_child_of(html: Seq<char>, e: usize) -> Option<usize>;

/// The children of element `e` that are elements, in order.
pub uninterp spec fn children_of(html: Seq<char>, e: usize) -> Seq<usize>;

/// The text nodes below element `e`, in document order.
pub uninterp spec fn texts_of(html: Seq<char>, e: usize) -> Seq<Seq<char>>;

/// A page's markup and the tree that scraper parsed from it. Only
/// `parse_html` makes one, so the tree is always that of the markup.
pub struct ParsedHtml {
    source: String,
    tree: Html,
}

/// The elements of a parsed page in document order. Only `index_elements`
/// makes one, from the whole tree; every element that scraper hands back is
/// in it, and is given by its position there.
pub struct Document<'a> {
    parsed: &'a ParsedHtml,
    elements: Vec<ElementRef<'a>>,
}

impl<'a> Document<'a> {
    pub closed spec fn source(&self) -> Seq<char> {
        self.parsed.source@
    }

    pub closed spec fn count(&self) -> nat {
        self.elements@.len()
    }
}

/// A CSS selector with the text it was parsed from.
pub struct Sel {
    css: String,
    compiled: Selector,
}

impl View for Sel {
    type V = Seq<char>;

    closed spec fn view(&self) -> Seq<char> {
        self.css@
    }
}

/// Relies on `scraper::Html::parse_fragment`: parses markup into a tree.
#[verifier::external_body]
fn parse_html(html: &str) -> (r: ParsedHtml)
    ensures
        r.source@ == html@,
{
    ParsedHtml { source: html.to_string(), tree: Html::parse_fragment(html) }
}

/// Relies on `scraper::ElementRef::descendent_elements` of the root element:
/// every element of the tree, in document order.
#[verifier::external_body]
fn index_elements<'a>(p: &'a ParsedHtml) -> (r: Document<'a>)
    ensures
        r.source() == p.source@,
{
    Document { parsed: p, elements: p.tree.root_element().descendent_elements().collect() }
}

/// Relies on `scraper::Selector::parse`: a CSS selector, or `None` where the
/// text is not one.
#[verifier::external_body]
fn compile(css: &str) -> (r: Option<Sel>)
    ensures
        r matches Some(s) ==> s@ == css@,
{
    Selector::parse(css).ok().map(|compiled| Sel { css: css.to_string(), compiled })
}

/// Relies on `scraper::Html::select`: the matching elements, in the order of
/// scraper's node storage, each given by its position.
#[verifier::external_body]
fn select_in_document(d: &Document, s: &Sel) -> (r: Vec<usize>)
    ensures
        r@ == doc_selection(d.source(), s@),
        forall|k: int| 0 <= k < r.len() ==> r@[k] < d.count(),
{
    d.parsed.tree.select(&s.compiled).filter_map(|e| d.elements.iter().position(|x| *x == e)).collect()
}

/// Relies on `scraper::ElementRef::select`: the matching descendants, in
/// document order, each given by its position.
#[verifier::external_body]
fn select_below(d: &Document, e: usize, s: &Sel) -> (r: Vec<usize>)
    requires
        e < d.count(),
    ensures
        r@ == scoped_selection(d.source(), e, s@),
        forall|k: int| 0 <= k < r.len() ==> r@[k] < d.count(),
{
    d.elements[e].select(&s.compiled).filter_map(|x| d.elements.iter().position(|y| *y == x)).collect()
}

/// Relies on `scraper::ElementRef::inner_html`: the markup inside the element.
#[verifier::external_body]
fn inner_html_at(d: &Document, e: usize) -> (r: String)
    requires
        e < d.count(),
    ensures
        r@ == inner_html_of(d.source(), e),
{
    d.elements[e].inner_html()
}

/// Relies on `scraper::ElementRef::attr`: the value of attribute `name`.
#[verifier::external_body]
fn attr_at(d: &Document, e: usize, name: &str) -> (r: Option<String>)
    requires
        e < d.count(),
    ensures
        opt_str_view(r) == attribute_of(d.source(), e, name@),
{
    d.elements[e].attr(name).map(|v| v.to_string())
}

/// Relies on `selectors::Element::next_sibling_element` as scraper
/// implements it: the next sibling that is an element.
#[verifier::external_body]
fn next_sibling_at(d: &Document, e: usize) -> (r: Option<usize>)
    requires
        e < d.count(),
    ensures
        r == next_sibling_of(d.source(), e),
        r matches Some(k) ==> k < d.count(),
{
    d.elements[e].next_sibling_element().and_then(|x| d.elements.iter().position(|y| *y == x))
}

/// Relies on `selectors::Element::first_element_child` as scraper
/// implements it: the first child that is an element.
#[verifier::external_body]
fn first_child_at(d: &Document, e: usize) -> (r: Option<usize>)
    requires
        e < d.count(),
    ensures
        r == first_child_of(d.source(), e),
        r matches Some(k) ==> k < d.count(),
{
    d.elements[e].first_element_child().and_then(|x| d.elements.iter().position(|y| *y == x))
}

/// Relies on `scraper::ElementRef::child_elements`: the children that are
/// elements, in order.
#[verifier::external_body]
fn children_at(d: &Document, e: usize) -> (r: Vec<usize>)
    requires
        e < d.count(),
    ensures
        r@ == children_of(d.source(), e),
        forall|k: int| 0 <= k < r.len() ==> r@[k] < d.count(),
{
    d.elements[e].child_elements().filter_map(|x| d.elements.iter().position(|y| *y == x)).collect()
}

/// Relies on `scraper::ElementRef::text`: the text nodes below the element.
#[verifier::external_body]
fn texts_at(d: &Document, e: usize) -> (r: Vec<String>)
    requires
        e < d.count(),
    ensures
        strings_view(r@) == texts_of(d.source(), e),
{
    d.elements[e].text().map(|t| t.to_string()).collect()
}

/// The selector texts that locate the parts of a menu page.
pub struct PageSelectorsView {
    pub date_marker: Seq<char>,
    pub canteen_title: Seq<char>,
    pub listing: Seq<char>,
    pub meal: Seq<char>,
    pub meal_type: Seq<char>,
    pub meal_title: Seq<char>,
    pub components: Seq<char>,
    pub price: Seq<char>,
    pub allergens: Seq<char>,
    pub variations: Seq<char>,
    pub variation_name: Seq<char>,
    pub variation_detail: Seq<char>,
}

/// The selectors that locate the parts of a menu page.
pub struct PageSelectors {
    date_marker: Sel,
    canteen_title: Sel,
    listing: Sel,
    meal: Sel,
    meal_type: Sel,
    meal_title: Sel,
    components: Sel,
    price: Sel,
    allergens: Sel,
    variations: Sel,
    variation_name: Sel,
    variation_detail: Sel,
}

impl View for PageSelectors {
    type V = PageSelectorsView;

    closed spec fn view(&self) -> PageSelectorsView {
        PageSelectorsView {
            date_marker: self.date_marker@,
            canteen_title: self.canteen_title@,
            listing: self.listing@,
            meal: self.meal@,
            meal_type: self.meal_type@,
            meal_title: self.meal_title@,
            components: self.components@,
            price: self.price@,
            allergens: self.allergens@,
            variations: self.variations@,
            variation_name: self.variation_name@,
            variation_detail: self.variation_detail@,
        }
    }
}

/// The selectors of the site's menu page.
pub open spec fn menu_page_selectors() -> PageSelectorsView {
    PageSelectorsView {
        date_marker: "button.date-button.is--active"@,
        canteen_title: "h3"@,
        listing: "#locations>li"@,
        meal: "div.type--meal"@,
        meal_type: "div.meal-tags>.tag"@,
        meal_title: "h4"@,
        components: "div.meal-components"@,
        price: "div.meal-prices>span"@,
        allergens: "div.meal-allergens>p"@,
        variations: "div.meal-subitems"@,
        variation_name: "h5"@,
        variation_detail: "p"@,
    }
}

impl PageSelectors {
    /// Parses the selectors of the menu page; `None` only if one of them is
    /// not valid CSS.
    pub fn new() -> (r: Option<PageSelectors>)
        ensures
            r matches Some(p) ==> p@ == menu_page_selectors(),
    {
        Some(
            PageSelectors {
                date_marker: compile("button.date-button.is--active")?,
                canteen_title: compile("h3")?,
                listing: compile("#locations>li")?,
                meal: compile("div.type--meal")?,
                meal_type: compile("div.meal-tags>.tag")?,
                meal_title: compile("h4")?,
                components: compile("div.meal-components")?,
                price: compile("div.meal-prices>span")?,
                allergens: compile("div.meal-allergens>p")?,
                variations: compile("div.meal-subitems")?,
                variation_name: compile("h5")?,
                variation_detail: compile("p")?,
            },
        )
    }
}

/// The markup inside the first descendant of `e` that matches `css`.
pub open spec fn first_inner_of(html: Seq<char>, e: usize, css: Seq<char>) -> Option<Seq<char>> {
    let found = scoped_selection(html, e, css);
    if found.len() > 0 {
        Some(inner_html_of(html, found[0]))
    } else {
        None
    }
}

pub open spec fn first_of(s: Seq<Seq<char>>) -> Option<Seq<char>> {
    if s.len() > 0 {
        Some(s[0])
    } else {
        None
    }
}

pub open spec fn last_of(s: Seq<Seq<char>>) -> Option<Seq<char>> {
    if s.len() > 0 {
        Some(s.last())
    } else {
        None
    }
}

/// A variation element: the first text of its heading and the last text of
/// its paragraph.
pub open spec fn variation_read(html: Seq<char>, c: PageSelectorsView, e: usize) -> RawVariationView {
    let h = scoped_selection(html, e, c.variation_name);
    let p = scoped_selection(html, e, c.variation_detail);
    RawVariationView {
        heading: if h.len() > 0 {
            first_of(texts_of(html, h[0]))
        } else {
            None
        },
        detail: if p.len() > 0 {
            last_of(texts_of(html, p[0]))
        } else {
            None
        },
    }
}

/// A meal element: the markup of each of its parts.
pub open spec fn meal_read(html: Seq<char>, c: PageSelectorsView, e: usize) -> RawMealView {
    let v = scoped_selection(html, e, c.variations);
    RawMealView {
        category: first_inner_of(html, e, c.meal_type),
        title: first_inner_of(html, e, c.meal_title),
        components: first_inner_of(html, e, c.components),
        prices: scoped_selection(html, e, c.price).map_values(|k: usize| inner_html_of(html, k)),
        allergens: first_inner_of(html, e, c.allergens),
        variations: if v.len() > 0 {
            Some(children_of(html, v[0]).map_values(|k: usize| variation_read(html, c, k)))
        } else {
            None
        },
    }
}

/// The sections of the canteen titles `titles`: each title with the meals of
/// the element after it; a title with no element after it gives none.
pub open spec fn sections_read(html: Seq<char>, c: PageSelectorsView, titles: Seq<usize>) -> Seq<RawSectionView>
    decreases titles.len(),
{
    if titles.len() == 0 {
        seq![]
    } else {
        let t = titles.last();
        sections_read(html, c, titles.drop_last()) + match next_sibling_of(html, t) {
            Some(box_) => seq![
                RawSectionView {
                    title: inner_html_of(html, t),
                    meals: scoped_selection(html, box_, c.meal).map_values(|k: usize| meal_read(html, c, k)),
                },
            ],
            None => seq![],
        }
    }
}

/// A directory entry: the markup of its first child and its location id.
pub open spec fn listing_read(html: Seq<char>, e: usize) -> RawListingView {
    RawListingView {
        label: match first_child_of(html, e) {
            Some(k) => Some(inner_html_of(html, k)),
            None => None,
        },
        location: attribute_of(html, e, "data-location"@),
    }
}

/// What a menu page holds: its date marker, its canteen sections and its
/// directory of canteens.
pub open spec fn page_of(html: Seq<char>, c: PageSelectorsView) -> RawPageView {
    let markers = doc_selection(html, c.date_marker);
    RawPageView {
        has_date_marker: markers.len() > 0,
        marker_date: if markers.len() > 0 {
            attribute_of(html, markers[0], "data-date"@)
        } else {
            None
        },
        sections: sections_read(html, c, doc_selection(html, c.canteen_title)),
        listings: doc_selection(html, c.listing).map_values(|k: usize| listing_read(html, k)),
    }
}

fn first_inner(d: &Document, e: usize, s: &Sel) -> (r: Option<String>)
    requires
        e < d.count(),
    ensures
        opt_str_view(r) == first_inner_of(d.source(), e, s@),
{
    let found = select_below(d, e, s);
    if found.len() > 0 {
        Some(inner_html_at(d, found[0]))
    } else {
        None
    }
}

fn read_variation(d: &Document, e: usize, sels: &PageSelectors) -> (r: RawVariation)
    requires
        e < d.count(),
    ensures
        r@ == variation_read(d.source(), sels@, e),
{
    let h = select_below(d, e, &sels.variation_name);
    let heading = if h.len() > 0 {
        let texts = texts_at(d, h[0]);
        if texts.len() > 0 {
            Some(texts[0].clone())
        } else {
            None
        }
    } else {
        None
    };
    let p = select_below(d, e, &sels.variation_detail);
    let detail = if p.len() > 0 {
        let texts = texts_at(d, p[0]);
        if texts.len() > 0 {
            Some(texts[texts.len() - 1].clone())
        } else {
            None
        }
    } else {
        None
    };
    RawVariation { heading, detail }
}

fn read_meal(d: &Document, e: usize, sels: &PageSelectors) -> (r: RawMeal)
    requires
        e < d.count(),
    ensures
        r@ == meal_read(d.source(), sels@, e),
{
    let ghost src = d.source();
    let parts = select_below(d, e, &sels.price);
    let mut prices: Vec<String> = Vec::new();
    let mut i: usize = 0;
    while i < parts.len()
        invariant
            i <= parts.len(),
            src == d.source(),
            forall|k: int| 0 <= k < parts.len() ==> parts@[k] < d.count(),
            prices.len() == i,
            forall|k: int| 0 <= k < i ==> (#[trigger] prices@[k])@ == inner_html_of(src, parts@[k]),
        decreases parts.len() - i,
    {
        prices.push(inner_html_at(d, parts[i]));
        i += 1;
    }
    assert(strings_view(prices@) =~= parts@.map_values(|k: usize| inner_html_of(src, k)));
    let v = select_below(d, e, &sels.variations);
    let variations = if v.len() > 0 {
        let children = children_at(d, v[0]);
        let mut vs: Vec<RawVariation> = Vec::new();
        let mut j: usize = 0;
        while j < children.len()
            invariant
                j <= children.len(),
                src == d.source(),
                forall|k: int| 0 <= k < children.len() ==> children@[k] < d.count(),
                vs.len() == j,
                forall|k: int| 0 <= k < j ==> (#[trigger] vs@[k])@ == variation_read(src, sels@, children@[k]),
            decreases children.len() - j,
        {
            vs.push(read_variation(d, children[j], sels));
            j += 1;
        }
        assert(raw_variations_view(vs@) =~= children@.map_values(|k: usize| variation_read(src, sels@, k)));
        Some(vs)
    } else {
        None
    };
    RawMeal {
        category: first_inner(d, e, &sels.meal_type),
        title: first_inner(d, e, &sels.meal_title),
        components: first_inner(d, e, &sels.components),
        prices,
        allergens: first_inner(d, e, &sels.allergens),
        variations,
    }
}

fn read_section(d: &Document, title: usize, sels: &PageSelectors) -> (r: Option<RawSection>)
    requires
        title < d.count(),
    ensures
        match next_sibling_of(d.source(), title) {
            Some(box_) => r matches Some(s) && s@ == RawSectionView {
                title: inner_html_of(d.source(), title),
                meals: scoped_selection(d.source(), box_, sels@.meal).map_values(
                    |k: usize| meal_read(d.source(), sels@, k),
                ),
            },
            None => r is None,
        },
{
    let ghost src = d.source();
    let container = match next_sibling_at(d, title) {
        Some(c) => c,
        None => return None,
    };
    let entries = select_below(d, container, &sels.meal);
    let mut meals: Vec<RawMeal> = Vec::new();
    let mut j: usize = 0;
    while j < entries.len()
        invariant
            j <= entries.len(),
            src == d.source(),
            forall|k: int| 0 <= k < entries.len() ==> entries@[k] < d.count(),
            meals.len() == j,
            forall|k: int| 0 <= k < j ==> (#[trigger] meals@[k])@ == meal_read(src, sels@, entries@[k]),
        decreases entries.len() - j,
    {
        meals.push(read_meal(d, entries[j], sels));
        j += 1;
    }
    assert(raw_meals_view(meals@) =~= entries@.map_values(|k: usize| meal_read(src, sels@, k)));
    Some(RawSection { title: inner_html_at(d, title), meals })
}

/// Reads the parts of a menu page that the extraction needs: the active
/// date marker, each canteen title with the meal entries of the element
/// after it, and the directory of canteens.
pub fn read_page(html: &str, sels: &PageSelectors) -> (r: RawPage)
    ensures
        r@ == page_of(html@, sels@),
{
    let parsed = parse_html(html);
    let d = index_elements(&parsed);
    let ghost src = d.source();
    let markers = select_in_document(&d, &sels.date_marker);
    let has_date_marker = markers.len() > 0;
    let marker_date = if has_date_marker {
        attr_at(&d, markers[0], "data-date")
    } else {
        None
    };
    let titles = select_in_document(&d, &sels.canteen_title);
    let mut sections: Vec<RawSection> = Vec::new();
    let mut i: usize = 0;
    while i < titles.len()
        invariant
            i <= titles.len(),
            src == d.source(),
            forall|k: int| 0 <= k < titles.len() ==> titles@[k] < d.count(),
            raw_sections_view(sections@) == sections_read(src, sels@, titles@.take(i as int)),
        decreases titles.len() - i,
    {
        proof {
            assert(titles@.take(i as int + 1).drop_last() =~= titles@.take(i as int));
            assert(titles@.take(i as int + 1).last() == titles@[i as int]);
        }
        match read_section(&d, titles[i], sels) {
            Some(s) => {
                proof {
                    assert(raw_sections_view(sections@.push(s)) =~= raw_sections_view(sections@) + seq![s@]);
                }
                sections.push(s);
            },
            None => {
                assert(raw_sections_view(sections@) =~= raw_sections_view(sections@) + Seq::<RawSectionView>::empty());
            },
        }
        i += 1;
    }
    proof {
        assert(titles@.take(titles.len() as int) =~= titles@);
    }
    let items = select_in_document(&d, &sels.listing);
    let mut listings: Vec<RawListing> = Vec::new();
    let mut k: usize = 0;
    while k < items.len()
        invariant
            k <= items.len(),
            src == d.source(),
            forall|j: int| 0 <= j < items.len() ==> items@[j] < d.count(),
            listings.len() == k,
            forall|j: int| 0 <= j < k ==> (#[trigger] listings@[j])@ == listing_read(src, items@[j]),
        decreases items.len() - k,
    {
        let label = match first_child_at(&d, items[k]) {
            Some(c) => Some(inner_html_at(&d, c)),
            None => None,
        };
        listings.push(RawListing { label, location: attr_at(&d, items[k], "data-location") });
        k += 1;
    }
    assert(raw_listings_view(listings@) =~= items@.map_values(|j: usize| listing_read(src, j)));
    RawPage { has_date_marker, marker_date, sections, listings }
}

/// Reads the menus of the page `html` for the requested date: what
/// `extract_page` yields for what the page holds.
pub fn extract_data_from_html(
    html: &str,
    requested: &Date,
    registry: &Registry,
    sels: &PageSelectors,
) -> (r: Result<Extraction, ExtractionError>)
    requires
        registry.wf(),
    ensures
        match r {
            Ok(x) => extraction_of(page_of(html@, sels@), *requested, registry@) == Ok::<
                (Seq<CanteenMealsDayView>, Seq<CanteenView>),
                ExtractionError,
            >((days_view(x.days@), canteens_view(x.discovered@))),
            Err(e) => extraction_of(page_of(html@, sels@), *requested, registry@) == Err::<
                (Seq<CanteenMealsDayView>, Seq<CanteenView>),
                ExtractionError,
            >(e),
        },
{
    let page = read_page(html, sels);
    extract_page(&page, requested, registry)
}

} // verus!
