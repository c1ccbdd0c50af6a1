//! Data model for raw scraped records.
//!
//! A raw scraped item is one product's attributes for one store on one day,
//! as decoded from a snapshot file. All monetary amounts are held in
//! fixed-point micro-units (millionths of a krona), so a display price of
//! 69,90 is stored as 69_900_000; see [`crate::parse::PRICE_SCALE`].

use vstd::prelude::*;

verus! {

/// Closed set of per-unit pricing bases that a comparison price can carry.
/// Purely a tag used for display and comparison grouping; no numeric
/// semantics are attached.
#[derive(Clone, Copy, Debug, PartialEq, Eq, Structural)]
pub enum PriceUnit {
    /// kr/kg, ätklar
    PerKgEdible,
    /// kr/meter
    PerMeter,
    /// kr/kg
    PerKg,
    /// kr/liter
    PerLiter,
    /// kr/liter, drickklar
    PerLiterDrinkable,
    /// kr/tvätt
    PerLaundry,
    /// kr/dos
    PerDose,
    /// kr/portion
    PerPortion,
    /// kr/st
    PerItem,
    /// kr/disk
    PerWash,
    /// kr/kg u. spad
    PerKgWithoutLiquid,
    /// kr/lit exkl. pant
    PerLiterExcludingDeposit,
    /// Legacy tag seen in scraped data; never produced by the grammar.
    Gram,
    /// Legacy tag seen in scraped data; never produced by the grammar.
    Kg,
    /// Sentinel for an invalid unit; never produced by the grammar.
    Invalid,
    /// Sentinel carried over from upstream data; never produced by the grammar.
    XxPerLReadyDeposit,
}

/// Unit a product is sold in: by weight (kilograms) or by piece.
#[derive(Clone, Copy, Debug, PartialEq, Eq, Structural)]
pub enum SoldInUnit {
    Kgm,
    Pce,
}

/// Coarse product classification.
#[derive(Clone, Copy, Debug, PartialEq, Eq, Structural)]
pub enum ProductType {
    Food,
    NonFood,
}

/// Normalized comparison price: an optional unit tag, a fixed-point price
/// in micro-units, and optional raw display text. Two comparison prices
/// are compared only by their `price` field when selecting the cheaper.
#[derive(Debug, PartialEq)]
pub struct ComparePrice {
    pub code: Option<PriceUnit>,
    pub price: u64,
    pub price_text: Option<String>,
}

/// A raw comparison-price value arrives either as a structured price or as
/// a bare number; only the structured shape carries usable information.
#[derive(Debug)]
pub enum ComparePriceVariants {
    ComparePrice(ComparePrice),
    Number(u32),
}

/// A price-text field that arrives either as text or as a bare number.
#[derive(Debug)]
pub enum PriceText {
    Text(String),
    Number(u32),
}

/// One level of a category path.
#[derive(Debug)]
pub struct InCategoryPath {
    pub id: String,
    pub level: u32,
    pub name: String,
    pub slug: String,
}

/// A category a product belongs to, with its full path.
#[derive(Debug)]
pub struct InCategory {
    pub id: String,
    pub level: u32,
    pub name: String,
    pub path: Vec<InCategoryPath>,
}

/// A certification or labelling mark attached to a product.
#[derive(Debug)]
pub struct Marking {
    pub code: String,
    pub title: String,
}

/// The set of marks attached to a product.
#[derive(Debug)]
pub struct Markings {
    pub environmental: Option<Vec<Marking>>,
}

/// A reference to a category by identifier and name.
#[derive(Debug)]
pub struct CategoryRef {
    pub id: String,
    pub name: String,
}

/// A root category that arrives either empty or as a category reference.
#[derive(Debug)]
pub enum RelatedRootCategory {
    Empty,
    CategoryRef(CategoryRef),
}

/// A related product's scraped attributes.
#[derive(Debug)]
pub struct Related {
    pub in_categories: Vec<InCategory>,
    pub markings: Markings,
    pub promotions: Option<String>,
    pub related: Vec<Related>,
    pub root_category: RelatedRootCategory,
    pub sku: String,
}

/// A single active discount offer. Read-only input to price resolution;
/// only `compare_price_text_with_deposit` takes part in resolving the
/// effective comparison price.
#[derive(Debug)]
pub struct Promotion {
    pub compare_price: Option<u64>,
    pub compare_price_text_with_deposit: Option<String>,
    pub compare_price_text_without_deposit: Option<String>,
    pub count: i32,
    pub for_logged_in: bool,
    pub has_long_validity: bool,
    pub has_short_validity: bool,
    pub id: i32,
    pub is_weighted_fixed_price: Option<bool>,
    pub max_item_text: Option<String>,
    pub name: String,
    pub number_of_items_in_promotion: i32,
    pub offer_id: Option<String>,
    pub price: u64,
    pub supress_compare_price_range: Option<bool>,
    pub promotion_type: String,
    pub valid_to: String,
}

/// The priority-promotion slot arrives either as a promotion or as a bare
/// boolean placeholder.
#[derive(Debug)]
pub enum PromotionOrFalse {
    Promotion(Promotion),
    Bool(bool),
}

/// Zero-or-one priority promotion plus zero-or-more remaining promotions
/// attached to a raw item.
#[derive(Debug)]
pub struct Promotions {
    pub priority_promotion: Option<PromotionOrFalse>,
    pub remaining_promotions: Vec<Promotion>,
}

/// One product's raw scraped attributes for one store-day, as decoded from
/// a snapshot file. Immutable after creation.
#[derive(Debug)]
pub struct ScrapedItem {
    pub available_units: Vec<String>,
    pub cloudinary_image_id: String,
    pub compare: Option<ComparePriceVariants>,
    pub deposit: u64,
    pub description_long: Option<String>,
    pub gtin: u64,
    pub in_categories: Vec<InCategory>,
    pub ingredients_text: Option<String>,
    pub markings: Markings,
    pub name: String,
    pub nutritional_text: Option<String>,
    pub pharma_advice_flag: bool,
    pub price: u64,
    pub price_minus_deposit: u64,
    pub price_text: PriceText,
    pub product_disclaimer: Option<String>,
    pub product_type: Option<ProductType>,
    pub promotions: Option<Promotions>,
    pub related: Vec<Related>,
    pub root_category: RelatedRootCategory,
    pub sku: String,
    pub slug: String,
    pub sold_in_unit: SoldInUnit,
    pub unit_weight: Option<u64>,
    pub vat: u32,
}

/// A calendar date, held as plain year, month and day numbers.
#[derive(Clone, Copy, Debug, PartialEq, Eq, Structural)]
pub struct Date {
    pub year: u32,
    pub month: u8,
    pub day: u8,
}

/// Whether `year` is a leap year in the Gregorian calendar.
pub open spec fn is_leap_year(year: int) -> bool {
    (year % 4 == 0 && year % 100 != 0) || year % 400 == 0
}

/// Number of days in `month` of `year` in the Gregorian calendar.
pub open spec fn days_in_month(year: int, month: int) -> int {
    if month == 2 {
        if is_leap_year(year) {
            29
        } else {
            28
        }
    } else if month == 4 || month == 6 || month == 9 || month == 11 {
        30
    } else {
        31
    }
}

impl Date {
    /// A well-formed calendar date with a four-digit year.
    pub open spec fn wf(self) -> bool {
        self.year <= 9999 && 1 <= self.month <= 12 && 1 <= self.day
            <= days_in_month(self.year as int, self.month as int)
    }
}

} // verus!
