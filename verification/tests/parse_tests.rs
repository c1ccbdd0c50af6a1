use pricetrack::parse::{comma_float, compare_price, parse_item, price_unit};
use pricetrack::types::{
    ComparePrice, ComparePriceVariants, Markings, PriceText, PriceUnit, ProductType, Promotion,
    PromotionOrFalse, Promotions, RelatedRootCategory, ScrapedItem, SoldInUnit,
};

/// One krona in stored micro-units.
const KR: u64 = 1_000_000;

fn as_f32(micros: u64) -> f32 {
    (micros as f64 / 1e6) as f32
}

#[test]
fn test_comma_float() {
    let (v, end) = comma_float("1,2", 0).unwrap();
    assert_eq!(end, 3);
    assert_eq!(v, 1_200_000);
    assert_eq!(as_f32(v), 1.2);

    let (v, end) = comma_float("23,212", 0).unwrap();
    assert_eq!(end, 6);
    assert_eq!(v, 23_212_000);
    assert_eq!(as_f32(v), 23.212);

    let (v, end) = comma_float("23", 0).unwrap();
    assert_eq!(end, 2);
    assert_eq!(v, 23_000_000);
    assert_eq!(as_f32(v), 23.0);
}

#[test]
fn test_price_unit() {
    let (u, end) = price_unit("kr/meter", 0).unwrap();
    assert_eq!(u, PriceUnit::PerMeter);
    assert_eq!(end, 8);

    let (u, end) = price_unit("kr/kg", 0).unwrap();
    assert_eq!(u, PriceUnit::PerKg);
    assert_eq!(end, 5);
}

#[test]
fn test_compare_price() {
    let (cp, end) = compare_price("Jfr-pris 69,90 kr/kg").unwrap();
    assert_eq!(end, 20);
    assert_eq!(
        cp,
        ComparePrice { code: Some(PriceUnit::PerKg), price: 69_900_000, price_text: None }
    );
    assert_eq!(as_f32(cp.price), 69.90);
}

#[test]
fn compare_price_without_fraction() {
    let (cp, end) = compare_price("Jfr-pris 23 kr/meter").unwrap();
    assert_eq!(end, 20);
    assert_eq!(cp.code, Some(PriceUnit::PerMeter));
    assert_eq!(cp.price, 23 * KR);
    assert_eq!(as_f32(cp.price), 23.0);
}

#[test]
fn unit_phrase_precedence_edible() {
    // "kg, ätklar" must win over the bare "kg" prefix and consume everything.
    let s = "kr/kg, ätklar";
    let (u, end) = price_unit(s, 0).unwrap();
    assert_eq!(u, PriceUnit::PerKgEdible);
    assert_eq!(end, s.chars().count());

    let t = "Jfr-pris 12,50 kr/kg, ätklar";
    let (cp, end) = compare_price(t).unwrap();
    assert_eq!(cp.code, Some(PriceUnit::PerKgEdible));
    assert_eq!(cp.price, 12_500_000);
    assert_eq!(end, t.chars().count());
}

#[test]
fn unit_phrase_precedence_without_liquid() {
    let s = "kr/kg u. spad";
    let (u, end) = price_unit(s, 0).unwrap();
    assert_eq!(u, PriceUnit::PerKgWithoutLiquid);
    assert_eq!(end, s.chars().count());
}

#[test]
fn all_unit_phrases() {
    let cases: Vec<(&str, PriceUnit)> = vec![
        ("kr/kg, ätklar", PriceUnit::PerKgEdible),
        ("kr/meter", PriceUnit::PerMeter),
        ("kr/kg u. spad", PriceUnit::PerKgWithoutLiquid),
        ("kr/kg", PriceUnit::PerKg),
        ("kr/liter, drickklar", PriceUnit::PerLiterDrinkable),
        ("kr/liter", PriceUnit::PerLiter),
        ("kr/tvätt", PriceUnit::PerLaundry),
        ("kr/dos", PriceUnit::PerDose),
        ("kr/portion", PriceUnit::PerPortion),
        ("kr/st", PriceUnit::PerItem),
        ("kr/disk", PriceUnit::PerWash),
        ("kr/lit exkl. pant", PriceUnit::PerLiterExcludingDeposit),
    ];
    for (s, expect) in cases {
        let (u, end) = price_unit(s, 0).unwrap();
        assert_eq!(u, expect, "phrase {}", s);
        assert_eq!(end, s.chars().count(), "phrase {}", s);
    }
}

#[test]
fn parse_failures() {
    // missing literal prefix
    assert!(compare_price("69,90 kr/kg").is_none());
    // no digits where the number should stand
    assert!(compare_price("Jfr-pris , kr/kg").is_none());
    // comma not followed by digits: the number ends before it, and then
    // no space follows
    assert!(compare_price("Jfr-pris 23, kr/kg").is_none());
    // unknown unit phrase
    assert!(compare_price("Jfr-pris 23 kr/famn").is_none());
    // unit phrase without the kr/ lead
    assert!(price_unit("meter", 0).is_none());
    // bare number grammar: no digits at all
    assert!(comma_float("x1", 0).is_none());
}

fn plain_item(name: &str, slug: &str, price: u64) -> ScrapedItem {
    ScrapedItem {
        available_units: vec![],
        cloudinary_image_id: String::new(),
        compare: None,
        deposit: 0,
        description_long: None,
        gtin: 0,
        in_categories: vec![],
        ingredients_text: None,
        markings: Markings { environmental: None },
        name: name.to_string(),
        nutritional_text: None,
        pharma_advice_flag: false,
        price,
        price_minus_deposit: price,
        price_text: PriceText::Number(0),
        product_disclaimer: None,
        product_type: Some(ProductType::Food),
        promotions: None,
        related: vec![],
        root_category: RelatedRootCategory::Empty,
        sku: String::new(),
        slug: slug.to_string(),
        sold_in_unit: SoldInUnit::Pce,
        unit_weight: None,
        vat: 12,
    }
}

fn promo(text: Option<&str>) -> Promotion {
    Promotion {
        compare_price: None,
        compare_price_text_with_deposit: text.map(|t| t.to_string()),
        compare_price_text_without_deposit: None,
        count: 1,
        for_logged_in: false,
        has_long_validity: false,
        has_short_validity: false,
        id: 1,
        is_weighted_fixed_price: None,
        max_item_text: None,
        name: "offer".to_string(),
        number_of_items_in_promotion: 1,
        offer_id: None,
        price: 0,
        supress_compare_price_range: None,
        promotion_type: "price".to_string(),
        valid_to: "2023-12-31".to_string(),
    }
}

fn base_compare(price: u64) -> Option<ComparePriceVariants> {
    Some(ComparePriceVariants::ComparePrice(ComparePrice {
        code: Some(PriceUnit::PerKg),
        price,
        price_text: None,
    }))
}

#[test]
fn normalizer_url_and_passthrough() {
    let it = plain_item("Mjölk", "mjolk-1l", 15 * KR);
    let p = parse_item(it);
    assert_eq!(p.name, "Mjölk");
    assert_eq!(p.url, "https://handla.ica.se/handla/produkt/mjolk-1l");
    assert_eq!(p.price, 15 * KR);
    assert_eq!(p.compare, None);
    assert_eq!(p.product_type, Some(ProductType::Food));
    assert_eq!(p.unit_weight, None);
}

#[test]
fn normalizer_discards_bare_number_compare() {
    let mut it = plain_item("Ost", "ost", 80 * KR);
    it.compare = Some(ComparePriceVariants::Number(79));
    let p = parse_item(it);
    assert_eq!(p.compare, None);
}

#[test]
fn resolution_picks_cheaper_promotion() {
    let mut it = plain_item("Ost", "ost", 80 * KR);
    it.compare = base_compare(80 * KR);
    it.promotions = Some(Promotions {
        priority_promotion: None,
        remaining_promotions: vec![
            promo(Some("Jfr-pris 75 kr/kg")),
            promo(Some("Jfr-pris 70,50 kr/kg")),
            promo(Some("Jfr-pris 78 kr/kg")),
        ],
    });
    let p = parse_item(it);
    let c = p.compare.unwrap();
    // the cheapest parse wins, and never raises the base price
    assert_eq!(c.price, 70_500_000);
    assert!(c.price <= 80 * KR);
}

#[test]
fn resolution_never_raises() {
    let mut it = plain_item("Ost", "ost", 80 * KR);
    it.compare = base_compare(60 * KR);
    it.promotions = Some(Promotions {
        priority_promotion: None,
        remaining_promotions: vec![promo(Some("Jfr-pris 75 kr/kg"))],
    });
    let p = parse_item(it);
    // the only promotion is dearer than the base: the base stays
    assert_eq!(p.compare.unwrap().price, 60 * KR);
}

#[test]
fn priority_promotion_shadows_cheaper_remaining() {
    let mut it = plain_item("Ost", "ost", 80 * KR);
    it.compare = base_compare(80 * KR);
    it.promotions = Some(Promotions {
        priority_promotion: Some(PromotionOrFalse::Promotion(promo(Some(
            "Jfr-pris 50 kr/kg",
        )))),
        remaining_promotions: vec![promo(Some("Jfr-pris 30 kr/kg"))],
    });
    let p = parse_item(it);
    // the remaining promotion is cheaper, but must not be consulted
    assert_eq!(p.compare.unwrap().price, 50 * KR);
}

#[test]
fn priority_promotion_without_text_consults_remaining() {
    let mut it = plain_item("Ost", "ost", 80 * KR);
    it.compare = base_compare(80 * KR);
    it.promotions = Some(Promotions {
        priority_promotion: Some(PromotionOrFalse::Promotion(promo(None))),
        remaining_promotions: vec![promo(Some("Jfr-pris 30 kr/kg"))],
    });
    let p = parse_item(it);
    // a priority promotion without a deposit-inclusive price text does not
    // shadow: the remaining promotions are consulted
    assert_eq!(p.compare.unwrap().price, 30 * KR);
}

#[test]
fn priority_promotion_with_unparsable_text_still_shadows() {
    let mut it = plain_item("Ost", "ost", 80 * KR);
    it.compare = base_compare(80 * KR);
    it.promotions = Some(Promotions {
        priority_promotion: Some(PromotionOrFalse::Promotion(promo(Some("2 för 49 kr")))),
        remaining_promotions: vec![promo(Some("Jfr-pris 30 kr/kg"))],
    });
    let p = parse_item(it);
    // a deposit-inclusive text is present, so the priority promotion
    // shadows the remaining ones even though its text does not parse
    assert_eq!(p.compare.unwrap().price, 80 * KR);
}

#[test]
fn priority_slot_false_consults_remaining() {
    let mut it = plain_item("Ost", "ost", 80 * KR);
    it.compare = base_compare(80 * KR);
    it.promotions = Some(Promotions {
        priority_promotion: Some(PromotionOrFalse::Bool(false)),
        remaining_promotions: vec![promo(Some("Jfr-pris 30 kr/kg"))],
    });
    let p = parse_item(it);
    // a bare boolean in the priority slot is no promotion: the remaining
    // promotions are consulted
    assert_eq!(p.compare.unwrap().price, 30 * KR);
}

#[test]
fn unparsable_promotion_text_is_skipped() {
    let mut it = plain_item("Ost", "ost", 80 * KR);
    it.compare = base_compare(80 * KR);
    it.promotions = Some(Promotions {
        priority_promotion: None,
        remaining_promotions: vec![promo(Some("2 för 49 kr")), promo(Some("Jfr-pris 75 kr/kg"))],
    });
    let p = parse_item(it);
    assert_eq!(p.compare.unwrap().price, 75 * KR);
}
