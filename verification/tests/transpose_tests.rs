use pricetrack::ingest::{build_snapshot, collect_snapshots, parse_date, parse_store_id};
use pricetrack::parse::{ParsedItem, StoreData};
use pricetrack::transpose::transpose;
use pricetrack::types::{Date, Markings, PriceText, RelatedRootCategory, ScrapedItem, SoldInUnit};

fn parsed(name: &str, url: &str, price: u64) -> ParsedItem {
    ParsedItem {
        name: name.to_string(),
        url: url.to_string(),
        price,
        compare: None,
        product_type: None,
        sold_in_unit: SoldInUnit::Pce,
        unit_weight: None,
    }
}

fn snapshot(store_id: u32, date: Date, items: Vec<ParsedItem>) -> StoreData {
    StoreData { store_id, date, items }
}

fn date(y: u32, m: u8, d: u8) -> Date {
    Date { year: y, month: m, day: d }
}

fn sample_stores() -> Vec<StoreData> {
    vec![
        snapshot(
            11,
            date(2023, 5, 1),
            vec![parsed("Mjölk", "u1", 15), parsed("Bröd", "u2", 30)],
        ),
        snapshot(
            12,
            date(2023, 5, 2),
            vec![parsed("Mjölk", "u3", 16), parsed("Ägg", "u4", 40), parsed("Mjölk", "u5", 17)],
        ),
    ]
}

#[test]
fn transposition_groups_by_name() {
    let r = transpose(sample_stores());
    assert_eq!(r.len(), 3);

    let milk = r.iter().find(|h| h.name == "Mjölk").unwrap();
    assert_eq!(milk.price_data.len(), 3);
    // URL comes from the first item seen with that name
    assert_eq!(milk.url, "u1");
    let prices: Vec<u64> = milk.price_data.iter().map(|e| e.data.price).collect();
    assert_eq!(prices, vec![15, 16, 17]);
    assert_eq!(milk.price_data[0].store_id, 11);
    assert_eq!(milk.price_data[0].date, date(2023, 5, 1));
    assert_eq!(milk.price_data[1].store_id, 12);
    assert_eq!(milk.price_data[2].store_id, 12);

    let bread = r.iter().find(|h| h.name == "Bröd").unwrap();
    assert_eq!(bread.price_data.len(), 1);
    let eggs = r.iter().find(|h| h.name == "Ägg").unwrap();
    assert_eq!(eggs.price_data.len(), 1);
}

#[test]
fn transposition_total_entry_count() {
    // every item lands in exactly one history entry
    let stores = sample_stores();
    let total_items: usize = stores.iter().map(|s| s.items.len()).sum();
    let r = transpose(stores);
    let total_entries: usize = r.iter().map(|h| h.price_data.len()).sum();
    assert_eq!(total_entries, total_items);
}

#[test]
fn transposition_is_repeatable() {
    // two runs over the same snapshots agree up to order
    let mut a = transpose(sample_stores());
    let mut b = transpose(sample_stores());
    a.sort_by(|x, y| x.name.cmp(&y.name));
    b.sort_by(|x, y| x.name.cmp(&y.name));
    assert_eq!(a.len(), b.len());
    for (x, y) in a.iter().zip(b.iter()) {
        assert_eq!(x.name, y.name);
        assert_eq!(x.url, y.url);
        assert_eq!(x.price_data.len(), y.price_data.len());
        for (e, f) in x.price_data.iter().zip(y.price_data.iter()) {
            assert_eq!(e.date, f.date);
            assert_eq!(e.store_id, f.store_id);
            assert_eq!(e.data.price, f.data.price);
        }
    }
}

#[test]
fn transpose_of_nothing() {
    let r = transpose(vec![]);
    assert_eq!(r.len(), 0);
}

#[test]
fn date_parsing() {
    assert_eq!(parse_date("2023-05-01"), Some(date(2023, 5, 1)));
    assert_eq!(parse_date("2024-02-29"), Some(date(2024, 2, 29)));
    // not a leap year
    assert_eq!(parse_date("2023-02-29"), None);
    assert_eq!(parse_date("2023-13-01"), None);
    assert_eq!(parse_date("2023-00-01"), None);
    assert_eq!(parse_date("2023-04-31"), None);
    assert_eq!(parse_date("2023-5-1"), None);
    assert_eq!(parse_date("20230501"), None);
    assert_eq!(parse_date(""), None);
    assert_eq!(parse_date("yyyy-mm-dd"), None);
}

#[test]
fn store_id_parsing() {
    assert_eq!(parse_store_id("11"), Some(11));
    assert_eq!(parse_store_id("004"), Some(4));
    assert_eq!(parse_store_id("4294967295"), Some(u32::MAX));
    // too large for 32 bits
    assert_eq!(parse_store_id("4294967296"), None);
    assert_eq!(parse_store_id(""), None);
    assert_eq!(parse_store_id("12a"), None);
    assert_eq!(parse_store_id("-3"), None);
}

fn raw(name: &str, slug: &str, price: u64) -> ScrapedItem {
    ScrapedItem {
        available_units: vec![],
        cloudinary_image_id: String::new(),
        compare: None,
        deposit: 0,
        description_long: None,
        gtin: 0,
        in_categories: vec![],
        ingredients_text: None,
        markings: Markings { environmental: None },
        name: name.to_string(),
        nutritional_text: None,
        pharma_advice_flag: false,
        price,
        price_minus_deposit: price,
        price_text: PriceText::Number(0),
        product_disclaimer: None,
        product_type: None,
        promotions: None,
        related: vec![],
        root_category: RelatedRootCategory::Empty,
        sku: String::new(),
        slug: slug.to_string(),
        sold_in_unit: SoldInUnit::Pce,
        unit_weight: None,
        vat: 12,
    }
}

#[test]
fn snapshot_building() {
    let s = build_snapshot(
        7,
        date(2023, 5, 1),
        vec![raw("Mjölk", "mjolk", 15), raw("Bröd", "brod", 30)],
    );
    assert_eq!(s.store_id, 7);
    assert_eq!(s.date, date(2023, 5, 1));
    assert_eq!(s.items.len(), 2);
    assert_eq!(s.items[0].name, "Mjölk");
    assert_eq!(s.items[0].url, "https://handla.ica.se/handla/produkt/mjolk");
    assert_eq!(s.items[1].name, "Bröd");
}

#[test]
fn one_bad_file_is_isolated() {
    // three files, the middle one failed to decode: two snapshots remain
    let decoded = vec![
        Some(snapshot(1, date(2023, 5, 1), vec![parsed("A", "u", 1)])),
        None,
        Some(snapshot(2, date(2023, 5, 2), vec![parsed("B", "v", 2)])),
    ];
    let kept = collect_snapshots(decoded);
    assert_eq!(kept.len(), 2);
    assert_eq!(kept[0].store_id, 1);
    assert_eq!(kept[1].store_id, 2);
}
