use ingest_csv::dataset::DataSet;
use ingest_csv::errors::LoadError;
use ingest_csv::models::{Food, Nutrient};
use ingest_csv::pipeline::{process_derivations, process_foods, process_nutdata, process_nutrients};
use ingest_csv::store::Store;

fn s(t: &str) -> String {
    String::from(t)
}

fn sv(ts: &[&str]) -> Vec<String> {
    ts.iter().map(|t| String::from(*t)).collect()
}

fn food_left_headers() -> Vec<String> {
    sv(&["fdc_id", "datatype", "description", "blank", "date_published"])
}

fn branded_headers() -> Vec<String> {
    sv(&[
        "fdc_id",
        "owner",
        "brand",
        "subbrand",
        "upc",
        "ingredients",
        "not_significant",
        "serving_size",
        "serving_unit",
        "serving_description",
        "foodgroup",
        "datasource",
        "date_modified",
        "date_available",
        "country",
    ])
}

fn branded_row(fdc: &str, owner: &str, group: &str) -> Vec<String> {
    sv(&[
        fdc,
        owner,
        "BrandX",
        "",
        "01234567",
        "water, salt",
        "",
        "150",
        "g",
        "1 cup",
        group,
        "GDSN",
        "2020-01-02",
        "2020-01-03",
        "US",
    ])
}

#[test]
fn end_to_end_two_matching_foods() {
    // a foods file with 3 rows, a branded file with 2 matching external
    // ids and 1 non-matching id
    let foods = vec![
        sv(&["1", "Branded", "Apple Juice", "", "2020-01-01"]),
        sv(&["2", "Branded", "Lemonade", "", "2020-01-01"]),
        sv(&["3", "Branded", "Oat Bar", "", ""]),
    ];
    let branded = vec![
        branded_row("1", "Acme", "Beverages"),
        branded_row("3", "Snacko", "Snacks"),
        branded_row("9", "Ghost", "Unmatched"),
    ];
    let mut l = DataSet::new(food_left_headers(), foods);
    let mut r = DataSet::new(branded_headers(), branded);
    let mut store = Store::new();
    let count = process_foods(&mut l, &mut r, &mut store).unwrap();
    assert_eq!(count, 2);
    assert_eq!(store.foods.len(), 2);
    for f in &store.foods {
        assert!(f.food_group_id >= 1);
        assert!(f.brand_id >= 1);
    }
    // join output is sorted by the key column
    assert_eq!(store.foods[0].fdc_id, "1");
    assert_eq!(store.foods[0].description, "Apple Juice");
    assert_eq!(store.foods[0].serving_size, Some(150_000_000));
    assert_eq!(store.foods[0].publication_date.year, 2020);
    assert_eq!(store.foods[0].publication_date.hour, 19);
    assert_eq!(store.foods[1].fdc_id, "3");
    // the blank publication date fell back to the epoch sentinel
    assert_eq!(store.foods[1].publication_date.year, 1970);
    // dimensions were created on first occurrence and kept unique
    assert_eq!(store.food_groups.len(), 2);
    assert_eq!(store.brands.len(), 2);
}

#[test]
fn process_foods_missing_key_column() {
    let mut l = DataSet::new(sv(&["nokey"]), vec![sv(&["1"])]);
    let mut r = DataSet::new(branded_headers(), vec![]);
    let mut store = Store::new();
    let e = process_foods(&mut l, &mut r, &mut store).unwrap_err();
    assert_eq!(e, LoadError::ColumnNotFound);
}

#[test]
fn process_foods_bad_date_is_fatal() {
    let foods = vec![sv(&["1", "Branded", "Apple Juice", "", "not-a-date"])];
    let branded = vec![branded_row("1", "Acme", "Beverages")];
    let mut l = DataSet::new(food_left_headers(), foods);
    let mut r = DataSet::new(branded_headers(), branded);
    let mut store = Store::new();
    let e = process_foods(&mut l, &mut r, &mut store).unwrap_err();
    assert_eq!(e, LoadError::FieldParse);
}

fn store_with_food_and_nutrient() -> Store {
    let mut store = Store::new();
    let mut f = Food::new();
    f.id = 1;
    f.fdc_id = s("1");
    f.serving_size = Some(150_000_000);
    store.foods.push(f);
    store.nutrients.push(Nutrient {
        id: 5,
        nutrientno: s("301"),
        description: s("Calcium"),
        unit: s("mg"),
    });
    store
}

fn nutdata_headers() -> Vec<String> {
    sv(&[
        "id",
        "fdc_id",
        "nutrient_id",
        "amount",
        "data_points",
        "derivation_id",
        "min",
        "max",
        "median",
        "footnote",
        "min_year",
    ])
}

fn nutdata_row(fdc: &str, nutrient: &str, amount: &str) -> Vec<String> {
    sv(&[
        "0", fdc, nutrient, amount, "1", "70", "", "", "", "", "",
    ])
}

#[test]
fn nutdata_loads_and_derives_portion() {
    let mut store = store_with_food_and_nutrient();
    let data = DataSet::new(nutdata_headers(), vec![nutdata_row("1", "301", "50")]);
    let count = process_nutdata(&data, &mut store).unwrap();
    assert_eq!(count, 1);
    let nd = &store.nutrient_data[0];
    assert_eq!(nd.value, 50_000_000);
    // 50.0 per 100 units at a 150.0-unit serving is 75.0
    assert_eq!(nd.portion_value, 75_000_000);
    assert_eq!(nd.nutrient_id, 5);
    assert_eq!(nd.food_id, 1);
    assert_eq!(nd.derivation_id, 70);
}

#[test]
fn nutdata_skips_unresolvable_nutrient() {
    let mut store = store_with_food_and_nutrient();
    let data = DataSet::new(
        nutdata_headers(),
        vec![nutdata_row("1", "301", "50"), nutdata_row("1", "777", "10")],
    );
    let count = process_nutdata(&data, &mut store).unwrap();
    // the unresolvable row is skipped and the rest of the file loads;
    // the skip count is the difference from the record count
    assert_eq!(count, 1);
    assert_eq!(data.records.len() - count, 1);
    assert_eq!(store.nutrient_data.len(), 1);
}

#[test]
fn nutdata_unknown_food_is_fatal() {
    let mut store = store_with_food_and_nutrient();
    let data = DataSet::new(nutdata_headers(), vec![nutdata_row("999", "301", "50")]);
    let e = process_nutdata(&data, &mut store).unwrap_err();
    assert_eq!(e, LoadError::UnknownFood);
}

#[test]
fn nutdata_short_record_is_fatal() {
    let mut store = store_with_food_and_nutrient();
    let data = DataSet::new(nutdata_headers(), vec![sv(&["0", "1", "301"])]);
    let e = process_nutdata(&data, &mut store).unwrap_err();
    assert_eq!(e, LoadError::ShortRecord);
}

#[test]
fn nutdata_bad_amount_is_fatal() {
    let mut store = store_with_food_and_nutrient();
    let data = DataSet::new(nutdata_headers(), vec![nutdata_row("1", "301", "abc")]);
    let e = process_nutdata(&data, &mut store).unwrap_err();
    assert_eq!(e, LoadError::FieldParse);
}

#[test]
fn nutdata_oversized_portion_is_fatal() {
    let mut store = store_with_food_and_nutrient();
    store.foods[0].serving_size = Some(1_000_000_000);
    let data = DataSet::new(
        nutdata_headers(),
        vec![nutdata_row("1", "301", "10000000000000")],
    );
    let e = process_nutdata(&data, &mut store).unwrap_err();
    assert_eq!(e, LoadError::ValueRange);
}

#[test]
fn nutrients_load_verbatim() {
    let mut store = Store::new();
    let data = DataSet::new(
        sv(&["id", "name", "unit", "nbr", "order"]),
        vec![
            sv(&["5", "Calcium", "mg", "301", "5300"]),
            sv(&["9", "Energy", "kcal", "208", "300"]),
        ],
    );
    let count = process_nutrients(&data, &mut store).unwrap();
    assert_eq!(count, 2);
    assert_eq!(store.nutrients.len(), 2);
    assert_eq!(store.nutrients[0].id, 5);
    assert_eq!(store.nutrients[0].nutrientno, "301");
    assert_eq!(store.nutrients[1].description, "Energy");
    assert_eq!(store.nutrients[1].unit, "kcal");
}

#[test]
fn nutrients_bad_id_is_fatal_and_loads_nothing() {
    let mut store = Store::new();
    let data = DataSet::new(
        sv(&["id", "name", "unit", "nbr", "order"]),
        vec![sv(&["x", "Calcium", "mg", "301", "5300"])],
    );
    assert!(process_nutrients(&data, &mut store).is_err());
    assert_eq!(store.nutrients.len(), 0);
}

#[test]
fn derivations_load_verbatim() {
    let mut store = Store::new();
    let data = DataSet::new(
        sv(&["id", "code", "description", "source"]),
        vec![sv(&["70", "A", "Analytical", "x"])],
    );
    let count = process_derivations(&data, &mut store).unwrap();
    assert_eq!(count, 1);
    assert_eq!(store.derivations[0].id, 70);
    assert_eq!(store.derivations[0].code, "A");
    assert_eq!(store.derivations[0].description, "Analytical");
}
