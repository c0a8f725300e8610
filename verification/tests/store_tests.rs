use ingest_csv::batch::BatchLoader;
use ingest_csv::errors::LoadError;
use ingest_csv::models::{Brand, Foodgroup, Nutrient};
use ingest_csv::portion::derive_portion_value;
use ingest_csv::store::Store;

fn s(t: &str) -> String {
    String::from(t)
}

#[test]
fn resolve_or_create_is_idempotent() {
    let mut store = Store::new();
    let first = store.resolve_or_create_food_group("Beverages");
    let again = store.resolve_or_create_food_group("Beverages");
    assert_eq!(first, again);
    assert_eq!(store.food_groups.len(), 1);
    let other = store.resolve_or_create_food_group("Candy");
    assert_ne!(first, other);
    assert_eq!(store.food_groups.len(), 2);
    // a run against a store already holding the key creates no duplicate
    let third = store.resolve_or_create_food_group("Beverages");
    assert_eq!(first, third);
    assert_eq!(store.food_groups.len(), 2);
}

#[test]
fn resolve_normalizes_empty_key_to_sentinel() {
    let mut store = Store::new();
    let a = store.resolve_or_create_brand("");
    let b = store.resolve_or_create_brand("Unknown");
    assert_eq!(a, b);
    assert_eq!(store.brands.len(), 1);
    assert_eq!(store.brands[0].owner, "Unknown");
}

#[test]
fn reconcile_prefers_business_code() {
    let mut store = Store::new();
    store.nutrients.push(Nutrient {
        id: 5,
        nutrientno: s("301"),
        description: s("Calcium"),
        unit: s("mg"),
    });
    store.nutrients.push(Nutrient {
        id: 301,
        nutrientno: s("999"),
        description: s("Other"),
        unit: s("g"),
    });
    // "301" matches the first row's business code, not the second row's id
    assert_eq!(store.reconcile_nutrient_key(301), 5);
}

#[test]
fn reconcile_falls_back_to_surrogate_id() {
    let mut store = Store::new();
    store.nutrients.push(Nutrient {
        id: 42,
        nutrientno: s("203"),
        description: s("Protein"),
        unit: s("g"),
    });
    assert_eq!(store.reconcile_nutrient_key(42), 42);
}

#[test]
fn reconcile_unresolved_returns_sentinel() {
    let store = Store::new();
    assert_eq!(store.reconcile_nutrient_key(777), -1);
}

#[test]
fn find_by_owner_and_description_and_no() {
    let mut store = Store::new();
    store.resolve_or_create_brand("Acme Foods");
    store.resolve_or_create_food_group("Snacks");
    store.nutrients.push(Nutrient {
        id: 9,
        nutrientno: s("208"),
        description: s("Energy"),
        unit: s("kcal"),
    });

    let mut b = Brand::new();
    b.owner = s("Acme Foods");
    let found = b.find_by_owner(&store).unwrap();
    assert_eq!(found.id, 1);
    assert_eq!(found.owner, "Acme Foods");
    b.owner = s("Nobody");
    assert_eq!(b.find_by_owner(&store).unwrap_err(), LoadError::NotFound);

    let mut g = Foodgroup::new();
    g.description = s("Snacks");
    assert_eq!(g.find_by_description(&store).unwrap().id, 1);

    let mut n = Nutrient::new();
    n.nutrientno = s("208");
    let nn = n.find_by_no(&store).unwrap();
    assert_eq!(nn.id, 9);
    assert_eq!(nn.description, "Energy");
}

#[test]
fn portion_value_scenarios() {
    // 50.0 per 100 units with a 150.0-unit serving gives 75.0
    assert_eq!(derive_portion_value(50_000_000, Some(150_000_000)), 75_000_000);
    // no serving size known gives zero
    assert_eq!(derive_portion_value(50_000_000, None), 0);
    // a zero amount gives zero
    assert_eq!(derive_portion_value(0, Some(100_000_000)), 0);
    // a negative serving size never contributes
    assert_eq!(derive_portion_value(50_000_000, Some(-1)), 0);
}

#[test]
fn batch_boundary_exact_fill_flushes_once() {
    let mut loader: BatchLoader<u32> = BatchLoader::new(3);
    let mut sink: Vec<u32> = Vec::new();
    loader.stage(1, &mut sink);
    loader.stage(2, &mut sink);
    assert_eq!(sink.len(), 0);
    loader.stage(3, &mut sink);
    // exactly one flush, nothing left buffered
    assert_eq!(sink, vec![1, 2, 3]);
    assert_eq!(loader.buf.len(), 0);
    assert_eq!(loader.total, 3);
}

#[test]
fn batch_boundary_one_extra_row_stays_buffered() {
    let mut loader: BatchLoader<u32> = BatchLoader::new(3);
    let mut sink: Vec<u32> = Vec::new();
    loader.stage(1, &mut sink);
    loader.stage(2, &mut sink);
    loader.stage(3, &mut sink);
    loader.stage(4, &mut sink);
    assert_eq!(sink.len(), 3);
    assert_eq!(loader.buf.len(), 1);
    let count = loader.finish(&mut sink);
    assert_eq!(count, 4);
    assert_eq!(sink, vec![1, 2, 3, 4]);
    assert_eq!(loader.buf.len(), 0);
}

#[test]
fn food_resolves_its_dimension_names() {
    let mut store = Store::new();
    let fg = store.resolve_or_create_food_group("Beverages");
    let br = store.resolve_or_create_brand("Acme");
    let mut f = ingest_csv::models::Food::new();
    f.food_group_id = fg;
    f.brand_id = br;
    assert_eq!(f.get_food_group_name(&store).unwrap(), "Beverages");
    assert_eq!(f.get_owner_name(&store).unwrap(), "Acme");
    f.brand_id = 99;
    assert_eq!(f.get_owner_name(&store).unwrap_err(), LoadError::NotFound);
}
