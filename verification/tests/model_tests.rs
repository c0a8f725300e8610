use ingest_csv::dates::Timestamp;
use ingest_csv::models::{Derivation, Food, Nutrient, Nutrientdata, NutrientdataForm};

#[test]
fn new_nutrientdata_form() {
    let nf = NutrientdataForm::new();
    assert_eq!(0, nf.value);
    assert_eq!("unknown", nf.derivation);
    assert_eq!("unknown", nf.derivation_code);
    assert_eq!("unknown", nf.nutrient_no);
    assert_eq!("unknown", nf.nutrient);
    assert_eq!("unknown", nf.unit);
}

#[test]
fn create_nutrientdata_form() {
    let n = Nutrient {
        id: 0,
        description: String::from("A nutrient"),
        nutrientno: String::from("999"),
        unit: String::from("g"),
    };
    let d = Derivation {
        id: 0,
        description: String::from("Some derivation"),
        code: String::from("LXXX"),
    };
    let nd = Nutrientdata::new();
    let nf = NutrientdataForm::create((&nd, &n, &d));
    assert_eq!(0, nf.value);
    assert_eq!("Some derivation", nf.derivation);
    assert_eq!("LXXX", nf.derivation_code);
    assert_eq!("999", nf.nutrient_no);
    assert_eq!("A nutrient", nf.nutrient);
    assert_eq!("g", nf.unit);
}

#[test]
fn new_food() {
    let f = Food::new();
    let epoch = Timestamp { year: 1970, month: 1, day: 1, hour: 0, minute: 0, second: 0 };
    assert_eq!(0, f.id);
    assert_eq!(epoch, f.publication_date);
    assert_eq!(epoch, f.modified_date);
    assert_eq!(epoch, f.available_date);
    assert_eq!("unknown", f.upc);
    assert_eq!("unknown", f.fdc_id);
    assert_eq!("unknown", f.description);
    assert_eq!(0, f.food_group_id);
    assert_eq!(0, f.brand_id);
    assert_eq!("unknown", f.datasource);
    assert_eq!(None, f.serving_size);
    assert_eq!(None, f.serving_unit);
    assert_eq!(None, f.serving_description);
    assert_eq!(None, f.country);
    assert_eq!(None, f.ingredients);
}

#[test]
fn new_models_hold_their_defaults() {
    let b = ingest_csv::models::Brand::new();
    assert_eq!(b.id, 0);
    assert_eq!(b.owner, "Unknown");
    assert_eq!(b.brand, None);
    assert_eq!(b.subbrand, None);
    let g = ingest_csv::models::Foodgroup::new();
    assert_eq!(g.description, "Unknown");
    let n = Nutrient::new();
    assert_eq!(n.nutrientno, "Unknown");
    let d = Derivation::new();
    assert_eq!(d.code, "Unknown");
    let nd = Nutrientdata::new();
    assert_eq!(nd.value, 0);
    assert_eq!(nd.portion_value, 0);
    assert_eq!(nd.minimum, None);
}

#[test]
fn views_copy_their_rows() {
    let g = ingest_csv::models::Foodgroup { id: 4, description: String::from("Candy") };
    let gv = ingest_csv::views::FoodgroupView::create(&g);
    assert_eq!(gv.id, 4);
    assert_eq!(gv.group, "Candy");

    let m = ingest_csv::models::Manufacturer { id: 7, name: String::from("Acme") };
    let mv = ingest_csv::views::ManufacturerView::create(&m);
    assert_eq!(mv.id, 7);
    assert_eq!(mv.name, "Acme");

    let n = Nutrient {
        id: 1,
        nutrientno: String::from("301"),
        description: String::from("Calcium"),
        unit: String::from("mg"),
    };
    let nv = ingest_csv::views::Nutrientview::create(&n);
    assert_eq!(nv.nbr, "301");
    assert_eq!(nv.name, "Calcium");
    assert_eq!(nv.unit, "mg");
}

#[test]
fn error_response_carries_the_documented_texts() {
    let r = ingest_csv::errors::ErrorResponse::new(ingest_csv::errors::CustomError::OffsetError);
    assert_eq!(r.code(), 422);
    assert_eq!(r.error_line(), "Unprocessable parameter");
    assert_eq!(r.message_line(), "Offset parameter must be >= 0");
    let u = ingest_csv::errors::ErrorResponse::new(ingest_csv::errors::CustomError::Unknown);
    assert_eq!(u.code(), 500);
    assert_eq!(u.error_line(), "Internal server error");
    assert_eq!(u.message_line(), "Unknown Internal Error");
}

#[test]
fn load_error_describes_itself() {
    assert_eq!(
        ingest_csv::errors::LoadError::ColumnNotFound.describe(),
        "column does not exist"
    );
    assert_eq!(
        ingest_csv::errors::LoadError::UnknownFood.describe(),
        "cannot get food id"
    );
}
