//! Rows of the relational store: foods, dimension tables (food groups,
//! brands, manufacturers), nutrient definitions, derivation codes, and
//! nutrient measurements.
//!
//! Amounts (nutrient values, serving sizes) are held in micro units —
//! integers scaled by one million — so that derived values stay exact;
//! `crate::numbers` converts them from the decimal text of the extracts.

use vstd::prelude::*;
use crate::dates::Timestamp;
use crate::errors::LoadError;
use crate::store::{brand_dim, dim_has_key, dim_lookup, fg_dim, nut_dim, Store};
use crate::text::str_eq;

verus! {

/// A branded food product row.
#[derive(Debug)]
pub struct Food {
    pub id: i32,
    pub publication_date: Timestamp,
    pub modified_date: Timestamp,
    pub available_date: Timestamp,
    pub upc: String,
    pub fdc_id: String,
    pub description: String,
    pub food_group_id: i32,
    pub brand_id: i32,
    pub datasource: String,
    /// Serving size in micro units; negative values are carried but
    /// never contribute to portion values.
    pub serving_size: Option<i64>,
    pub serving_unit: Option<String>,
    pub serving_description: Option<String>,
    pub country: Option<String>,
    pub ingredients: Option<String>,
}

impl Food {
    pub fn new() -> (f: Self)
        ensures
            f.id == 0,
            f.publication_date == (Timestamp {
                year: 1970,
                month: 1,
                day: 1,
                hour: 0,
                minute: 0,
                second: 0,
            }),
            f.modified_date == f.publication_date,
            f.available_date == f.publication_date,
            f.upc@ == "unknown"@,
            f.fdc_id@ == "unknown"@,
            f.description@ == "unknown"@,
            f.food_group_id == 0,
            f.brand_id == 0,
            f.datasource@ == "unknown"@,
            f.serving_size is None,
            f.serving_unit is None,
            f.serving_description is None,
            f.country is None,
            f.ingredients is None,
    {
        Food {
            id: 0,
            publication_date: Timestamp::epoch(),
            modified_date: Timestamp::epoch(),
            available_date: Timestamp::epoch(),
            upc: String::from_str("unknown"),
            fdc_id: String::from_str("unknown"),
            description: String::from_str("unknown"),
            food_group_id: 0,
            brand_id: 0,
            datasource: String::from_str("unknown"),
            serving_size: None,
            serving_unit: None,
            serving_description: None,
            country: None,
            ingredients: None,
        }
    }
}

impl Food {
    /// Returns the food-group description this food's foreign key
    /// names: the description of the first group row carrying the id.
    /// Errs when the store holds no such row.
    pub fn get_food_group_name(&self, store: &Store) -> (r: Result<String, LoadError>)
        ensures
            r is Ok <==> (exists|i: int|
                0 <= i < store.food_groups@.len() && (#[trigger] store.food_groups@[i]).id
                    == self.food_group_id),
            r matches Ok(name) ==> exists|i: int|
                0 <= i < store.food_groups@.len() && (#[trigger] store.food_groups@[i]).id
                    == self.food_group_id && name@ == store.food_groups@[i].description@ && (
                forall|j: int|
                    0 <= j < i ==> store.food_groups@[j].id != self.food_group_id),
            r is Err ==> r == Err::<String, LoadError>(LoadError::NotFound),
    {
        let n = store.food_groups.len();
        let mut i: usize = 0;
        while i < n
            invariant
                0 <= i <= n,
                n == store.food_groups@.len(),
                forall|j: int| 0 <= j < i ==> store.food_groups@[j].id != self.food_group_id,
            decreases n - i,
        {
            if store.food_groups[i].id == self.food_group_id {
                return Ok(store.food_groups[i].description.clone());
            }
            i = i + 1;
        }
        Err(LoadError::NotFound)
    }

    /// Returns the brand-owner name this food's foreign key names: the
    /// owner of the first brand row carrying the id.  Errs when the
    /// store holds no such row.
    pub fn get_owner_name(&self, store: &Store) -> (r: Result<String, LoadError>)
        ensures
            r is Ok <==> (exists|i: int|
                0 <= i < store.brands@.len() && (#[trigger] store.brands@[i]).id
                    == self.brand_id),
            r matches Ok(name) ==> exists|i: int|
                0 <= i < store.brands@.len() && (#[trigger] store.brands@[i]).id == self.brand_id
                    && name@ == store.brands@[i].owner@ && (forall|j: int|
                    0 <= j < i ==> store.brands@[j].id != self.brand_id),
            r is Err ==> r == Err::<String, LoadError>(LoadError::NotFound),
    {
        let n = store.brands.len();
        let mut i: usize = 0;
        while i < n
            invariant
                0 <= i <= n,
                n == store.brands@.len(),
                forall|j: int| 0 <= j < i ==> store.brands@[j].id != self.brand_id,
            decreases n - i,
        {
            if store.brands[i].id == self.brand_id {
                return Ok(store.brands[i].owner.clone());
            }
            i = i + 1;
        }
        Err(LoadError::NotFound)
    }
}

/// A brand-owner dimension row.
#[derive(Debug)]
pub struct Brand {
    pub id: i32,
    pub owner: String,
    pub brand: Option<String>,
    pub subbrand: Option<String>,
}

impl Clone for Brand {
    fn clone(&self) -> (r: Self)
        ensures
            r == *self,
    {
        Brand {
            id: self.id,
            owner: self.owner.clone(),
            brand: match &self.brand {
                Some(s) => Some(s.clone()),
                None => None,
            },
            subbrand: match &self.subbrand {
                Some(s) => Some(s.clone()),
                None => None,
            },
        }
    }
}

impl Brand {
    pub fn new() -> (b: Self)
        ensures
            b.id == 0,
            b.owner@ == "Unknown"@,
            b.brand is None,
            b.subbrand is None,
    {
        Brand { id: 0, owner: String::from_str("Unknown"), brand: None, subbrand: None }
    }

    /// Finds the first brand row whose owner matches this brand's
    /// owner name.  Errs when the store holds none.
    pub fn find_by_owner(&self, store: &Store) -> (r: Result<Brand, LoadError>)
        ensures
            r is Ok <==> dim_has_key(brand_dim(store.brands@), self.owner@),
            r matches Ok(b) ==> exists|i: int|
                0 <= i < store.brands@.len() && b == store.brands@[i] && b.owner@ == self.owner@
                    && (forall|j: int| 0 <= j < i ==> store.brands@[j].owner@ != self.owner@),
            r matches Ok(b) ==> b.id as int == dim_lookup(brand_dim(store.brands@), self.owner@),
            r is Err ==> r == Err::<Brand, LoadError>(LoadError::NotFound),
    {
        let ghost dim = brand_dim(store.brands@);
        let n = store.brands.len();
        let mut i: usize = 0;
        while i < n
            invariant
                0 <= i <= n,
                n == store.brands@.len(),
                dim == brand_dim(store.brands@),
                forall|j: int| 0 <= j < i ==> store.brands@[j].owner@ != self.owner@,
            decreases n - i,
        {
            if str_eq(store.brands[i].owner.as_str(), self.owner.as_str()) {
                proof {
                    assert forall|j: int| 0 <= j < i implies (#[trigger] dim[j]).1
                        != self.owner@ by {
                        assert(dim[j].1 == store.brands@[j].owner@);
                    }
                    assert(dim[i as int].1 == store.brands@[i as int].owner@);
                    crate::store::lemma_dim_lookup_at(dim, self.owner@, i as int);
                }
                return Ok(store.brands[i].clone());
            }
            i = i + 1;
        }
        proof {
            assert forall|j: int| 0 <= j < n implies (#[trigger] dim[j]).1 != self.owner@ by {
                assert(dim[j].1 == store.brands@[j].owner@);
            }
            crate::store::lemma_dim_lookup_missing(dim, self.owner@);
        }
        Err(LoadError::NotFound)
    }
}

/// A food-group dimension row.
#[derive(Debug)]
pub struct Foodgroup {
    pub id: i32,
    pub description: String,
}

impl Clone for Foodgroup {
    fn clone(&self) -> (r: Self)
        ensures
            r == *self,
    {
        Foodgroup { id: self.id, description: self.description.clone() }
    }
}

impl Foodgroup {
    pub fn new() -> (g: Self)
        ensures
            g.id == 0,
            g.description@ == "Unknown"@,
    {
        Foodgroup { id: 0, description: String::from_str("Unknown") }
    }

    /// Finds the first food-group row whose description matches this
    /// group's description.  Errs when the store holds none.
    pub fn find_by_description(&self, store: &Store) -> (r: Result<Foodgroup, LoadError>)
        ensures
            r is Ok <==> dim_has_key(fg_dim(store.food_groups@), self.description@),
            r matches Ok(g) ==> exists|i: int|
                0 <= i < store.food_groups@.len() && g == store.food_groups@[i] && g.description@
                    == self.description@ && (forall|j: int|
                    0 <= j < i ==> store.food_groups@[j].description@ != self.description@),
            r matches Ok(g) ==> g.id as int == dim_lookup(
                fg_dim(store.food_groups@),
                self.description@,
            ),
            r is Err ==> r == Err::<Foodgroup, LoadError>(LoadError::NotFound),
    {
        let ghost dim = fg_dim(store.food_groups@);
        let n = store.food_groups.len();
        let mut i: usize = 0;
        while i < n
            invariant
                0 <= i <= n,
                n == store.food_groups@.len(),
                dim == fg_dim(store.food_groups@),
                forall|j: int| 0 <= j < i ==> store.food_groups@[j].description@
                    != self.description@,
            decreases n - i,
        {
            if str_eq(store.food_groups[i].description.as_str(), self.description.as_str()) {
                proof {
                    assert forall|j: int| 0 <= j < i implies (#[trigger] dim[j]).1
                        != self.description@ by {
                        assert(dim[j].1 == store.food_groups@[j].description@);
                    }
                    assert(dim[i as int].1 == store.food_groups@[i as int].description@);
                    crate::store::lemma_dim_lookup_at(dim, self.description@, i as int);
                }
                return Ok(store.food_groups[i].clone());
            }
            i = i + 1;
        }
        proof {
            assert forall|j: int| 0 <= j < n implies (#[trigger] dim[j]).1
                != self.description@ by {
                assert(dim[j].1 == store.food_groups@[j].description@);
            }
            crate::store::lemma_dim_lookup_missing(dim, self.description@);
        }
        Err(LoadError::NotFound)
    }
}

/// A manufacturer dimension row, the deployment variant that names the
/// owner directly.
#[derive(Debug)]
pub struct Manufacturer {
    pub id: i32,
    pub name: String,
}

impl Clone for Manufacturer {
    fn clone(&self) -> (r: Self)
        ensures
            r == *self,
    {
        Manufacturer { id: self.id, name: self.name.clone() }
    }
}

/// A nutrient definition: Calcium, Energy, and so on.
#[derive(Debug)]
pub struct Nutrient {
    pub id: i32,
    pub nutrientno: String,
    pub description: String,
    pub unit: String,
}

impl Clone for Nutrient {
    fn clone(&self) -> (r: Self)
        ensures
            r == *self,
    {
        Nutrient {
            id: self.id,
            nutrientno: self.nutrientno.clone(),
            description: self.description.clone(),
            unit: self.unit.clone(),
        }
    }
}

impl Nutrient {
    pub fn new() -> (n: Self)
        ensures
            n.id == 0,
            n.nutrientno@ == "Unknown"@,
            n.description@ == "Unknown"@,
            n.unit@ == "Unknown"@,
    {
        Nutrient {
            id: 0,
            nutrientno: String::from_str("Unknown"),
            description: String::from_str("Unknown"),
            unit: String::from_str("Unknown"),
        }
    }

    /// Finds the first nutrient row whose business code matches this
    /// nutrient's code.  Errs when the store holds none.
    pub fn find_by_no(&self, store: &Store) -> (r: Result<Nutrient, LoadError>)
        ensures
            r is Ok <==> dim_has_key(nut_dim(store.nutrients@), self.nutrientno@),
            r matches Ok(n) ==> exists|i: int|
                0 <= i < store.nutrients@.len() && n == store.nutrients@[i] && n.nutrientno@
                    == self.nutrientno@ && (forall|j: int|
                    0 <= j < i ==> store.nutrients@[j].nutrientno@ != self.nutrientno@),
            r matches Ok(n) ==> n.id as int == dim_lookup(
                nut_dim(store.nutrients@),
                self.nutrientno@,
            ),
            r is Err ==> r == Err::<Nutrient, LoadError>(LoadError::NotFound),
    {
        let ghost dim = nut_dim(store.nutrients@);
        let n = store.nutrients.len();
        let mut i: usize = 0;
        while i < n
            invariant
                0 <= i <= n,
                n == store.nutrients@.len(),
                dim == nut_dim(store.nutrients@),
                forall|j: int| 0 <= j < i ==> store.nutrients@[j].nutrientno@
                    != self.nutrientno@,
            decreases n - i,
        {
            if str_eq(store.nutrients[i].nutrientno.as_str(), self.nutrientno.as_str()) {
                proof {
                    assert forall|j: int| 0 <= j < i implies (#[trigger] dim[j]).1
                        != self.nutrientno@ by {
                        assert(dim[j].1 == store.nutrients@[j].nutrientno@);
                    }
                    assert(dim[i as int].1 == store.nutrients@[i as int].nutrientno@);
                    crate::store::lemma_dim_lookup_at(dim, self.nutrientno@, i as int);
                }
                return Ok(store.nutrients[i].clone());
            }
            i = i + 1;
        }
        proof {
            assert forall|j: int| 0 <= j < n implies (#[trigger] dim[j]).1
                != self.nutrientno@ by {
                assert(dim[j].1 == store.nutrients@[j].nutrientno@);
            }
            crate::store::lemma_dim_lookup_missing(dim, self.nutrientno@);
        }
        Err(LoadError::NotFound)
    }
}

/// How a nutrient value was derived.
#[derive(Debug)]
pub struct Derivation {
    pub id: i32,
    pub code: String,
    pub description: String,
}

impl Clone for Derivation {
    fn clone(&self) -> (r: Self)
        ensures
            r == *self,
    {
        Derivation {
            id: self.id,
            code: self.code.clone(),
            description: self.description.clone(),
        }
    }
}

impl Derivation {
    pub fn new() -> (d: Self)
        ensures
            d.id == 0,
            d.code@ == "Unknown"@,
            d.description@ == "Unknown"@,
    {
        Derivation {
            id: 0,
            code: String::from_str("Unknown"),
            description: String::from_str("Unknown"),
        }
    }
}

/// A nutrient measurement: the value of one nutrient for one food.
/// Amounts are in micro units per 100 reference units; the portion
/// value is the derived amount per serving.
#[derive(Debug)]
pub struct Nutrientdata {
    pub id: i32,
    pub value: u64,
    pub portion_value: u64,
    pub standard_error: Option<u64>,
    pub minimum: Option<u64>,
    pub maximum: Option<u64>,
    pub median: Option<u64>,
    pub derivation_id: i32,
    pub nutrient_id: i32,
    pub food_id: i32,
}

impl Nutrientdata {
    pub fn new() -> (n: Self)
        ensures
            n.id == 0,
            n.value == 0,
            n.portion_value == 0,
            n.standard_error is None,
            n.minimum is None,
            n.maximum is None,
            n.median is None,
            n.derivation_id == 0,
            n.nutrient_id == 0,
            n.food_id == 0,
    {
        Nutrientdata {
            id: 0,
            value: 0,
            portion_value: 0,
            standard_error: None,
            minimum: None,
            maximum: None,
            median: None,
            derivation_id: 0,
            nutrient_id: 0,
            food_id: 0,
        }
    }
}

/// A measurement joined with its nutrient and derivation, shaped for
/// presentation.
#[derive(Debug)]
pub struct NutrientdataForm {
    pub value: u64,
    pub derivation: String,
    pub derivation_code: String,
    pub nutrient: String,
    pub nutrient_no: String,
    pub unit: String,
}

impl NutrientdataForm {
    pub fn new() -> (n: Self)
        ensures
            n.value == 0,
            n.derivation@ == "unknown"@,
            n.derivation_code@ == "unknown"@,
            n.nutrient@ == "unknown"@,
            n.nutrient_no@ == "unknown"@,
            n.unit@ == "unknown"@,
    {
        NutrientdataForm {
            value: 0,
            derivation: String::from_str("unknown"),
            derivation_code: String::from_str("unknown"),
            nutrient: String::from_str("unknown"),
            nutrient_no: String::from_str("unknown"),
            unit: String::from_str("unknown"),
        }
    }

    pub fn create(parts: (&Nutrientdata, &Nutrient, &Derivation)) -> (r: Self)
        ensures
            r.value == parts.0.value,
            r.nutrient@ == parts.1.description@,
            r.nutrient_no@ == parts.1.nutrientno@,
            r.unit@ == parts.1.unit@,
            r.derivation@ == parts.2.description@,
            r.derivation_code@ == parts.2.code@,
    {
        let (nd, n, d) = parts;
        NutrientdataForm {
            value: nd.value,
            nutrient: n.description.clone(),
            nutrient_no: n.nutrientno.clone(),
            unit: n.unit.clone(),
            derivation: d.description.clone(),
            derivation_code: d.code.clone(),
        }
    }
}

} // verus!
