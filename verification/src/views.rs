//! Response-shaping views over store rows, for the read surfaces that
//! browse what the pipeline loads.

use vstd::prelude::*;
use crate::models::{Foodgroup, Manufacturer, Nutrient};

verus! {

/// How a nutrient value is derived for a food.
pub struct Derivationview {
    pub code: String,
    pub description: String,
}

/// The category assigned to a food.
pub struct FoodgroupView {
    pub id: i32,
    pub group: String,
}

impl FoodgroupView {
    pub fn create(fg: &Foodgroup) -> (v: Self)
        ensures
            v.id == fg.id,
            v.group@ == fg.description@,
    {
        FoodgroupView { id: fg.id, group: fg.description.clone() }
    }
}

/// The manufacturer (owner) assigned to a food.
pub struct ManufacturerView {
    pub id: i32,
    pub name: String,
}

impl ManufacturerView {
    pub fn create(m: &Manufacturer) -> (v: Self)
        ensures
            v.id == m.id,
            v.name@ == m.name@,
    {
        ManufacturerView { id: m.id, name: m.name.clone() }
    }
}

/// The chemical constituent of a food, as shown to callers.
pub struct Nutrientview {
    pub nbr: String,
    pub name: String,
    pub unit: String,
}

impl Nutrientview {
    pub fn create(n: &Nutrient) -> (v: Self)
        ensures
            v.nbr@ == n.nutrientno@,
            v.name@ == n.description@,
            v.unit@ == n.unit@,
    {
        Nutrientview {
            nbr: n.nutrientno.clone(),
            name: n.description.clone(),
            unit: n.unit.clone(),
        }
    }
}

/// Count of the items a query returns.
pub struct Querycount {
    pub count: i32,
}

} // verus!
