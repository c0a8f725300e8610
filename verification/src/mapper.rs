//! Record mappers: each turns one positional record of a tabular file
//! into its typed transfer structure, and that structure into an
//! insertable row.
//!
//! Field policy, deliberate and not silently lossy: a blank date falls
//! back to the epoch sentinel and an unparsable serving size to zero,
//! while a malformed non-blank date, or a bad number in a field that
//! must be numeric, fails the record.

use vstd::prelude::*;
use crate::dates::{date_text_valid, parse_date_field, Timestamp};
use crate::errors::LoadError;
use crate::models::{Derivation, Food, Nutrient, Nutrientdata};
use crate::numbers::{
    int_dec_val, int_dec_valid, micro_signed_val, micro_signed_valid, micro_val, micro_valid,
    parse_i32, parse_micro,
};
use crate::store::{brand_dim, dim_resolve, fg_dim, normalize_key, Store};

verus! {

/// A date field is blank, or names a real calendar date.
pub open spec fn date_field_ok(s: Seq<char>) -> bool {
    s.len() == 0 || date_text_valid(s)
}

/// The timestamp a date field maps to.
pub open spec fn date_field_stamp(s: Seq<char>) -> Timestamp {
    if s.len() == 0 {
        Timestamp { year: 1970, month: 1, day: 1, hour: 19, minute: 0, second: 0 }
    } else {
        Timestamp {
            year: crate::dates::date_text_year(s) as u32,
            month: crate::dates::date_text_month(s) as u32,
            day: crate::dates::date_text_day(s) as u32,
            hour: 19,
            minute: 0,
            second: 0,
        }
    }
}

/// The serving size a serving-size field maps to, in micro units: the
/// parsed value, or zero when the text does not parse as a number.
pub open spec fn serving_micro_of(s: Seq<char>) -> int {
    if micro_signed_valid(s) && -(i64::MAX as int) <= micro_signed_val(s) <= (i64::MAX as int) {
        micro_signed_val(s)
    } else {
        0
    }
}

/// A signed integer field parses and fits the id type.
pub open spec fn id_field_ok(s: Seq<char>) -> bool {
    int_dec_valid(s) && -(i32::MAX as int) <= int_dec_val(s) <= (i32::MAX as int)
}

/// An amount field parses as an unsigned decimal fraction that fits.
pub open spec fn amount_field_ok(s: Seq<char>) -> bool {
    micro_valid(s) && micro_val(s) <= u64::MAX
}

/// The number of fields a merged food record carries.
pub const FOOD_REC_ARITY: usize = 20;

/// A merged food record the driver can load: wide enough, and each of
/// its three date fields blank or a real date.
pub open spec fn food_rec_ok(rec: Seq<Seq<char>>) -> bool {
    &&& rec.len() >= FOOD_REC_ARITY as int
    &&& date_field_ok(rec[4])
    &&& date_field_ok(rec[17])
    &&& date_field_ok(rec[18])
}

/// The transfer structure of one merged food-and-branded record.
pub struct Foodcsv {
    pub fdc_id: String,
    pub datatype: String,
    pub description: String,
    pub blank: String,
    pub date_published: String,
    pub fdc_id_two: String,
    pub owner: String,
    pub brand: String,
    pub subbrand: String,
    pub upc: String,
    pub ingredients: String,
    pub not_significant: String,
    pub serving_size: String,
    pub serving_unit: String,
    pub serving_description: String,
    pub foodgroup: String,
    pub datasource: String,
    pub date_modified: String,
    pub date_available: String,
    pub country: String,
}

impl Foodcsv {
    /// Reads the transfer structure off a merged record, by position.
    pub fn from_record(rec: &Vec<String>) -> (r: Result<Foodcsv, LoadError>)
        ensures
            r is Ok <==> rec@.len() >= FOOD_REC_ARITY,
            r is Err ==> r == Err::<Foodcsv, LoadError>(LoadError::ShortRecord),
            r matches Ok(fc) ==> {
                let d = rec.deep_view();
                &&& fc.fdc_id@ == d[0]
                &&& fc.datatype@ == d[1]
                &&& fc.description@ == d[2]
                &&& fc.blank@ == d[3]
                &&& fc.date_published@ == d[4]
                &&& fc.fdc_id_two@ == d[5]
                &&& fc.owner@ == d[6]
                &&& fc.brand@ == d[7]
                &&& fc.subbrand@ == d[8]
                &&& fc.upc@ == d[9]
                &&& fc.ingredients@ == d[10]
                &&& fc.not_significant@ == d[11]
                &&& fc.serving_size@ == d[12]
                &&& fc.serving_unit@ == d[13]
                &&& fc.serving_description@ == d[14]
                &&& fc.foodgroup@ == d[15]
                &&& fc.datasource@ == d[16]
                &&& fc.date_modified@ == d[17]
                &&& fc.date_available@ == d[18]
                &&& fc.country@ == d[19]
            },
    {
        if rec.len() < FOOD_REC_ARITY {
            return Err(LoadError::ShortRecord);
        }
        Ok(
            Foodcsv {
                fdc_id: rec[0].clone(),
                datatype: rec[1].clone(),
                description: rec[2].clone(),
                blank: rec[3].clone(),
                date_published: rec[4].clone(),
                fdc_id_two: rec[5].clone(),
                owner: rec[6].clone(),
                brand: rec[7].clone(),
                subbrand: rec[8].clone(),
                upc: rec[9].clone(),
                ingredients: rec[10].clone(),
                not_significant: rec[11].clone(),
                serving_size: rec[12].clone(),
                serving_unit: rec[13].clone(),
                serving_description: rec[14].clone(),
                foodgroup: rec[15].clone(),
                datasource: rec[16].clone(),
                date_modified: rec[17].clone(),
                date_available: rec[18].clone(),
                country: rec[19].clone(),
            },
        )
    }

    /// Builds an insertable food row: copies the text fields, applies
    /// the date and serving-size policies, and resolves the food-group
    /// and brand-owner dimensions, creating rows on first occurrence.
    /// A malformed non-blank date fails the record before any
    /// dimension row is touched.
    pub fn create_food(&self, store: &mut Store) -> (r: Result<Food, LoadError>)
        requires
            old(store).wf(),
            old(store).food_groups@.len() + 1 < i32::MAX,
            old(store).brands@.len() + 1 < i32::MAX,
        ensures
            final(store).wf(),
            r is Ok <==> date_field_ok(self.date_published@) && date_field_ok(
                self.date_modified@,
            ) && date_field_ok(self.date_available@),
            r is Err ==> r == Err::<Food, LoadError>(LoadError::FieldParse) && *final(store)
                == *old(store),
            final(store).nutrients == old(store).nutrients,
            final(store).derivations == old(store).derivations,
            final(store).foods == old(store).foods,
            final(store).nutrient_data == old(store).nutrient_data,
            r matches Ok(f) ==> {
                let fgr = dim_resolve(
                    fg_dim(old(store).food_groups@),
                    normalize_key(self.foodgroup@),
                );
                let br = dim_resolve(brand_dim(old(store).brands@), normalize_key(self.owner@));
                &&& fg_dim(final(store).food_groups@) == fgr.0
                &&& brand_dim(final(store).brands@) == br.0
                &&& f.food_group_id as int == fgr.1
                &&& f.brand_id as int == br.1
                &&& f.food_group_id >= 1
                &&& f.brand_id >= 1
                &&& f.id == 0
                &&& f.upc@ == self.upc@
                &&& f.fdc_id@ == self.fdc_id@
                &&& f.description@ == self.description@
                &&& f.datasource@ == self.datasource@
                &&& (f.serving_unit matches Some(u) && u@ == self.serving_unit@)
                &&& (f.serving_description matches Some(u) && u@ == self.serving_description@)
                &&& (f.country matches Some(u) && u@ == self.country@)
                &&& (f.ingredients matches Some(u) && u@ == self.ingredients@)
                &&& (f.serving_size matches Some(sv) && sv as int == serving_micro_of(
                    self.serving_size@,
                ))
                &&& f.publication_date == date_field_stamp(self.date_published@)
                &&& f.modified_date == date_field_stamp(self.date_modified@)
                &&& f.available_date == date_field_stamp(self.date_available@)
            },
    {
        let pdate = match parse_date_field(self.date_published.as_str()) {
            Ok(t) => t,
            Err(_) => {
                return Err(LoadError::FieldParse);
            },
        };
        let mdate = match parse_date_field(self.date_modified.as_str()) {
            Ok(t) => t,
            Err(_) => {
                return Err(LoadError::FieldParse);
            },
        };
        let adate = match parse_date_field(self.date_available.as_str()) {
            Ok(t) => t,
            Err(_) => {
                return Err(LoadError::FieldParse);
            },
        };
        let serving: i64 = match parse_micro(self.serving_size.as_str()) {
            Some(v) => v,
            None => 0,
        };
        let fg_id = store.resolve_or_create_food_group(self.foodgroup.as_str());
        let brand_id = store.resolve_or_create_brand(self.owner.as_str());
        Ok(
            Food {
                id: 0,
                publication_date: pdate,
                modified_date: mdate,
                available_date: adate,
                upc: self.upc.clone(),
                fdc_id: self.fdc_id.clone(),
                description: self.description.clone(),
                food_group_id: fg_id,
                brand_id,
                datasource: self.datasource.clone(),
                serving_size: Some(serving),
                serving_unit: Some(self.serving_unit.clone()),
                serving_description: Some(self.serving_description.clone()),
                country: Some(self.country.clone()),
                ingredients: Some(self.ingredients.clone()),
            },
        )
    }
}

/// The number of fields a measurement record carries.
pub const NUTDATA_REC_ARITY: usize = 11;

/// One measurement record of the nutrient-data file.
pub struct NutdataCsv {
    pub id: i32,
    pub fdc_id: String,
    pub nutrient_id: i32,
    /// Amount per 100 reference units, in micro units.
    pub amount: u64,
    pub data_points: String,
    pub derivation_id: i32,
    pub min: String,
    pub max: String,
    pub median: String,
    pub footnote: String,
    pub min_year: String,
}

/// Every numeric field of a measurement record parses.
pub open spec fn nutdata_rec_ok(rec: Seq<Seq<char>>) -> bool {
    &&& rec.len() >= NUTDATA_REC_ARITY as int
    &&& id_field_ok(rec[0])
    &&& id_field_ok(rec[2])
    &&& amount_field_ok(rec[3])
    &&& id_field_ok(rec[5])
}

impl NutdataCsv {
    /// Reads the transfer structure off a measurement record.  A
    /// record with too few fields, or with a numeric field that does
    /// not parse, fails.
    pub fn from_record(rec: &Vec<String>) -> (r: Result<NutdataCsv, LoadError>)
        ensures
            r is Ok <==> nutdata_rec_ok(rec.deep_view()),
            r == Err::<NutdataCsv, LoadError>(LoadError::ShortRecord) <==> rec@.len() < (
            NUTDATA_REC_ARITY as int),
            r is Err ==> r == Err::<NutdataCsv, LoadError>(LoadError::ShortRecord) || r == Err::<
                NutdataCsv,
                LoadError,
            >(LoadError::FieldParse),
            r matches Ok(nc) ==> {
                let d = rec.deep_view();
                &&& nc.id as int == int_dec_val(d[0])
                &&& nc.fdc_id@ == d[1]
                &&& nc.nutrient_id as int == int_dec_val(d[2])
                &&& nc.amount == micro_val(d[3])
                &&& nc.data_points@ == d[4]
                &&& nc.derivation_id as int == int_dec_val(d[5])
                &&& nc.min@ == d[6]
                &&& nc.max@ == d[7]
                &&& nc.median@ == d[8]
                &&& nc.footnote@ == d[9]
                &&& nc.min_year@ == d[10]
            },
    {
        if rec.len() < NUTDATA_REC_ARITY {
            return Err(LoadError::ShortRecord);
        }
        let id = match parse_i32(rec[0].as_str()) {
            Some(v) => v,
            None => {
                return Err(LoadError::FieldParse);
            },
        };
        let nutrient_id = match parse_i32(rec[2].as_str()) {
            Some(v) => v,
            None => {
                return Err(LoadError::FieldParse);
            },
        };
        let amount = match crate::numbers::parse_micro_unsigned(rec[3].as_str()) {
            Some(v) => v,
            None => {
                return Err(LoadError::FieldParse);
            },
        };
        let derivation_id = match parse_i32(rec[5].as_str()) {
            Some(v) => v,
            None => {
                return Err(LoadError::FieldParse);
            },
        };
        Ok(
            NutdataCsv {
                id,
                fdc_id: rec[1].clone(),
                nutrient_id,
                amount,
                data_points: rec[4].clone(),
                derivation_id,
                min: rec[6].clone(),
                max: rec[7].clone(),
                median: rec[8].clone(),
                footnote: rec[9].clone(),
                min_year: rec[10].clone(),
            },
        )
    }

    /// Shapes a measurement row for the store: the statistical fields
    /// stay empty, and the portion value starts at the raw amount
    /// until the owning food's serving size is applied.
    pub fn create_nutdata(&self, fid: i32) -> (nd: Nutrientdata)
        ensures
            nd.id == 0,
            nd.value == self.amount,
            nd.portion_value == self.amount,
            nd.standard_error is None,
            nd.minimum is None,
            nd.maximum is None,
            nd.median is None,
            nd.derivation_id == self.derivation_id,
            nd.nutrient_id == self.nutrient_id,
            nd.food_id == fid,
    {
        Nutrientdata {
            id: 0,
            value: self.amount,
            portion_value: self.amount,
            standard_error: None,
            minimum: None,
            maximum: None,
            median: None,
            derivation_id: self.derivation_id,
            nutrient_id: self.nutrient_id,
            food_id: fid,
        }
    }
}

/// The number of fields a nutrient-definition record carries.
pub const NUT_REC_ARITY: usize = 5;

/// One record of the nutrient-definition file.
pub struct Nutcsv {
    pub id: i32,
    pub name: String,
    pub unit: String,
    pub nbr: String,
    pub order: String,
}

/// A nutrient-definition record is wide enough and its id parses.
pub open spec fn nutcsv_rec_ok(rec: Seq<Seq<char>>) -> bool {
    rec.len() >= NUT_REC_ARITY as int && id_field_ok(rec[0])
}

impl Nutcsv {
    /// Reads the transfer structure off a nutrient-definition record.
    pub fn from_record(rec: &Vec<String>) -> (r: Result<Nutcsv, LoadError>)
        ensures
            r is Ok <==> nutcsv_rec_ok(rec.deep_view()),
            r == Err::<Nutcsv, LoadError>(LoadError::ShortRecord) <==> rec@.len() < (
            NUT_REC_ARITY as int),
            r is Err ==> r == Err::<Nutcsv, LoadError>(LoadError::ShortRecord) || r == Err::<
                Nutcsv,
                LoadError,
            >(LoadError::FieldParse),
            r matches Ok(nc) ==> {
                let d = rec.deep_view();
                &&& nc.id as int == int_dec_val(d[0])
                &&& nc.name@ == d[1]
                &&& nc.unit@ == d[2]
                &&& nc.nbr@ == d[3]
                &&& nc.order@ == d[4]
            },
    {
        if rec.len() < NUT_REC_ARITY {
            return Err(LoadError::ShortRecord);
        }
        let id = match parse_i32(rec[0].as_str()) {
            Some(v) => v,
            None => {
                return Err(LoadError::FieldParse);
            },
        };
        Ok(
            Nutcsv {
                id,
                name: rec[1].clone(),
                unit: rec[2].clone(),
                nbr: rec[3].clone(),
                order: rec[4].clone(),
            },
        )
    }

    /// Builds the nutrient-definition row, loaded verbatim: the id is
    /// pre-assigned by the source and trusted.
    pub fn create_nutrient(&self) -> (n: Nutrient)
        ensures
            n.id == self.id,
            n.description@ == self.name@,
            n.unit@ == self.unit@,
            n.nutrientno@ == self.nbr@,
    {
        Nutrient {
            id: self.id,
            description: self.name.clone(),
            unit: self.unit.clone(),
            nutrientno: self.nbr.clone(),
        }
    }
}

/// The number of fields a derivation-code record carries.
pub const DERV_REC_ARITY: usize = 4;

/// One record of the derivation-code file.
pub struct Dervcsv {
    pub id: i32,
    pub code: String,
    pub description: String,
    pub source: String,
}

/// A derivation record is wide enough and its id parses.
pub open spec fn dervcsv_rec_ok(rec: Seq<Seq<char>>) -> bool {
    rec.len() >= DERV_REC_ARITY as int && id_field_ok(rec[0])
}

impl Dervcsv {
    /// Reads the transfer structure off a derivation-code record.
    pub fn from_record(rec: &Vec<String>) -> (r: Result<Dervcsv, LoadError>)
        ensures
            r is Ok <==> dervcsv_rec_ok(rec.deep_view()),
            r == Err::<Dervcsv, LoadError>(LoadError::ShortRecord) <==> rec@.len() < (
            DERV_REC_ARITY as int),
            r is Err ==> r == Err::<Dervcsv, LoadError>(LoadError::ShortRecord) || r == Err::<
                Dervcsv,
                LoadError,
            >(LoadError::FieldParse),
            r matches Ok(dc) ==> {
                let d = rec.deep_view();
                &&& dc.id as int == int_dec_val(d[0])
                &&& dc.code@ == d[1]
                &&& dc.description@ == d[2]
                &&& dc.source@ == d[3]
            },
    {
        if rec.len() < DERV_REC_ARITY {
            return Err(LoadError::ShortRecord);
        }
        let id = match parse_i32(rec[0].as_str()) {
            Some(v) => v,
            None => {
                return Err(LoadError::FieldParse);
            },
        };
        Ok(
            Dervcsv {
                id,
                code: rec[1].clone(),
                description: rec[2].clone(),
                source: rec[3].clone(),
            },
        )
    }

    /// Builds the derivation row, loaded verbatim.
    pub fn create_derivation(&self) -> (d: Derivation)
        ensures
            d.id == self.id,
            d.code@ == self.code@,
            d.description@ == self.description@,
    {
        Derivation {
            id: self.id,
            code: self.code.clone(),
            description: self.description.clone(),
        }
    }
}

} // verus!
