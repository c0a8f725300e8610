//! Driver routines: one per file type.  Each takes the already-read
//! tabular data, runs its records through the mappers and resolvers,
//! and loads the resulting rows into the store, reporting how many
//! rows were persisted.

use vstd::prelude::*;
use crate::batch::{BatchLoader, BATCH_SIZE};
use crate::dataset::{col_of, join_rows, rows_of, DataSet};
use crate::errors::LoadError;
use crate::mapper::{
    date_field_stamp, dervcsv_rec_ok, food_rec_ok, nutcsv_rec_ok, nutdata_rec_ok,
    serving_micro_of, Dervcsv, Foodcsv, Nutcsv, NutdataCsv,
};
use crate::models::{Derivation, Food, Nutrient, Nutrientdata};
use crate::numbers::{int_dec_val, micro_val};
use crate::portion::{derive_portion_value_checked, portion_of};
use crate::store::{brand_dim, fg_dim, normalize_key, nut_dim, reconcile_spec, Store};

verus! {

/// Loads the nutrient-definition file: every record becomes one
/// nutrient row, verbatim, inserted in one operation.  A record that
/// is too short or whose id does not parse is fatal for the file, and
/// the store is then untouched.
pub fn process_nutrients(data: &DataSet, store: &mut Store) -> (r: Result<usize, LoadError>)
    ensures
        final(store).food_groups == old(store).food_groups,
        final(store).brands == old(store).brands,
        final(store).derivations == old(store).derivations,
        final(store).foods == old(store).foods,
        final(store).nutrient_data == old(store).nutrient_data,
        r is Ok <==> (forall|i: int|
            0 <= i < data.records@.len() ==> nutcsv_rec_ok(#[trigger] rows_of(data.records)[i])),
        r is Err ==> *final(store) == *old(store) && (exists|i: int|
            0 <= i < data.records@.len() && !nutcsv_rec_ok(#[trigger] rows_of(data.records)[i])),
        r matches Ok(c) ==> c == data.records@.len(),
        r matches Ok(c) ==> final(store).nutrients@.len() == old(store).nutrients@.len() + c,
        r is Ok ==> (forall|i: int|
            0 <= i < old(store).nutrients@.len() ==> final(store).nutrients@[i] == old(
                store,
            ).nutrients@[i]),
        r matches Ok(c) ==> (forall|i: int|
            0 <= i < c ==> {
                let n = final(store).nutrients@[old(store).nutrients@.len() + i];
                let rec = #[trigger] rows_of(data.records)[i];
                &&& n.id as int == int_dec_val(rec[0])
                &&& n.description@ == rec[1]
                &&& n.unit@ == rec[2]
                &&& n.nutrientno@ == rec[3]
            }),
{
    let n = data.records.len();
    let mut nuts: Vec<Nutrient> = Vec::new();
    let mut i: usize = 0;
    while i < n
        invariant
            0 <= i <= n,
            n == data.records@.len(),
            nuts@.len() == i,
            forall|j: int|
                0 <= j < i ==> nutcsv_rec_ok(#[trigger] rows_of(data.records)[j]),
            forall|j: int|
                0 <= j < i ==> {
                    let nu = #[trigger] nuts@[j];
                    let rec = rows_of(data.records)[j];
                    &&& nu.id as int == int_dec_val(rec[0])
                    &&& nu.description@ == rec[1]
                    &&& nu.unit@ == rec[2]
                    &&& nu.nutrientno@ == rec[3]
                },
        decreases n - i,
    {
        proof {
            assert(rows_of(data.records)[i as int] == data.records@[i as int].deep_view());
        }
        let ncsv = match Nutcsv::from_record(&data.records[i]) {
            Ok(v) => v,
            Err(e) => {
                return Err(e);
            },
        };
        let nut = ncsv.create_nutrient();
        nuts.push(nut);
        i = i + 1;
    }
    let count = nuts.len();
    store.nutrients.append(&mut nuts);
    Ok(count)
}

/// Loads the derivation-code file: every record becomes one derivation
/// row, verbatim, inserted in one operation.  A record that is too
/// short or whose id does not parse is fatal for the file, and the
/// store is then untouched.
pub fn process_derivations(data: &DataSet, store: &mut Store) -> (r: Result<usize, LoadError>)
    ensures
        final(store).food_groups == old(store).food_groups,
        final(store).brands == old(store).brands,
        final(store).nutrients == old(store).nutrients,
        final(store).foods == old(store).foods,
        final(store).nutrient_data == old(store).nutrient_data,
        r is Ok <==> (forall|i: int|
            0 <= i < data.records@.len() ==> dervcsv_rec_ok(#[trigger] rows_of(data.records)[i])),
        r is Err ==> *final(store) == *old(store) && (exists|i: int|
            0 <= i < data.records@.len() && !dervcsv_rec_ok(#[trigger] rows_of(data.records)[i])),
        r matches Ok(c) ==> c == data.records@.len(),
        r matches Ok(c) ==> final(store).derivations@.len() == old(store).derivations@.len() + c,
        r is Ok ==> (forall|i: int|
            0 <= i < old(store).derivations@.len() ==> final(store).derivations@[i] == old(
                store,
            ).derivations@[i]),
        r matches Ok(c) ==> (forall|i: int|
            0 <= i < c ==> {
                let d = final(store).derivations@[old(store).derivations@.len() + i];
                let rec = #[trigger] rows_of(data.records)[i];
                &&& d.id as int == int_dec_val(rec[0])
                &&& d.code@ == rec[1]
                &&& d.description@ == rec[2]
            }),
{
    let n = data.records.len();
    let mut dervs: Vec<Derivation> = Vec::new();
    let mut i: usize = 0;
    while i < n
        invariant
            0 <= i <= n,
            n == data.records@.len(),
            dervs@.len() == i,
            forall|j: int|
                0 <= j < i ==> dervcsv_rec_ok(#[trigger] rows_of(data.records)[j]),
            forall|j: int|
                0 <= j < i ==> {
                    let dv = #[trigger] dervs@[j];
                    let rec = rows_of(data.records)[j];
                    &&& dv.id as int == int_dec_val(rec[0])
                    &&& dv.code@ == rec[1]
                    &&& dv.description@ == rec[2]
                },
        decreases n - i,
    {
        proof {
            assert(rows_of(data.records)[i as int] == data.records@[i as int].deep_view());
        }
        let dcsv = match Dervcsv::from_record(&data.records[i]) {
            Ok(v) => v,
            Err(e) => {
                return Err(e);
            },
        };
        let derv = dcsv.create_derivation();
        dervs.push(derv);
        i = i + 1;
    }
    let count = dervs.len();
    store.derivations.append(&mut dervs);
    Ok(count)
}


/// Index of the first food row carrying the external id `fdc`, or -1
/// when none does.
pub open spec fn food_first_idx(foods: Seq<Food>, fdc: Seq<char>) -> int
    decreases foods.len(),
{
    if foods.len() == 0 {
        -1
    } else if foods[0].fdc_id@ == fdc {
        0
    } else {
        let r = food_first_idx(foods.drop_first(), fdc);
        if r == -1 {
            -1
        } else {
            1 + r
        }
    }
}

pub proof fn lemma_food_first_idx_at(foods: Seq<Food>, fdc: Seq<char>, i: int)
    requires
        0 <= i < foods.len(),
        foods[i].fdc_id@ == fdc,
        forall|j: int| 0 <= j < i ==> (#[trigger] foods[j]).fdc_id@ != fdc,
    ensures
        food_first_idx(foods, fdc) == i,
    decreases i,
{
    if i > 0 {
        assert forall|j: int| 0 <= j < i - 1 implies (#[trigger] foods.drop_first()[j]).fdc_id@
            != fdc by {
            assert(foods.drop_first()[j] == foods[j + 1]);
        }
        assert(foods.drop_first()[i - 1] == foods[i]);
        lemma_food_first_idx_at(foods.drop_first(), fdc, i - 1);
    }
}

pub proof fn lemma_food_first_idx_missing(foods: Seq<Food>, fdc: Seq<char>)
    requires
        forall|j: int| 0 <= j < foods.len() ==> (#[trigger] foods[j]).fdc_id@ != fdc,
    ensures
        food_first_idx(foods, fdc) == -1,
    decreases foods.len(),
{
    if foods.len() > 0 {
        assert forall|j: int| 0 <= j < foods.len() - 1 implies (#[trigger]
        foods.drop_first()[j]).fdc_id@ != fdc by {
            assert(foods.drop_first()[j] == foods[j + 1]);
        }
        lemma_food_first_idx_missing(foods.drop_first(), fdc);
    }
}

/// Finds the first food row with the given external id.
fn food_index_by_fdc(foods: &Vec<Food>, fdc: &str) -> (r: Option<usize>)
    ensures
        r is Some <==> food_first_idx(foods@, fdc@) >= 0,
        r matches Some(i) ==> i as int == food_first_idx(foods@, fdc@) && i < foods@.len(),
{
    let n = foods.len();
    let mut i: usize = 0;
    while i < n
        invariant
            0 <= i <= n,
            n == foods@.len(),
            forall|j: int| 0 <= j < i ==> (#[trigger] foods@[j]).fdc_id@ != fdc@,
        decreases n - i,
    {
        if crate::text::str_eq(foods[i].fdc_id.as_str(), fdc) {
            proof {
                lemma_food_first_idx_at(foods@, fdc@, i as int);
            }
            return Some(i);
        }
        i = i + 1;
    }
    proof {
        lemma_food_first_idx_missing(foods@, fdc@);
    }
    None
}

/// A measurement record the driver can load: its numeric fields parse,
/// its food is in the store, and the derived portion value fits.
pub open spec fn nutdata_rec_loadable(rec: Seq<Seq<char>>, foods: Seq<Food>) -> bool {
    &&& nutdata_rec_ok(rec)
    &&& food_first_idx(foods, rec[1]) >= 0
    &&& portion_of(
        micro_val(rec[3]) as int,
        foods[food_first_idx(foods, rec[1])].serving_size,
    ) <= u64::MAX
}

/// The measurement row one record becomes.
pub open spec fn nd_of_rec(
    rec: Seq<Seq<char>>,
    foods: Seq<Food>,
    nuts: Seq<(int, Seq<char>)>,
) -> Nutrientdata {
    let f = foods[food_first_idx(foods, rec[1])];
    Nutrientdata {
        id: 0,
        value: micro_val(rec[3]) as u64,
        portion_value: portion_of(micro_val(rec[3]) as int, f.serving_size) as u64,
        standard_error: None,
        minimum: None,
        maximum: None,
        median: None,
        derivation_id: int_dec_val(rec[5]) as i32,
        nutrient_id: reconcile_spec(nuts, int_dec_val(rec[2])) as i32,
        food_id: f.id,
    }
}

/// The record's nutrient reference resolves; an unresolvable one is
/// skipped, never loaded.
pub open spec fn nutdata_rec_kept(rec: Seq<Seq<char>>, nuts: Seq<(int, Seq<char>)>) -> bool {
    reconcile_spec(nuts, int_dec_val(rec[2])) != -1
}

/// The measurement rows a run of records loads, in order: one row per
/// record whose nutrient reference resolves.
pub open spec fn nutdata_out(
    recs: Seq<Seq<Seq<char>>>,
    foods: Seq<Food>,
    nuts: Seq<(int, Seq<char>)>,
) -> Seq<Nutrientdata>
    decreases recs.len(),
{
    if recs.len() == 0 {
        Seq::empty()
    } else {
        (if nutdata_rec_kept(recs[0], nuts) {
            seq![nd_of_rec(recs[0], foods, nuts)]
        } else {
            Seq::empty()
        }) + nutdata_out(recs.drop_first(), foods, nuts)
    }
}

proof fn lemma_nutdata_out_snoc(
    recs: Seq<Seq<Seq<char>>>,
    foods: Seq<Food>,
    nuts: Seq<(int, Seq<char>)>,
    rec: Seq<Seq<char>>,
)
    ensures
        nutdata_out(recs.push(rec), foods, nuts) =~= nutdata_out(recs, foods, nuts) + (
        if nutdata_rec_kept(rec, nuts) {
            seq![nd_of_rec(rec, foods, nuts)]
        } else {
            Seq::empty()
        }),
        nutdata_out(recs, foods, nuts).len() <= recs.len(),
    decreases recs.len(),
{
    if recs.len() == 0 {
        assert(recs.push(rec).drop_first() =~= Seq::<Seq<Seq<char>>>::empty());
        assert(recs.push(rec)[0] == rec);
        let t: Seq<Nutrientdata> = if nutdata_rec_kept(rec, nuts) {
            seq![nd_of_rec(rec, foods, nuts)]
        } else {
            Seq::empty()
        };
        assert(nutdata_out(recs.push(rec), foods, nuts) == t + nutdata_out(
            Seq::empty(),
            foods,
            nuts,
        ));
        assert(t + Seq::<Nutrientdata>::empty() =~= Seq::<Nutrientdata>::empty() + t);
    } else {
        assert(recs.push(rec).drop_first() =~= recs.drop_first().push(rec));
        assert(recs.push(rec)[0] == recs[0]);
        lemma_nutdata_out_snoc(recs.drop_first(), foods, nuts, rec);
        let h: Seq<Nutrientdata> = if nutdata_rec_kept(recs[0], nuts) {
            seq![nd_of_rec(recs[0], foods, nuts)]
        } else {
            Seq::empty()
        };
        let t: Seq<Nutrientdata> = if nutdata_rec_kept(rec, nuts) {
            seq![nd_of_rec(rec, foods, nuts)]
        } else {
            Seq::empty()
        };
        let b = nutdata_out(recs.drop_first(), foods, nuts);
        assert(nutdata_out(recs.push(rec), foods, nuts) == h + (b + t));
        assert(h + (b + t) =~= (h + b) + t);
    }
}

proof fn lemma_nutdata_out_take_succ(
    recs: Seq<Seq<Seq<char>>>,
    foods: Seq<Food>,
    nuts: Seq<(int, Seq<char>)>,
    c: int,
)
    requires
        0 <= c < recs.len(),
    ensures
        nutdata_out(recs.take(c + 1), foods, nuts) =~= nutdata_out(recs.take(c), foods, nuts) + (
        if nutdata_rec_kept(recs[c], nuts) {
            seq![nd_of_rec(recs[c], foods, nuts)]
        } else {
            Seq::empty()
        }),
        nutdata_out(recs.take(c), foods, nuts).len() <= c,
{
    assert(recs.take(c + 1) =~= recs.take(c).push(recs[c]));
    lemma_nutdata_out_snoc(recs.take(c), foods, nuts, recs[c]);
}

/// Loads the nutrient-measurement file.  Each record's food is looked
/// up by external id (fatal when absent), its per-portion amount is
/// derived from the food's serving size, and its nutrient reference is
/// reconciled; a record whose reference resolves to neither a business
/// code nor a surrogate id is skipped, and ingestion continues.  Rows
/// move to the store in bounded batches, with a final flush; a fatal
/// error leaves every batch flushed before it durable.  Returns how
/// many rows were loaded; the records skipped are the difference from
/// the record count.
pub fn process_nutdata(data: &DataSet, store: &mut Store) -> (r: Result<usize, LoadError>)
    requires
        old(store).nutrient_data@.len() + data.records@.len() + BATCH_SIZE <= usize::MAX,
    ensures
        final(store).food_groups == old(store).food_groups,
        final(store).brands == old(store).brands,
        final(store).nutrients == old(store).nutrients,
        final(store).derivations == old(store).derivations,
        final(store).foods == old(store).foods,
        r is Ok <==> (forall|i: int|
            0 <= i < data.records@.len() ==> nutdata_rec_loadable(
                #[trigger] rows_of(data.records)[i],
                old(store).foods@,
            )),
        r matches Ok(c) ==> final(store).nutrient_data@ == old(store).nutrient_data@
            + nutdata_out(
            rows_of(data.records),
            old(store).foods@,
            nut_dim(old(store).nutrients@),
        ) && c == nutdata_out(
            rows_of(data.records),
            old(store).foods@,
            nut_dim(old(store).nutrients@),
        ).len(),
        r is Err ==> (exists|i: int|
            0 <= i < data.records@.len() && !nutdata_rec_loadable(
                #[trigger] rows_of(data.records)[i],
                old(store).foods@,
            )),
        r is Err ==> (exists|k: int, t: int|
            0 <= k <= data.records@.len() && 0 <= t <= nutdata_out(
                rows_of(data.records).take(k),
                old(store).foods@,
                nut_dim(old(store).nutrients@),
            ).len() && final(store).nutrient_data@ == old(store).nutrient_data@ + nutdata_out(
                rows_of(data.records).take(k),
                old(store).foods@,
                nut_dim(old(store).nutrients@),
            ).take(t)),
{
    let ghost recs = rows_of(data.records);
    let ghost foods0 = old(store).foods@;
    let ghost nuts0 = nut_dim(old(store).nutrients@);
    let n = data.records.len();
    let mut loader: BatchLoader<Nutrientdata> = BatchLoader::new(BATCH_SIZE);
    let mut i: usize = 0;
    assert(recs.take(0) =~= Seq::<Seq<Seq<char>>>::empty());
    while i < n
        invariant
            0 <= i <= n,
            n == data.records@.len(),
            recs == rows_of(data.records),
            foods0 == store.foods@,
            nuts0 == nut_dim(store.nutrients@),
            store.food_groups == old(store).food_groups,
            store.brands == old(store).brands,
            store.nutrients == old(store).nutrients,
            store.derivations == old(store).derivations,
            store.foods == old(store).foods,
            old(store).nutrient_data@.len() + n + BATCH_SIZE <= usize::MAX,
            loader.wf(),
            loader.batch_size == BATCH_SIZE,
            forall|j: int| 0 <= j < i ==> nutdata_rec_loadable(#[trigger] recs[j], foods0),
            store.nutrient_data@ + loader.buf@ == old(store).nutrient_data@ + nutdata_out(
                recs.take(i as int),
                foods0,
                nuts0,
            ),
            nutdata_out(recs.take(i as int), foods0, nuts0).len() <= i,
            loader.total == store.nutrient_data@.len() - old(store).nutrient_data@.len(),
        decreases n - i,
    {
        proof {
            assert(recs[i as int] == data.records@[i as int].deep_view());
        }
        let ndsv = match NutdataCsv::from_record(&data.records[i]) {
            Ok(v) => v,
            Err(e) => {
                proof {
                    lemma_store_prefix(
                        store.nutrient_data@,
                        loader.buf@,
                        old(store).nutrient_data@,
                        nutdata_out(recs.take(i as int), foods0, nuts0),
                    );
                }
                return Err(e);
            },
        };
        let fidx = match food_index_by_fdc(&store.foods, ndsv.fdc_id.as_str()) {
            Some(v) => v,
            None => {
                proof {
                    lemma_store_prefix(
                        store.nutrient_data@,
                        loader.buf@,
                        old(store).nutrient_data@,
                        nutdata_out(recs.take(i as int), foods0, nuts0),
                    );
                }
                return Err(LoadError::UnknownFood);
            },
        };
        let fid = store.foods[fidx].id;
        let serving = store.foods[fidx].serving_size;
        let portion = match derive_portion_value_checked(ndsv.amount, serving) {
            Some(v) => v,
            None => {
                proof {
                    lemma_store_prefix(
                        store.nutrient_data@,
                        loader.buf@,
                        old(store).nutrient_data@,
                        nutdata_out(recs.take(i as int), foods0, nuts0),
                    );
                }
                return Err(LoadError::ValueRange);
            },
        };
        let nid = store.reconcile_nutrient_key(ndsv.nutrient_id);
        proof {
            lemma_nutdata_out_take_succ(recs, foods0, nuts0, i as int);
            crate::store::lemma_dim_lookup_is_id(nuts0, crate::numbers::int_str(
                ndsv.nutrient_id as int,
            ));
        }
        if nid != -1 {
            let mut nd = ndsv.create_nutdata(fid);
            nd.portion_value = portion;
            nd.nutrient_id = nid;
            proof {
                assert(nd == nd_of_rec(recs[i as int], foods0, nuts0));
            }
            let ghost table_pre = store.nutrient_data@;
            let ghost buf_pre = loader.buf@;
            proof {
                assert((table_pre + loader.buf@).len() == table_pre.len() + loader.buf@.len());
                assert(loader.total <= nutdata_out(recs.take(i as int), foods0, nuts0).len());
                assert(loader.total <= i);
            }
            loader.stage(nd, &mut store.nutrient_data);
            proof {
                if buf_pre.len() + 1 == BATCH_SIZE {
                    assert(store.nutrient_data@ + loader.buf@ =~= table_pre + buf_pre.push(nd));
                } else {
                    assert(store.nutrient_data@ + loader.buf@ =~= table_pre + buf_pre.push(nd));
                }
                assert(table_pre + buf_pre.push(nd) =~= (table_pre + buf_pre) + seq![nd]);
                assert(store.nutrient_data@ + loader.buf@ =~= old(store).nutrient_data@
                    + nutdata_out(recs.take(i + 1), foods0, nuts0));
            }
        } else {
            proof {
                assert(!nutdata_rec_kept(recs[i as int], nuts0));
                assert(nutdata_out(recs.take(i + 1), foods0, nuts0) =~= nutdata_out(
                    recs.take(i as int),
                    foods0,
                    nuts0,
                ) + Seq::<Nutrientdata>::empty());
                assert(nutdata_out(recs.take(i + 1), foods0, nuts0) =~= nutdata_out(
                    recs.take(i as int),
                    foods0,
                    nuts0,
                ));
            }
        }
        i = i + 1;
    }
    let count = loader.finish(&mut store.nutrient_data);
    proof {
        assert(recs.take(n as int) =~= recs);
        assert(store.nutrient_data@ =~= old(store).nutrient_data@ + nutdata_out(
            recs,
            foods0,
            nuts0,
        ));
    }
    Ok(count)
}

proof fn lemma_store_prefix<T>(stored: Seq<T>, buf: Seq<T>, base: Seq<T>, out: Seq<T>)
    requires
        stored + buf == base + out,
        base.len() <= stored.len(),
    ensures
        stored.len() - base.len() <= out.len(),
        stored =~= base + out.take(stored.len() - base.len()),
{
    assert((stored + buf).len() == stored.len() + buf.len());
    assert((base + out).len() == base.len() + out.len());
    assert(stored.len() + buf.len() == base.len() + out.len());
    assert forall|j: int| 0 <= j < stored.len() implies stored[j] == (base + out.take(
        stored.len() - base.len(),
    ))[j] by {
        assert(stored[j] == (stored + buf)[j]);
        assert((stored + buf)[j] == (base + out)[j]);
    }
}


/// Some row of the dimension table pairs this id with this key.
pub open spec fn dim_pair_present(dim: Seq<(int, Seq<char>)>, id: int, key: Seq<char>) -> bool {
    exists|t: int| 0 <= t < dim.len() && #[trigger] dim[t] == (id, key)
}

/// The food row loaded for one merged record: its fields copy the
/// record under the mapping policies, its surrogate id follows its
/// position, and its two dimension keys stand resolved in the tables.
pub open spec fn food_row_matches(
    f: Food,
    rec: Seq<Seq<char>>,
    idx: int,
    fgdim: Seq<(int, Seq<char>)>,
    bdim: Seq<(int, Seq<char>)>,
) -> bool {
    &&& f.id as int == idx + 1
    &&& f.fdc_id@ == rec[0]
    &&& f.description@ == rec[2]
    &&& f.upc@ == rec[9]
    &&& f.datasource@ == rec[16]
    &&& (f.serving_unit matches Some(u) && u@ == rec[13])
    &&& (f.serving_description matches Some(u) && u@ == rec[14])
    &&& (f.country matches Some(u) && u@ == rec[19])
    &&& (f.ingredients matches Some(u) && u@ == rec[10])
    &&& (f.serving_size matches Some(sv) && sv as int == serving_micro_of(rec[12]))
    &&& f.publication_date == date_field_stamp(rec[4])
    &&& f.modified_date == date_field_stamp(rec[17])
    &&& f.available_date == date_field_stamp(rec[18])
    &&& f.food_group_id >= 1
    &&& f.brand_id >= 1
    &&& dim_pair_present(fgdim, f.food_group_id as int, normalize_key(rec[15]))
    &&& dim_pair_present(bdim, f.brand_id as int, normalize_key(rec[6]))
}

/// Loads the food file: joins the food and branded extracts on the
/// shared external id, maps every merged record to a food row with its
/// food-group and brand-owner keys resolved (created on first
/// occurrence), and loads the rows in bounded batches with a final
/// flush.  A missing key column, a record that is too short, or a
/// malformed non-blank date is fatal; joining against an empty extract
/// loads nothing and is no error.
pub fn process_foods(food_data: &mut DataSet, branded: &mut DataSet, store: &mut Store) -> (r:
    Result<usize, LoadError>)
    requires
        old(food_data).wf(),
        old(branded).wf(),
        old(store).wf(),
    ensures
        final(store).wf(),
        final(store).nutrients == old(store).nutrients,
        final(store).derivations == old(store).derivations,
        final(store).nutrient_data == old(store).nutrient_data,
        final(food_data).headers == old(food_data).headers,
        final(branded).headers == old(branded).headers,
        final(food_data).wf(),
        final(branded).wf(),
        rows_of(final(food_data).records).to_multiset() == rows_of(
            old(food_data).records,
        ).to_multiset(),
        rows_of(final(branded).records).to_multiset() == rows_of(
            old(branded).records,
        ).to_multiset(),
        r == Err::<usize, LoadError>(LoadError::ColumnNotFound) <==> col_of(
            old(food_data).headers.deep_view(),
            "fdc_id"@,
        ) == -1 || col_of(old(branded).headers.deep_view(), "fdc_id"@) == -1,
        r matches Ok(c) ==> {
            let joined = join_rows(
                rows_of(final(food_data).records),
                rows_of(final(branded).records),
                col_of(old(food_data).headers.deep_view(), "fdc_id"@),
                col_of(old(branded).headers.deep_view(), "fdc_id"@),
            );
            &&& c == joined.len()
            &&& final(store).foods@.len() == old(store).foods@.len() + c
            &&& (forall|j: int|
                0 <= j < old(store).foods@.len() ==> final(store).foods@[j] == old(
                    store,
                ).foods@[j])
            &&& (forall|j: int|
                0 <= j < c ==> food_row_matches(
                    final(store).foods@[old(store).foods@.len() + j],
                    #[trigger] joined[j],
                    old(store).foods@.len() + j,
                    fg_dim(final(store).food_groups@),
                    brand_dim(final(store).brands@),
                ))
            &&& (old(food_data).records@.len() == 0 || old(branded).records@.len() == 0 ==> c
                == 0)
        },
        r is Err ==> {
            let joined = join_rows(
                rows_of(final(food_data).records),
                rows_of(final(branded).records),
                col_of(old(food_data).headers.deep_view(), "fdc_id"@),
                col_of(old(branded).headers.deep_view(), "fdc_id"@),
            );
            ||| col_of(old(food_data).headers.deep_view(), "fdc_id"@) == -1
            ||| col_of(old(branded).headers.deep_view(), "fdc_id"@) == -1
            ||| (exists|j: int| 0 <= j < joined.len() && !food_rec_ok(#[trigger] joined[j]))
            ||| old(store).food_groups@.len() + joined.len() + 2 > i32::MAX
            ||| old(store).brands@.len() + joined.len() + 2 > i32::MAX
            ||| old(store).foods@.len() + joined.len() + 1 > i32::MAX
        },
        // dimension rows are only ever appended, never changed
        fg_dim(final(store).food_groups@).take(old(store).food_groups@.len() as int) == fg_dim(
            old(store).food_groups@,
        ),
        brand_dim(final(store).brands@).take(old(store).brands@.len() as int) == brand_dim(
            old(store).brands@,
        ),
        final(store).food_groups@.len() >= old(store).food_groups@.len(),
        final(store).brands@.len() >= old(store).brands@.len(),
        // a fatal error keeps every row flushed before it, and nothing else
        (forall|j: int|
            0 <= j < old(store).foods@.len() ==> final(store).foods@[j] == old(store).foods@[j]),
        r is Err ==> {
            let joined = join_rows(
                rows_of(final(food_data).records),
                rows_of(final(branded).records),
                col_of(old(food_data).headers.deep_view(), "fdc_id"@),
                col_of(old(branded).headers.deep_view(), "fdc_id"@),
            );
            exists|t: int|
                #![trigger joined.take(t)]
                0 <= t <= joined.len() && final(store).foods@.len() == old(store).foods@.len() + t
                    && (forall|j: int|
                    0 <= j < t ==> food_row_matches(
                        final(store).foods@[old(store).foods@.len() + j],
                        #[trigger] joined[j],
                        old(store).foods@.len() + j,
                        fg_dim(final(store).food_groups@),
                        brand_dim(final(store).brands@),
                    ))
        },
{
    let joined = match food_data.inner_join(branded, "fdc_id") {
        Ok(d) => d,
        Err(e) => {
            proof {
                let jr = join_rows(
                    rows_of(food_data.records),
                    rows_of(branded.records),
                    col_of(old(food_data).headers.deep_view(), "fdc_id"@),
                    col_of(old(branded).headers.deep_view(), "fdc_id"@),
                );
                assert(jr.take(0).len() == 0);
            }
            return Err(e);
        },
    };
    let ghost lk = col_of(old(food_data).headers.deep_view(), "fdc_id"@);
    let ghost rk = col_of(old(branded).headers.deep_view(), "fdc_id"@);
    let ghost jrecs = rows_of(joined.records);
    proof {
        assert(jrecs == join_rows(
            rows_of(food_data.records),
            rows_of(branded.records),
            lk,
            rk,
        ));
    }
    proof {
        crate::dataset::lemma_col_of_range(old(food_data).headers.deep_view(), "fdc_id"@);
        crate::dataset::lemma_col_of_range(old(branded).headers.deep_view(), "fdc_id"@);
    }
    let jn = joined.records.len();
    let base = store.foods.len();
    let ghost fg0 = fg_dim(store.food_groups@);
    let ghost bd0 = brand_dim(store.brands@);
    let ghost foods0 = store.foods@;
    let mut loader: BatchLoader<Food> = BatchLoader::new(BATCH_SIZE);
    let mut i: usize = 0;
    proof {
        assert(fg0.take(fg0.len() as int) =~= fg0);
        assert(bd0.take(bd0.len() as int) =~= bd0);
        assert(store.foods@ + loader.buf@ =~= foods0);
    }
    while i < jn
        invariant
            0 <= i <= jn,
            jn == joined.records@.len(),
            jrecs == rows_of(joined.records),
            i > 0 ==> base + i <= 0x7fffffff,
            food_data.headers == old(food_data).headers,
            branded.headers == old(branded).headers,
            food_data.wf(),
            branded.wf(),
            rows_of(food_data.records).to_multiset() == rows_of(
                old(food_data).records,
            ).to_multiset(),
            rows_of(branded.records).to_multiset() == rows_of(
                old(branded).records,
            ).to_multiset(),
            lk == col_of(old(food_data).headers.deep_view(), "fdc_id"@),
            rk == col_of(old(branded).headers.deep_view(), "fdc_id"@),
            lk >= 0,
            rk >= 0,
            jrecs == join_rows(rows_of(food_data.records), rows_of(branded.records), lk, rk),
            base == old(store).foods@.len(),
            foods0 == old(store).foods@,
            fg0 == fg_dim(old(store).food_groups@),
            bd0 == brand_dim(old(store).brands@),
            store.wf(),
            store.nutrients == old(store).nutrients,
            store.derivations == old(store).derivations,
            store.nutrient_data == old(store).nutrient_data,
            fg0.len() <= fg_dim(store.food_groups@).len() <= fg0.len() + i,
            bd0.len() <= brand_dim(store.brands@).len() <= bd0.len() + i,
            fg_dim(store.food_groups@).take(fg0.len() as int) == fg0,
            brand_dim(store.brands@).take(bd0.len() as int) == bd0,
            loader.wf(),
            loader.batch_size == BATCH_SIZE,
            store.foods@.len() >= base,
            loader.total == store.foods@.len() - base,
            (store.foods@ + loader.buf@).len() == base + i,
            forall|j: int| 0 <= j < base ==> (store.foods@ + loader.buf@)[j] == foods0[j],
            forall|j: int| 0 <= j < i ==> food_rec_ok(#[trigger] jrecs[j]),
            forall|j: int|
                0 <= j < i ==> food_row_matches(
                    (store.foods@ + loader.buf@)[base + j],
                    #[trigger] jrecs[j],
                    base + j,
                    fg_dim(store.food_groups@),
                    brand_dim(store.brands@),
                ),
        decreases jn - i,
    {
        proof {
            assert((store.foods@ + loader.buf@).len() == store.foods@.len() + loader.buf@.len());
            assert(jrecs[i as int] == joined.records@[i as int].deep_view());
        }
        if store.food_groups.len() >= 0x7ffffffe {
            proof {
                assert(fg_dim(store.food_groups@).len() == store.food_groups@.len());
                assert(fg0.len() == old(store).food_groups@.len());
                assert(old(store).food_groups@.len() + jn + 2 > i32::MAX);
            }
                proof {
                    assert(store.foods@ + loader.buf@ =~= foods0 + (store.foods@
                        + loader.buf@).skip(base as int));
                    lemma_store_prefix(
                        store.foods@,
                        loader.buf@,
                        foods0,
                        (store.foods@ + loader.buf@).skip(base as int),
                    );
                    assert((store.foods@ + loader.buf@).skip(base as int).len() == i);
                    let t0 = store.foods@.len() - base;
                    assert(jrecs.take(t0).len() == t0);
                    assert forall|j: int| 0 <= j < store.foods@.len() - base implies
                        food_row_matches(
                        store.foods@[base + j],
                        #[trigger] jrecs[j],
                        base + j,
                        fg_dim(store.food_groups@),
                        brand_dim(store.brands@),
                    ) by {
                        assert(store.foods@[base + j] == (store.foods@ + loader.buf@)[base + j]);
                    }
                }
            return Err(LoadError::StoreFull);
        }
        if store.brands.len() >= 0x7ffffffe {
            proof {
                assert(brand_dim(store.brands@).len() == store.brands@.len());
                assert(bd0.len() == old(store).brands@.len());
                assert(old(store).brands@.len() + jn + 2 > i32::MAX);
            }
                proof {
                    assert(store.foods@ + loader.buf@ =~= foods0 + (store.foods@
                        + loader.buf@).skip(base as int));
                    lemma_store_prefix(
                        store.foods@,
                        loader.buf@,
                        foods0,
                        (store.foods@ + loader.buf@).skip(base as int),
                    );
                    assert((store.foods@ + loader.buf@).skip(base as int).len() == i);
                    let t0 = store.foods@.len() - base;
                    assert(jrecs.take(t0).len() == t0);
                    assert forall|j: int| 0 <= j < store.foods@.len() - base implies
                        food_row_matches(
                        store.foods@[base + j],
                        #[trigger] jrecs[j],
                        base + j,
                        fg_dim(store.food_groups@),
                        brand_dim(store.brands@),
                    ) by {
                        assert(store.foods@[base + j] == (store.foods@ + loader.buf@)[base + j]);
                    }
                }
            return Err(LoadError::StoreFull);
        }
        if base >= 0x7fffffff || i >= 0x7fffffff || base + i >= 0x7fffffff {
            proof {
                assert(old(store).foods@.len() + jn + 1 > i32::MAX);
            }
                proof {
                    assert(store.foods@ + loader.buf@ =~= foods0 + (store.foods@
                        + loader.buf@).skip(base as int));
                    lemma_store_prefix(
                        store.foods@,
                        loader.buf@,
                        foods0,
                        (store.foods@ + loader.buf@).skip(base as int),
                    );
                    assert((store.foods@ + loader.buf@).skip(base as int).len() == i);
                    let t0 = store.foods@.len() - base;
                    assert(jrecs.take(t0).len() == t0);
                    assert forall|j: int| 0 <= j < store.foods@.len() - base implies
                        food_row_matches(
                        store.foods@[base + j],
                        #[trigger] jrecs[j],
                        base + j,
                        fg_dim(store.food_groups@),
                        brand_dim(store.brands@),
                    ) by {
                        assert(store.foods@[base + j] == (store.foods@ + loader.buf@)[base + j]);
                    }
                }
            return Err(LoadError::StoreFull);
        }
        let fc = match Foodcsv::from_record(&joined.records[i]) {
            Ok(v) => v,
            Err(e) => {
                proof {
                    assert(!food_rec_ok(jrecs[i as int]));
                }
                proof {
                    assert(store.foods@ + loader.buf@ =~= foods0 + (store.foods@
                        + loader.buf@).skip(base as int));
                    lemma_store_prefix(
                        store.foods@,
                        loader.buf@,
                        foods0,
                        (store.foods@ + loader.buf@).skip(base as int),
                    );
                    assert((store.foods@ + loader.buf@).skip(base as int).len() == i);
                    let t0 = store.foods@.len() - base;
                    assert(jrecs.take(t0).len() == t0);
                    assert forall|j: int| 0 <= j < store.foods@.len() - base implies
                        food_row_matches(
                        store.foods@[base + j],
                        #[trigger] jrecs[j],
                        base + j,
                        fg_dim(store.food_groups@),
                        brand_dim(store.brands@),
                    ) by {
                        assert(store.foods@[base + j] == (store.foods@ + loader.buf@)[base + j]);
                    }
                }
                return Err(e);
            },
        };
        let ghost fg_cur = fg_dim(store.food_groups@);
        let ghost bd_cur = brand_dim(store.brands@);
        let mut f = match fc.create_food(store) {
            Ok(v) => v,
            Err(e) => {
                proof {
                    assert(!food_rec_ok(jrecs[i as int]));
                }
                proof {
                    assert(store.foods@ + loader.buf@ =~= foods0 + (store.foods@
                        + loader.buf@).skip(base as int));
                    lemma_store_prefix(
                        store.foods@,
                        loader.buf@,
                        foods0,
                        (store.foods@ + loader.buf@).skip(base as int),
                    );
                    assert((store.foods@ + loader.buf@).skip(base as int).len() == i);
                    let t0 = store.foods@.len() - base;
                    assert(jrecs.take(t0).len() == t0);
                    assert forall|j: int| 0 <= j < store.foods@.len() - base implies
                        food_row_matches(
                        store.foods@[base + j],
                        #[trigger] jrecs[j],
                        base + j,
                        fg_dim(store.food_groups@),
                        brand_dim(store.brands@),
                    ) by {
                        assert(store.foods@[base + j] == (store.foods@ + loader.buf@)[base + j]);
                    }
                }
                return Err(e);
            },
        };
        f.id = (base + i + 1) as i32;
        proof {
            let nk_fg = normalize_key(jrecs[i as int][15]);
            let nk_bd = normalize_key(jrecs[i as int][6]);
            crate::store::lemma_dim_resolve_present(fg_cur, nk_fg);
            crate::store::lemma_dim_resolve_present(bd_cur, nk_bd);
            let fg_new = fg_dim(store.food_groups@);
            let bd_new = brand_dim(store.brands@);
            assert(fg_new.take(fg_cur.len() as int) == fg_cur);
            assert(bd_new.take(bd_cur.len() as int) == bd_cur);
            assert forall|t: int| 0 <= t < fg_cur.len() implies #[trigger] fg_new[t]
                == fg_cur[t] by {
                assert(fg_cur[t] == fg_new.take(fg_cur.len() as int)[t]);
            }
            assert forall|t: int| 0 <= t < bd_cur.len() implies #[trigger] bd_new[t]
                == bd_cur[t] by {
                assert(bd_cur[t] == bd_new.take(bd_cur.len() as int)[t]);
            }
            assert(fg_new.take(fg0.len() as int) =~= fg_cur.take(fg0.len() as int));
            assert(bd_new.take(bd0.len() as int) =~= bd_cur.take(bd0.len() as int));
            assert(food_row_matches(f, jrecs[i as int], base + i, fg_new, bd_new));
            assert forall|j: int| 0 <= j < i implies food_row_matches(
                (store.foods@ + loader.buf@)[base + j],
                #[trigger] jrecs[j],
                base + j,
                fg_new,
                bd_new,
            ) by {
                let fprev = (store.foods@ + loader.buf@)[base + j];
                assert(food_row_matches(fprev, jrecs[j], base + j, fg_cur, bd_cur));
                let t1 = choose|t: int|
                    0 <= t < fg_cur.len() && #[trigger] fg_cur[t] == (
                    fprev.food_group_id as int,
                    normalize_key(jrecs[j][15]),
                    );
                assert(fg_new.take(fg_cur.len() as int) == fg_cur);
                assert(fg_new[t1] == fg_cur[t1]);
                let t2 = choose|t: int|
                    0 <= t < bd_cur.len() && #[trigger] bd_cur[t] == (
                    fprev.brand_id as int,
                    normalize_key(jrecs[j][6]),
                    );
                assert(bd_new.take(bd_cur.len() as int) == bd_cur);
                assert(bd_new[t2] == bd_cur[t2]);
            }
        }
        let ghost table_pre = store.foods@;
        let ghost buf_pre = loader.buf@;
        loader.stage(f, &mut store.foods);
        proof {
            assert(store.foods@ + loader.buf@ =~= table_pre + buf_pre.push(f));
            assert(table_pre + buf_pre.push(f) =~= (table_pre + buf_pre) + seq![f]);
        }
        i = i + 1;
    }
    let ghost table_pre = store.foods@;
    let ghost buf_pre = loader.buf@;
    proof {
        assert((table_pre + buf_pre).len() == table_pre.len() + buf_pre.len());
    }
    let count = loader.finish(&mut store.foods);
    proof {
        assert(store.foods@ =~= table_pre + buf_pre);
    }
    Ok(count)
}

} // verus!
