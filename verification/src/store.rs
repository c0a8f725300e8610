//! The persistent store, modelled in memory: one growable table per
//! entity.  The pipeline's drivers append rows; the dimension resolver
//! reads and appends, never mutates existing rows.
//!
//! Contracts speak of a dimension table as a sequence of (surrogate
//! id, key) pairs, and of the resolver through `dim_resolve`.

use vstd::prelude::*;
use crate::errors::LoadError;
use crate::models::{Brand, Derivation, Food, Foodgroup, Nutrient, Nutrientdata};
use crate::numbers::int_str;
use crate::text::str_eq;

verus! {

/// A dimension table, as contracts see it: ids paired with their
/// unique descriptive keys.
pub open spec fn fg_dim(rows: Seq<Foodgroup>) -> Seq<(int, Seq<char>)> {
    rows.map(|i: int, r: Foodgroup| (r.id as int, r.description@))
}

pub open spec fn brand_dim(rows: Seq<Brand>) -> Seq<(int, Seq<char>)> {
    rows.map(|i: int, r: Brand| (r.id as int, r.owner@))
}

/// Nutrient definitions as (surrogate id, business code) pairs.
pub open spec fn nut_dim(rows: Seq<Nutrient>) -> Seq<(int, Seq<char>)> {
    rows.map(|i: int, r: Nutrient| (r.id as int, r.nutrientno@))
}

/// A well-formed dimension table: ids follow the insertion order, as a
/// store-assigned serial key does, and keys never repeat.
pub open spec fn dim_wf(rows: Seq<(int, Seq<char>)>) -> bool {
    &&& forall|i: int| 0 <= i < rows.len() ==> (#[trigger] rows[i]).0 == i + 1
    &&& forall|i: int, j: int|
        0 <= i < j < rows.len() ==> (#[trigger] rows[i]).1 != (#[trigger] rows[j]).1
}

/// The id of the first row carrying `key`, or -1 when none does.
pub open spec fn dim_lookup(rows: Seq<(int, Seq<char>)>, key: Seq<char>) -> int
    decreases rows.len(),
{
    if rows.len() == 0 {
        -1
    } else if rows[0].1 == key {
        rows[0].0
    } else {
        dim_lookup(rows.drop_first(), key)
    }
}

pub open spec fn dim_has_key(rows: Seq<(int, Seq<char>)>, key: Seq<char>) -> bool {
    exists|i: int| 0 <= i < rows.len() && (#[trigger] rows[i]).1 == key
}

/// An empty key falls back to the sentinel before any lookup.
pub open spec fn normalize_key(key: Seq<char>) -> Seq<char> {
    if key.len() == 0 {
        "Unknown"@
    } else {
        key
    }
}

/// What get-or-create leaves behind, and what it returns: the table
/// untouched and the existing id when the key is present, else the
/// table extended by one row holding the key under the next serial id.
pub open spec fn dim_resolve(rows: Seq<(int, Seq<char>)>, key: Seq<char>) -> (
    Seq<(int, Seq<char>)>,
    int,
) {
    if dim_has_key(rows, key) {
        (rows, dim_lookup(rows, key))
    } else {
        (rows.push((rows.len() as int + 1, key)), rows.len() as int + 1)
    }
}

pub proof fn lemma_dim_lookup_at(rows: Seq<(int, Seq<char>)>, key: Seq<char>, i: int)
    requires
        0 <= i < rows.len(),
        rows[i].1 == key,
        forall|j: int| 0 <= j < i ==> (#[trigger] rows[j]).1 != key,
    ensures
        dim_lookup(rows, key) == rows[i].0,
        dim_has_key(rows, key),
    decreases i,
{
    if i > 0 {
        assert forall|j: int| 0 <= j < i - 1 implies (#[trigger] rows.drop_first()[j]).1
            != key by {
            assert(rows.drop_first()[j] == rows[j + 1]);
        }
        assert(rows.drop_first()[i - 1] == rows[i]);
        lemma_dim_lookup_at(rows.drop_first(), key, i - 1);
    }
}

pub proof fn lemma_dim_lookup_missing(rows: Seq<(int, Seq<char>)>, key: Seq<char>)
    requires
        forall|j: int| 0 <= j < rows.len() ==> (#[trigger] rows[j]).1 != key,
    ensures
        dim_lookup(rows, key) == -1,
        !dim_has_key(rows, key),
    decreases rows.len(),
{
    if rows.len() > 0 {
        assert forall|j: int| 0 <= j < rows.len() - 1 implies (#[trigger] rows.drop_first()[j]).1
            != key by {
            assert(rows.drop_first()[j] == rows[j + 1]);
        }
        lemma_dim_lookup_missing(rows.drop_first(), key);
    }
}

/// A found lookup result is the id of some row.
pub proof fn lemma_dim_lookup_is_id(rows: Seq<(int, Seq<char>)>, key: Seq<char>)
    ensures
        dim_lookup(rows, key) == -1 || exists|i: int|
            0 <= i < rows.len() && (#[trigger] rows[i]).0 == dim_lookup(rows, key),
    decreases rows.len(),
{
    if rows.len() > 0 && rows[0].1 != key {
        lemma_dim_lookup_is_id(rows.drop_first(), key);
        if dim_lookup(rows, key) != -1 {
            let i = choose|i: int|
                0 <= i < rows.drop_first().len() && (#[trigger] rows.drop_first()[i]).0
                    == dim_lookup(rows.drop_first(), key);
            assert(rows[i + 1] == rows.drop_first()[i]);
        }
    }
}

/// Resolving a key leaves it present, under the id that was returned;
/// the table grows by at most one row, and only at the end.
pub proof fn lemma_dim_resolve_present(rows: Seq<(int, Seq<char>)>, key: Seq<char>)
    requires
        dim_wf(rows),
    ensures
        dim_wf(dim_resolve(rows, key).0),
        dim_has_key(dim_resolve(rows, key).0, key),
        dim_lookup(dim_resolve(rows, key).0, key) == dim_resolve(rows, key).1,
        dim_resolve(rows, key).1 >= 1,
        rows.len() <= dim_resolve(rows, key).0.len() <= rows.len() + 1,
        dim_resolve(rows, key).0.take(rows.len() as int) == rows,
        exists|t: int|
            0 <= t < dim_resolve(rows, key).0.len() && #[trigger] dim_resolve(rows, key).0[t] == (
            dim_resolve(rows, key).1,
            key,
            ),
{
    assert(dim_resolve(rows, key).0.take(rows.len() as int) =~= rows);
    let (rows2, id) = dim_resolve(rows, key);
    if dim_has_key(rows, key) {
        let i = choose|i: int| 0 <= i < rows.len() && (#[trigger] rows[i]).1 == key;
        let first = choose|i: int|
            0 <= i < rows.len() && (#[trigger] rows[i]).1 == key && forall|j: int|
                0 <= j < i ==> (#[trigger] rows[j]).1 != key;
        // walk down to the first occurrence
        assert(exists|i: int|
            0 <= i < rows.len() && (#[trigger] rows[i]).1 == key && forall|j: int|
                0 <= j < i ==> (#[trigger] rows[j]).1 != key) by {
            // keys never repeat, so the witness is already the first
            assert forall|j: int| 0 <= j < i implies (#[trigger] rows[j]).1 != key by {}
        }
        lemma_dim_lookup_at(rows, key, first);
        assert(rows[first] == (rows[first].0, rows[first].1));
        assert(rows[first] == (dim_resolve(rows, key).1, key));
    } else {
        assert forall|j: int| 0 <= j < rows.len() implies (#[trigger] rows[j]).1 != key by {}
        lemma_dim_lookup_missing(rows, key);
        assert(rows2 == rows.push((rows.len() as int + 1, key)));
        assert(rows2[rows.len() as int].1 == key);
        assert forall|j: int| 0 <= j < rows.len() implies (#[trigger] rows2[j]).1 != key by {
            assert(rows2[j] == rows[j]);
        }
        lemma_dim_lookup_at(rows2, key, rows.len() as int);
        assert(rows2[rows.len() as int] == (dim_resolve(rows, key).1, key));
    }
}

/// Dimension idempotence: resolving the same key twice returns the
/// same surrogate id both times, and the second resolution adds no row.
pub proof fn lemma_dim_resolve_idempotent(rows: Seq<(int, Seq<char>)>, key: Seq<char>)
    requires
        dim_wf(rows),
    ensures
        dim_resolve(dim_resolve(rows, key).0, key).0 == dim_resolve(rows, key).0,
        dim_resolve(dim_resolve(rows, key).0, key).1 == dim_resolve(rows, key).1,
{
    lemma_dim_resolve_present(rows, key);
}

/// The in-memory store.
pub struct Store {
    pub food_groups: Vec<Foodgroup>,
    pub brands: Vec<Brand>,
    pub nutrients: Vec<Nutrient>,
    pub derivations: Vec<Derivation>,
    pub foods: Vec<Food>,
    pub nutrient_data: Vec<Nutrientdata>,
}

impl Store {
    /// Both dimension tables follow the serial-id discipline.
    pub open spec fn wf(self) -> bool {
        &&& dim_wf(fg_dim(self.food_groups@))
        &&& dim_wf(brand_dim(self.brands@))
    }

    pub fn new() -> (s: Store)
        ensures
            s.wf(),
            s.food_groups@.len() == 0,
            s.brands@.len() == 0,
            s.nutrients@.len() == 0,
            s.derivations@.len() == 0,
            s.foods@.len() == 0,
            s.nutrient_data@.len() == 0,
    {
        Store {
            food_groups: Vec::new(),
            brands: Vec::new(),
            nutrients: Vec::new(),
            derivations: Vec::new(),
            foods: Vec::new(),
            nutrient_data: Vec::new(),
        }
    }

    /// Get-or-create for the food-group dimension.  Normalizes an empty
    /// description to the sentinel, returns the id of the existing row
    /// when one carries the key, and otherwise appends a new row and
    /// returns its id.
    pub fn resolve_or_create_food_group(&mut self, description: &str) -> (id: i32)
        requires
            old(self).wf(),
            old(self).food_groups@.len() + 1 < i32::MAX,
        ensures
            final(self).wf(),
            final(self).brands == old(self).brands,
            final(self).nutrients == old(self).nutrients,
            final(self).derivations == old(self).derivations,
            final(self).foods == old(self).foods,
            final(self).nutrient_data == old(self).nutrient_data,
            fg_dim(final(self).food_groups@) == dim_resolve(
                fg_dim(old(self).food_groups@),
                normalize_key(description@),
            ).0,
            id as int == dim_resolve(
                fg_dim(old(self).food_groups@),
                normalize_key(description@),
            ).1,
            id >= 1,
    {
        let key: &str = if description.is_empty() {
            "Unknown"
        } else {
            description
        };
        assert(key@ == normalize_key(description@));
        let ghost dim = fg_dim(self.food_groups@);
        let n = self.food_groups.len();
        let mut i: usize = 0;
        while i < n
            invariant
                0 <= i <= n,
                n == self.food_groups@.len(),
                self == old(self),
                old(self).wf(),
                dim == fg_dim(self.food_groups@),
                key@ == normalize_key(description@),
                forall|j: int| 0 <= j < i ==> (#[trigger] dim[j]).1 != key@,
            decreases n - i,
        {
            if str_eq(self.food_groups[i].description.as_str(), key) {
                proof {
                    assert(dim[i as int].1 == self.food_groups@[i as int].description@);
                    lemma_dim_lookup_at(dim, key@, i as int);
                }
                return self.food_groups[i].id;
            }
            proof {
                assert(dim[i as int].1 == self.food_groups@[i as int].description@);
            }
            i = i + 1;
        }
        proof {
            lemma_dim_lookup_missing(dim, key@);
        }
        let id = (n + 1) as i32;
        let row = Foodgroup { id, description: String::from_str(key) };
        self.food_groups.push(row);
        proof {
            assert(fg_dim(self.food_groups@) =~= dim.push((dim.len() as int + 1, key@)));
        }
        id
    }

    /// Get-or-create for the brand dimension, keyed by owner name.
    pub fn resolve_or_create_brand(&mut self, owner: &str) -> (id: i32)
        requires
            old(self).wf(),
            old(self).brands@.len() + 1 < i32::MAX,
        ensures
            final(self).wf(),
            final(self).food_groups == old(self).food_groups,
            final(self).nutrients == old(self).nutrients,
            final(self).derivations == old(self).derivations,
            final(self).foods == old(self).foods,
            final(self).nutrient_data == old(self).nutrient_data,
            brand_dim(final(self).brands@) == dim_resolve(
                brand_dim(old(self).brands@),
                normalize_key(owner@),
            ).0,
            id as int == dim_resolve(brand_dim(old(self).brands@), normalize_key(owner@)).1,
            id >= 1,
    {
        let key: &str = if owner.is_empty() {
            "Unknown"
        } else {
            owner
        };
        assert(key@ == normalize_key(owner@));
        let ghost dim = brand_dim(self.brands@);
        let n = self.brands.len();
        let mut i: usize = 0;
        while i < n
            invariant
                0 <= i <= n,
                n == self.brands@.len(),
                self == old(self),
                old(self).wf(),
                dim == brand_dim(self.brands@),
                key@ == normalize_key(owner@),
                forall|j: int| 0 <= j < i ==> (#[trigger] dim[j]).1 != key@,
            decreases n - i,
        {
            if str_eq(self.brands[i].owner.as_str(), key) {
                proof {
                    assert(dim[i as int].1 == self.brands@[i as int].owner@);
                    lemma_dim_lookup_at(dim, key@, i as int);
                }
                return self.brands[i].id;
            }
            proof {
                assert(dim[i as int].1 == self.brands@[i as int].owner@);
            }
            i = i + 1;
        }
        proof {
            lemma_dim_lookup_missing(dim, key@);
        }
        let id = (n + 1) as i32;
        let row = Brand { id, owner: String::from_str(key), brand: None, subbrand: None };
        self.brands.push(row);
        proof {
            assert(brand_dim(self.brands@) =~= dim.push((dim.len() as int + 1, key@)));
        }
        id
    }

    /// Resolves an upstream nutrient reference that is sometimes a
    /// business code and sometimes a raw surrogate id: first by code,
    /// then by id, else the unresolved sentinel -1.
    pub fn reconcile_nutrient_key(&self, raw: i32) -> (nid: i32)
        ensures
            nid as int == reconcile_spec(nut_dim(self.nutrients@), raw as int),
    {
        let code = crate::numbers::i32_to_string(raw);
        let ghost dim = nut_dim(self.nutrients@);
        let n = self.nutrients.len();
        let mut i: usize = 0;
        while i < n
            invariant
                0 <= i <= n,
                n == self.nutrients@.len(),
                dim == nut_dim(self.nutrients@),
                code@ == int_str(raw as int),
                forall|j: int| 0 <= j < i ==> (#[trigger] dim[j]).1 != code@,
            decreases n - i,
        {
            if str_eq(self.nutrients[i].nutrientno.as_str(), code.as_str()) {
                proof {
                    assert(dim[i as int].1 == self.nutrients@[i as int].nutrientno@);
                    lemma_dim_lookup_at(dim, code@, i as int);
                }
                return self.nutrients[i].id;
            }
            proof {
                assert(dim[i as int].1 == self.nutrients@[i as int].nutrientno@);
            }
            i = i + 1;
        }
        proof {
            lemma_dim_lookup_missing(dim, code@);
        }
        let mut j: usize = 0;
        while j < n
            invariant
                0 <= j <= n,
                n == self.nutrients@.len(),
                dim == nut_dim(self.nutrients@),
                !dim_has_key(dim, int_str(raw as int)),
                forall|t: int| 0 <= t < j ==> (#[trigger] dim[t]).0 != raw as int,
            decreases n - j,
        {
            if self.nutrients[j].id == raw {
                proof {
                    assert(dim[j as int].0 == raw as int);
                }
                return raw;
            }
            proof {
                assert(dim[j as int].0 == self.nutrients@[j as int].id as int);
            }
            j = j + 1;
        }
        -1
    }
}

/// Whether some row carries the surrogate id itself.
pub open spec fn dim_has_id(rows: Seq<(int, Seq<char>)>, id: int) -> bool {
    exists|i: int| 0 <= i < rows.len() && (#[trigger] rows[i]).0 == id
}

/// Nutrient-key reconciliation: by business code first, by surrogate
/// id second, else the unresolved sentinel.
pub open spec fn reconcile_spec(rows: Seq<(int, Seq<char>)>, raw: int) -> int {
    if dim_has_key(rows, int_str(raw)) {
        dim_lookup(rows, int_str(raw))
    } else if dim_has_id(rows, raw) {
        raw
    } else {
        -1
    }
}

} // verus!
