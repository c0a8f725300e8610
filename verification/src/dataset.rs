//! In-memory representation of one delimited file: an ordered header row
//! and an ordered sequence of records, every record as wide as the header.
//!
//! The data set supports column-name-to-index lookup, an in-place sort by
//! a column index (lexicographic over the raw field text), and a
//! sort-merge equi-join.

use vstd::prelude::*;
use vstd::multiset::Multiset;
use crate::errors::LoadError;
use crate::text::{
    lex_le, lex_lt, str_le, str_eq, lemma_lex_le_total, lemma_lex_le_transitive,
    lemma_lex_le_refl, lemma_lex_lt_le_trans,
};

verus! {

broadcast use {vstd::seq_lib::group_to_multiset_ensures, vstd::multiset::group_multiset_axioms};

/// Records, at the level contracts speak of: each record a sequence of
/// fields, each field a sequence of characters.
pub open spec fn rows_of(rs: Vec<Vec<String>>) -> Seq<Seq<Seq<char>>> {
    rs.deep_view()
}

/// The records of `rs` are ordered by the field at `k`.
pub open spec fn sorted_on(rs: Seq<Seq<Seq<char>>>, k: int) -> bool {
    forall|i: int, j: int|
        0 <= i < j < rs.len() ==> lex_le(#[trigger] rs[i][k], #[trigger] rs[j][k])
}

#[derive(Debug)]
pub struct DataSet {
    /// Header row of the file.
    pub headers: Vec<String>,
    /// Records of the file.
    pub records: Vec<Vec<String>>,
}

impl DataSet {
    /// Every record has exactly as many fields as the header row.
    pub open spec fn wf(self) -> bool {
        forall|i: int|
            0 <= i < self.records@.len() ==> (#[trigger] self.records@[i])@.len()
                == self.headers@.len()
    }

    /// Creates a new data set.
    pub fn new(headers: Vec<String>, records: Vec<Vec<String>>) -> (r: DataSet)
        ensures
            r.headers == headers,
            r.records == records,
    {
        DataSet { headers, records }
    }

    /// Finds the index of a column given the column name.  Errs when no
    /// column of that name exists.
    pub fn key_index(&self, key: &str) -> (r: Result<usize, LoadError>)
        ensures
            match r {
                Ok(i) => 0 <= i < self.headers@.len() && self.headers.deep_view()[i as int]
                    == key@ && (forall|j: int|
                    0 <= j < i ==> self.headers.deep_view()[j] != key@),
                Err(e) => e == LoadError::ColumnNotFound && (forall|j: int|
                    0 <= j < self.headers@.len() ==> self.headers.deep_view()[j] != key@),
            },
    {
        let n = self.headers.len();
        let mut i: usize = 0;
        while i < n
            invariant
                0 <= i <= n,
                n == self.headers@.len(),
                forall|j: int| 0 <= j < i ==> self.headers.deep_view()[j] != key@,
            decreases n - i,
        {
            if str_eq(self.headers[i].as_str(), key) {
                return Ok(i);
            }
            i = i + 1;
        }
        Err(LoadError::ColumnNotFound)
    }

    /// Sorts the records in place by the field at `index`, comparing the
    /// raw field text lexicographically.  Errs when the index lies
    /// beyond the header row; the data set is then unchanged.
    pub fn sort_by_index(&mut self, index: usize) -> (r: Result<(), LoadError>)
        requires
            old(self).wf(),
        ensures
            final(self).wf(),
            final(self).headers == old(self).headers,
            r is Err <==> index >= old(self).headers@.len(),
            r is Err ==> r == Err::<(), LoadError>(LoadError::IndexOutOfBounds) && *final(self)
                == *old(self),
            r is Ok ==> rows_of(final(self).records).to_multiset()
                == rows_of(old(self).records).to_multiset(),
            r is Ok ==> sorted_on(rows_of(final(self).records), index as int),
            r is Ok ==> final(self).records@.len() == old(self).records@.len(),
    {
        if index >= self.headers.len() {
            return Err(LoadError::IndexOutOfBounds);
        }
        let ghost orig = rows_of(self.records);
        let n = self.records.len();
        if n <= 1 {
            proof {
                assert(sorted_on(rows_of(self.records), index as int));
            }
            return Ok(());
        }
        let mut i: usize = 1;
        while i < n
            invariant
                1 <= i <= n,
                n == self.records@.len(),
                self.wf(),
                index < self.headers@.len(),
                self.headers == old(self).headers,
                rows_of(self.records).to_multiset() == orig.to_multiset(),
                orig.len() == n,
                sorted_on(rows_of(self.records).take(i as int), index as int),
            decreases n - i,
        {
            let ghost before = rows_of(self.records);
            let rec = self.records.remove(i);
            let ghost removed = rows_of(self.records);
            proof {
                assert(removed =~= before.remove(i as int));
                assert(removed.to_multiset() =~= before.to_multiset().remove(
                    before[i as int],
                ));
            }
            let mut j: usize = i;
            loop
                invariant_except_break
                    0 <= j <= i,
                    i < n,
                    n - 1 == self.records@.len(),
                    index < self.headers@.len(),
                    self.wf(),
                    rec@.len() == self.headers@.len(),
                    rows_of(self.records) == removed,
                    forall|b: int|
                        j <= b < i ==> lex_le(
                            rec.deep_view()[index as int],
                            #[trigger] removed[b][index as int],
                        ),
                ensures
                    0 <= j <= i,
                    rows_of(self.records) == removed,
                    forall|b: int|
                        j <= b < i ==> lex_le(
                            rec.deep_view()[index as int],
                            #[trigger] removed[b][index as int],
                        ),
                    j > 0 ==> lex_le(
                        removed[j - 1][index as int],
                        rec.deep_view()[index as int],
                    ),
                decreases j,
            {
                if j == 0 {
                    break;
                }
                let stays = str_le(
                    self.records[j - 1][index].as_str(),
                    rec[index].as_str(),
                );
                proof {
                    assert(self.records@[j - 1]@[index as int]@ == removed[j - 1][index as int]);
                    assert(rec@[index as int]@ == rec.deep_view()[index as int]);
                    if !stays {
                        lemma_lex_le_total(
                            removed[j - 1][index as int],
                            rec.deep_view()[index as int],
                        );
                    }
                }
                if stays {
                    break;
                }
                j = j - 1;
            }
            self.records.insert(j, rec);
            proof {
                let k = index as int;
                let ja = j as int;
                let rv = rec.deep_view();
                let now = rows_of(self.records);
                assert(now =~= removed.insert(ja, rv));
                // the multiset is restored
                assert(now.to_multiset() =~= removed.to_multiset().insert(rv));
                assert(before[i as int] == rv);
                assert(before.to_multiset().count(rv) > 0);
                assert(now.to_multiset() =~= before.to_multiset());
                // the sorted prefix, as a plain fact over `before`
                assert forall|t1: int, t2: int| 0 <= t1 < t2 < i implies lex_le(
                    #[trigger] before[t1][k],
                    #[trigger] before[t2][k],
                ) by {
                    assert(sorted_on(before.take(i as int), k));
                    assert(before.take(i as int)[t1] == before[t1]);
                    assert(before.take(i as int)[t2] == before[t2]);
                }
                // the record sits above everything kept on its left
                assert forall|t: int| 0 <= t < ja implies lex_le(
                    #[trigger] before[t][k],
                    rv[k],
                ) by {
                    assert(removed[ja - 1] == before[ja - 1]);
                    if t < ja - 1 {
                        lemma_lex_le_transitive(before[t][k], before[ja - 1][k], rv[k]);
                    }
                }
                // and at or below everything moved to its right
                assert forall|t: int| ja <= t < i implies lex_le(
                    rv[k],
                    #[trigger] before[t][k],
                ) by {
                    assert(removed[t] == before[t]);
                }
                // the widened prefix is sorted
                assert forall|a: int, b: int| 0 <= a < b < i + 1 implies lex_le(
                    #[trigger] now[a][k],
                    #[trigger] now[b][k],
                ) by {
                    assert(forall|t: int| 0 <= t < ja ==> #[trigger] now[t] == before[t]);
                    assert(forall|t: int| ja < t < i + 1 ==> #[trigger] now[t] == before[t - 1]);
                    assert(now[ja] == rv);
                    if b < ja {
                    } else if b == ja {
                        assert(lex_le(now[a][k], rv[k]));
                    } else if a == ja {
                        assert(lex_le(rv[k], before[b - 1][k]));
                    } else if a < ja {
                        lemma_lex_le_transitive(before[a][k], rv[k], before[b - 1][k]);
                    } else {
                        assert(lex_le(before[a - 1][k], before[b - 1][k]));
                    }
                }
                assert(sorted_on(now.take(i + 1), k)) by {
                    assert(forall|t: int| 0 <= t < i + 1 ==> now.take(i + 1)[t] == #[trigger] now[t]);
                }
            }
            i = i + 1;
        }
        proof {
            assert(rows_of(self.records).take(n as int) =~= rows_of(self.records));
        }
        Ok(())
    }
}


/// Index of the first column named `key`, or -1 when none is.
pub open spec fn col_of(hs: Seq<Seq<char>>, key: Seq<char>) -> int
    decreases hs.len(),
{
    if hs.len() == 0 {
        -1
    } else if hs[0] == key {
        0
    } else {
        let r = col_of(hs.drop_first(), key);
        if r == -1 {
            -1
        } else {
            1 + r
        }
    }
}

pub proof fn lemma_col_of_found(hs: Seq<Seq<char>>, key: Seq<char>, i: int)
    requires
        0 <= i < hs.len(),
        hs[i] == key,
        forall|j: int| 0 <= j < i ==> hs[j] != key,
    ensures
        col_of(hs, key) == i,
    decreases i,
{
    if i > 0 {
        assert forall|j: int| 0 <= j < i - 1 implies hs.drop_first()[j] != key by {
            assert(hs.drop_first()[j] == hs[j + 1]);
        }
        lemma_col_of_found(hs.drop_first(), key, i - 1);
    }
}

pub proof fn lemma_col_of_missing(hs: Seq<Seq<char>>, key: Seq<char>)
    requires
        forall|j: int| 0 <= j < hs.len() ==> hs[j] != key,
    ensures
        col_of(hs, key) == -1,
    decreases hs.len(),
{
    if hs.len() > 0 {
        assert forall|j: int| 0 <= j < hs.len() - 1 implies hs.drop_first()[j] != key by {
            assert(hs.drop_first()[j] == hs[j + 1]);
        }
        lemma_col_of_missing(hs.drop_first(), key);
    }
}

pub proof fn lemma_col_of_range(hs: Seq<Seq<char>>, key: Seq<char>)
    ensures
        -1 <= col_of(hs, key) < hs.len(),
    decreases hs.len(),
{
    if hs.len() > 0 && hs[0] != key {
        lemma_col_of_range(hs.drop_first(), key);
    }
}

/// All right records whose key field equals that of `l`, each appended
/// onto `l`, in their order in `rs`.
pub open spec fn matches_of(
    l: Seq<Seq<char>>,
    rs: Seq<Seq<Seq<char>>>,
    lk: int,
    rk: int,
) -> Seq<Seq<Seq<char>>>
    decreases rs.len(),
{
    if rs.len() == 0 {
        Seq::empty()
    } else {
        (if l[lk] == rs[0][rk] {
            seq![l + rs[0]]
        } else {
            Seq::empty()
        }) + matches_of(l, rs.drop_first(), lk, rk)
    }
}

/// The equi-join of `ls` and `rs` on the key columns `lk` and `rk`:
/// for every left record in order, all matching right records in order.
pub open spec fn join_rows(
    ls: Seq<Seq<Seq<char>>>,
    rs: Seq<Seq<Seq<char>>>,
    lk: int,
    rk: int,
) -> Seq<Seq<Seq<char>>>
    decreases ls.len(),
{
    if ls.len() == 0 {
        Seq::empty()
    } else {
        matches_of(ls[0], rs, lk, rk) + join_rows(ls.drop_first(), rs, lk, rk)
    }
}

pub proof fn lemma_join_rows_snoc(
    ls: Seq<Seq<Seq<char>>>,
    rs: Seq<Seq<Seq<char>>>,
    lk: int,
    rk: int,
    l: Seq<Seq<char>>,
)
    ensures
        join_rows(ls.push(l), rs, lk, rk) =~= join_rows(ls, rs, lk, rk) + matches_of(
            l,
            rs,
            lk,
            rk,
        ),
    decreases ls.len(),
{
    if ls.len() == 0 {
        assert(ls.push(l).drop_first() =~= Seq::<Seq<Seq<char>>>::empty());
        assert(ls.push(l)[0] == l);
        assert(join_rows(ls.push(l), rs, lk, rk) == matches_of(l, rs, lk, rk) + join_rows(
            Seq::empty(),
            rs,
            lk,
            rk,
        ));
    } else {
        assert(ls.push(l).drop_first() =~= ls.drop_first().push(l));
        assert(ls.push(l)[0] == ls[0]);
        lemma_join_rows_snoc(ls.drop_first(), rs, lk, rk, l);
        let a = matches_of(ls[0], rs, lk, rk);
        let b = join_rows(ls.drop_first(), rs, lk, rk);
        let c = matches_of(l, rs, lk, rk);
        assert(join_rows(ls.push(l), rs, lk, rk) == a + (b + c));
        assert(a + (b + c) =~= (a + b) + c);
    }
}

/// A left prefix grows by one record.
pub proof fn lemma_join_rows_take_succ(
    ls: Seq<Seq<Seq<char>>>,
    rs: Seq<Seq<Seq<char>>>,
    lk: int,
    rk: int,
    c: int,
)
    requires
        0 <= c < ls.len(),
    ensures
        join_rows(ls.take(c + 1), rs, lk, rk) =~= join_rows(ls.take(c), rs, lk, rk)
            + matches_of(ls[c], rs, lk, rk),
{
    assert(ls.take(c + 1) =~= ls.take(c).push(ls[c]));
    lemma_join_rows_snoc(ls.take(c), rs, lk, rk, ls[c]);
}

/// A left record that matches no right key contributes nothing.
pub proof fn lemma_matches_of_none(
    l: Seq<Seq<char>>,
    rs: Seq<Seq<Seq<char>>>,
    lk: int,
    rk: int,
)
    requires
        forall|t: int| 0 <= t < rs.len() ==> (#[trigger] rs[t])[rk] != l[lk],
    ensures
        matches_of(l, rs, lk, rk) =~= Seq::<Seq<Seq<char>>>::empty(),
    decreases rs.len(),
{
    if rs.len() > 0 {
        assert(rs[0][rk] != l[lk]);
        assert forall|t: int| 0 <= t < rs.len() - 1 implies (#[trigger] rs.drop_first()[t])[rk]
            != l[lk] by {
            assert(rs.drop_first()[t] == rs[t + 1]);
        }
        lemma_matches_of_none(l, rs.drop_first(), lk, rk);
    }
}

/// When exactly the records in `[j0, j1)` carry the matching key, the
/// matches are that contiguous run, merged in order.
pub proof fn lemma_matches_of_segment(
    l: Seq<Seq<char>>,
    rs: Seq<Seq<Seq<char>>>,
    lk: int,
    rk: int,
    j0: int,
    j1: int,
)
    requires
        0 <= j0 <= j1 <= rs.len(),
        forall|t: int| 0 <= t < j0 ==> (#[trigger] rs[t])[rk] != l[lk],
        forall|t: int| j0 <= t < j1 ==> (#[trigger] rs[t])[rk] == l[lk],
        forall|t: int| j1 <= t < rs.len() ==> (#[trigger] rs[t])[rk] != l[lk],
    ensures
        matches_of(l, rs, lk, rk) =~= Seq::new((j1 - j0) as nat, |u: int| l + rs[j0 + u]),
    decreases rs.len(),
{
    if rs.len() == 0 {
    } else {
        let rest = rs.drop_first();
        assert(forall|t: int| 0 <= t < rest.len() ==> #[trigger] rest[t] == rs[t + 1]);
        if j0 > 0 {
            assert(rs[0][rk] != l[lk]);
            lemma_matches_of_segment(l, rest, lk, rk, j0 - 1, j1 - 1);
            assert(matches_of(l, rs, lk, rk) =~= matches_of(l, rest, lk, rk));
            assert(Seq::new((j1 - j0) as nat, |u: int| l + rest[j0 - 1 + u]) =~= Seq::new(
                (j1 - j0) as nat,
                |u: int| l + rs[j0 + u],
            ));
        } else if j1 > 0 {
            assert(rs[0][rk] == l[lk]);
            lemma_matches_of_segment(l, rest, lk, rk, 0, j1 - 1);
            assert(matches_of(l, rs, lk, rk) =~= seq![l + rs[0]] + matches_of(
                l,
                rest,
                lk,
                rk,
            ));
            assert(seq![l + rs[0]] + Seq::new((j1 - 1) as nat, |u: int| l + rest[u]) =~= Seq::new(
                (j1 - j0) as nat,
                |u: int| l + rs[j0 + u],
            ));
        } else {
            assert(rs[0][rk] != l[lk]);
            lemma_matches_of_segment(l, rest, lk, rk, 0, 0);
            assert(matches_of(l, rs, lk, rk) =~= matches_of(l, rest, lk, rk));
        }
    }
}

/// Joining no left records, or against no right records, yields nothing.
pub proof fn lemma_join_rows_empty(
    ls: Seq<Seq<Seq<char>>>,
    rs: Seq<Seq<Seq<char>>>,
    lk: int,
    rk: int,
)
    ensures
        join_rows(Seq::empty(), rs, lk, rk) =~= Seq::<Seq<Seq<char>>>::empty(),
        ls.len() == 0 ==> join_rows(ls, rs, lk, rk) =~= Seq::<Seq<Seq<char>>>::empty(),
        rs.len() == 0 ==> join_rows(ls, rs, lk, rk) =~= Seq::<Seq<Seq<char>>>::empty(),
    decreases ls.len(),
{
    if rs.len() == 0 && ls.len() > 0 {
        lemma_join_rows_empty(ls.drop_first(), rs, lk, rk);
    }
}


/// Once every left record from `c` on matches nothing, the join is
/// already complete at `c`.
pub proof fn lemma_join_rows_extend_empty(
    ls: Seq<Seq<Seq<char>>>,
    rs: Seq<Seq<Seq<char>>>,
    lk: int,
    rk: int,
    c: int,
)
    requires
        0 <= c <= ls.len(),
        forall|u: int|
            c <= u < ls.len() ==> matches_of(#[trigger] ls[u], rs, lk, rk) == Seq::<
                Seq<Seq<char>>,
            >::empty(),
    ensures
        join_rows(ls, rs, lk, rk) =~= join_rows(ls.take(c), rs, lk, rk),
    decreases ls.len() - c,
{
    if c < ls.len() {
        lemma_join_rows_take_succ(ls, rs, lk, rk, c);
        assert(join_rows(ls.take(c + 1), rs, lk, rk) =~= join_rows(ls.take(c), rs, lk, rk));
        lemma_join_rows_extend_empty(ls, rs, lk, rk, c + 1);
    } else {
        assert(ls.take(c) =~= ls);
    }
}

/// Appends clones of the strings of `src` onto `dst`.
fn append_cloned(dst: &mut Vec<String>, src: &Vec<String>)
    ensures
        final(dst)@ == old(dst)@ + src@,
        final(dst).deep_view() == old(dst).deep_view() + src.deep_view(),
{
    let n = src.len();
    let mut i: usize = 0;
    assert(dst@ =~= old(dst)@ + src@.take(0));
    while i < n
        invariant
            0 <= i <= n,
            n == src@.len(),
            dst@ =~= old(dst)@ + src@.take(i as int),
        decreases n - i,
    {
        let e = src[i].clone();
        assert(e == src@[i as int]);
        dst.push(e);
        proof {
            assert(dst@ =~= old(dst)@ + src@.take(i + 1));
        }
        i = i + 1;
    }
    proof {
        assert(src@.take(n as int) =~= src@);
        assert forall|j: int| 0 <= j < dst@.len() implies dst.deep_view()[j] == (
        old(dst).deep_view() + src.deep_view())[j] by {
            if j < old(dst)@.len() {
                assert(dst@[j] == old(dst)@[j]);
            } else {
                assert(dst@[j] == src@[j - old(dst)@.len()]);
            }
        }
        assert(dst.deep_view() =~= old(dst).deep_view() + src.deep_view());
    }
}

/// The positional concatenation of two records' fields.
fn merge_records(l: &Vec<String>, r: &Vec<String>) -> (m: Vec<String>)
    ensures
        m.deep_view() == l.deep_view() + r.deep_view(),
        m@.len() == l@.len() + r@.len(),
{
    let mut m: Vec<String> = Vec::new();
    append_cloned(&mut m, l);
    append_cloned(&mut m, r);
    proof {
        assert(Seq::<Seq<char>>::empty() + l.deep_view() =~= l.deep_view());
        assert(m.deep_view().len() == l.deep_view().len() + r.deep_view().len());
        assert(m@.len() == m.deep_view().len());
    }
    m
}

impl DataSet {
    /// Performs an inner equi-join on two data sets, where `self` is the
    /// left table, on the column named `key`.  Both inputs are sorted in
    /// place by that column first; the output holds, for every left
    /// record in sorted order, its combination with every right record
    /// carrying an equal key, in sorted order.  Errs when either data
    /// set lacks the key column; an empty input yields an empty result,
    /// never an error.
    #[verifier::loop_isolation(false)]
    pub fn inner_join(&mut self, right: &mut DataSet, key: &str) -> (r: Result<
        DataSet,
        LoadError,
    >)
        requires
            old(self).wf(),
            old(right).wf(),
        ensures
            final(self).headers == old(self).headers,
            final(right).headers == old(right).headers,
            final(self).wf(),
            final(right).wf(),
            r is Err <==> col_of(old(self).headers.deep_view(), key@) == -1 || col_of(
                old(right).headers.deep_view(),
                key@,
            ) == -1,
            r is Err ==> r == Err::<DataSet, LoadError>(LoadError::ColumnNotFound) && *final(self)
                == *old(self) && *final(right) == *old(right),
            r matches Ok(out) ==> out.headers.deep_view() == old(self).headers.deep_view() + old(
                right,
            ).headers.deep_view(),
            r matches Ok(out) ==> out.wf() && out.headers@.len() == old(self).headers@.len() + old(
                right,
            ).headers@.len(),
            r is Ok ==> rows_of(final(self).records).to_multiset() == rows_of(
                old(self).records,
            ).to_multiset() && rows_of(final(right).records).to_multiset() == rows_of(
                old(right).records,
            ).to_multiset(),
            r matches Ok(out) ==> rows_of(out.records) == join_rows(
                rows_of(final(self).records),
                rows_of(final(right).records),
                col_of(old(self).headers.deep_view(), key@),
                col_of(old(right).headers.deep_view(), key@),
            ),
            r matches Ok(out) ==> (old(self).records@.len() == 0 || old(right).records@.len() == 0
                ==> out.records@.len() == 0),
    {
        let li = match self.key_index(key) {
            Ok(i) => i,
            Err(e) => {
                proof {
                    lemma_col_of_missing(self.headers.deep_view(), key@);
                }
                return Err(e);
            },
        };
        let ri = match right.key_index(key) {
            Ok(i) => i,
            Err(e) => {
                proof {
                    lemma_col_of_found(self.headers.deep_view(), key@, li as int);
                    lemma_col_of_missing(right.headers.deep_view(), key@);
                }
                return Err(e);
            },
        };
        proof {
            lemma_col_of_found(self.headers.deep_view(), key@, li as int);
            lemma_col_of_found(right.headers.deep_view(), key@, ri as int);
        }
        let ghost lk = li as int;
        let ghost rk = ri as int;
        let la = self.headers.len();
        let ra = right.headers.len();

        let mut headers: Vec<String> = Vec::new();
        append_cloned(&mut headers, &self.headers);
        append_cloned(&mut headers, &right.headers);
        proof {
            assert(Seq::<Seq<char>>::empty() + self.headers.deep_view() =~= (
            self.headers.deep_view()));
        }

        let mut out_records: Vec<Vec<String>> = Vec::new();

        if self.records.is_empty() || right.records.is_empty() {
            proof {
                lemma_join_rows_empty(rows_of(self.records), rows_of(right.records), lk, rk);
                assert(rows_of(out_records) =~= Seq::<Seq<Seq<char>>>::empty());
                assert(headers.deep_view().len() == la + ra);
                assert(headers@.len() == la + ra);
            }
            return Ok(DataSet::new(headers, out_records));
        }

        match self.sort_by_index(li) {
            Ok(()) => (),
            Err(_) => {
                proof {
                    assert(false);
                }
                return Err(LoadError::IndexOutOfBounds);
            },
        }
        match right.sort_by_index(ri) {
            Ok(()) => (),
            Err(_) => {
                proof {
                    assert(false);
                }
                return Err(LoadError::IndexOutOfBounds);
            },
        }

        let ghost ls = rows_of(self.records);
        let ghost rs = rows_of(right.records);
        let llen = self.records.len();
        let rlen = right.records.len();
        proof {
            assert(forall|u: int| 0 <= u < llen ==> (#[trigger] ls[u]).len() == la);
            assert(forall|t: int| 0 <= t < rlen ==> (#[trigger] rs[t]).len() == ra);
        }

        let mut lc: usize = 0;
        let mut rc: usize = 0;
        assert(rows_of(out_records) =~= join_rows(ls.take(0), rs, lk, rk));
        while lc < llen && rc < rlen
            invariant
                0 <= lc <= llen,
                0 <= rc <= rlen,
                rows_of(out_records) == join_rows(ls.take(lc as int), rs, lk, rk),
                forall|t: int|
                    0 <= t < rc && lc < llen ==> lex_lt(
                        (#[trigger] rs[t])[rk],
                        ls[lc as int][lk],
                    ),
                forall|t: int|
                    0 <= t < out_records@.len() ==> (#[trigger] out_records@[t])@.len() == la + ra,
            decreases (llen - lc) + (rlen - rc),
        {
            proof {
                assert(self.records@[lc as int]@[li as int]@ == ls[lc as int][lk]);
                assert(right.records@[rc as int]@[ri as int]@ == rs[rc as int][rk]);
            }
            let is_eq = str_eq(self.records[lc][li].as_str(), right.records[rc][ri].as_str());
            if is_eq {
                let ghost kv = ls[lc as int][lk];
                let kstr = self.records[lc][li].clone();
                assert(kstr@ == kv);
                // find the end of the right run of this key
                let mut re = rc;
                while re < rlen && str_eq(right.records[re][ri].as_str(), kstr.as_str())
                    invariant
                        rc <= re <= rlen,
                        forall|t: int| rc <= t < re ==> (#[trigger] rs[t])[rk] == kv,
                    decreases rlen - re,
                {
                    proof {
                        assert(right.records@[re as int]@[ri as int]@ == rs[re as int][rk]);
                    }
                    re = re + 1;
                }
                proof {
                    assert(re < rlen ==> rs[re as int][rk] != kv) by {
                        if re < rlen {
                            assert(right.records@[re as int]@[ri as int]@ == rs[re as int][rk]);
                        }
                    }
                    // no right record at or past the run end carries the key
                    assert forall|t: int| re <= t < rlen implies (#[trigger] rs[t])[rk] != kv by {
                        assert(lex_le(rs[rc as int][rk], rs[re as int][rk]) || rc == re);
                        if t > re {
                            assert(lex_le(rs[re as int][rk], rs[t][rk]));
                        }
                        if rs[t][rk] == kv {
                            if t == re {
                            } else {
                                lemma_lex_lt_le_trans(
                                    kv,
                                    rs[re as int][rk],
                                    rs[t][rk],
                                );
                            }
                        }
                    }
                    // none before the run start does either
                    assert(forall|t: int| 0 <= t < rc ==> (#[trigger] rs[t])[rk] != kv);
                }
                // merge the whole left run with the right run
                let ghost lc0 = lc as int;
                while lc < llen && str_eq(self.records[lc][li].as_str(), kstr.as_str())
                    invariant
                        lc0 <= lc <= llen,
                        rows_of(out_records) == join_rows(ls.take(lc as int), rs, lk, rk),
                        lc < llen ==> self.records@[lc as int]@[li as int]@ == ls[lc as int][lk],
                        forall|t: int|
                            0 <= t < out_records@.len() ==> (#[trigger] out_records@[t])@.len()
                                == la + ra,
                    decreases llen - lc,
                {
                    proof {
                        assert(ls[lc as int][lk] == kv);
                    }
                    let mut t = rc;
                    while t < re
                        invariant
                            rc <= t <= re,
                            lc < llen,
                            ls[lc as int][lk] == kv,
                            rows_of(out_records) == join_rows(ls.take(lc as int), rs, lk, rk)
                                + Seq::new(
                                (t - rc) as nat,
                                |u: int| ls[lc as int] + rs[rc + u],
                            ),
                            forall|b: int|
                                0 <= b < out_records@.len() ==> (#[trigger] out_records@[b])@.len()
                                    == la + ra,
                        decreases re - t,
                    {
                        let ghost opre = out_records@;
                        let ghost rpre = rows_of(out_records);
                        let m = merge_records(&self.records[lc], &right.records[t]);
                        proof {
                            assert(self.records[lc as int].deep_view() == ls[lc as int]);
                            assert(right.records[t as int].deep_view() == rs[t as int]);
                            assert(m.deep_view() == ls[lc as int] + rs[t as int]);
                        }
                        out_records.push(m);
                        proof {
                            let want = join_rows(ls.take(lc as int), rs, lk, rk) + Seq::new(
                                (t + 1 - rc) as nat,
                                |u: int| ls[lc as int] + rs[rc + u],
                            );
                            assert forall|j: int| 0 <= j < out_records@.len() implies rows_of(
                                out_records,
                            )[j] == want[j] by {
                                if j < opre.len() {
                                    assert(out_records@[j] == opre[j]);
                                    assert(rpre[j] == want[j]);
                                } else {
                                    assert(out_records@[j] == m);
                                    assert(want[j] == ls[lc as int] + rs[rc + (t - rc)]);
                                }
                            }
                            assert(rows_of(out_records) =~= want);
                        }
                        t = t + 1;
                    }
                    proof {
                        lemma_matches_of_segment(ls[lc as int], rs, lk, rk, rc as int, re as int);
                        lemma_join_rows_take_succ(ls, rs, lk, rk, lc as int);
                        assert(rows_of(out_records) =~= join_rows(ls.take(lc + 1), rs, lk, rk));
                    }
                    lc = lc + 1;
                    proof {
                        if lc < llen {
                            assert(self.records@[lc as int]@[li as int]@ == ls[lc as int][lk]);
                        }
                    }
                }
                proof {
                    // the run held at least its first record
                    assert(lc > lc0);
                    if lc < llen {
                        // every right record seen so far sits strictly below the new left key
                        assert(ls[lc as int][lk] != kv);
                        assert(lex_le(ls[lc0][lk], ls[lc as int][lk]));
                        assert(lex_lt(kv, ls[lc as int][lk]));
                        assert forall|t: int| 0 <= t < re implies lex_lt(
                            (#[trigger] rs[t])[rk],
                            ls[lc as int][lk],
                        ) by {
                            if t < rc {
                                lemma_lex_lt_le_trans(rs[t][rk], kv, ls[lc as int][lk]);
                            } else {
                                assert(rs[t][rk] == kv);
                            }
                        }
                    }
                }
                rc = re;
            } else {
                let lless = str_le(self.records[lc][li].as_str(), right.records[rc][ri].as_str());
                if lless {
                    // the left key is strictly below every right key: no match
                    proof {
                        let lv = ls[lc as int][lk];
                        assert(lex_lt(lv, rs[rc as int][rk]));
                        assert forall|t: int| 0 <= t < rlen implies (#[trigger] rs[t])[rk]
                            != lv by {
                            if t < rc {
                                assert(lex_lt(rs[t][rk], lv));
                            } else {
                                if t == rc {
                                    lemma_lex_le_refl(rs[rc as int][rk]);
                                }
                                assert(lex_le(rs[rc as int][rk], rs[t][rk]));
                                if rs[t][rk] == lv {
                                    lemma_lex_lt_le_trans(lv, rs[rc as int][rk], rs[t][rk]);
                                }
                            }
                        }
                        lemma_matches_of_none(ls[lc as int], rs, lk, rk);
                        lemma_join_rows_take_succ(ls, rs, lk, rk, lc as int);
                        assert(join_rows(ls.take(lc + 1), rs, lk, rk) =~= join_rows(
                            ls.take(lc as int),
                            rs,
                            lk,
                            rk,
                        ));
                        if lc + 1 < llen {
                            assert(lex_le(ls[lc as int][lk], ls[lc + 1][lk]));
                            assert forall|t: int| 0 <= t < rc implies lex_lt(
                                (#[trigger] rs[t])[rk],
                                ls[lc + 1][lk],
                            ) by {
                                lemma_lex_lt_le_trans(rs[t][rk], ls[lc as int][lk], ls[lc + 1][lk]);
                            }
                        }
                    }
                    lc = lc + 1;
                } else {
                    // the right key is strictly below the left key: skip it
                    proof {
                        lemma_lex_le_total(ls[lc as int][lk], rs[rc as int][rk]);
                        assert(lex_lt(rs[rc as int][rk], ls[lc as int][lk]));
                    }
                    rc = rc + 1;
                }
            }
        }
        proof {
            if lc < llen {
                let lv0 = ls[lc as int][lk];
                assert forall|u: int| lc <= u < llen implies matches_of(
                    #[trigger] ls[u],
                    rs,
                    lk,
                    rk,
                ) == Seq::<Seq<Seq<char>>>::empty() by {
                    if u == lc {
                        lemma_lex_le_refl(lv0);
                    }
                    assert(lex_le(lv0, ls[u][lk]));
                    assert forall|t: int| 0 <= t < rlen implies (#[trigger] rs[t])[rk]
                        != ls[u][lk] by {
                        lemma_lex_lt_le_trans(rs[t][rk], lv0, ls[u][lk]);
                    }
                    lemma_matches_of_none(ls[u], rs, lk, rk);
                }
                lemma_join_rows_extend_empty(ls, rs, lk, rk, lc as int);
            } else {
                assert(ls.take(lc as int) =~= ls);
            }
            assert(rows_of(out_records) == join_rows(ls, rs, lk, rk));
            assert(headers.deep_view().len() == la + ra);
            assert(headers@.len() == la + ra);
        }
        Ok(DataSet::new(headers, out_records))
    }
}


/// How often the merged record `m` arises from one left record: once
/// for every matching right record equal to `m`'s right part, and never
/// when `m` does not extend `l` or the keys disagree.
pub proof fn lemma_matches_of_count(
    l: Seq<Seq<char>>,
    rs: Seq<Seq<Seq<char>>>,
    lk: int,
    rk: int,
    m: Seq<Seq<char>>,
)
    requires
        m.len() >= l.len(),
    ensures
        matches_of(l, rs, lk, rk).to_multiset().count(m) == (
        if m.take(l.len() as int) == l && m.skip(l.len() as int)[rk] == l[lk] {
            rs.to_multiset().count(m.skip(l.len() as int))
        } else {
            0
        }),
    decreases rs.len(),
{
    let la = l.len() as int;
    if rs.len() == 0 {
        assert(matches_of(l, rs, lk, rk).to_multiset() =~= Multiset::<Seq<Seq<char>>>::empty());
        assert(rs.to_multiset() =~= Multiset::<Seq<Seq<char>>>::empty());
    } else {
        let rest = rs.drop_first();
        lemma_matches_of_count(l, rest, lk, rk, m);
        let head: Seq<Seq<Seq<char>>> = if l[lk] == rs[0][rk] {
            seq![l + rs[0]]
        } else {
            Seq::empty()
        };
        assert(matches_of(l, rs, lk, rk) == head + matches_of(l, rest, lk, rk));
        vstd::seq_lib::lemma_multiset_commutative(head, matches_of(l, rest, lk, rk));
        // the possible single head element agrees with `m` exactly when
        // `m` splits into `l` and `rs[0]`
        if l[lk] == rs[0][rk] {
            assert(head.to_multiset() =~= Multiset::<Seq<Seq<char>>>::empty().insert(l + rs[0]));
            if m == l + rs[0] {
                assert(m.take(la) =~= l);
                assert(m.skip(la) =~= rs[0]);
                assert(head.to_multiset().count(m) == 1);
            } else {
                if m.take(la) == l && m.skip(la) == rs[0] {
                    assert(m =~= m.take(la) + m.skip(la));
                    assert(false);
                }
                assert(head.to_multiset().count(m) == 0);
            }
        } else {
            assert(head.to_multiset() =~= Multiset::<Seq<Seq<char>>>::empty());
        }
        // relate the right multiset to that of its tail
        assert(rs.remove(0) =~= rest);
        assert(rest.to_multiset() =~= rs.to_multiset().remove(rs[0]));
        assert(rs.to_multiset().count(rs[0]) > 0);
        if m.take(la) == l && m.skip(la)[rk] == l[lk] {
            if m.skip(la) == rs[0] {
                assert(rs.to_multiset().count(m.skip(la)) == rest.to_multiset().count(
                    m.skip(la),
                ) + 1);
                assert(l[lk] == rs[0][rk]);
                assert(m =~= l + rs[0]);
            } else {
                assert(rs.to_multiset().count(m.skip(la)) == rest.to_multiset().count(
                    m.skip(la),
                ));
            }
        }
    }
}

/// Join correctness, counted as multisets: a merged record arises once
/// for every (left record, right record) pair sharing a key, and records
/// with unmatched keys arise not at all.  `la` is the width of every
/// left record, so a merged record splits uniquely.
pub proof fn lemma_join_correctness(
    ls: Seq<Seq<Seq<char>>>,
    rs: Seq<Seq<Seq<char>>>,
    lk: int,
    rk: int,
    la: int,
    m: Seq<Seq<char>>,
)
    requires
        la >= 0,
        forall|i: int| 0 <= i < ls.len() ==> (#[trigger] ls[i]).len() == la,
        m.len() >= la,
    ensures
        join_rows(ls, rs, lk, rk).to_multiset().count(m) == (
        if m.skip(la)[rk] == m.take(la)[lk] {
            ls.to_multiset().count(m.take(la)) * rs.to_multiset().count(m.skip(la))
        } else {
            0
        }),
    decreases ls.len(),
{
    if ls.len() == 0 {
        assert(join_rows(ls, rs, lk, rk).to_multiset() =~= Multiset::<Seq<Seq<char>>>::empty());
        assert(ls.to_multiset() =~= Multiset::<Seq<Seq<char>>>::empty());
        if m.skip(la)[rk] == m.take(la)[lk] {
            assert(0 * rs.to_multiset().count(m.skip(la)) == 0) by (nonlinear_arith);
        }
    } else {
        let rest = ls.drop_first();
        assert(forall|i: int| 0 <= i < rest.len() ==> #[trigger] rest[i] == ls[i + 1]);
        lemma_join_correctness(rest, rs, lk, rk, la, m);
        assert(join_rows(ls, rs, lk, rk) == matches_of(ls[0], rs, lk, rk) + join_rows(
            rest,
            rs,
            lk,
            rk,
        ));
        vstd::seq_lib::lemma_multiset_commutative(
            matches_of(ls[0], rs, lk, rk),
            join_rows(rest, rs, lk, rk),
        );
        assert(ls[0].len() == la);
        lemma_matches_of_count(ls[0], rs, lk, rk, m);
        // relate the left multiset to that of its tail
        assert(ls.remove(0) =~= rest);
        assert(rest.to_multiset() =~= ls.to_multiset().remove(ls[0]));
        assert(ls.to_multiset().count(ls[0]) > 0);
        let lcnt = ls.to_multiset().count(m.take(la)) as int;
        let rcnt = rs.to_multiset().count(m.skip(la)) as int;
        let tcnt = rest.to_multiset().count(m.take(la)) as int;
        if m.skip(la)[rk] == m.take(la)[lk] {
            if m.take(la) == ls[0] {
                assert(lcnt == tcnt + 1);
                assert((tcnt + 1) * rcnt == tcnt * rcnt + rcnt) by (nonlinear_arith);
            } else {
                assert(lcnt == tcnt);
            }
        } else {
            // when the keys of `m` disagree, neither side contributes
            if m.take(la) == ls[0] && m.skip(la)[rk] == ls[0][lk] {
                assert(false);
            }
        }
    }
}

} // verus!
