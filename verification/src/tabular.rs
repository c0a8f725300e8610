//! Parsing delimited text into a data set.
//!
//! The format is the usual one: records separated by line breaks
//! (`\n`, `\r\n`, or a lone `\r`), fields separated by commas, and a
//! field that starts with a double quote running to the closing quote,
//! with `""` inside standing for one quote character.  The parse is
//! specified as a character automaton (`csv_step`) folded over the
//! text, and the executable parser is proved to follow it exactly.

use vstd::prelude::*;
use crate::dataset::DataSet;
use crate::errors::LoadError;

verus! {

/// Where the automaton stands inside the current field.
#[derive(PartialEq, Eq, Structural, Clone, Copy, Debug)]
pub enum CsvMode {
    /// In an unquoted field, or between fields.
    Plain,
    /// Inside a quoted field.
    Quoted,
    /// Just after a quote character inside a quoted field.
    QuoteSeen,
}

/// The automaton's state: finished rows, the open row, the open
/// field, the field mode, and whether the last character was a
/// carriage return that ended a row.
pub struct CsvState {
    pub rows: Seq<Seq<Seq<char>>>,
    pub row: Seq<Seq<char>>,
    pub field: Seq<char>,
    pub mode: CsvMode,
    pub last_cr: bool,
}

pub open spec fn csv_init() -> CsvState {
    CsvState {
        rows: Seq::empty(),
        row: Seq::empty(),
        field: Seq::empty(),
        mode: CsvMode::Plain,
        last_cr: false,
    }
}

/// Ends the open row: the open field joins it, and the row joins the
/// finished rows.
pub open spec fn csv_end_row(st: CsvState, cr: bool) -> CsvState {
    CsvState {
        rows: st.rows.push(st.row.push(st.field)),
        row: Seq::empty(),
        field: Seq::empty(),
        mode: CsvMode::Plain,
        last_cr: cr,
    }
}

/// Ends the open field.
pub open spec fn csv_end_field(st: CsvState) -> CsvState {
    CsvState {
        rows: st.rows,
        row: st.row.push(st.field),
        field: Seq::empty(),
        mode: CsvMode::Plain,
        last_cr: false,
    }
}

/// Appends one character to the open field.
pub open spec fn csv_push(st: CsvState, c: char, mode: CsvMode) -> CsvState {
    CsvState {
        rows: st.rows,
        row: st.row,
        field: st.field.push(c),
        mode,
        last_cr: false,
    }
}

/// One character of input.
pub open spec fn csv_step(st: CsvState, c: char) -> CsvState {
    match st.mode {
        CsvMode::Plain => {
            if st.last_cr && c == '\n' {
                // the line feed of a CR LF break; the row already ended
                CsvState { last_cr: false, ..st }
            } else if c == '\r' {
                csv_end_row(st, true)
            } else if c == '\n' {
                csv_end_row(st, false)
            } else if c == ',' {
                csv_end_field(st)
            } else if c == '"' && st.field.len() == 0 {
                CsvState { mode: CsvMode::Quoted, last_cr: false, ..st }
            } else {
                csv_push(st, c, CsvMode::Plain)
            }
        },
        CsvMode::Quoted => {
            if c == '"' {
                CsvState { mode: CsvMode::QuoteSeen, ..st }
            } else {
                csv_push(st, c, CsvMode::Quoted)
            }
        },
        CsvMode::QuoteSeen => {
            if c == '"' {
                csv_push(st, c, CsvMode::Quoted)
            } else if c == ',' {
                csv_end_field(st)
            } else if c == '\r' {
                csv_end_row(st, true)
            } else if c == '\n' {
                csv_end_row(st, false)
            } else {
                // lenient: text after a closing quote continues the field
                csv_push(st, c, CsvMode::Plain)
            }
        },
    }
}

/// The automaton folded over the text.
pub open spec fn csv_run(s: Seq<char>, st: CsvState) -> CsvState
    decreases s.len(),
{
    if s.len() == 0 {
        st
    } else {
        csv_run(s.drop_first(), csv_step(st, s[0]))
    }
}

/// Whether the end of input closes one last row.
pub open spec fn csv_has_tail(st: CsvState) -> bool {
    st.row.len() > 0 || st.field.len() > 0 || st.mode != CsvMode::Plain
}

/// The rows of the whole text.
pub open spec fn csv_rows(s: Seq<char>) -> Seq<Seq<Seq<char>>> {
    let st = csv_run(s, csv_init());
    if csv_has_tail(st) {
        st.rows.push(st.row.push(st.field))
    } else {
        st.rows
    }
}


/// Moves the finished field onto the open row.
fn push_field(row: &mut Vec<String>, field: String)
    ensures
        final(row).deep_view() == old(row).deep_view().push(field@),
        final(row)@.len() == old(row)@.len() + 1,
{
    let ghost pre = row@;
    let ghost fv = field@;
    row.push(field);
    proof {
        assert forall|k: int| 0 <= k < row@.len() implies row.deep_view()[k]
            == old(row).deep_view().push(fv)[k] by {
            if k < pre.len() {
                assert(row@[k] == pre[k]);
            } else {
                assert(row@[k]@ == fv);
            }
        }
        assert(row.deep_view() =~= old(row).deep_view().push(fv));
    }
}

/// Moves the finished row onto the finished rows.
fn push_row(rows: &mut Vec<Vec<String>>, row: Vec<String>)
    ensures
        final(rows).deep_view() == old(rows).deep_view().push(row.deep_view()),
        final(rows)@.len() == old(rows)@.len() + 1,
{
    let ghost pre = rows@;
    let ghost rv = row.deep_view();
    rows.push(row);
    proof {
        assert forall|k: int| 0 <= k < rows@.len() implies rows.deep_view()[k]
            == old(rows).deep_view().push(rv)[k] by {
            if k < pre.len() {
                assert(rows@[k] == pre[k]);
            } else {
                assert(rows@[k].deep_view() == rv);
            }
        }
        assert(rows.deep_view() =~= old(rows).deep_view().push(rv));
    }
}

pub proof fn lemma_csv_run_snoc(s: Seq<char>, st: CsvState, c: char)
    ensures
        csv_run(s.push(c), st) == csv_step(csv_run(s, st), c),
    decreases s.len(),
{
    assert(s.push(c).len() == s.len() + 1);
    if s.len() == 0 {
        assert(s.push(c)[0] == c);
        assert(s.push(c).drop_first() =~= Seq::<char>::empty());
        assert(csv_run(s.push(c), st) == csv_run(
            s.push(c).drop_first(),
            csv_step(st, s.push(c)[0]),
        ));
    } else {
        assert(s.push(c)[0] == s[0]);
        assert(s.push(c).drop_first() =~= s.drop_first().push(c));
        assert(csv_run(s.push(c), st) == csv_run(
            s.push(c).drop_first(),
            csv_step(st, s.push(c)[0]),
        ));
        lemma_csv_run_snoc(s.drop_first(), csv_step(st, s[0]), c);
        assert(csv_run(s, st) == csv_run(s.drop_first(), csv_step(st, s[0])));
    }
}

/// Every row of the parse has as many fields as the first.
pub open spec fn csv_rows_even(rows: Seq<Seq<Seq<char>>>) -> bool {
    forall|i: int| 0 <= i < rows.len() ==> (#[trigger] rows[i]).len() == rows[0].len()
}

/// Parses delimited text into a data set: the first row is the header
/// row, the rest are the records.  Errs when some record has a
/// different number of fields than the header row; empty text gives an
/// empty data set.
pub fn parse_table(text: &str) -> (r: Result<DataSet, LoadError>)
    ensures
        r is Ok <==> csv_rows_even(csv_rows(text@)),
        r is Err ==> r == Err::<DataSet, LoadError>(LoadError::RaggedRecord),
        r matches Ok(ds) ==> {
            let rows = csv_rows(text@);
            &&& ds.wf()
            &&& (rows.len() == 0 ==> ds.headers@.len() == 0 && ds.records@.len() == 0)
            &&& (rows.len() > 0 ==> ds.headers.deep_view() == rows[0]
                && crate::dataset::rows_of(ds.records) == rows.skip(1))
        },
{
    let n = text.unicode_len();
    let mut rows_vec: Vec<Vec<String>> = Vec::new();
    let mut row_vec: Vec<String> = Vec::new();
    let mut field_str: String = String::new();
    let mut mode: CsvMode = CsvMode::Plain;
    let mut last_cr: bool = false;
    let ghost mut st = csv_init();
    proof {
        assert(text@.take(0) =~= Seq::<char>::empty());
        assert(rows_vec.deep_view() =~= st.rows);
        assert(row_vec.deep_view() =~= st.row);
    }
    let mut i: usize = 0;
    while i < n
        invariant
            0 <= i <= n,
            n == text@.len(),
            st == csv_run(text@.take(i as int), csv_init()),
            rows_vec.deep_view() == st.rows,
            row_vec.deep_view() == st.row,
            field_str@ == st.field,
            mode == st.mode,
            last_cr == st.last_cr,
        decreases n - i,
    {
        let c = text.get_char(i);
        proof {
            assert(text@.take(i + 1) =~= text@.take(i as int).push(text@[i as int]));
            lemma_csv_run_snoc(text@.take(i as int), csv_init(), c);
        }
        let ghost st_pre = st;
        proof {
            st = csv_step(st_pre, c);
        }
        let is_plain = match mode {
            CsvMode::Plain => true,
            _ => false,
        };
        let is_quoted = match mode {
            CsvMode::Quoted => true,
            _ => false,
        };
        if is_plain {
            if last_cr && c as u32 == 10 {
                proof {
                    vstd::utf8::char_u32_cast(c, 10);
                }
                last_cr = false;
            } else if c as u32 == 13 {
                proof {
                    vstd::utf8::char_u32_cast(c, 13);
                }
                push_field(&mut row_vec, field_str);
                field_str = String::new();
                push_row(&mut rows_vec, row_vec);
                row_vec = Vec::new();
                last_cr = true;
                proof {
                    assert(row_vec.deep_view() =~= st.row);
                }
            } else if c as u32 == 10 {
                proof {
                    vstd::utf8::char_u32_cast(c, 10);
                }
                push_field(&mut row_vec, field_str);
                field_str = String::new();
                push_row(&mut rows_vec, row_vec);
                row_vec = Vec::new();
                last_cr = false;
                proof {
                    assert(row_vec.deep_view() =~= st.row);
                }
            } else if c as u32 == 44 {
                proof {
                    vstd::utf8::char_u32_cast(c, 44);
                }
                push_field(&mut row_vec, field_str);
                field_str = String::new();
                last_cr = false;
            } else if c as u32 == 34 && field_str.as_str().is_empty() {
                proof {
                    vstd::utf8::char_u32_cast(c, 34);
                    assert(st_pre.field.len() == 0);
                }
                mode = CsvMode::Quoted;
                last_cr = false;
            } else {
                proof {
                    if c == '\n' || c == '\r' || c == ',' {
                        assert(false);
                    }
                    if c == '"' {
                        assert(field_str@.len() > 0);
                    }
                }
                let piece = text.substring_char(i, i + 1);
                proof {
                    assert(piece@ =~= seq![text@[i as int]]);
                }
                field_str.append(piece);
                last_cr = false;
                proof {
                    assert(field_str@ =~= st.field);
                }
            }
        } else if is_quoted {
            if c as u32 == 34 {
                proof {
                    vstd::utf8::char_u32_cast(c, 34);
                }
                mode = CsvMode::QuoteSeen;
            } else {
                proof {
                    assert(c != '"');
                }
                let piece = text.substring_char(i, i + 1);
                proof {
                    assert(piece@ =~= seq![text@[i as int]]);
                }
                field_str.append(piece);
                last_cr = false;
                proof {
                    assert(field_str@ =~= st.field);
                }
            }
        } else {
            if c as u32 == 34 {
                proof {
                    vstd::utf8::char_u32_cast(c, 34);
                }
                let piece = text.substring_char(i, i + 1);
                proof {
                    assert(piece@ =~= seq![text@[i as int]]);
                }
                field_str.append(piece);
                mode = CsvMode::Quoted;
                last_cr = false;
                proof {
                    assert(field_str@ =~= st.field);
                }
            } else if c as u32 == 44 {
                proof {
                    vstd::utf8::char_u32_cast(c, 44);
                }
                push_field(&mut row_vec, field_str);
                field_str = String::new();
                mode = CsvMode::Plain;
                last_cr = false;
            } else if c as u32 == 13 {
                proof {
                    vstd::utf8::char_u32_cast(c, 13);
                }
                push_field(&mut row_vec, field_str);
                field_str = String::new();
                push_row(&mut rows_vec, row_vec);
                row_vec = Vec::new();
                mode = CsvMode::Plain;
                last_cr = true;
                proof {
                    assert(row_vec.deep_view() =~= st.row);
                }
            } else if c as u32 == 10 {
                proof {
                    vstd::utf8::char_u32_cast(c, 10);
                }
                push_field(&mut row_vec, field_str);
                field_str = String::new();
                push_row(&mut rows_vec, row_vec);
                row_vec = Vec::new();
                mode = CsvMode::Plain;
                last_cr = false;
                proof {
                    assert(row_vec.deep_view() =~= st.row);
                }
            } else {
                proof {
                    assert(c != '"' && c != ',' && c != '\r' && c != '\n');
                }
                let piece = text.substring_char(i, i + 1);
                proof {
                    assert(piece@ =~= seq![text@[i as int]]);
                }
                field_str.append(piece);
                mode = CsvMode::Plain;
                last_cr = false;
                proof {
                    assert(field_str@ =~= st.field);
                }
            }
        }
        i = i + 1;
    }
    proof {
        assert(text@.take(n as int) =~= text@);
    }
    // close the last row when the text did not end on a line break
    let has_open_row = !row_vec.is_empty();
    let has_open_field = !field_str.as_str().is_empty();
    let in_plain = match mode {
        CsvMode::Plain => true,
        _ => false,
    };
    if has_open_row || has_open_field || !in_plain {
        assert(csv_has_tail(st));
        push_field(&mut row_vec, field_str);
        push_row(&mut rows_vec, row_vec);
        proof {
            assert(rows_vec.deep_view() =~= csv_rows(text@));
        }
    } else {
        assert(!csv_has_tail(st));
        proof {
            assert(rows_vec.deep_view() =~= csv_rows(text@));
        }
    }
    // the first row is the header row; the rest must match its width
    let ghost all_rows = csv_rows(text@);
    if rows_vec.is_empty() {
        let ds = DataSet::new(Vec::new(), Vec::new());
        proof {
            assert(ds.headers.deep_view() =~= Seq::<Seq<char>>::empty());
            assert(csv_rows_even(all_rows));
        }
        return Ok(ds);
    }
    let mut rest = rows_vec;
    let headers = rest.remove(0);
    proof {
        assert(headers.deep_view() == all_rows[0]);
        assert(rest.deep_view() =~= all_rows.skip(1));
    }
    let hlen = headers.len();
    let rn = rest.len();
    let mut j: usize = 0;
    while j < rn
        invariant
            0 <= j <= rn,
            rn == rest@.len(),
            hlen == headers@.len(),
            all_rows == csv_rows(text@),
            headers.deep_view() == all_rows[0],
            rest.deep_view() == all_rows.skip(1),
            all_rows.len() == rn + 1,
            forall|t: int| 0 <= t < j ==> (#[trigger] rest@[t])@.len() == hlen,
        decreases rn - j,
    {
        if rest[j].len() != hlen {
            proof {
                assert(rest.deep_view()[j as int] == rest@[j as int].deep_view());
                assert(rest@[j as int].deep_view().len() == rest@[j as int]@.len());
                assert(all_rows.skip(1)[j as int] == rest.deep_view()[j as int]);
                assert(all_rows[j + 1] == all_rows.skip(1)[j as int]);
                assert(all_rows[j + 1].len() != all_rows[0].len());
                assert(!csv_rows_even(all_rows));
                assert(all_rows == csv_rows(text@));
                assert(!csv_rows_even(csv_rows(text@)));
            }
            return Err(LoadError::RaggedRecord);
        }
        j = j + 1;
    }
    let ds = DataSet::new(headers, rest);
    proof {
        assert forall|t: int| 0 <= t < all_rows.len() implies (#[trigger] all_rows[t]).len()
            == all_rows[0].len() by {
            if t > 0 {
                assert(all_rows[t] == all_rows.skip(1)[t - 1]);
                assert(all_rows.skip(1)[t - 1] == rest@[t - 1].deep_view());
            }
        }
        assert(ds.wf());
    }
    Ok(ds)
}

} // verus!
