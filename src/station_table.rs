//! The weather-station table of the automatic weather station page: the
//! table is found by landmarks, then each row is cut into the texts of its
//! cells.
use vstd::prelude::*;
use crate::text::{
    find_char_from, find_char_spec, find_from, find_spec, lemma_find_char_bounds,
    lemma_find_spec_bounds, rfind_before, rfind_spec, slice_of, strip_tags, strip_tags_spec,
};

verus! {

pub open spec fn pat_table_open() -> Seq<char> { seq!['<', 't', 'a', 'b', 'l', 'e'] }
pub open spec fn pat_table_close() -> Seq<char> { seq!['<', '/', 't', 'a', 'b', 'l', 'e'] }
pub open spec fn pat_javascript() -> Seq<char> { seq!['j', 'a', 'v', 'a', 's', 'c', 'r', 'i', 'p', 't'] }
pub open spec fn pat_tr_open() -> Seq<char> { seq!['<', 't', 'r'] }
pub open spec fn pat_tr_close() -> Seq<char> { seq!['<', '/', 't', 'r'] }
pub open spec fn pat_td_open() -> Seq<char> { seq!['<', 't', 'd'] }
pub open spec fn pat_td_close() -> Seq<char> { seq!['<', '/', 't', 'd'] }

/// The least count of cells a station row has beyond.
pub const MIN_ROW_CELLS: usize = 16;

/// Where the station rows lie: from the `<tr` that last precedes the first
/// `javascript` after the first `<table`, up to the next `</table`.
pub open spec fn table_bounds_spec(h: Seq<char>) -> Option<(int, int)> {
    let t = find_spec(h, pat_table_open(), 0);
    if t < 0 {
        None
    } else {
        let js = find_spec(h, pat_javascript(), t);
        if js < 0 {
            None
        } else {
            let b = rfind_spec(h, pat_tr_open(), js);
            if b < 0 {
                None
            } else {
                let e = find_spec(h, pat_table_close(), b);
                if e < 0 {
                    None
                } else {
                    Some((b, e))
                }
            }
        }
    }
}

/// The texts of the cells that open at or after `pos` and no later than
/// `end_tr`: each runs from the `>` of its `<td` to the next `</td`, with
/// its tags removed.
pub open spec fn cells_spec(h: Seq<char>, pos: int, end_tr: int) -> Seq<Seq<char>>
    decreases h.len() + 1 - pos,
{
    if pos < 0 || pos > h.len() {
        Seq::empty()
    } else {
        let td = find_spec(h, pat_td_open(), pos);
        if td < 0 || td > end_tr {
            Seq::empty()
        } else {
            let gt = find_char_spec(h, '>', td);
            if gt < pos {
                Seq::empty()
            } else {
                let etd = find_spec(h, pat_td_close(), gt);
                if etd < gt + 1 {
                    Seq::empty()
                } else {
                    seq![strip_tags_spec(h.subrange(gt + 1, etd), false)] + cells_spec(
                        h,
                        gt + 1,
                        end_tr,
                    )
                }
            }
        }
    }
}

/// The rows from `begin` up to `end`, each cut into cells, keeping those
/// with more than [`MIN_ROW_CELLS`] cells; `None` where a row has no
/// `</tr`.
pub open spec fn rows_spec(h: Seq<char>, begin: int, end: int) -> Option<Seq<Seq<Seq<char>>>>
    decreases h.len() + 1 - begin,
{
    if begin >= end || begin < 0 || begin > h.len() {
        Some(Seq::empty())
    } else {
        let etr = find_spec(h, pat_tr_close(), begin);
        if etr < 0 {
            None
        } else {
            let row = cells_spec(h, begin, etr);
            let nt = find_spec(h, pat_tr_open(), etr);
            let rest = if nt <= begin || nt > h.len() {
                Some(Seq::empty())
            } else {
                rows_spec(h, nt, end)
            };
            match rest {
                Some(rs) => Some(
                    if row.len() > MIN_ROW_CELLS {
                        seq![row] + rs
                    } else {
                        rs
                    },
                ),
                None => None,
            }
        }
    }
}

/// Why the station page could not be read.
#[derive(Clone, Copy, Debug, PartialEq, Eq, Structural)]
pub enum StationTableError {
    /// The landmarks of the table are missing.
    TableNotFound,
    /// A row has no closing `</tr`.
    UnterminatedRow,
}

/// The station rows of a page.
pub open spec fn station_table_spec(h: Seq<char>) -> Result<Seq<Seq<Seq<char>>>, StationTableError> {
    match table_bounds_spec(h) {
        None => Err(StationTableError::TableNotFound),
        Some((b, e)) => match rows_spec(h, b, e) {
            None => Err(StationTableError::UnterminatedRow),
            Some(rs) => Ok(rs),
        },
    }
}

pub open spec fn cells_view(r: Vec<Vec<char>>) -> Seq<Seq<char>> {
    r@.map_values(|c: Vec<char>| c@)
}

pub open spec fn table_view(t: Seq<Vec<Vec<char>>>) -> Seq<Seq<Seq<char>>> {
    t.map_values(|r: Vec<Vec<char>>| cells_view(r))
}

fn table_bounds(h: &[char]) -> (r: Option<(usize, usize)>)
    ensures
        match r {
            Some((b, e)) => table_bounds_spec(h@) == Some((b as int, e as int)),
            None => table_bounds_spec(h@) is None,
        },
{
    let table_open: [char; 6] = ['<', 't', 'a', 'b', 'l', 'e'];
    let javascript: [char; 10] = ['j', 'a', 'v', 'a', 's', 'c', 'r', 'i', 'p', 't'];
    let tr_open: [char; 3] = ['<', 't', 'r'];
    let table_close: [char; 7] = ['<', '/', 't', 'a', 'b', 'l', 'e'];
    assert(table_open@ =~= pat_table_open());
    assert(javascript@ =~= pat_javascript());
    assert(tr_open@ =~= pat_tr_open());
    assert(table_close@ =~= pat_table_close());
    let t = match find_from(h, &table_open, 0) {
        Some(t) => t,
        None => return None,
    };
    let js = match find_from(h, &javascript, t) {
        Some(js) => js,
        None => return None,
    };
    let b = match rfind_before(h, &tr_open, js) {
        Some(b) => b,
        None => return None,
    };
    match find_from(h, &table_close, b) {
        Some(e) => Some((b, e)),
        None => None,
    }
}

fn row_cells(h: &[char], pos0: usize, end_tr: usize) -> (r: Vec<Vec<char>>)
    requires
        pos0 <= h@.len(),
    ensures
        cells_view(r) == cells_spec(h@, pos0 as int, end_tr as int),
{
    let td_open: [char; 3] = ['<', 't', 'd'];
    let td_close: [char; 4] = ['<', '/', 't', 'd'];
    assert(td_open@ =~= pat_td_open());
    assert(td_close@ =~= pat_td_close());
    let mut row: Vec<Vec<char>> = Vec::new();
    let mut pos: usize = pos0;
    assert(cells_view(row) =~= Seq::<Seq<char>>::empty());
    assert(cells_spec(h@, pos0 as int, end_tr as int) =~= cells_view(row) + cells_spec(
        h@,
        pos as int,
        end_tr as int,
    ));
    loop
        invariant
            td_open@ == pat_td_open(),
            td_close@ == pat_td_close(),
            pos <= h@.len(),
            cells_spec(h@, pos0 as int, end_tr as int) == cells_view(row) + cells_spec(
                h@,
                pos as int,
                end_tr as int,
            ),
        decreases h@.len() - pos,
    {
        let ghost before = cells_view(row);
        let td = match find_from(h, &td_open, pos) {
            Some(td) => td,
            None => {
                assert(cells_spec(h@, pos as int, end_tr as int) == Seq::<Seq<char>>::empty());
                assert(cells_view(row) + Seq::<Seq<char>>::empty() =~= cells_view(row));
                return row;
            },
        };
        proof {
            lemma_find_spec_bounds(h@, pat_td_open(), pos as int);
        }
        if td > end_tr {
            assert(cells_spec(h@, pos as int, end_tr as int) == Seq::<Seq<char>>::empty());
            assert(cells_view(row) + Seq::<Seq<char>>::empty() =~= cells_view(row));
            return row;
        }
        let gt = match find_char_from(h, '>', td) {
            Some(gt) => gt,
            None => {
                assert(cells_spec(h@, pos as int, end_tr as int) == Seq::<Seq<char>>::empty());
                assert(cells_view(row) + Seq::<Seq<char>>::empty() =~= cells_view(row));
                return row;
            },
        };
        let etd = match find_from(h, &td_close, gt) {
            Some(etd) => etd,
            None => {
                assert(cells_spec(h@, pos as int, end_tr as int) == Seq::<Seq<char>>::empty());
                assert(cells_view(row) + Seq::<Seq<char>>::empty() =~= cells_view(row));
                return row;
            },
        };
        if etd < gt + 1 {
            assert(cells_spec(h@, pos as int, end_tr as int) == Seq::<Seq<char>>::empty());
            assert(cells_view(row) + Seq::<Seq<char>>::empty() =~= cells_view(row));
            return row;
        }
        let raw = slice_of(h, gt + 1, etd);
        let cell = strip_tags(raw.as_slice());
        row.push(cell);
        assert(cells_view(row) =~= before.push(cell@));
        assert(before + cells_spec(h@, pos as int, end_tr as int) =~= cells_view(row)
            + cells_spec(h@, gt + 1, end_tr as int));
        pos = gt + 1;
    }
}

fn table_rows(h: &[char], begin0: usize, end: usize) -> (r: Option<Vec<Vec<Vec<char>>>>)
    requires
        begin0 <= h@.len(),
    ensures
        match r {
            Some(t) => rows_spec(h@, begin0 as int, end as int) == Some(table_view(t@)),
            None => rows_spec(h@, begin0 as int, end as int) is None,
        },
{
    let tr_open: [char; 3] = ['<', 't', 'r'];
    let tr_close: [char; 4] = ['<', '/', 't', 'r'];
    assert(tr_open@ =~= pat_tr_open());
    assert(tr_close@ =~= pat_tr_close());
    let mut table: Vec<Vec<Vec<char>>> = Vec::new();
    let mut begin: usize = begin0;
    assert(table_view(table@) =~= Seq::<Seq<Seq<char>>>::empty());
    loop
        invariant
            tr_open@ == pat_tr_open(),
            tr_close@ == pat_tr_close(),
            begin <= h@.len(),
            match rows_spec(h@, begin as int, end as int) {
                Some(rest) => rows_spec(h@, begin0 as int, end as int) == Some(
                    table_view(table@) + rest,
                ),
                None => rows_spec(h@, begin0 as int, end as int) is None,
            },
        decreases h@.len() - begin,
    {
        if begin >= end {
            assert(table_view(table@) + Seq::<Seq<Seq<char>>>::empty() =~= table_view(table@));
            return Some(table);
        }
        let etr = match find_from(h, &tr_close, begin) {
            Some(etr) => etr,
            None => return None,
        };
        proof {
            lemma_find_spec_bounds(h@, pat_tr_close(), begin as int);
        }
        let row = row_cells(h, begin, etr);
        let ghost before = table_view(table@);
        let keep = row.len() > MIN_ROW_CELLS;
        let ghost row_view = cells_view(row);
        if keep {
            table.push(row);
            assert(table_view(table@) =~= before.push(row_view));
        }
        let nt = match find_from(h, &tr_open, etr) {
            Some(nt) => nt,
            None => {
                proof {
                    if keep {
                        assert(before + (seq![row_view] + Seq::<Seq<Seq<char>>>::empty())
                            =~= table_view(table@));
                    } else {
                        assert(before + Seq::<Seq<Seq<char>>>::empty() =~= table_view(table@));
                    }
                }
                return Some(table);
            },
        };
        proof {
            lemma_find_spec_bounds(h@, pat_tr_open(), etr as int);
        }
        if nt <= begin || nt > h.len() {
            proof {
                if keep {
                    assert(before + (seq![row_view] + Seq::<Seq<Seq<char>>>::empty())
                        =~= table_view(table@));
                } else {
                    assert(before + Seq::<Seq<Seq<char>>>::empty() =~= table_view(table@));
                }
            }
            return Some(table);
        }
        proof {
            match rows_spec(h@, nt as int, end as int) {
                Some(rs) => {
                    if keep {
                        assert(before + (seq![row_view] + rs) =~= table_view(table@) + rs);
                    } else {
                        assert(before + rs =~= table_view(table@) + rs);
                    }
                },
                None => {},
            }
        }
        begin = nt;
    }
}

/// The station rows of the automatic weather station page: each row with
/// more than [`MIN_ROW_CELLS`] cells, as the texts of its cells.
pub fn parse_station_table(h: &[char]) -> (r: Result<Vec<Vec<Vec<char>>>, StationTableError>)
    ensures
        match r {
            Ok(t) => station_table_spec(h@) == Ok::<Seq<Seq<Seq<char>>>, StationTableError>(
                table_view(t@),
            ),
            Err(e) => station_table_spec(h@) == Err::<Seq<Seq<Seq<char>>>, StationTableError>(e),
        },
{
    match table_bounds(h) {
        None => Err(StationTableError::TableNotFound),
        Some((b, e)) => {
            proof {
                lemma_find_spec_bounds(h@, pat_table_close(), b as int);
            }
            match table_rows(h, b, e) {
                None => Err(StationTableError::UnterminatedRow),
                Some(t) => Ok(t),
            }
        },
    }
}

} // verus!
