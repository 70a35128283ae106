//! Spreadsheet preview: the sheet to show and its cells, cut to a size a
//! plain table renders quickly, with the full size reported alongside.
use vstd::prelude::*;

use crate::error::{llm_error, CoreError};
use crate::preview_pptx::{join_spec, join_strings, strings_view};
use crate::text::{copy_string, owned, str_chars, str_equal, trim_chars, trim_spec};

verus! {

broadcast use vstd::string::group_string_axioms;

/// Rows shown at most.
pub const MAX_ROWS: usize = 1000;

/// Columns shown at most.
pub const MAX_COLS: usize = 50;

/// A sheet of a workbook as a table of texts.
pub struct XlsxPreview {
    /// All sheet names, in workbook order.
    pub sheets: Vec<String>,
    /// The sheet whose cells are in `rows`.
    pub active_sheet: String,
    /// Cell texts, row by row, cut to `MAX_ROWS` × `MAX_COLS`.
    pub rows: Vec<Vec<String>>,
    /// Size of the sheet before cutting.
    pub total_rows: usize,
    pub total_cols: usize,
    /// Rows or columns were cut.
    pub truncated: bool,
}

/// The message for a requested sheet that does not exist.
pub open spec fn missing_sheet_msg(name: Seq<char>, names: Seq<Seq<char>>) -> Seq<char> {
    "Sheet '"@ + name + "' nicht gefunden. Verfügbar: "@ + join_spec(names, ", "@)
}

/// The sheet to show: the requested one when a non-blank name is given
/// (which must exist), else the first sheet.
pub fn active_sheet(sheet_names: &Vec<String>, requested: Option<&str>) -> (r: Result<
    String,
    CoreError,
>)
    ensures
        sheet_names@.len() == 0 ==> r is Err && llm_error(r->Err_0, "Workbook hat keine Sheets."@),
        sheet_names@.len() > 0 ==> match requested {
            Some(s) => if trim_spec(s@).len() == 0 {
                r is Ok && r->Ok_0@ == sheet_names@[0]@
            } else if strings_view(sheet_names@).contains(s@) {
                r is Ok && r->Ok_0@ == s@
            } else {
                r is Err && llm_error(
                    r->Err_0,
                    missing_sheet_msg(s@, strings_view(sheet_names@)),
                )
            },
            None => r is Ok && r->Ok_0@ == sheet_names@[0]@,
        },
{
    if sheet_names.len() == 0 {
        return Err(CoreError::Llm(owned("Workbook hat keine Sheets.")));
    }
    match requested {
        Some(s) => {
            if trim_chars(&str_chars(s)).len() > 0 {
                assert(trim_spec(s@).len() > 0);
                let mut i: usize = 0;
                while i < sheet_names.len()
                    invariant
                        i <= sheet_names.len(),
                        sheet_names.len() > 0,
                        requested == Some(s),
                        trim_spec(s@).len() > 0,
                        forall|j: int| 0 <= j < i ==> sheet_names@[j]@ != s@,
                    decreases sheet_names.len() - i,
                {
                    if str_equal(sheet_names[i].as_str(), s) {
                        assert(strings_view(sheet_names@)[i as int] == s@);
                        return Ok(owned(s));
                    }
                    i = i + 1;
                }
                proof {
                    if strings_view(sheet_names@).contains(s@) {
                        let j = choose|j: int|
                            0 <= j < strings_view(sheet_names@).len() && strings_view(
                                sheet_names@,
                            )[j] == s@;
                        assert(sheet_names@[j]@ == s@);
                    }
                }
                let mut m = owned("Sheet '");
                m.push_str(s);
                m.push_str("' nicht gefunden. Verfügbar: ");
                let names = join_strings(sheet_names, ", ");
                m.push_str(names.as_str());
                return Err(CoreError::Llm(m));
            }
            Ok(copy_string(&sheet_names[0]))
        },
        None => Ok(copy_string(&sheet_names[0])),
    }
}

/// The texts of a table.
pub open spec fn grid_view(g: Seq<Vec<String>>) -> Seq<Seq<Seq<char>>> {
    g.map_values(|r: Vec<String>| strings_view(r@))
}

/// A table cut to its first `MAX_ROWS` rows and `MAX_COLS` columns.
pub open spec fn clipped(g: Seq<Seq<Seq<char>>>) -> Seq<Seq<Seq<char>>> {
    let rows = if g.len() > MAX_ROWS {
        g.take(MAX_ROWS as int)
    } else {
        g
    };
    rows.map_values(
        |r: Seq<Seq<char>>|
            if r.len() > MAX_COLS {
                r.take(MAX_COLS as int)
            } else {
                r
            },
    )
}

fn clip_row(row: &Vec<String>) -> (r: Vec<String>)
    ensures
        strings_view(r@) == if row@.len() > MAX_COLS {
            strings_view(row@).take(MAX_COLS as int)
        } else {
            strings_view(row@)
        },
{
    let n = if row.len() > MAX_COLS {
        MAX_COLS
    } else {
        row.len()
    };
    let mut out: Vec<String> = Vec::new();
    let mut i: usize = 0;
    while i < n
        invariant
            i <= n,
            n <= row.len(),
            strings_view(out@) == strings_view(row@).take(i as int),
        decreases n - i,
    {
        let ghost before = strings_view(out@);
        out.push(copy_string(&row[i]));
        assert(strings_view(out@) =~= before.push(row@[i as int]@));
        assert(strings_view(row@).take(i + 1) =~= strings_view(row@).take(i as int).push(
            row@[i as int]@,
        ));
        i = i + 1;
    }
    assert(strings_view(row@).take(row@.len() as int) =~= strings_view(row@));
    out
}

/// The cells shown: the first `MAX_ROWS` rows, each cut to its first
/// `MAX_COLS` cells.
pub fn render_grid(cells: &Vec<Vec<String>>) -> (r: Vec<Vec<String>>)
    ensures
        grid_view(r@) == clipped(grid_view(cells@)),
{
    let ghost g = grid_view(cells@);
    let n = if cells.len() > MAX_ROWS {
        MAX_ROWS
    } else {
        cells.len()
    };
    let mut out: Vec<Vec<String>> = Vec::new();
    let mut i: usize = 0;
    while i < n
        invariant
            i <= n,
            n <= cells.len(),
            n == if cells.len() > MAX_ROWS {
                MAX_ROWS
            } else {
                cells.len()
            },
            g == grid_view(cells@),
            grid_view(out@) == clipped(g).take(i as int),
        decreases n - i,
    {
        let row = clip_row(&cells[i]);
        proof {
            assert(clipped(g)[i as int] == (if g[i as int].len() > MAX_COLS {
                g[i as int].take(MAX_COLS as int)
            } else {
                g[i as int]
            }));
        }
        let ghost before = grid_view(out@);
        out.push(row);
        assert(grid_view(out@) =~= before.push(clipped(g)[i as int]));
        assert(clipped(g).take(i + 1) =~= clipped(g).take(i as int).push(clipped(g)[i as int]));
        i = i + 1;
    }
    assert(clipped(g).take(n as int) =~= clipped(g));
    out
}

/// The preview of a sheet, from its cell texts and its full size.
pub fn assemble_preview(
    sheets: Vec<String>,
    active_sheet: String,
    cells: &Vec<Vec<String>>,
    total_rows: usize,
    total_cols: usize,
) -> (p: XlsxPreview)
    ensures
        p.sheets == sheets,
        p.active_sheet == active_sheet,
        grid_view(p.rows@) == clipped(grid_view(cells@)),
        p.total_rows == total_rows,
        p.total_cols == total_cols,
        p.truncated == (total_rows > MAX_ROWS || total_cols > MAX_COLS),
{
    XlsxPreview {
        sheets,
        active_sheet,
        rows: render_grid(cells),
        total_rows,
        total_cols,
        truncated: total_rows > MAX_ROWS || total_cols > MAX_COLS,
    }
}

} // verus!
