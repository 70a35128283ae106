//! The fan-out of a worker over the rows of a spreadsheet: which rows are
//! worked on, what each worker is asked, where the answers go, and what is
//! reported back.
//!
//! The first row of the sheet holds the headers. Each selected row's values
//! are substituted into the task template (`{{header}}` placeholders), a
//! worker answers it, and the trimmed answer goes into the target column,
//! which is appended when no header names it.
use vstd::prelude::*;

use crate::delegation::ResolvedProfile;
use crate::error::{llm_error, path_error, CoreError};
use crate::preview_pptx::{ends_with_chars, has_suffix};
use crate::keyed::{
    find_key, key_insert, key_lookup, keys_ascending, lemma_key_insert, lemma_key_lookup_at,
    pair_keys, table_keys,
};
use crate::text::{
    copy_string, decimal, lowercase_text, owned, push_decimal, replace_all, replace_spec,
    str_chars, str_equal, string_from_chars, to_lowercase, trim_chars, trim_spec,
};
use crate::tool::{DelegationSamplePrompt, HitlPreview, ToolOutput};

verus! {

broadcast use vstd::string::group_string_axioms;

/// How many rendered prompts the approval card shows.
pub const SAMPLE_PROMPT_COUNT: usize = 3;

/// The tool that fans a worker out over the rows of a sheet.
pub struct DelegateIntoXlsxColumnTool;

impl DelegateIntoXlsxColumnTool {
    /// The tool's name.
    pub fn name(&self) -> (s: &'static str)
        ensures
            s@ == "delegate_into_xlsx_column"@,
    {
        "delegate_into_xlsx_column"
    }
}

/// Only rows whose `column` holds exactly `equals` are worked on.
pub struct RowFilter {
    pub column: String,
    pub equals: String,
}

/// The arguments of the fan-out tool.
pub struct DelegateInput {
    /// The workbook, relative to the agent folder.
    pub path: String,
    /// The sheet; the first one when absent.
    pub sheet: Option<String>,
    pub filter: Option<RowFilter>,
    /// Headers the template refers to; each must exist.
    pub source_columns: Vec<String>,
    /// Header of the column the answers go into.
    pub target_column: String,
    /// The prompt, with `{{header}}` placeholders.
    pub task_template: String,
}

/// One worksheet, as the cell texts the fan-out reads.
pub struct SheetGrid {
    pub name: String,
    pub highest_col: u32,
    pub highest_row: u32,
    /// `cells[r][c]` is the text of the cell in row `r + 1`, column `c + 1`;
    /// cells beyond these lists are empty.
    pub cells: Vec<Vec<String>>,
}

/// The text of the cell in column `col`, row `row` (both from 1).
pub open spec fn cell_text(g: SheetGrid, col: int, row: int) -> Seq<char> {
    if 1 <= row <= g.cells@.len() && 1 <= col <= g.cells@[row - 1]@.len() {
        g.cells@[row - 1]@[col - 1]@
    } else {
        Seq::empty()
    }
}

/// Header → column, in ascending header order.
pub type HeaderTable = Vec<(String, u32)>;

/// Header → value of one row, in ascending header order.
pub type RowValues = Vec<(String, String)>;

/// The texts of a header table.
pub open spec fn headers_view(t: Seq<(String, u32)>) -> Seq<(Seq<char>, u32)> {
    t.map_values(|e: (String, u32)| (e.0@, e.1))
}

/// The texts of a row's values.
pub open spec fn values_view(t: Seq<(String, String)>) -> Seq<(Seq<char>, Seq<char>)> {
    t.map_values(|e: (String, String)| (e.0@, e.1@))
}

/// The headers of the first `n` columns: each non-blank trimmed header
/// names its column, a later column replacing an earlier one with the same
/// header.
pub open spec fn header_table(g: SheetGrid, n: int) -> Seq<(Seq<char>, u32)>
    decreases n,
{
    if n <= 0 {
        Seq::empty()
    } else {
        let t = header_table(g, n - 1);
        let h = trim_spec(cell_text(g, n, 1));
        if h.len() > 0 {
            key_insert(t, h, n as u32)
        } else {
            t
        }
    }
}

/// The values of row `row` under each header.
pub open spec fn row_values(h: Seq<(Seq<char>, u32)>, g: SheetGrid, row: int) -> Seq<
    (Seq<char>, Seq<char>),
> {
    h.map_values(|e: (Seq<char>, u32)| (e.0, cell_text(g, e.1 as int, row)))
}

/// The texts of a filter.
pub open spec fn filter_view(f: Option<RowFilter>) -> Option<(Seq<char>, Seq<char>)> {
    match f {
        Some(f) => Some((f.column@, f.equals@)),
        None => None,
    }
}

/// A row passes the filter: there is none, or the filtered header exists
/// and its value is exactly the wanted text.
pub open spec fn passes(values: Seq<(Seq<char>, Seq<char>)>, f: Option<(Seq<char>, Seq<char>)>) -> bool {
    match f {
        None => true,
        Some((column, equals)) => key_lookup(values, column) == Some(equals),
    }
}

/// The placeholder of a header: `{{header}}`.
pub open spec fn placeholder(key: Seq<char>) -> Seq<char> {
    seq!['{', '{'] + key + seq!['}', '}']
}

/// The template with the placeholder of each header replaced by its value,
/// header by header in ascending order.
pub open spec fn rendered(template: Seq<char>, values: Seq<(Seq<char>, Seq<char>)>) -> Seq<char>
    decreases values.len(),
{
    if values.len() == 0 {
        template
    } else {
        replace_spec(
            rendered(template, values.drop_last()),
            placeholder(values.last().0),
            values.last().1,
        )
    }
}

/// The rows from 2 to `n` that pass the filter, each with its values.
pub open spec fn selected_rows(
    h: Seq<(Seq<char>, u32)>,
    g: SheetGrid,
    f: Option<(Seq<char>, Seq<char>)>,
    n: int,
) -> Seq<(u32, Seq<(Seq<char>, Seq<char>)>)>
    decreases n,
{
    if n < 2 {
        Seq::empty()
    } else {
        let prev = selected_rows(h, g, f, n - 1);
        let vals = row_values(h, g, n);
        if passes(vals, f) {
            prev.push((n as u32, vals))
        } else {
            prev
        }
    }
}

/// The texts of selected rows.
pub open spec fn rows_view(t: Seq<(u32, RowValues)>) -> Seq<(u32, Seq<(Seq<char>, Seq<char>)>)> {
    t.map_values(|e: (u32, RowValues)| (e.0, values_view(e.1@)))
}

/// What a sheet shows of the planned fan-out.
pub struct SheetSurvey {
    /// Column the answers go into.
    pub target_col: u32,
    /// The target header is new and is written into row 1 first.
    pub target_creates_column: bool,
    /// The selected rows, in sheet order, each with its values.
    pub targets: Vec<(u32, RowValues)>,
}

/// The survey of sheet `g` for `input`.
pub open spec fn surveyed(s: SheetSurvey, input: DelegateInput, g: SheetGrid) -> bool {
    let h = header_table(g, g.highest_col as int);
    &&& match key_lookup(h, input.target_column@) {
        Some(c) => s.target_col == c && !s.target_creates_column,
        None => s.target_col == g.highest_col + 1 && s.target_creates_column,
    }
    &&& rows_view(s.targets@) == selected_rows(h, g, filter_view(input.filter), g.highest_row as int)
}

/// The first source column without a header.
pub open spec fn first_missing(h: Seq<(Seq<char>, u32)>, sources: Seq<Seq<char>>) -> Option<
    Seq<char>,
>
    decreases sources.len(),
{
    if sources.len() == 0 {
        None
    } else if key_lookup(h, sources[0]) is None {
        Some(sources[0])
    } else {
        first_missing(h, sources.drop_first())
    }
}

/// The message for a source column without a header.
pub open spec fn missing_column_msg(column: Seq<char>, path: Seq<char>) -> Seq<char> {
    "Spalte '"@ + column + "' fehlt im Header von "@ + path + "."@
}

/// The texts of a list of strings.
pub open spec fn texts(v: Seq<String>) -> Seq<Seq<char>> {
    v.map_values(|s: String| s@)
}

/// Header tables built from a sheet have ascending headers.
pub proof fn lemma_header_table_ascending(g: SheetGrid, n: int)
    ensures
        keys_ascending(pair_keys(header_table(g, n))),
    decreases n,
{
    if n > 0 {
        lemma_header_table_ascending(g, n - 1);
        let t = header_table(g, n - 1);
        let h = trim_spec(cell_text(g, n, 1));
        if h.len() > 0 {
            lemma_key_insert(t, h, n as u32);
        }
    } else {
        assert(pair_keys(header_table(g, n)) =~= Seq::<Seq<char>>::empty());
    }
}

/// A row's values carry exactly the headers of the table.
pub proof fn lemma_row_keys(h: Seq<(Seq<char>, u32)>, g: SheetGrid, row: int)
    ensures
        pair_keys(row_values(h, g, row)) == pair_keys(h),
{
    assert(pair_keys(row_values(h, g, row)) =~= pair_keys(h));
}

fn cell_at(g: &SheetGrid, col: u32, row: u32) -> (s: String)
    ensures
        s@ == cell_text(*g, col as int, row as int),
{
    if row >= 1 && ((row - 1) as usize) < g.cells.len() {
        let r = &g.cells[(row - 1) as usize];
        if col >= 1 && ((col - 1) as usize) < r.len() {
            return copy_string(&r[(col - 1) as usize]);
        }
    }
    String::new()
}

/// Enter `k → v` into a header table.
fn header_insert(t: &mut HeaderTable, k: String, v: u32)
    ensures
        headers_view(final(t)@) == key_insert(headers_view(old(t)@), k@, v),
{
    let ghost tv = headers_view(t@);
    let (p, found) = find_key(t, &str_chars(k.as_str()));
    proof {
        assert(table_keys(t@) =~= pair_keys(tv));
    }
    if found {
        t.set(p, (k, v));
        assert(headers_view(t@) =~= tv.update(p as int, (k@, v)));
    } else {
        t.insert(p, (k, v));
        assert(headers_view(t@) =~= tv.insert(p as int, (k@, v)));
    }
}

/// Header → column for the first row of the sheet.
pub fn read_headers(g: &SheetGrid) -> (t: HeaderTable)
    ensures
        headers_view(t@) == header_table(*g, g.highest_col as int),
        keys_ascending(table_keys(t@)),
{
    let mut t: HeaderTable = Vec::new();
    let mut c: u32 = 0;
    assert(headers_view(t@) =~= header_table(*g, 0));
    while c < g.highest_col
        invariant
            c <= g.highest_col,
            headers_view(t@) == header_table(*g, c as int),
        decreases g.highest_col - c,
    {
        c = c + 1;
        let value = cell_at(g, c, 1);
        let trimmed = trim_chars(&str_chars(value.as_str()));
        if trimmed.len() > 0 {
            header_insert(&mut t, string_from_chars(&trimmed), c);
        }
    }
    proof {
        lemma_header_table_ascending(*g, g.highest_col as int);
        assert(table_keys(t@) =~= pair_keys(headers_view(t@)));
    }
    t
}

/// Header → value of row `row`.
pub fn read_row(g: &SheetGrid, headers: &HeaderTable, row: u32) -> (v: RowValues)
    ensures
        values_view(v@) == row_values(headers_view(headers@), *g, row as int),
        table_keys(v@) == table_keys(headers@),
{
    let mut out: RowValues = Vec::new();
    let mut i: usize = 0;
    while i < headers.len()
        invariant
            i <= headers.len(),
            values_view(out@) == row_values(headers_view(headers@), *g, row as int).take(i as int),
        decreases headers.len() - i,
    {
        let value = cell_at(g, headers[i].1, row);
        let ghost before = values_view(out@);
        out.push((copy_string(&headers[i].0), value));
        proof {
            let rv = row_values(headers_view(headers@), *g, row as int);
            assert(rv[i as int] == (headers@[i as int].0@, cell_text(*g, headers@[i as int].1 as int, row as int)));
            assert(values_view(out@) =~= before.push(rv[i as int]));
            assert(rv.take(i + 1) =~= rv.take(i as int).push(rv[i as int]));
        }
        i = i + 1;
        assert(values_view(out@) =~= row_values(headers_view(headers@), *g, row as int).take(i as int));
    }
    assert(row_values(headers_view(headers@), *g, row as int).take(i as int) =~= row_values(
        headers_view(headers@),
        *g,
        row as int,
    ));
    proof {
        let vv = values_view(out@);
        assert(vv.len() == headers@.len());
        assert forall|j: int| 0 <= j < out@.len() implies #[trigger] table_keys(out@)[j] == table_keys(
            headers@,
        )[j] by {
            assert(vv[j].0 == out@[j].0@);
        }
        assert(table_keys(out@) =~= table_keys(headers@));
    }
    out
}


/// Whether a row passes the filter (`matches_filter`).
pub fn matches_filter(values: &RowValues, filter: Option<&RowFilter>) -> (b: bool)
    requires
        keys_ascending(table_keys(values@)),
    ensures
        b == match filter {
            None => true,
            Some(f) => key_lookup(values_view(values@), f.column@) == Some(f.equals@),
        },
{
    match filter {
        None => true,
        Some(f) => {
            let (p, found) = find_key(values, &str_chars(f.column.as_str()));
            proof {
                assert(table_keys(values@) =~= pair_keys(values_view(values@)));
            }
            if found {
                str_equal(values[p].1.as_str(), f.equals.as_str())
            } else {
                false
            }
        },
    }
}

fn placeholder_chars(key: &String) -> (p: Vec<char>)
    ensures
        p@ == placeholder(key@),
        p@.len() > 0,
{
    let mut p: Vec<char> = Vec::new();
    p.push('{');
    p.push('{');
    let k = str_chars(key.as_str());
    let mut i: usize = 0;
    while i < k.len()
        invariant
            i <= k.len(),
            p@ == seq!['{', '{'] + k@.take(i as int),
        decreases k.len() - i,
    {
        p.push(k[i]);
        i = i + 1;
        assert(p@ =~= seq!['{', '{'] + k@.take(i as int));
    }
    p.push('}');
    p.push('}');
    assert(k@.take(k.len() as int) =~= k@);
    assert(p@ =~= placeholder(key@));
    p
}

/// The template with each header's `{{header}}` placeholder replaced by
/// the row's value, header by header in ascending order.
pub fn render_template(template: &str, values: &RowValues) -> (r: String)
    ensures
        r@ == rendered(template@, values_view(values@)),
{
    let ghost vv = values_view(values@);
    let mut out = str_chars(template);
    let mut i: usize = 0;
    assert(vv.take(0) =~= Seq::<(Seq<char>, Seq<char>)>::empty());
    while i < values.len()
        invariant
            i <= values.len(),
            vv == values_view(values@),
            out@ == rendered(template@, vv.take(i as int)),
        decreases values.len() - i,
    {
        let p = placeholder_chars(&values[i].0);
        let v = str_chars(values[i].1.as_str());
        out = replace_all(&out, &p, &v);
        proof {
            assert(vv.take(i + 1).drop_last() =~= vv.take(i as int));
            assert(vv.take(i + 1).last() == vv[i as int]);
        }
        i = i + 1;
    }
    assert(vv.take(values.len() as int) =~= vv);
    string_from_chars(&out)
}

proof fn lemma_replace_absent(s: Seq<char>, p: Seq<char>, r: Seq<char>)
    requires
        p.len() > 0,
        !s.contains(p[0]),
    ensures
        replace_spec(s, p, r) == s,
    decreases s.len(),
{
    if s.len() >= p.len() {
        assert(s.take(p.len() as int)[0] == s[0]);
        assert(s.take(p.len() as int) != p);
        assert forall|c: char| s.skip(1).contains(c) implies s.contains(c) by {
            let i = choose|i: int| 0 <= i < s.skip(1).len() && s.skip(1)[i] == c;
            assert(s[i + 1] == c);
        }
        lemma_replace_absent(s.skip(1), p, r);
        assert(s =~= seq![s[0]] + s.skip(1));
    }
}

/// A template without `{` is its own rendering: nothing is replaced.
pub proof fn lemma_render_without_placeholders(
    template: Seq<char>,
    values: Seq<(Seq<char>, Seq<char>)>,
)
    requires
        !template.contains('{'),
    ensures
        rendered(template, values) == template,
    decreases values.len(),
{
    if values.len() > 0 {
        lemma_render_without_placeholders(template, values.drop_last());
        let p = placeholder(values.last().0);
        assert(p[0] == '{');
        lemma_replace_absent(template, p, values.last().1);
    }
}

/// Selected rows come in increasing row order, each within rows 2 to `n`,
/// each passing the filter, and there are fewer of them than `n`.
pub proof fn lemma_selected_rows(
    h: Seq<(Seq<char>, u32)>,
    g: SheetGrid,
    f: Option<(Seq<char>, Seq<char>)>,
    n: int,
)
    requires
        n <= u32::MAX,
    ensures
        selected_rows(h, g, f, n).len() <= if n < 2 { 0 } else { n - 1 },
        forall|i: int|
            0 <= i < selected_rows(h, g, f, n).len() ==> {
                let e = #[trigger] selected_rows(h, g, f, n)[i];
                &&& 2 <= e.0 <= n
                &&& e.1 == row_values(h, g, e.0 as int)
                &&& passes(e.1, f)
            },
        forall|i: int, j: int|
            0 <= i < j < selected_rows(h, g, f, n).len() ==> selected_rows(h, g, f, n)[i].0
                < selected_rows(h, g, f, n)[j].0,
    decreases n,
{
    if n >= 2 {
        lemma_selected_rows(h, g, f, n - 1);
    }
}

/// Survey the sheet: where the answers go and which rows are worked on.
pub fn survey_sheet(input: &DelegateInput, g: &SheetGrid) -> (s: SheetSurvey)
    requires
        g.highest_col < u32::MAX,
    ensures
        surveyed(s, *input, *g),
        s.targets@.len() < u32::MAX,
{
    let headers = read_headers(g);
    let ghost h = headers_view(headers@);
    proof {
        lemma_header_table_ascending(*g, g.highest_col as int);
    }
    let (p, found) = find_key(&headers, &str_chars(input.target_column.as_str()));
    proof {
        assert(table_keys(headers@) =~= pair_keys(h));
        if found {
            lemma_key_lookup_at(h, input.target_column@, p as int);
        } else {
            if key_lookup(h, input.target_column@) is Some {
                assert(h[p as int].0 == headers@[p as int].0@);
            }
        }
    }
    let (target_col, target_creates_column) = if found {
        (headers[p].1, false)
    } else {
        (g.highest_col + 1, true)
    };
    let ghost fv = filter_view(input.filter);
    let filter: Option<&RowFilter> = match &input.filter {
        Some(f) => Some(f),
        None => None,
    };
    let mut targets: Vec<(u32, RowValues)> = Vec::new();
    let mut r: u32 = 1;
    assert(rows_view(targets@) =~= selected_rows(h, *g, fv, 1));
    while r < g.highest_row
        invariant
            1 <= r,
            r <= g.highest_row || r == 1,
            h == headers_view(headers@),
            keys_ascending(pair_keys(h)),
            fv == filter_view(input.filter),
            filter == match input.filter {
                Some(f) => Some(&f),
                None => None::<&RowFilter>,
            },
            rows_view(targets@) == selected_rows(h, *g, fv, r as int),
            targets@.len() <= r - 1,
        decreases g.highest_row - r,
    {
        r = r + 1;
        let values = read_row(g, &headers, r);
        proof {
            assert(table_keys(headers@) =~= pair_keys(h));
        }
        if matches_filter(&values, filter) {
            let ghost before = rows_view(targets@);
            targets.push((r, values));
            assert(rows_view(targets@) =~= before.push((r, values_view(values@))));
        }
    }
    proof {
        if g.highest_row < 1 {
            assert(selected_rows(h, *g, fv, g.highest_row as int) =~= selected_rows(h, *g, fv, 1));
        }
    }
    SheetSurvey { target_col, target_creates_column, targets }
}

/// Check the source columns against the headers, then survey the sheet.
pub fn plan_batch(input: &DelegateInput, g: &SheetGrid) -> (r: Result<SheetSurvey, CoreError>)
    requires
        g.highest_col < u32::MAX,
    ensures
        match first_missing(header_table(*g, g.highest_col as int), texts(input.source_columns@)) {
            Some(c) => r is Err && llm_error(r->Err_0, missing_column_msg(c, input.path@)),
            None => r is Ok && surveyed(r->Ok_0, *input, *g) && r->Ok_0.targets@.len() < u32::MAX,
        },
{
    let headers = read_headers(g);
    let ghost h = headers_view(headers@);
    let ghost src = texts(input.source_columns@);
    let mut i: usize = 0;
    assert(src.skip(0) =~= src);
    while i < input.source_columns.len()
        invariant
            i <= input.source_columns.len(),
            h == headers_view(headers@),
            h == header_table(*g, g.highest_col as int),
            src == texts(input.source_columns@),
            first_missing(h, src) == first_missing(h, src.skip(i as int)),
        decreases input.source_columns.len() - i,
    {
        let (p, found) = find_key(&headers, &str_chars(input.source_columns[i].as_str()));
        proof {
            assert(table_keys(headers@) =~= pair_keys(h));
            assert(src.skip(i as int)[0] == input.source_columns@[i as int]@);
            assert(src.skip(i as int).drop_first() =~= src.skip(i + 1));
            if (p as int) < h.len() {
                assert(h[p as int].0 == headers@[p as int].0@);
            }
            assert(found == (key_lookup(h, src.skip(i as int)[0]) is Some));
        }
        if !found {
            let mut m = owned("Spalte '");
            m.push_str(input.source_columns[i].as_str());
            m.push_str("' fehlt im Header von ");
            m.push_str(input.path.as_str());
            m.push_str(".");
            return Err(CoreError::Llm(m));
        }
        i = i + 1;
    }
    proof {
        assert(src.skip(i as int) =~= Seq::<Seq<char>>::empty());
    }
    Ok(survey_sheet(input, g))
}

/// The position of the first name equal to `wanted`, if any.
fn position_of(names: &Vec<String>, wanted: &str) -> (r: Option<usize>)
    ensures
        match r {
            Some(i) => i < names@.len() && names@[i as int]@ == wanted@ && forall|j: int|
                0 <= j < i ==> names@[j]@ != wanted@,
            None => forall|j: int| 0 <= j < names@.len() ==> names@[j]@ != wanted@,
        },
{
    let mut i: usize = 0;
    while i < names.len()
        invariant
            i <= names.len(),
            forall|j: int| 0 <= j < i ==> names@[j]@ != wanted@,
        decreases names.len() - i,
    {
        if str_equal(names[i].as_str(), wanted) {
            return Some(i);
        }
        i = i + 1;
    }
    None
}

/// The sheet to work on: the first one named `wanted`, else the first
/// sheet of the workbook.
pub fn select_sheet(names: &Vec<String>, wanted: Option<&str>) -> (r: Result<usize, CoreError>)
    ensures
        match wanted {
            Some(w) => match r {
                Ok(i) => i < names@.len() && names@[i as int]@ == w@ && forall|j: int|
                    0 <= j < i ==> names@[j]@ != w@,
                Err(e) => llm_error(e, "Sheet '"@ + w@ + "' nicht gefunden"@) && forall|j: int|
                    0 <= j < names@.len() ==> names@[j]@ != w@,
            },
            None => if names@.len() > 0 {
                r == Ok::<usize, CoreError>(0)
            } else {
                r is Err && llm_error(r->Err_0, "Workbook hat keine Sheets"@)
            },
        },
{
    match wanted {
        Some(w) => match position_of(names, w) {
            Some(i) => Ok(i),
            None => {
                let mut m = owned("Sheet '");
                m.push_str(w);
                m.push_str("' nicht gefunden");
                Err(CoreError::Llm(m))
            },
        },
        None => if names.len() > 0 {
            Ok(0)
        } else {
            Err(CoreError::Llm(owned("Workbook hat keine Sheets")))
        },
    }
}

/// The workbook path must end in `.xlsx`, in any letter case.
pub fn check_xlsx_path(path: &str) -> (r: Result<(), CoreError>)
    ensures
        has_suffix(lowercase_text(path@), ".xlsx"@) ==> r is Ok,
        !has_suffix(lowercase_text(path@), ".xlsx"@) ==> r is Err && path_error(
            r->Err_0,
            path@ + " muss auf .xlsx enden"@,
        ),
{
    let lower = to_lowercase(path);
    if ends_with_chars(&str_chars(lower.as_str()), &str_chars(".xlsx")) {
        Ok(())
    } else {
        let mut m = owned(path);
        m.push_str(" muss auf .xlsx enden");
        Err(CoreError::PathInvalid(m))
    }
}

/// The workbook must be an existing file.
pub fn check_target_exists(path: &str, is_file: bool) -> (r: Result<(), CoreError>)
    ensures
        is_file ==> r is Ok,
        !is_file ==> r is Err && path_error(r->Err_0, "Datei "@ + path@ + " existiert nicht."@),
{
    if is_file {
        Ok(())
    } else {
        let mut m = owned("Datei ");
        m.push_str(path);
        m.push_str(" existiert nicht.");
        Err(CoreError::PathInvalid(m))
    }
}

/// The result when no row passes the filter.
pub fn no_rows_output(path: &str) -> (r: ToolOutput)
    ensures
        r.content@ == "Keine Zeilen passen zum Filter — nichts zu tun in "@ + path@ + "."@,
        r.ui_hint is None,
{
    let mut m = owned("Keine Zeilen passen zum Filter — nichts zu tun in ");
    m.push_str(path);
    m.push_str(".");
    ToolOutput::text(m)
}

/// The label of a row on the approval card and in progress reports.
pub open spec fn row_label(row: u32) -> Seq<char> {
    "Zeile "@ + decimal(row as nat)
}

fn row_label_text(row: u32) -> (s: String)
    ensures
        s@ == row_label(row),
{
    let mut s = owned("Zeile ");
    push_decimal(&mut s, row as u64);
    s
}

/// The worker shown on the approval card: `provider · model`.
pub open spec fn worker_label(p: ResolvedProfile) -> Seq<char> {
    p.provider_id@ + " · "@ + p.model_id@
}

/// `prompts` are the sample prompts of the first selected rows.
pub open spec fn samples_of(
    prompts: Seq<DelegationSamplePrompt>,
    template: Seq<char>,
    targets: Seq<(u32, RowValues)>,
) -> bool {
    &&& prompts.len() == if targets.len() < SAMPLE_PROMPT_COUNT {
        targets.len()
    } else {
        SAMPLE_PROMPT_COUNT as nat
    }
    &&& forall|i: int|
        0 <= i < prompts.len() ==> {
            &&& (#[trigger] prompts[i]).row_label@ == row_label(targets[i].0)
            &&& prompts[i].rendered_prompt@ == rendered(template, values_view(targets[i].1@))
        }
}

/// `r` is the approval card of a fan-out over `survey` of sheet `sheet_name`.
pub open spec fn preview_card(
    r: HitlPreview,
    input: DelegateInput,
    sheet_name: Seq<char>,
    survey: SheetSurvey,
    profile: ResolvedProfile,
) -> bool {
    r matches HitlPreview::DelegateIntoXlsxColumn {
        path,
        sheet,
        target_column,
        target_creates_column,
        row_count,
        worker_label: label,
        sample_prompts,
    } && path@ == input.path@ && sheet@ == sheet_name && target_column@ == input.target_column@
        && target_creates_column == survey.target_creates_column && row_count
        == survey.targets@.len() as u32 && label@ == worker_label(profile) && samples_of(
        sample_prompts@,
        input.task_template@,
        survey.targets@,
    )
}

/// `r` is the card shown when the fan-out cannot be previewed (the
/// workbook, the sheet or the worker could not be resolved): the raw path,
/// the requested sheet (empty when none), the target column, no rows and no
/// samples, and the tool's name where the worker would stand.
pub open spec fn fallback_card(r: HitlPreview, input: DelegateInput) -> bool {
    r matches HitlPreview::DelegateIntoXlsxColumn {
        path,
        sheet,
        target_column,
        target_creates_column,
        row_count,
        worker_label: label,
        sample_prompts,
    } && path@ == input.path@ && sheet@ == match input.sheet {
        Some(s) => s@,
        None => Seq::<char>::empty(),
    } && target_column@ == input.target_column@ && !target_creates_column && row_count == 0
        && label@ == "delegate_into_xlsx_column"@ && sample_prompts@.len() == 0
}

/// The card the user approves before a fan-out runs. With the sheet name,
/// its survey and the resolved worker it is the full card; without them
/// (the preview failed) it is the fallback card, so a fan-out never runs
/// without a card.
pub fn approval_card(
    input: &DelegateInput,
    prepared: Option<(&str, &SheetSurvey, &ResolvedProfile)>,
) -> (r: Option<HitlPreview>)
    ensures
        r is Some,
        prepared matches Some((sheet_name, survey, profile)) ==> preview_card(
            r->Some_0,
            *input,
            sheet_name@,
            *survey,
            *profile,
        ),
        prepared is None ==> fallback_card(r->Some_0, *input),
{
    match prepared {
        Some((sheet_name, survey, profile)) => Some(
            approval_preview(input, sheet_name, survey, profile),
        ),
        None => {
            let sheet = match &input.sheet {
                Some(s) => copy_string(s),
                None => String::new(),
            };
            Some(
                HitlPreview::DelegateIntoXlsxColumn {
                    path: copy_string(&input.path),
                    sheet,
                    target_column: copy_string(&input.target_column),
                    target_creates_column: false,
                    row_count: 0,
                    worker_label: owned(DelegateIntoXlsxColumnTool.name()),
                    sample_prompts: Vec::new(),
                },
            )
        },
    }
}

/// The approval card of a fan-out: the sheet, the target column and
/// whether it is new, how many rows, which worker, and the prompts of the
/// first few rows.
pub fn approval_preview(
    input: &DelegateInput,
    sheet_name: &str,
    survey: &SheetSurvey,
    profile: &ResolvedProfile,
) -> (r: HitlPreview)
    ensures
        preview_card(r, *input, sheet_name@, *survey, *profile),
{
    let mut samples: Vec<DelegationSamplePrompt> = Vec::new();
    let mut i: usize = 0;
    while i < survey.targets.len() && i < SAMPLE_PROMPT_COUNT
        invariant
            i <= survey.targets.len(),
            i <= SAMPLE_PROMPT_COUNT,
            samples@.len() == i,
            forall|j: int|
                0 <= j < i ==> {
                    &&& (#[trigger] samples@[j]).row_label@ == row_label(survey.targets@[j].0)
                    &&& samples@[j].rendered_prompt@ == rendered(
                        input.task_template@,
                        values_view(survey.targets@[j].1@),
                    )
                },
        decreases SAMPLE_PROMPT_COUNT - i,
    {
        let row_label = row_label_text(survey.targets[i].0);
        let rendered_prompt = render_template(input.task_template.as_str(), &survey.targets[i].1);
        samples.push(DelegationSamplePrompt { row_label, rendered_prompt });
        i = i + 1;
    }
    let mut label = copy_string(&profile.provider_id);
    label.push_str(" · ");
    label.push_str(profile.model_id.as_str());
    HitlPreview::DelegateIntoXlsxColumn {
        path: copy_string(&input.path),
        sheet: owned(sheet_name),
        target_column: copy_string(&input.target_column),
        target_creates_column: survey.target_creates_column,
        row_count: survey.targets.len() as u32,
        worker_label: label,
        sample_prompts: samples,
    }
}


/// What the worker made of one row.
pub enum WorkerOutcome {
    /// The worker answered with this text.
    Answered(String),
    /// The worker failed with this message.
    Failed(String),
    /// The run was cancelled while the worker ran.
    Cancelled,
}

/// What the caller does after one row.
pub enum ItemAction {
    /// Write `text` into the cell at (`col`, `row`) and report item `index`
    /// of `total`, labelled `label`, as done.
    Write { col: u32, row: u32, text: String, index: u32, total: u32, label: String },
    /// Report item `index` of `total`, labelled `label`, as failed.
    Fail { index: u32, total: u32, label: String, error: String },
    /// Stop: the run was cancelled.
    Stop,
}

/// The progress of a fan-out over the selected rows.
pub struct BatchRun {
    /// Rows handled so far; the next row to work on.
    pub next: usize,
    pub succeeded: u32,
    pub failed: u32,
    /// The message of the first failed row.
    pub first_error: Option<String>,
    /// The run was cancelled; no further row is worked on.
    pub cancelled: bool,
}

/// The progress is consistent with a batch of `total` rows: every handled
/// row either succeeded or failed, and a first error is kept exactly when
/// a row failed.
pub open spec fn batch_wf(b: BatchRun, total: nat) -> bool {
    &&& total <= u32::MAX
    &&& b.next <= total
    &&& b.succeeded + b.failed == b.next
    &&& (b.first_error is Some) == (b.failed > 0)
}

/// No further row is worked on.
pub open spec fn batch_over(b: BatchRun, total: nat) -> bool {
    b.cancelled || b.next >= total
}

/// `n` followed by `row` or `rows`.
pub open spec fn rows_phrase(n: u32) -> Seq<char> {
    decimal(n as nat) + if n == 1 {
        " row"@
    } else {
        " rows"@
    }
}

/// The report of a finished fan-out.
pub open spec fn summary_text(
    succeeded: u32,
    total: u32,
    failed: u32,
    first_error: Option<Seq<char>>,
    target: Seq<char>,
    path: Seq<char>,
    sheet: Seq<char>,
) -> Seq<char> {
    "Wrote "@ + decimal(succeeded as nat) + " of "@ + rows_phrase(total) + " to column '"@ + target
        + "' in "@ + path + " ("@ + sheet + ")."@ + if failed > 0 && first_error is Some {
        " "@ + rows_phrase(failed) + " failed (first error: "@ + first_error->Some_0 + ")"@
    } else {
        Seq::empty()
    }
}

fn push_rows_phrase(s: &mut String, n: u32)
    ensures
        final(s)@ == old(s)@ + rows_phrase(n),
{
    push_decimal(s, n as u64);
    if n == 1 {
        s.push_str(" row");
    } else {
        s.push_str(" rows");
    }
}

/// A worker outcome as plain values.
pub enum OutcomeView {
    Answered(Seq<char>),
    Failed(Seq<char>),
    Cancelled,
}

/// The plain values of an outcome.
pub open spec fn outcome_view(o: WorkerOutcome) -> OutcomeView {
    match o {
        WorkerOutcome::Answered(t) => OutcomeView::Answered(t@),
        WorkerOutcome::Failed(m) => OutcomeView::Failed(m@),
        WorkerOutcome::Cancelled => OutcomeView::Cancelled,
    }
}

/// The progress of a run as plain values: rows handled, succeeded,
/// failed, the first error, and whether it was cancelled.
pub type RunCounts = (nat, nat, nat, Option<Seq<char>>, bool);

/// The plain values of a run's progress.
pub open spec fn run_counts(b: BatchRun) -> RunCounts {
    (
        b.next as nat,
        b.succeeded as nat,
        b.failed as nat,
        match b.first_error {
            Some(e) => Some(e@),
            None => None,
        },
        b.cancelled,
    )
}

/// One outcome taken into a run over `total` rows; once the run is over
/// (cancelled, or every row handled) nothing changes.
pub open spec fn run_step(total: nat, s: RunCounts, o: OutcomeView) -> RunCounts {
    if s.4 || s.0 >= total {
        s
    } else {
        match o {
            OutcomeView::Answered(_) => ((s.0 + 1) as nat, (s.1 + 1) as nat, s.2, s.3, false),
            OutcomeView::Failed(m) => (
                (s.0 + 1) as nat,
                s.1,
                (s.2 + 1) as nat,
                if s.3 is None {
                    Some(m)
                } else {
                    s.3
                },
                false,
            ),
            OutcomeView::Cancelled => (s.0, s.1, s.2, s.3, true),
        }
    }
}

/// A run over `total` rows after the outcomes, from nothing handled.
pub open spec fn run_state(total: nat, outcomes: Seq<OutcomeView>) -> RunCounts
    decreases outcomes.len(),
{
    if outcomes.len() == 0 {
        (0, 0, 0, None, false)
    } else {
        run_step(total, run_state(total, outcomes.drop_last()), outcomes.last())
    }
}

/// The writes of a run: for each answered row, its position among the
/// selected rows and the trimmed answer, in the order they happen.
pub open spec fn run_writes(total: nat, outcomes: Seq<OutcomeView>) -> Seq<(nat, Seq<char>)>
    decreases outcomes.len(),
{
    if outcomes.len() == 0 {
        Seq::empty()
    } else {
        let s = run_state(total, outcomes.drop_last());
        let w = run_writes(total, outcomes.drop_last());
        if !(s.4 || s.0 >= total) && outcomes.last() is Answered {
            w.push((s.0, trim_spec(outcomes.last()->Answered_0)))
        } else {
            w
        }
    }
}

/// Over any sequence of worker outcomes: every handled row succeeded or
/// failed, at most all rows are handled, the first error is kept exactly
/// when a row failed; each answered row is written once, rows in the order
/// of the selection, only rows already handled; and without a
/// cancellation every outcome handles a row until all are handled.
pub proof fn lemma_batch_run(total: nat, outcomes: Seq<OutcomeView>)
    ensures
        ({
            let s = run_state(total, outcomes);
            let w = run_writes(total, outcomes);
            &&& s.1 + s.2 == s.0
            &&& s.0 <= total
            &&& (s.3 is Some) == (s.2 > 0)
            &&& w.len() == s.1
            &&& forall|i: int, j: int| 0 <= i < j < w.len() ==> w[i].0 < w[j].0
            &&& forall|i: int| 0 <= i < w.len() ==> w[i].0 < s.0
            &&& (forall|i: int| 0 <= i < outcomes.len() ==> !(outcomes[i] is Cancelled)) ==> !s.4
                && s.0 == if outcomes.len() < total {
                outcomes.len()
            } else {
                total
            }
        }),
    decreases outcomes.len(),
{
    if outcomes.len() > 0 {
        let prev = outcomes.drop_last();
        lemma_batch_run(total, prev);
        if forall|i: int| 0 <= i < outcomes.len() ==> !(outcomes[i] is Cancelled) {
            assert forall|i: int| 0 <= i < prev.len() implies !(prev[i] is Cancelled) by {
                assert(prev[i] == outcomes[i]);
            }
            assert(!(outcomes[outcomes.len() - 1] is Cancelled));
        }
    }
}

/// Once a run is cancelled, later outcomes change neither its progress nor
/// its writes.
pub proof fn lemma_cancelled_run_stays(total: nat, outcomes: Seq<OutcomeView>, more: Seq<OutcomeView>)
    requires
        run_state(total, outcomes).4,
    ensures
        run_state(total, outcomes + more) == run_state(total, outcomes),
        run_writes(total, outcomes + more) == run_writes(total, outcomes),
    decreases more.len(),
{
    if more.len() == 0 {
        assert(outcomes + more =~= outcomes);
    } else {
        lemma_cancelled_run_stays(total, outcomes, more.drop_last());
        assert((outcomes + more).drop_last() =~= outcomes + more.drop_last());
    }
}

impl BatchRun {
    /// Nothing handled yet.
    pub fn new() -> (b: BatchRun)
        ensures
            b.next == 0,
            b.succeeded == 0,
            b.failed == 0,
            b.first_error is None,
            !b.cancelled,
    {
        BatchRun { next: 0, succeeded: 0, failed: 0, first_error: None, cancelled: false }
    }

    /// Whether no further row is worked on.
    pub fn is_over(&self, survey: &SheetSurvey) -> (b: bool)
        ensures
            b == batch_over(*self, survey.targets@.len()),
    {
        self.cancelled || self.next >= survey.targets.len()
    }

    /// The prompt for the next row: the template rendered with its values.
    pub fn next_prompt(&self, input: &DelegateInput, survey: &SheetSurvey) -> (p: String)
        requires
            self.next < survey.targets@.len(),
        ensures
            p@ == rendered(
                input.task_template@,
                values_view(survey.targets@[self.next as int].1@),
            ),
    {
        render_template(input.task_template.as_str(), &survey.targets[self.next].1)
    }

    /// The run was cancelled before the next row started.
    pub fn cancel(&mut self)
        ensures
            final(self).cancelled,
            final(self).next == old(self).next,
            final(self).succeeded == old(self).succeeded,
            final(self).failed == old(self).failed,
            final(self).first_error == old(self).first_error,
    {
        self.cancelled = true;
    }

    /// Take the worker's outcome for the next row: an answer is written,
    /// trimmed, into the target column of that row; a failure is counted
    /// and the first one kept; a cancellation stops the run.
    pub fn record(&mut self, survey: &SheetSurvey, outcome: WorkerOutcome) -> (a: ItemAction)
        requires
            batch_wf(*old(self), survey.targets@.len()),
            !batch_over(*old(self), survey.targets@.len()),
        ensures
            batch_wf(*final(self), survey.targets@.len()),
            run_counts(*final(self)) == run_step(
                survey.targets@.len(),
                run_counts(*old(self)),
                outcome_view(outcome),
            ),
            ({
                let n = old(self).next as int;
                let row = survey.targets@[n].0;
                match outcome {
                    WorkerOutcome::Answered(text) => {
                        &&& a matches ItemAction::Write { col, row: r, text: t, index, total, label }
                            && col == survey.target_col && r == row && t@ == trim_spec(text@)
                            && index == n + 1 && total == survey.targets@.len() && label@
                            == row_label(row)
                        &&& final(self).next == n + 1
                        &&& final(self).succeeded == old(self).succeeded + 1
                        &&& final(self).failed == old(self).failed
                        &&& final(self).first_error == old(self).first_error
                        &&& !final(self).cancelled
                    },
                    WorkerOutcome::Failed(msg) => {
                        &&& a matches ItemAction::Fail { index, total, label, error } && index == n
                            + 1 && total == survey.targets@.len() && label@ == row_label(row)
                            && error@ == msg@
                        &&& final(self).next == n + 1
                        &&& final(self).succeeded == old(self).succeeded
                        &&& final(self).failed == old(self).failed + 1
                        &&& final(self).first_error == match old(self).first_error {
                            Some(e) => Some(e),
                            None => Some(msg),
                        }
                        &&& !final(self).cancelled
                    },
                    WorkerOutcome::Cancelled => {
                        &&& a is Stop
                        &&& final(self).cancelled
                        &&& final(self).next == old(self).next
                        &&& final(self).succeeded == old(self).succeeded
                        &&& final(self).failed == old(self).failed
                        &&& final(self).first_error == old(self).first_error
                    },
                }
            }),
    {
        let n = self.next;
        let row = survey.targets[n].0;
        let total = survey.targets.len() as u32;
        let index = (n + 1) as u32;
        match outcome {
            WorkerOutcome::Answered(text) => {
                let t = string_from_chars(&trim_chars(&str_chars(text.as_str())));
                self.succeeded = self.succeeded + 1;
                self.next = n + 1;
                ItemAction::Write {
                    col: survey.target_col,
                    row,
                    text: t,
                    index,
                    total,
                    label: row_label_text(row),
                }
            },
            WorkerOutcome::Failed(msg) => {
                if self.first_error.is_none() {
                    self.first_error = Some(copy_string(&msg));
                }
                self.failed = self.failed + 1;
                self.next = n + 1;
                ItemAction::Fail { index, total, label: row_label_text(row), error: msg }
            },
            WorkerOutcome::Cancelled => {
                self.cancelled = true;
                ItemAction::Stop
            },
        }
    }

    /// The result of the fan-out once it is over: cancelled, or a report of
    /// how many rows were written and, when rows failed, the first error.
    pub fn finish(&self, input: &DelegateInput, sheet_name: &str, survey: &SheetSurvey) -> (r:
        Result<ToolOutput, CoreError>)
        requires
            survey.targets@.len() <= u32::MAX,
        ensures
            self.cancelled ==> r == Err::<ToolOutput, CoreError>(CoreError::Cancelled),
            !self.cancelled ==> r is Ok && r->Ok_0.ui_hint is None && r->Ok_0.content@
                == summary_text(
                self.succeeded,
                survey.targets@.len() as u32,
                self.failed,
                match self.first_error {
                    Some(e) => Some(e@),
                    None => None,
                },
                input.target_column@,
                input.path@,
                sheet_name@,
            ),
    {
        if self.cancelled {
            return Err(CoreError::Cancelled);
        }
        let total = survey.targets.len() as u32;
        let mut s = owned("Wrote ");
        push_decimal(&mut s, self.succeeded as u64);
        s.push_str(" of ");
        push_rows_phrase(&mut s, total);
        s.push_str(" to column '");
        s.push_str(input.target_column.as_str());
        s.push_str("' in ");
        s.push_str(input.path.as_str());
        s.push_str(" (");
        s.push_str(sheet_name);
        s.push_str(").");
        if self.failed > 0 {
            match &self.first_error {
                Some(e) => {
                    s.push_str(" ");
                    push_rows_phrase(&mut s, self.failed);
                    s.push_str(" failed (first error: ");
                    s.push_str(e.as_str());
                    s.push_str(")");
                },
                None => {},
            }
        }
        Ok(ToolOutput::text(s))
    }
}

} // verus!
