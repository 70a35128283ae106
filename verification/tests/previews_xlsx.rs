use processfox_core::error::CoreError;
use processfox_core::preview_xlsx::{active_sheet, assemble_preview, render_grid, MAX_COLS, MAX_ROWS};

fn names() -> Vec<String> {
    vec!["Umsatz".to_string(), "Kosten".to_string()]
}

#[test]
fn first_sheet_is_the_default() {
    assert_eq!(active_sheet(&names(), None), Ok("Umsatz".to_string()));
    assert_eq!(active_sheet(&names(), Some("  ")), Ok("Umsatz".to_string()));
    assert_eq!(active_sheet(&names(), Some("Kosten")), Ok("Kosten".to_string()));
}

#[test]
fn unknown_sheet_lists_the_available_ones() {
    assert_eq!(
        active_sheet(&names(), Some("Gewinn")),
        Err(CoreError::Llm("Sheet 'Gewinn' nicht gefunden. Verfügbar: Umsatz, Kosten".to_string()))
    );
    assert_eq!(
        active_sheet(&vec![], None),
        Err(CoreError::Llm("Workbook hat keine Sheets.".to_string()))
    );
}

#[test]
fn grid_is_cut_to_the_limits() {
    let cells: Vec<Vec<String>> =
        (0..MAX_ROWS + 5).map(|r| (0..MAX_COLS + 3).map(|c| format!("{r}:{c}")).collect()).collect();
    let shown = render_grid(&cells);
    assert_eq!(shown.len(), MAX_ROWS);
    assert!(shown.iter().all(|r| r.len() == MAX_COLS));
    assert_eq!(shown[MAX_ROWS - 1][MAX_COLS - 1], format!("{}:{}", MAX_ROWS - 1, MAX_COLS - 1));
}

#[test]
fn preview_reports_full_size_and_truncation() {
    let small = vec![vec!["a".to_string(), "b".to_string()]];
    let p = assemble_preview(names(), "Umsatz".to_string(), &small, 1, 2);
    assert!(!p.truncated);
    assert_eq!(p.rows, small);
    let p = assemble_preview(names(), "Umsatz".to_string(), &small, 1, MAX_COLS + 1);
    assert!(p.truncated);
    assert_eq!((p.total_rows, p.total_cols), (1, MAX_COLS + 1));
}
