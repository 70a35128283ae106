use processfox_core::delegate_xlsx::{
    approval_card, approval_preview, check_target_exists, check_xlsx_path, matches_filter, no_rows_output,
    plan_batch, read_headers, read_row, render_template, select_sheet, survey_sheet, BatchRun,
    DelegateInput, DelegateIntoXlsxColumnTool, ItemAction, RowFilter, SheetGrid, WorkerOutcome,
};
use processfox_core::delegation::ResolvedProfile;
use processfox_core::error::CoreError;
use processfox_core::tool::HitlPreview;

fn s(v: &str) -> String {
    v.to_string()
}

fn grid() -> SheetGrid {
    SheetGrid {
        name: s("Produkte"),
        highest_col: 3,
        highest_row: 4,
        cells: vec![
            vec![s("name"), s(" category "), s("")],
            vec![s("Apfel"), s("Obst"), s("x")],
            vec![s("Brot"), s("Backware")],
            vec![s("Birne"), s("Obst"), s("y")],
        ],
    }
}

fn input(filter: Option<RowFilter>) -> DelegateInput {
    DelegateInput {
        path: s("data/produkte.xlsx"),
        sheet: None,
        filter,
        source_columns: vec![s("name"), s("category")],
        target_column: s("summary"),
        task_template: s("Beschreibe {{name}} ({{category}})"),
    }
}

fn obst() -> Option<RowFilter> {
    Some(RowFilter { column: s("category"), equals: s("Obst") })
}

#[test]
fn headers_are_trimmed_sorted_and_blank_ones_skipped() {
    let h = read_headers(&grid());
    assert_eq!(h, vec![(s("category"), 2), (s("name"), 1)]);
}

#[test]
fn later_duplicate_header_wins() {
    let g = SheetGrid {
        name: s("S"),
        highest_col: 2,
        highest_row: 1,
        cells: vec![vec![s("x"), s("x ")]],
    };
    assert_eq!(read_headers(&g), vec![(s("x"), 2)]);
}

#[test]
fn row_values_follow_the_headers() {
    let g = grid();
    let h = read_headers(&g);
    assert_eq!(read_row(&g, &h, 2), vec![(s("category"), s("Obst")), (s("name"), s("Apfel"))]);
    assert_eq!(read_row(&g, &h, 9), vec![(s("category"), s("")), (s("name"), s(""))]);
}

#[test]
fn filter_compares_exact_text() {
    let vals = vec![(s("category"), s("Obst")), (s("name"), s("Apfel"))];
    assert!(matches_filter(&vals, None));
    let f = RowFilter { column: s("category"), equals: s("Obst") };
    assert!(matches_filter(&vals, Some(&f)));
    let f = RowFilter { column: s("category"), equals: s("obst") };
    assert!(!matches_filter(&vals, Some(&f)));
    let f = RowFilter { column: s("price"), equals: s("") };
    assert!(!matches_filter(&vals, Some(&f)));
}

#[test]
fn template_placeholders_are_replaced() {
    let vals = vec![(s("category"), s("Obst")), (s("name"), s("Apfel"))];
    assert_eq!(
        render_template("Beschreibe {{name}} ({{category}}), {{name}}!", &vals),
        "Beschreibe Apfel (Obst), Apfel!"
    );
    assert_eq!(render_template("{{unknown}} {name}", &vals), "{{unknown}} {name}");
}

#[test]
fn placeholders_are_replaced_in_header_order() {
    let vals = vec![(s("a"), s("{{b}}")), (s("b"), s("B"))];
    assert_eq!(render_template("{{a}}", &vals), "B");
    let vals = vec![(s("a"), s("A")), (s("b"), s("{{a}}"))];
    assert_eq!(render_template("{{b}}", &vals), "{{a}}");
}

#[test]
fn survey_selects_filtered_rows_and_new_column() {
    let g = grid();
    let survey = survey_sheet(&input(obst()), &g);
    assert_eq!(survey.target_col, 4);
    assert!(survey.target_creates_column);
    let rows: Vec<u32> = survey.targets.iter().map(|t| t.0).collect();
    assert_eq!(rows, vec![2, 4]);
    let all = survey_sheet(&input(None), &g);
    assert_eq!(all.targets.len(), 3);
}

#[test]
fn survey_reuses_existing_target_column() {
    let mut inp = input(None);
    inp.target_column = s("name");
    let survey = survey_sheet(&inp, &grid());
    assert_eq!(survey.target_col, 1);
    assert!(!survey.target_creates_column);
}

#[test]
fn missing_source_column_is_refused() {
    let mut inp = input(None);
    inp.source_columns = vec![s("name"), s("price"), s("weight")];
    match plan_batch(&inp, &grid()) {
        Err(e) => assert_eq!(
            e,
            CoreError::Llm(s("Spalte 'price' fehlt im Header von data/produkte.xlsx."))
        ),
        Ok(_) => panic!("expected an error"),
    }
    assert!(plan_batch(&input(None), &grid()).is_ok());
}

#[test]
fn sheet_selection() {
    let names = vec![s("A"), s("B"), s("B")];
    assert_eq!(select_sheet(&names, Some("B")), Ok(1));
    assert_eq!(select_sheet(&names, None), Ok(0));
    assert_eq!(
        select_sheet(&names, Some("C")),
        Err(CoreError::Llm(s("Sheet 'C' nicht gefunden")))
    );
    assert_eq!(
        select_sheet(&vec![], None),
        Err(CoreError::Llm(s("Workbook hat keine Sheets")))
    );
}

#[test]
fn path_checks() {
    assert_eq!(check_xlsx_path("Daten/Liste.XLSX"), Ok(()));
    assert_eq!(
        check_xlsx_path("liste.csv"),
        Err(CoreError::PathInvalid(s("liste.csv muss auf .xlsx enden")))
    );
    assert_eq!(check_target_exists("a.xlsx", true), Ok(()));
    assert_eq!(
        check_target_exists("a.xlsx", false),
        Err(CoreError::PathInvalid(s("Datei a.xlsx existiert nicht.")))
    );
    assert_eq!(
        no_rows_output("a.xlsx").content,
        "Keine Zeilen passen zum Filter — nichts zu tun in a.xlsx."
    );
    assert_eq!(DelegateIntoXlsxColumnTool.name(), "delegate_into_xlsx_column");
}

#[test]
fn approval_card_shows_rows_worker_and_samples() {
    let g = grid();
    let inp = input(obst());
    let survey = survey_sheet(&inp, &g);
    let profile = ResolvedProfile {
        provider_id: s("cortecs"),
        model_id: s("llama"),
        system_prompt: s("kurz"),
    };
    match approval_preview(&inp, "Produkte", &survey, &profile) {
        HitlPreview::DelegateIntoXlsxColumn {
            path,
            sheet,
            target_column,
            target_creates_column,
            row_count,
            worker_label,
            sample_prompts,
        } => {
            assert_eq!(path, "data/produkte.xlsx");
            assert_eq!(sheet, "Produkte");
            assert_eq!(target_column, "summary");
            assert!(target_creates_column);
            assert_eq!(row_count, 2);
            assert_eq!(worker_label, "cortecs · llama");
            assert_eq!(sample_prompts.len(), 2);
            assert_eq!(sample_prompts[0].row_label, "Zeile 2");
            assert_eq!(sample_prompts[0].rendered_prompt, "Beschreibe Apfel (Obst)");
            assert_eq!(sample_prompts[1].row_label, "Zeile 4");
            assert_eq!(sample_prompts[1].rendered_prompt, "Beschreibe Birne (Obst)");
        }
        _ => panic!("wrong card"),
    }
}

#[test]
fn approval_card_shows_at_most_three_samples() {
    let cells: Vec<Vec<String>> = std::iter::once(vec![s("name")])
        .chain((0..12).map(|i| vec![format!("n{i}")]))
        .collect();
    let g = SheetGrid { name: s("S"), highest_col: 1, highest_row: 13, cells };
    let mut inp = input(None);
    inp.task_template = s("{{name}}");
    let survey = survey_sheet(&inp, &g);
    let profile = ResolvedProfile { provider_id: s("p"), model_id: s("m"), system_prompt: s("") };
    match approval_preview(&inp, "S", &survey, &profile) {
        HitlPreview::DelegateIntoXlsxColumn { row_count, sample_prompts, .. } => {
            assert_eq!(row_count, 12);
            assert_eq!(sample_prompts.len(), 3);
            assert_eq!(sample_prompts[2].row_label, "Zeile 4");
            assert_eq!(sample_prompts[2].rendered_prompt, "n2");
        }
        _ => panic!("wrong card"),
    }
}

#[test]
fn batch_writes_answers_and_reports_failures() {
    let g = grid();
    let inp = input(obst());
    let survey = survey_sheet(&inp, &g);
    let mut run = BatchRun::new();
    assert!(!run.is_over(&survey));
    assert_eq!(run.next_prompt(&inp, &survey), "Beschreibe Apfel (Obst)");
    match run.record(&survey, WorkerOutcome::Answered(s("  Ein Apfel.\n"))) {
        ItemAction::Write { col, row, text, index, total, label } => {
            assert_eq!((col, row, index, total), (4, 2, 1, 2));
            assert_eq!(text, "Ein Apfel.");
            assert_eq!(label, "Zeile 2");
        }
        _ => panic!("expected a write"),
    }
    assert_eq!(run.next_prompt(&inp, &survey), "Beschreibe Birne (Obst)");
    match run.record(&survey, WorkerOutcome::Failed(s("timeout"))) {
        ItemAction::Fail { index, total, label, error } => {
            assert_eq!((index, total), (2, 2));
            assert_eq!(label, "Zeile 4");
            assert_eq!(error, "timeout");
        }
        _ => panic!("expected a failure"),
    }
    assert!(run.is_over(&survey));
    assert_eq!((run.succeeded, run.failed), (1, 1));
    let out = run.finish(&inp, "Produkte", &survey).ok().unwrap();
    assert_eq!(
        out.content,
        "Wrote 1 of 2 rows to column 'summary' in data/produkte.xlsx (Produkte). 1 row failed (first error: timeout)"
    );
}

#[test]
fn batch_keeps_the_first_error() {
    let g = grid();
    let inp = input(None);
    let survey = survey_sheet(&inp, &g);
    let mut run = BatchRun::new();
    run.record(&survey, WorkerOutcome::Failed(s("eins")));
    run.record(&survey, WorkerOutcome::Failed(s("zwei")));
    run.record(&survey, WorkerOutcome::Answered(s("ok")));
    let out = run.finish(&inp, "Produkte", &survey).ok().unwrap();
    assert_eq!(
        out.content,
        "Wrote 1 of 3 rows to column 'summary' in data/produkte.xlsx (Produkte). 2 rows failed (first error: eins)"
    );
}

#[test]
fn single_row_batch_uses_singular() {
    let g = grid();
    let mut inp = input(Some(RowFilter { column: s("name"), equals: s("Brot") }));
    inp.target_column = s("category");
    let survey = survey_sheet(&inp, &g);
    let mut run = BatchRun::new();
    run.record(&survey, WorkerOutcome::Answered(s("Gebäck")));
    let out = run.finish(&inp, "Produkte", &survey).ok().unwrap();
    assert_eq!(out.content, "Wrote 1 of 1 row to column 'category' in data/produkte.xlsx (Produkte).");
}

#[test]
fn cancelled_batch_ends_in_cancellation() {
    let g = grid();
    let inp = input(None);
    let survey = survey_sheet(&inp, &g);
    let mut run = BatchRun::new();
    run.record(&survey, WorkerOutcome::Answered(s("a")));
    assert!(matches!(run.record(&survey, WorkerOutcome::Cancelled), ItemAction::Stop));
    assert!(run.is_over(&survey));
    assert_eq!(run.finish(&inp, "Produkte", &survey).err(), Some(CoreError::Cancelled));
    let mut early = BatchRun::new();
    early.cancel();
    assert!(early.is_over(&survey));
    assert_eq!(early.finish(&inp, "Produkte", &survey).err(), Some(CoreError::Cancelled));
}

#[test]
fn failed_preview_still_gets_a_card() {
    let mut inp = input(None);
    inp.sheet = Some(s("Produkte"));
    match approval_card(&inp, None) {
        Some(HitlPreview::DelegateIntoXlsxColumn {
            path,
            sheet,
            target_column,
            target_creates_column,
            row_count,
            worker_label,
            sample_prompts,
        }) => {
            assert_eq!(path, "data/produkte.xlsx");
            assert_eq!(sheet, "Produkte");
            assert_eq!(target_column, "summary");
            assert!(!target_creates_column);
            assert_eq!(row_count, 0);
            assert_eq!(worker_label, "delegate_into_xlsx_column");
            assert!(sample_prompts.is_empty());
        }
        _ => panic!("expected the fallback card"),
    }
    let g = grid();
    let survey = survey_sheet(&inp, &g);
    let profile = ResolvedProfile { provider_id: s("p"), model_id: s("m"), system_prompt: s("") };
    match approval_card(&inp, Some(("Produkte", &survey, &profile))) {
        Some(HitlPreview::DelegateIntoXlsxColumn { row_count, worker_label, .. }) => {
            assert_eq!(row_count, 3);
            assert_eq!(worker_label, "p · m");
        }
        _ => panic!("expected the full card"),
    }
}
