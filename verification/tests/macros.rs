use jxcel::macro_apply::{
    cells_step, decide_run, run_outcome, RunDecision,
    appended_writes, inserted_start, write_materials, assemble, collapse, history_entry, inspect, removals_for, rounds_of, ChangeSummary, Collapsed,
    MacroApplyError, SheetShape, StagedChange, Step,
};
use jxcel::macro_host::{
    check_file_read, check_file_write, fetch_decision, fetch_target, fetched_text, file_text, refuse_missing,
    resolve_relative, HostChange, PathBase, MAX_FILE_WRITE_BYTES, MAX_NET_BYTES,
};
use jxcel::session::state::{Origin, SessionState};

/// A row: its key and its identifier as the document writes it.
fn row(key: u64) -> (u64, String) {
    (key, format!("01ROW{key:021}"))
}

fn name(key: u64) -> String {
    row(key).1
}

fn shape() -> SheetShape {
    SheetShape { columns: 3, rows: vec![10, 11, 12] }
}

fn summary() -> ChangeSummary {
    ChangeSummary { set_cells: 1, inserted_rows: 2, removed_rows: 0, duplicated_rows: 0 }
}

#[test]
fn a_change_set_on_the_target_sheet_passes_the_checks() {
    let changes = vec![
        StagedChange::Insert { sheet: "S".to_owned(), widths: vec![3, 2] },
        StagedChange::SetCells { sheet: "S".to_owned(), row: 11, row_name: name(11), column: 2 },
        StagedChange::Duplicate { sheet: "S".to_owned(), rows: vec![row(10), row(10)] },
        StagedChange::Remove { sheet: "S".to_owned(), rows: vec![row(12)] },
    ];
    assert_eq!(inspect("S", Some(&shape()), 3, &changes, summary()), Ok(summary()));
    assert!(!summary().is_empty());
    assert!(ChangeSummary { set_cells: 0, inserted_rows: 0, removed_rows: 0, duplicated_rows: 0 }.is_empty());
}

#[test]
fn a_change_naming_another_sheet_is_refused() {
    let changes = vec![StagedChange::SetCells { sheet: "別のシート".to_owned(), row: 10, row_name: name(10), column: 0 }];
    let error = inspect("S", Some(&shape()), 3, &changes, summary()).expect_err("別のシートを名乗る変更を拒む");
    assert_eq!(error, MacroApplyError::SheetMismatch { expected: "S".to_owned(), found: "別のシート".to_owned() });
    assert_eq!(error.describe(), "the change names sheet 別のシート, but this apply writes sheet S");
}

#[test]
fn a_change_naming_a_missing_row_or_column_is_refused() {
    let missing_row = vec![StagedChange::Remove { sheet: "S".to_owned(), rows: vec![row(10), row(99)] }];
    let error = inspect("S", Some(&shape()), 3, &missing_row, summary()).expect_err("無い行を拒む");
    assert_eq!(error, MacroApplyError::UnknownRow { sheet: "S".to_owned(), row: name(99) });
    assert_eq!(error.describe(), format!("no row {} in sheet S", name(99)));
    let missing_column = vec![StagedChange::SetCells { sheet: "S".to_owned(), row: 10, row_name: name(10), column: 3 }];
    let error = inspect("S", Some(&shape()), 3, &missing_column, summary()).expect_err("無い列を拒む");
    assert_eq!(error, MacroApplyError::UnknownColumn { sheet: "S".to_owned(), column: 3, columns: 3 });
    assert_eq!(error.describe(), "column 3 is out of range: sheet S has 3 columns");
    let wide = vec![StagedChange::Insert { sheet: "S".to_owned(), widths: vec![2, 4] }];
    let error = inspect("S", Some(&shape()), 3, &wide, summary()).expect_err("広すぎる行を拒む");
    assert_eq!(error.describe(), "a row of 4 values is wider than the 3 columns of sheet S");
}

#[test]
fn an_unusable_sheet_is_refused_before_any_change() {
    let none: Vec<StagedChange> = Vec::new();
    assert_eq!(
        inspect("S", None, 3, &none, summary()),
        Err(MacroApplyError::SheetUnusable { sheet: "S".to_owned() })
    );
    assert_eq!(
        inspect("S", Some(&shape()), 2, &none, summary()),
        Err(MacroApplyError::SheetUnusable { sheet: "S".to_owned() })
    );
    assert_eq!(
        MacroApplyError::SheetUnusable { sheet: "S".to_owned() }.describe(),
        "schema of sheet S is unusable"
    );
}

#[test]
fn repeated_duplications_are_sent_in_rounds() {
    assert_eq!(rounds_of(&vec![5, 7, 5, 9, 5, 7]), vec![vec![5, 7, 9], vec![5, 7], vec![5]]);
    assert_eq!(rounds_of(&vec![1, 2, 3]), vec![vec![1, 2, 3]]);
    assert_eq!(rounds_of(&Vec::new()), Vec::<Vec<u64>>::new());
}

#[test]
fn a_run_is_undone_in_reverse_order_and_redone_in_order() {
    let steps = vec![
        Step { inverse: vec!["-a1", "-a2"], redo: vec!["a1", "a2"] },
        Step { inverse: vec![], redo: vec![] },
        Step { inverse: vec!["-b"], redo: vec!["b"] },
    ];
    let (inverse, redo) = assemble(steps);
    assert_eq!(inverse, vec!["-b", "-a2", "-a1"]);
    assert_eq!(redo, vec!["a1", "a2", "b"]);
    assert_eq!(collapse(vec!["x"]), Collapsed::Single("x"));
    assert_eq!(collapse(vec!["x", "y"]), Collapsed::Composite(vec!["x", "y"]));
    let one = history_entry(vec![Step { inverse: vec!["-c"], redo: vec!["c"] }]);
    assert_eq!(one, Some((Collapsed::Single("-c"), Collapsed::Single("c"))));
    let nothing: Option<(Collapsed<&str>, Collapsed<&str>)> =
        history_entry(vec![Step { inverse: vec![], redo: vec![] }]);
    assert_eq!(nothing, None);
}

#[test]
fn only_the_target_sheets_removals_are_sent() {
    let removed = vec![("S".to_owned(), 3), ("T".to_owned(), 4), ("S".to_owned(), 5)];
    assert_eq!(removals_for("S", &removed), vec![3, 5]);
}

#[test]
fn the_host_refuses_what_the_document_does_not_have() {
    let sheet = shape();
    let set = HostChange::SetCells { sheet: "S".to_owned(), writes: vec![(10, name(10), 0), (99, name(99), 5)] };
    assert_eq!(refuse_missing(&set, Some(&sheet)), Err(format!("行 {} はシート S に無い", name(99))));
    let wide = HostChange::SetCells { sheet: "S".to_owned(), writes: vec![(10, name(10), 0), (11, name(11), 5)] };
    assert_eq!(refuse_missing(&wide, Some(&sheet)), Err("列 5 はシート S の範囲外である（列数 3）".to_owned()));
    assert_eq!(refuse_missing(&set, None), Err("シート S はこの文書に無い".to_owned()));
    let insert = HostChange::InsertRows { sheet: "S".to_owned(), widths: vec![3, 1] };
    assert_eq!(
        refuse_missing(&insert, Some(&sheet)),
        Err("1 番目に追加する行の値の数が列の数と一致しない（シート S の列数は 3）".to_owned())
    );
    let remove = HostChange::RemoveRows { sheet: "S".to_owned(), rows: vec![row(12), row(13)] };
    assert_eq!(refuse_missing(&remove, Some(&sheet)), Err(format!("行 {} はシート S に無い", name(13))));
    let empty = HostChange::DuplicateRows { sheet: "無い".to_owned(), rows: vec![] };
    assert_eq!(refuse_missing(&empty, None), Ok(()));
    let fine = HostChange::DuplicateRows { sheet: "S".to_owned(), rows: vec![row(10), row(11)] };
    assert_eq!(refuse_missing(&fine, Some(&sheet)), Ok(()));
}

#[test]
fn relative_paths_resolve_next_to_the_saved_document() {
    let saved = SessionState::Open {
        name: "台帳.jxcel".to_owned(),
        origin: Origin::File("/data/台帳.jxcel".to_owned()),
        unsaved: false,
        sheets: vec![],
    };
    assert_eq!(
        resolve_relative("入力.txt", "file.read", false, &saved),
        Ok(PathBase::NextTo("/data/台帳.jxcel".to_owned()))
    );
    assert_eq!(resolve_relative("/etc/hosts", "file.read", true, &saved), Ok(PathBase::AsGiven));
    assert_eq!(resolve_relative("", "file.write", false, &saved), Err("file.write に空のパスは渡せない".to_owned()));
    assert_eq!(
        resolve_relative("入力.txt", "file.read", false, &SessionState::Absent),
        Err("file.read の相対パス 入力.txt を解決できない（この文書はまだ保存されていない）".to_owned())
    );
}

#[test]
fn the_file_limits_are_checked_before_the_disk_is_touched() {
    assert_eq!(
        check_file_read("ディレクトリ", true, 0),
        Err("ディレクトリ はディレクトリである（file.read はテキストのファイルを読む）".to_owned())
    );
    assert_eq!(
        check_file_read("巨大.txt", false, 16 * 1024 * 1024 + 1),
        Err("巨大.txt は大き過ぎる（16777217 バイト。file.read の上限は 16777216 バイト）".to_owned())
    );
    assert_eq!(check_file_read("小.txt", false, 10), Ok(()));
    let big = "a".repeat(MAX_FILE_WRITE_BYTES + 1);
    assert_eq!(
        check_file_write("巨大.txt", &big),
        Err("巨大.txt へ書く本文が大き過ぎる（16777217 バイト。file.write の上限は 16777216 バイト）".to_owned())
    );
    assert_eq!(check_file_write("小.txt", "本文"), Ok(()));
    assert_eq!(file_text("入力.txt", "本文".as_bytes().to_vec()), Ok("本文".to_owned()));
    assert_eq!(
        file_text("壊れ.txt", vec![0xff, 0xfe]),
        Err("壊れ.txt は UTF-8 のテキストではない（file.read はテキストを返す）".to_owned())
    );
}

#[test]
fn the_network_takes_http_only_and_refuses_other_spellings() {
    assert_eq!(fetch_target("http://127.0.0.1:8080/data"), Ok("http://127.0.0.1:8080/data".to_owned()));
    assert_eq!(fetch_target("https://example.com/"), Ok("https://example.com/".to_owned()));
    let refusal = fetch_target("file:///etc/passwd").expect_err("file は取れない");
    assert_eq!(refusal, "net.fetch は http と https だけを取れる（file は取れない）: file:///etc/passwd");
    let unreadable = fetch_target("これはURLではない").expect_err("URL として読めない");
    assert!(unreadable.starts_with("これはURLではない は URL として読めない: "));
}

#[test]
fn a_fetched_body_must_be_successful_small_and_text() {
    assert_eq!(fetched_text("http://x/", true, "200 OK", "取得した本文".as_bytes().to_vec()), Ok("取得した本文".to_owned()));
    assert_eq!(
        fetched_text("http://x/", false, "404 Not Found", vec![]),
        Err("http://x/ の取得は 404 Not Found で終わった（net.fetch は 2xx だけを受け取る）".to_owned())
    );
    assert_eq!(
        fetched_text("http://x/", true, "200 OK", vec![b'a'; MAX_NET_BYTES + 1]),
        Err("http://x/ の本文が大き過ぎる（net.fetch の上限は 4194304 バイト）".to_owned())
    );
    assert_eq!(
        fetched_text("http://x/", true, "200 OK", vec![0xc3]),
        Err("http://x/ の本文は UTF-8 のテキストではない".to_owned())
    );
}

#[test]
fn appended_rows_take_the_macros_values_in_order() {
    assert_eq!(inserted_start(5, 2), Ok(3));
    assert_eq!(
        inserted_start(1, 2),
        Err(MacroApplyError::Inconsistent { reason: "InsertRows が 2 行を足していない".to_owned() })
    );
    let ids = vec![1, 2, 3, 40, 41];
    assert_eq!(
        appended_writes(&ids, 3, &vec![2, 1]),
        vec![(40, 0, 0), (40, 1, 0), (41, 0, 1)]
    );
    // Only as many rows as both sides have are paired.
    assert_eq!(appended_writes(&ids, 4, &vec![1, 1]), vec![(41, 0, 0)]);
    assert_eq!(appended_writes(&ids, 5, &vec![1]), vec![]);
}

#[test]
fn written_rows_keep_their_prior_values_once_each() {
    let rows = vec![7, 8, 9];
    let writes = vec![("S".to_owned(), 8, name(8)), ("S".to_owned(), 8, name(8)), ("S".to_owned(), 9, name(9))];
    assert_eq!(write_materials("S", &writes, &rows), Ok(vec![(8, 1), (9, 2)]));
    let missing = vec![("S".to_owned(), 8, name(8)), ("S".to_owned(), 99, name(99))];
    assert_eq!(
        write_materials("S", &missing, &rows),
        Err(MacroApplyError::UnknownRow { sheet: "S".to_owned(), row: name(99) })
    );
    let other = vec![("T".to_owned(), 8, name(8))];
    assert_eq!(
        write_materials("S", &other, &rows),
        Err(MacroApplyError::SheetMismatch { expected: "S".to_owned(), found: "T".to_owned() })
    );
}

fn two_by_two() -> SheetShape {
    SheetShape { columns: 2, rows: vec![10, 11] }
}

fn counted(set_cells: usize) -> ChangeSummary {
    ChangeSummary { set_cells, inserted_rows: 0, removed_rows: 0, duplicated_rows: 0 }
}

#[test]
fn a_change_naming_another_sheet_is_refused_without_writing() {
    let changes = vec![StagedChange::SetCells { sheet: "別のシート".to_owned(), row: 20, row_name: name(20), column: 0 }];
    let error = inspect("S", Some(&two_by_two()), 2, &changes, counted(1)).expect_err("別のシートを名乗る変更を拒む");
    assert_eq!(error, MacroApplyError::SheetMismatch { expected: "S".to_owned(), found: "別のシート".to_owned() });
}

#[test]
fn a_change_naming_a_missing_row_is_refused_without_writing() {
    // A valid write collected first, then one naming a row the document never issued.
    let changes = vec![
        StagedChange::SetCells { sheet: "S".to_owned(), row: 10, row_name: name(10), column: 0 },
        StagedChange::SetCells { sheet: "S".to_owned(), row: 999, row_name: name(999), column: 0 },
    ];
    let error = inspect("S", Some(&two_by_two()), 2, &changes, counted(2)).expect_err("無い行を拒む");
    assert_eq!(error, MacroApplyError::UnknownRow { sheet: "S".to_owned(), row: name(999) });
}

#[test]
fn a_change_naming_a_missing_column_is_refused_without_writing() {
    let changes = vec![StagedChange::SetCells { sheet: "S".to_owned(), row: 10, row_name: name(10), column: 2 }];
    let error = inspect("S", Some(&two_by_two()), 2, &changes, counted(1)).expect_err("無い列を拒む");
    assert_eq!(error, MacroApplyError::UnknownColumn { sheet: "S".to_owned(), column: 2, columns: 2 });
}

#[test]
fn an_empty_change_set_touches_nothing() {
    let none: Vec<StagedChange> = Vec::new();
    let summary = inspect("S", Some(&two_by_two()), 2, &none, counted(0)).expect("空の変更集合は適用できる");
    assert!(summary.is_empty(), "空の実行が件数を返した");
    let steps: Vec<Step<&str>> = Vec::new();
    assert_eq!(history_entry(steps), None, "空の実行で履歴が動いた");
}

#[test]
fn a_hundred_thousand_cells_are_applied_in_one_step() {
    const ROWS: u64 = 100_000;
    let rows: Vec<u64> = (0..ROWS).collect();
    let shape = SheetShape { columns: 1, rows: rows.clone() };
    let changes: Vec<StagedChange> =
        rows.iter().map(|row| StagedChange::SetCells { sheet: "S".to_owned(), row: *row, row_name: name(*row), column: 0 }).collect();
    let summary = inspect("S", Some(&shape), 1, &changes, counted(ROWS as usize)).expect("10 万セルを検査できる");
    assert_eq!(summary.set_cells, ROWS as usize);
    let writes: Vec<(String, u64, String)> = rows.iter().map(|row| ("S".to_owned(), *row, name(*row))).collect();
    let materials = write_materials("S", &writes, &rows).expect("すべての行がある");
    assert_eq!(materials.len(), ROWS as usize);
    assert_eq!(materials[ROWS as usize - 1], (ROWS - 1, ROWS as usize - 1));
    // The whole batch is one undo step.
    let entry = history_entry(vec![Step { inverse: vec!["restore"], redo: vec!["write"] }]);
    assert_eq!(entry, Some((Collapsed::Single("restore"), Collapsed::Single("write"))));
}

#[test]
fn a_macro_run_is_undone_and_redone_in_one_step() {
    // Insert, duplicate (two rounds), write, remove: one history entry undoes all of it in
    // reverse and redoes it in order.
    let steps = vec![
        Step { inverse: vec!["remove-inserted"], redo: vec!["restore-inserted"] },
        Step { inverse: vec!["undup-1", "undup-2"], redo: vec!["dup-1", "dup-2"] },
        Step { inverse: vec!["restore-values"], redo: vec!["write-values"] },
        Step { inverse: vec!["restore-removed"], redo: vec!["remove"] },
    ];
    let entry = history_entry(steps).expect("the run changed the document");
    assert_eq!(
        entry.0,
        Collapsed::Composite(vec!["restore-removed", "restore-values", "undup-2", "undup-1", "remove-inserted"])
    );
    assert_eq!(
        entry.1,
        Collapsed::Composite(vec!["restore-inserted", "dup-1", "dup-2", "write-values", "remove"])
    );
}

#[test]
fn an_oversized_write_is_refused_before_the_disk_is_touched() {
    let oversized = "あ".repeat(MAX_FILE_WRITE_BYTES / 3 + 1);
    assert!(oversized.len() > MAX_FILE_WRITE_BYTES, "標本が上限を越えていない");
    let refusal = check_file_write("巨大.txt", &oversized).expect_err("上限を越える本文は拒まれる");
    assert!(refusal.contains("大き過ぎる"), "理由に上限が書かれていない: {refusal}");
}

#[test]
fn a_directory_cannot_be_read() {
    let refusal = check_file_read("/tmp/標本", true, 4096).expect_err("ディレクトリは読めない");
    assert!(refusal.contains("ディレクトリ"), "理由にディレクトリであることが書かれていない: {refusal}");
}

#[test]
fn a_relative_path_is_refused_for_an_unsaved_document() {
    let created = SessionState::Open {
        name: String::new(),
        origin: Origin::New,
        unsaved: false,
        sheets: vec![],
    };
    let message = resolve_relative("入力.txt", "file.read", false, &created).expect_err("基準が無い");
    assert!(
        message.contains("保存されていない") && message.contains("入力.txt"),
        "理由に基準が無いことが書かれていない: {message}"
    );
}

#[test]
fn fetching_takes_http_and_names_the_refused_scheme() {
    assert_eq!(fetch_target("http://127.0.0.1:40000/"), Ok("http://127.0.0.1:40000/".to_owned()), "http を取れない");
    assert_eq!(
        fetched_text("http://127.0.0.1:40000/", true, "200 OK", "取得した本文".as_bytes().to_vec()),
        Ok("取得した本文".to_owned())
    );
    let message = fetch_target("file:///etc/passwd").expect_err("file は取れない");
    assert!(message.contains("file") && message.contains("http"), "理由に取れない綴りが書かれていない: {message}");
}

#[test]
fn writes_to_a_sheet_or_row_the_document_lacks_are_refused() {
    let missing_sheet = HostChange::SetCells { sheet: "00000000000000000000000000".to_owned(), writes: vec![(0, name(0), 0)] };
    let message = refuse_missing(&missing_sheet, None).expect_err("無いシートを拒む");
    assert!(message.contains("00000000000000000000000000"), "理由に無いシートが名指しされていない: {message}");
    let missing_row = HostChange::SetCells { sheet: "S".to_owned(), writes: vec![(0, name(0), 0)] };
    let message = refuse_missing(&missing_row, Some(&shape())).expect_err("無い行を拒む");
    assert!(message.contains(&name(0)) && message.contains("無い"), "理由に無い行が名指しされていない: {message}");
}

#[test]
fn an_inserted_row_of_the_wrong_width_is_refused() {
    let insert = HostChange::InsertRows { sheet: "S".to_owned(), widths: vec![1] };
    let message = refuse_missing(&insert, Some(&shape())).expect_err("列の数と合わない行を拒む");
    assert!(message.contains("列の数"), "理由に列数との不一致が書かれていない: {message}");
}

#[test]
fn the_fetch_decision_keeps_the_url_and_names_the_refused_scheme() {
    assert_eq!(
        fetch_decision("HTTPS://example.com/a", Ok("https".to_owned())),
        Ok("HTTPS://example.com/a".to_owned())
    );
    assert_eq!(
        fetch_decision("ftp://example.com/", Ok("ftp".to_owned())),
        Err("net.fetch は http と https だけを取れる（ftp は取れない）: ftp://example.com/".to_owned())
    );
    assert_eq!(
        fetch_decision("::", Err("relative URL without a base".to_owned())),
        Err(":: は URL として読めない: relative URL without a base".to_owned())
    );
}

fn counts(set_cells: usize, inserted_rows: usize) -> ChangeSummary {
    ChangeSummary { set_cells, inserted_rows, removed_rows: 0, duplicated_rows: 0 }
}

#[test]
fn a_refused_or_empty_run_applies_and_pushes_nothing() {
    let refusal = MacroApplyError::Unread;
    assert_eq!(decide_run(Err(refusal.clone())), RunDecision::Refuse(refusal.clone()));
    let (answer, entry) = run_outcome::<u32>(RunDecision::Refuse(refusal.clone()), Vec::new());
    assert_eq!(answer, Err(refusal));
    assert!(entry.is_none());

    assert_eq!(decide_run(Ok(counts(0, 0))), RunDecision::Unchanged(counts(0, 0)));
    let (answer, entry) = run_outcome::<u32>(RunDecision::Unchanged(counts(0, 0)), Vec::new());
    assert_eq!(answer, Ok(counts(0, 0)));
    assert!(entry.is_none());
}

#[test]
fn an_applied_run_pushes_one_entry_when_its_steps_changed_something() {
    assert_eq!(decide_run(Ok(counts(2, 1))), RunDecision::Apply(counts(2, 1)));
    let steps = vec![Step { inverse: vec![1u32], redo: vec![10u32] }, Step { inverse: vec![2u32], redo: vec![20u32] }];
    let (answer, entry) = run_outcome(RunDecision::Apply(counts(2, 1)), steps);
    assert_eq!(answer, Ok(counts(2, 1)));
    assert_eq!(entry, Some((Collapsed::Composite(vec![2, 1]), Collapsed::Composite(vec![10, 20]))));
    let (_, nothing) = run_outcome::<u32>(RunDecision::Apply(counts(2, 1)), vec![Step { inverse: vec![], redo: vec![] }]);
    assert!(nothing.is_none(), "何も変えなかった適用は履歴に積まない");
}

#[test]
fn the_cell_step_restores_the_written_rows_before_and_after() {
    let step = cells_step(vec![(7, 0), (9, 2)], vec![vec!["a"], vec!["c"]], vec![vec!["A"], vec!["C"]]);
    assert_eq!(step.inverse, vec![vec![(7, 0, vec!["a"]), (9, 2, vec!["c"])]]);
    assert_eq!(step.redo, vec![vec![(7, 0, vec!["A"]), (9, 2, vec!["C"])]]);
}
