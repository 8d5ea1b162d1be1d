use jxcel::menu::{MenuItemSpec, MenuPlacement, MenuRegistry, FILE_MENU_LABEL};
use jxcel::ports::{AttachError, CloseVerdict, DefaultDocumentHost, DocumentHost, WindowLabel};
use jxcel::session::commands::{
    answer_discard, answer_new, answer_save, answer_state, count_to_u32, describe_new,
    describe_save, describe_status, failure_reason, location_decision, origin_to_boundary,
    refusal_reason, save_needs_location, should_notify, suggested_name, suggested_save_name, to_boundary, DEFAULT_SAVE_NAME, DocumentNewOutcome,
    DocumentOrigin, DocumentSaveOutcome, DocumentSessionStatus, DocumentSheet, DocumentSummary,
    SaveLocation,
};
use jxcel::session::host::{
    session_attach_error, session_close_verdict, SessionDocumentHost, SessionEntrances,
};
use jxcel::session::menu::{
    document_menu_path, new_accelerator_spelling, new_item_spec, save_accelerator_spelling,
    save_item_spec, NEW_ITEM_ID, OWNER, SAVE_ITEM_ID,
};
use jxcel::session::state::{
    CloseAnswer, Origin, SaveReport, SessionError, SessionState, SheetSummary,
};
use jxcel::session::watch::WatchedWindows;
use jxcel::session::verification::{
    check_shape, describe_close, describe_state, next_trigger_action, parse_session_trigger, rotation_plan,
    TriggerAction, TriggerEvent,
    saved_location, SessionTrigger,
};

fn label(text: &str) -> WindowLabel {
    WindowLabel::new(text)
}

fn sheet(rows: usize) -> SheetSummary {
    SheetSummary { id: "S1".to_owned(), name: "シート1".to_owned(), columns: 2, rows }
}

fn open(path: Option<&str>, unsaved: bool) -> SessionState {
    SessionState::Open {
        name: path.map(|_| "台帳.jxcel".to_owned()).unwrap_or_default(),
        origin: match path {
            Some(p) => Origin::File(p.to_owned()),
            None => Origin::New,
        },
        unsaved,
        sheets: vec![sheet(3)],
    }
}

fn document_summary() -> DocumentSummary {
    DocumentSummary {
        name: "台帳.jxcel".to_owned(),
        origin: DocumentOrigin::File,
        unsaved: false,
        sheets: vec![DocumentSheet { id: "S1".to_owned(), name: "シート1".to_owned(), columns: 2, rows: 3 }],
    }
}

#[test]
fn the_trigger_grammar_is_open_edit_rows_save() {
    assert_eq!(parse_session_trigger("open,edit,100,save"), Some(SessionTrigger { rows: 100 }));
    assert_eq!(parse_session_trigger(" open , edit , 3 , save "), Some(SessionTrigger { rows: 3 }));
    for value in [
        "",
        "open",
        "open,edit",
        "open,edit,3",
        "open,edit,3,save,extra",
        "open,edit,3,close",
        "open,save,3,edit",
        "edit,open,3,save",
        "open,edit,0,save",
        "open,edit,-1,save",
        "open,edit,,save",
        "open,edit,三,save",
        "OPEN,EDIT,3,SAVE",
    ] {
        assert_eq!(parse_session_trigger(value), None, "解釈できてしまった: {value:?}");
    }
}

#[test]
fn the_shape_checks_stop_a_run_that_cannot_show_a_change() {
    assert_eq!(check_shape(0, 5, 3), Err("先頭のシートに列が無い".to_owned()));
    assert_eq!(
        check_shape(2, 1, 1),
        Err("行の値を回転させるには 2 行以上要る（読み込んだ行数 = 1）".to_owned())
    );
    assert_eq!(
        check_shape(2, 5, 6),
        Err("引き金の行数 6 が読み込んだ行数 5 を超えている".to_owned())
    );
    assert_eq!(check_shape(2, 5, 5), Ok(()));
}

#[test]
fn the_rotation_takes_each_selected_row_from_the_next() {
    // Each cell is given by a key; here every cell differs from every other.
    let rows: Vec<Vec<u64>> = (0..5u64).map(|row| (0..2u64).map(|column| row * 10 + column).collect()).collect();
    let plan = rotation_plan(&rows, 2, 3).expect("書き換えられる");
    assert_eq!(plan, vec![(0, 0, 1), (0, 1, 1), (1, 0, 2), (1, 1, 2), (2, 0, 3), (2, 1, 3)]);
    // The last row takes the first row's values.
    let all = rotation_plan(&rows, 2, 5).expect("書き換えられる");
    assert_eq!(all.last(), Some(&(4, 1, 0)));
    assert_eq!(all.len(), 10);
}

#[test]
fn the_rotation_refuses_what_would_not_change_the_file() {
    let same: Vec<Vec<u64>> = vec![vec![7]; 4];
    assert_eq!(
        rotation_plan(&same, 1, 2),
        Err("行の値を回転しても内容が変わらない（選択した行がすべて同じ値である）".to_owned())
    );
    let one: Vec<Vec<u64>> = vec![vec![1]];
    assert_eq!(rotation_plan(&one, 1, 1), Err("シートの形が書き換えに足りない".to_owned()));
    let two: Vec<Vec<u64>> = vec![vec![1], vec![2]];
    assert_eq!(rotation_plan(&two, 1, 3), Err("行 2 を読めなかった".to_owned()));
}

#[test]
fn the_record_words_of_the_trigger() {
    assert_eq!(describe_close(CloseAnswer::Allow), "許可");
    assert_eq!(describe_close(CloseAnswer::Deny), "拒否");
    assert_eq!(describe_state(&SessionState::Absent), "Absent");
    assert_eq!(describe_state(&open(None, false)), "Open");
    assert_eq!(saved_location(&open(Some("/tmp/台帳.jxcel"), false)), Ok("/tmp/台帳.jxcel"));
    assert_eq!(
        saved_location(&open(None, false)),
        Err("保存のあとの出所がファイルでない（状態 = Open)".to_owned())
    );
}

#[test]
fn every_boundary_value_has_its_own_record_word() {
    let statuses = [
        DocumentSessionStatus::Absent,
        DocumentSessionStatus::Open(document_summary()),
        DocumentSessionStatus::Unavailable { reason: "理由".to_owned() },
    ];
    let mut seen = std::collections::BTreeSet::new();
    for status in &statuses {
        let word = describe_status(status);
        assert!(!word.is_empty());
        assert!(seen.insert(word), "記録の語が重複している: {word}");
    }
    let saves = [
        DocumentSaveOutcome::Saved,
        DocumentSaveOutcome::Cancelled,
        DocumentSaveOutcome::Failed { reason: "理由".to_owned() },
    ];
    let mut seen = std::collections::BTreeSet::new();
    for outcome in &saves {
        let word = describe_save(outcome);
        assert!(!word.is_empty());
        assert!(seen.insert(word), "記録の語が重複している: {word}");
    }
    let news = [DocumentNewOutcome::Created, DocumentNewOutcome::Refused { reason: "理由".to_owned() }];
    let mut seen = std::collections::BTreeSet::new();
    for outcome in &news {
        let word = describe_new(outcome);
        assert!(!word.is_empty());
        assert!(seen.insert(word), "記録の語が重複している: {word}");
    }
}

#[test]
fn the_mapping_drops_the_location_and_caps_the_counts() {
    assert_eq!(DocumentOrigin::File, origin_to_boundary(&Origin::File("/秘密/場所.jxcel".to_owned())));
    assert_eq!(DocumentOrigin::New, origin_to_boundary(&Origin::New));
    assert_eq!(0, count_to_u32(0));
    assert_eq!(100_000, count_to_u32(100_000));
    assert_eq!(u32::MAX, count_to_u32(usize::MAX), "切り捨てず飽和させる");
}

#[test]
fn the_summary_follows_the_core_state() {
    let state = open(Some("/秘密/台帳.jxcel"), true);
    match to_boundary(&state, &label("doc-1")) {
        DocumentSessionStatus::Open(summary) => {
            assert_eq!(summary.name, "台帳.jxcel");
            assert_eq!(summary.origin, DocumentOrigin::File);
            assert!(summary.unsaved);
            assert_eq!(summary.sheets.len(), 1);
            assert_eq!(summary.sheets[0].name, "シート1");
            assert_eq!(summary.sheets[0].rows, 3);
        }
        other => panic!("写像が状態を落とした: {other:?}"),
    }
    assert_eq!(
        to_boundary(&SessionState::Unavailable { reason: "壊れている".to_owned() }, &label("doc-1")),
        DocumentSessionStatus::Unavailable {
            reason: "doc-1 のドキュメントを読み込めなかった: 壊れている".to_owned()
        }
    );
}

#[test]
fn only_state_changing_operations_are_announced() {
    let before = SessionState::Absent;
    let loaded = open(Some("/tmp/a.jxcel"), false);
    assert!(should_notify(&before, &loaded), "読み込みは状態を変える");
    assert!(!should_notify(&loaded, &loaded), "読み取りは送らない");
    assert!(!should_notify(&loaded, &SessionState::Absent), "Absent への変化は送らない");
    let (status, notify) = answer_state(&label("doc-1"), &before, &Ok(()), &loaded);
    assert!(notify);
    assert_eq!(describe_status(&status), "保持している");
    let (status, notify) = answer_state(&label("doc-1"), &loaded, &Ok(()), &loaded);
    assert!(!notify);
    assert!(matches!(status, DocumentSessionStatus::Open(_)));
}

#[test]
fn a_failed_load_is_answered_with_its_reason() {
    let failure = SessionError::Read { source: "形式が違う".to_owned() };
    let (status, notify) = answer_state(
        &label("doc-1"),
        &SessionState::Absent,
        &Err(failure),
        &SessionState::Unavailable { reason: "形式が違う".to_owned() },
    );
    assert!(notify);
    assert_eq!(
        status,
        DocumentSessionStatus::Unavailable {
            reason: "doc-1 のドキュメントを読み込めなかった: 形式が違う".to_owned()
        }
    );
    let (status, notify) =
        answer_state(&label("doc-1"), &SessionState::Absent, &Err(SessionError::NoDocument), &SessionState::Absent);
    assert!(!notify);
    assert_eq!(status, DocumentSessionStatus::Absent);
}

#[test]
fn every_session_error_has_its_own_reason() {
    let window = label("doc-1");
    assert_eq!(failure_reason(&window, &SessionError::Busy), "doc-1 のドキュメントで別の操作が進行中である");
    assert_eq!(failure_reason(&window, &SessionError::UnsavedChanges), "doc-1 のドキュメントに未保存の変更がある");
    assert_eq!(failure_reason(&window, &SessionError::NoDocument), "doc-1 はドキュメントを保持していない");
    assert_eq!(
        refusal_reason(&window, &SessionError::UnsavedChanges),
        "doc-1 のドキュメントに未保存の変更があるため、新しいドキュメントを用意できない"
    );
    assert_eq!(refusal_reason(&window, &SessionError::NoDocument), "doc-1 のウィンドウを特定できなかった");
}

#[test]
fn a_new_document_is_refused_while_changes_are_unsaved() {
    let window = label("doc-1");
    let held = open(Some("/tmp/a.jxcel"), true);
    let (outcome, notify) = answer_new(&window, &held, &Err(SessionError::UnsavedChanges), &held);
    assert!(!notify, "拒否は何も変えないので通知しない");
    assert_eq!(
        outcome,
        DocumentNewOutcome::Refused {
            reason: "doc-1 のドキュメントに未保存の変更があるため、新しいドキュメントを用意できない".to_owned()
        }
    );
    let fresh = open(None, false);
    let (outcome, notify) = answer_new(&window, &open(Some("/tmp/a.jxcel"), false), &Ok(()), &fresh);
    assert_eq!(outcome, DocumentNewOutcome::Created);
    assert!(notify, "新規作成は状態を変える");
}

#[test]
fn discarding_announces_only_a_dropped_mark() {
    let unsaved = open(Some("/tmp/a.jxcel"), true);
    let saved = open(Some("/tmp/a.jxcel"), false);
    assert_eq!(answer_discard(&unsaved, &Ok(()), &saved), (true, None));
    assert_eq!(answer_discard(&saved, &Ok(()), &saved), (false, None));
    assert_eq!(
        answer_discard(&SessionState::Absent, &Err(SessionError::NoDocument), &SessionState::Absent),
        (false, Some(SessionError::NoDocument))
    );
}

#[test]
fn saving_asks_for_a_location_only_without_a_file() {
    assert!(save_needs_location(&open(None, true)));
    assert!(!save_needs_location(&open(Some("/tmp/a.jxcel"), true)));
    assert!(!save_needs_location(&SessionState::Absent));
    assert_eq!(location_decision(SaveLocation::Chosen("/tmp/b.jxcel".to_owned())), Ok("/tmp/b.jxcel".to_owned()));
    assert_eq!(location_decision(SaveLocation::Cancelled), Err((DocumentSaveOutcome::Cancelled, false)));
    assert_eq!(
        location_decision(SaveLocation::Unavailable("提示できない".to_owned())),
        Err((DocumentSaveOutcome::Failed { reason: "提示できない".to_owned() }, false))
    );
}

#[test]
fn the_save_answer_follows_the_report() {
    let window = label("doc-1");
    let before = open(Some("/tmp/a.jxcel"), true);
    let after = open(Some("/tmp/a.jxcel"), false);
    assert_eq!(answer_save(&window, &before, &Ok(SaveReport::Saved), &after), (DocumentSaveOutcome::Saved, true));
    assert_eq!(
        answer_save(&window, &after, &Ok(SaveReport::Saved), &after),
        (DocumentSaveOutcome::Saved, false),
        "未保存でない文書の保存は通知しない"
    );
    assert_eq!(
        answer_save(&window, &before, &Ok(SaveReport::Failed { source: "満杯".to_owned() }), &before),
        (DocumentSaveOutcome::Failed { reason: "doc-1 のドキュメントを書き出せなかった: 満杯".to_owned() }, false)
    );
    assert_eq!(
        answer_save(&window, &before, &Ok(SaveReport::NeedsLocation), &before),
        (DocumentSaveOutcome::Failed { reason: "doc-1 の保存先を決められなかった".to_owned() }, false)
    );
    assert_eq!(
        answer_save(&window, &SessionState::Absent, &Err(SessionError::NoDocument), &SessionState::Absent),
        (DocumentSaveOutcome::Failed { reason: "doc-1 はドキュメントを保持していない".to_owned() }, false)
    );
}

struct Answers {
    close: CloseAnswer,
    attach: Result<(), SessionError>,
}

impl SessionEntrances for Answers {
    fn may_close(&self, _window: &WindowLabel) -> CloseAnswer {
        self.close
    }

    fn attach(&self, _window: &WindowLabel, _path: &str) -> Result<(), SessionError> {
        self.attach.clone()
    }
}

struct Refusing;

impl DocumentHost for Refusing {
    fn may_close(&self, _window: &WindowLabel) -> CloseVerdict {
        CloseVerdict::Deny { reason: "内側の拒否".to_owned() }
    }

    fn attach(&self, _window: &WindowLabel, _path: &str) -> Result<(), AttachError> {
        Err(AttachError::new("内側が受け取らない"))
    }
}

#[test]
fn the_session_refusal_does_not_reach_the_inner_host() {
    let host = SessionDocumentHost::new(Answers { close: CloseAnswer::Deny, attach: Ok(()) }, Refusing);
    assert_eq!(
        host.may_close(&label("doc-1")),
        CloseVerdict::Deny { reason: "doc-1 のドキュメントに未保存の変更がある".to_owned() }
    );
    assert_eq!(
        session_close_verdict(&label("doc-1"), CloseAnswer::Deny),
        Some(CloseVerdict::Deny { reason: "doc-1 のドキュメントに未保存の変更がある".to_owned() })
    );
}

#[test]
fn the_inner_answer_passes_through_for_a_clean_window() {
    let host = SessionDocumentHost::new(Answers { close: CloseAnswer::Allow, attach: Ok(()) }, Refusing);
    assert_eq!(host.may_close(&label("doc-1")), CloseVerdict::Deny { reason: "内側の拒否".to_owned() });
    let open = SessionDocumentHost::new(Answers { close: CloseAnswer::Allow, attach: Ok(()) }, DefaultDocumentHost);
    assert!(open.may_close(&label("doc-2")).is_allow());
    assert_eq!(session_close_verdict(&label("doc-2"), CloseAnswer::Allow), None);
}

#[test]
fn a_failed_attach_does_not_reach_the_inner_host() {
    let failure = SessionError::Read { source: "見つからない".to_owned() };
    let host = SessionDocumentHost::new(Answers { close: CloseAnswer::Allow, attach: Err(failure.clone()) }, Refusing);
    let error = host.attach(&label("empty-1"), "missing.jxcel").expect_err("読み込めなかった");
    assert_eq!(error.message(), "empty-1 のドキュメントを読み込めなかった: 見つからない");
    let unsaved = session_attach_error(&label("doc-1"), &Err(SessionError::UnsavedChanges))
        .expect("未保存のウィンドウは引き渡しを拒否する");
    assert_eq!(unsaved.message(), "doc-1 のドキュメントに未保存の変更があるため、別のドキュメントを開けない");
}

#[test]
fn a_successful_attach_reaches_the_inner_host() {
    let host = SessionDocumentHost::new(Answers { close: CloseAnswer::Allow, attach: Ok(()) }, Refusing);
    assert_eq!(
        host.attach(&label("empty-1"), "chosen.jxcel").expect_err("内側の答えが返る").message(),
        "内側が受け取らない"
    );
    let accepting = SessionDocumentHost::new(Answers { close: CloseAnswer::Allow, attach: Ok(()) }, DefaultDocumentHost);
    assert!(accepting.attach(&label("empty-1"), "chosen.jxcel").is_ok());
}

#[test]
fn the_two_items_are_registered_beside_open_and_quit_with_platform_resolved_shortcuts() {
    assert_eq!(document_menu_path().top_level(), FILE_MENU_LABEL);
    assert_eq!(new_accelerator_spelling(MenuPlacement::PerWindow), "Ctrl+N");
    assert_eq!(new_accelerator_spelling(MenuPlacement::ApplicationWide), "Cmd+N");
    assert_eq!(save_accelerator_spelling(MenuPlacement::PerWindow), "Ctrl+S");
    assert_eq!(save_accelerator_spelling(MenuPlacement::ApplicationWide), "Cmd+S");

    let mut registry: MenuRegistry<&'static str, ()> = MenuRegistry::new();
    registry
        .enroll(
            MenuItemSpec::new("app-shell", "app-shell.quit", document_menu_path(), "終了", "quit")
                .with_accelerator(Ok("ctrl+KeyQ".to_owned())),
        )
        .expect("終了を登録できる");
    registry
        .enroll(
            MenuItemSpec::new("app-shell", "app-shell.open-document", document_menu_path(), "開く…", "open")
                .with_accelerator(Ok("ctrl+KeyO".to_owned())),
        )
        .expect("開くを登録できる");
    registry.enroll(new_item_spec("new", Ok("ctrl+KeyN".to_owned()))).expect("「新規」は未登録の組み合わせを使う");
    registry.enroll(save_item_spec("save", Ok("ctrl+KeyS".to_owned()))).expect("「保存」は未登録の組み合わせを使う");
    assert_eq!(registry.len(), 4);
    let (selection, handler) = registry.find_selection(NEW_ITEM_ID, None).expect("「新規」がある");
    assert_eq!(selection.owner(), OWNER);
    assert_eq!(*handler, "new");
    assert!(registry.find_selection(SAVE_ITEM_ID, None).is_some());
    let model = registry.model(MenuPlacement::PerWindow);
    let items = model.items();
    assert_eq!(items.len(), 4, "終了・開く・新規・保存の 4 件である");
    for (item_id, chord) in [(NEW_ITEM_ID, "ctrl+KeyN"), (SAVE_ITEM_ID, "ctrl+KeyS")] {
        let item = items.iter().find(|item| item.item() == item_id).expect("ファイルメニューにある");
        assert_eq!(item.accelerator(), Some(chord));
        assert_eq!(item.owner(), OWNER, "登録元が本スペックの名前空間でない");
    }
}

#[test]
fn a_shortcut_conflict_is_reported_to_the_registrant() {
    let mut registry: MenuRegistry<&'static str, ()> = MenuRegistry::new();
    registry.enroll(save_item_spec("save", Ok("ctrl+KeyS".to_owned()))).expect("「保存」は未登録の組み合わせを使う");
    let error = registry
        .enroll(
            MenuItemSpec::new("macro-runtime", "macro-runtime.save-macro", document_menu_path(), "マクロを保存", "macro")
                .with_accelerator(Ok("ctrl+KeyS".to_owned())),
        )
        .expect_err("競合として返る");
    assert!(matches!(error, jxcel::menu::MenuRegistrationError::Accelerator(_)), "競合が期待される: {}", error.describe());
}

#[test]
fn default_host_allows_every_window() {
    let host = DefaultDocumentHost;
    for raw in ["doc-1", "empty-1", "handover-3", ""] {
        assert_eq!(host.may_close(&label(raw)), CloseVerdict::Allow, "window={raw}");
    }
}

#[test]
fn default_host_attach_succeeds_without_touching_the_path() {
    let host = DefaultDocumentHost;
    let missing = std::path::Path::new("/jxcel-no-such-directory/never-created.jxcel");
    assert!(!missing.exists(), "前提: 存在しないパスを作れなかった: {}", missing.display());
    let result = host.attach(&label("doc-1"), "/jxcel-no-such-directory/never-created.jxcel");
    assert_eq!(result, Ok(()));
    assert!(!missing.exists(), "既定実装がパスを作った: {}", missing.display());
}

#[test]
fn a_fresh_window_answers_absent() {
    let window = label("empty-1");
    let (status, changed) = answer_state(&window, &SessionState::Absent, &Ok(()), &SessionState::Absent);
    assert_eq!(DocumentSessionStatus::Absent, status);
    assert!(!changed, "読み取りは状態を変えない");
    let (again, changed) = answer_state(&window, &SessionState::Absent, &Ok(()), &SessionState::Absent);
    assert_eq!(DocumentSessionStatus::Absent, again);
    assert!(!changed);
}

#[test]
fn a_failed_load_answers_with_an_assembled_reason() {
    let window = label("doc-1");
    let remembered = SessionState::Unavailable { reason: "形式が違う".to_owned() };
    let (status, changed) = answer_state(
        &window,
        &SessionState::Absent,
        &Err(SessionError::Read { source: "形式が違う".to_owned() }),
        &remembered,
    );
    match &status {
        DocumentSessionStatus::Unavailable { reason } => {
            assert!(reason.contains("doc-1") && reason.contains("形式が違う"), "理由が組み立てられていない: {reason}");
        }
        other => panic!("失敗として答えていない: {other:?}"),
    }
    assert!(changed, "覚えた失敗も状態の変化である");
    let (again, changed) = answer_state(&window, &remembered, &Ok(()), &remembered);
    assert_eq!(status, again, "同じ失敗の文言が揺れている");
    assert!(!changed, "覚えている失敗の問い合わせは状態を変えない");
}

#[test]
fn create_is_refused_while_unsaved_and_carries_a_reason() {
    let window = label("doc-1");
    let unsaved = open(Some("/tmp/台帳.jxcel"), true);
    let (outcome, changed) = answer_new(&window, &unsaved, &Err(SessionError::UnsavedChanges), &unsaved);
    match &outcome {
        DocumentNewOutcome::Refused { reason } => {
            assert!(reason.contains("doc-1"), "理由にウィンドウが無い: {reason}");
            assert!(reason.contains("未保存"), "理由が未保存に触れていない: {reason}");
        }
        other => panic!("拒否されていない: {other:?}"),
    }
    assert!(!changed, "拒否は何も変えない");
    let discarded = open(Some("/tmp/台帳.jxcel"), false);
    let (notify, failure) = answer_discard(&unsaved, &Ok(()), &discarded);
    assert!(notify, "破棄の印は状態を変える");
    assert!(failure.is_none());
    let created = open(None, false);
    let (outcome, changed) = answer_new(&window, &discarded, &Ok(()), &created);
    assert_eq!(DocumentNewOutcome::Created, outcome);
    assert!(changed, "新規作成は状態を変える");
    match to_boundary(&created, &window) {
        DocumentSessionStatus::Open(summary) => {
            assert_eq!("", summary.name, "出所を持たない文書の名前は空文字");
            assert_eq!(DocumentOrigin::New, summary.origin);
        }
        other => panic!("新規作成の後に保持していない: {other:?}"),
    }
}

#[test]
fn saving_without_an_origin_asks_for_a_location_and_a_cancel_changes_nothing() {
    let window = label("doc-1");
    let unsaved_new = open(None, true);
    assert!(save_needs_location(&unsaved_new), "出所が無いので保存先を尋ねる");
    assert_eq!(suggested_name(&unsaved_new), DEFAULT_SAVE_NAME, "出所を持たない文書には既定の提案名を渡す");
    assert_eq!(DEFAULT_SAVE_NAME, "無題");
    assert_eq!(location_decision(SaveLocation::Cancelled), Err((DocumentSaveOutcome::Cancelled, false)));
    match to_boundary(&unsaved_new, &window) {
        DocumentSessionStatus::Open(summary) => {
            assert_eq!("", summary.name, "取り消しで出所が確定してはならない");
            assert_eq!(DocumentOrigin::New, summary.origin);
            assert!(summary.unsaved, "取り消しでは未保存を保つ");
        }
        other => panic!("保持していない: {other:?}"),
    }
}

#[test]
fn saving_without_an_origin_writes_to_the_chosen_location_and_keeps_it_as_the_origin() {
    let window = label("doc-1");
    let unsaved_new = open(None, true);
    assert!(save_needs_location(&unsaved_new));
    let chosen = location_decision(SaveLocation::Chosen("/tmp/保存した.jxcel".to_owned())).expect("位置が選ばれた");
    assert_eq!(chosen, "/tmp/保存した.jxcel");
    let saved = SessionState::Open {
        name: "保存した.jxcel".to_owned(),
        origin: Origin::File(chosen),
        unsaved: false,
        sheets: vec![sheet(3)],
    };
    let (outcome, changed) = answer_save(&window, &unsaved_new, &Ok(SaveReport::Saved), &saved);
    assert_eq!(DocumentSaveOutcome::Saved, outcome);
    assert!(changed, "保存の成功は状態を変える");
    match to_boundary(&saved, &window) {
        DocumentSessionStatus::Open(summary) => {
            assert_eq!("保存した.jxcel", summary.name, "以後の出所がファイル名として見える");
            assert_eq!(DocumentOrigin::File, summary.origin);
            assert!(!summary.unsaved, "保存の成功で未保存が落ちる");
        }
        other => panic!("保持していない: {other:?}"),
    }
    assert!(!save_needs_location(&saved), "以後は出所へ書く");
}

#[test]
fn saving_a_window_without_a_document_fails_with_a_reason() {
    let window = label("empty-1");
    let (outcome, changed) =
        answer_save(&window, &SessionState::Absent, &Err(SessionError::NoDocument), &SessionState::Absent);
    match &outcome {
        DocumentSaveOutcome::Failed { reason } => assert!(reason.contains("empty-1"), "理由にウィンドウが無い: {reason}"),
        other => panic!("失敗として答えていない: {other:?}"),
    }
    assert!(!changed);
}

#[test]
fn only_state_changing_operations_change_the_state() {
    let window = label("doc-1");
    let mut emissions: Vec<&'static str> = Vec::new();
    let mut observe = |changed: bool, what: &'static str| {
        if changed {
            emissions.push(what);
        }
    };
    let loaded = open(Some("/tmp/流れ.jxcel"), false);
    let (_, changed) = answer_state(&window, &SessionState::Absent, &Ok(()), &SessionState::Absent);
    observe(changed, "空の問い合わせ");
    let (_, changed) = answer_state(&window, &SessionState::Absent, &Ok(()), &loaded);
    observe(changed, "読み込み");
    let (_, changed) = answer_state(&window, &loaded, &Ok(()), &loaded);
    observe(changed, "読み取り");
    let unsaved = open(Some("/tmp/流れ.jxcel"), true);
    let (_, changed) = answer_new(&window, &unsaved, &Err(SessionError::UnsavedChanges), &unsaved);
    observe(changed, "拒否");
    let discarded = open(Some("/tmp/流れ.jxcel"), false);
    let (notify, failure) = answer_discard(&unsaved, &Ok(()), &discarded);
    assert!(failure.is_none(), "保持しているウィンドウへの破棄は失敗しない");
    observe(notify, "破棄の印");
    let created = open(None, false);
    let (_, changed) = answer_new(&window, &discarded, &Ok(()), &created);
    observe(changed, "新規作成");
    let edited = open(None, true);
    assert_eq!(location_decision(SaveLocation::Cancelled), Err((DocumentSaveOutcome::Cancelled, false)));
    observe(false, "取り消し");
    let saved = SessionState::Open {
        name: "流れ-保存.jxcel".to_owned(),
        origin: Origin::File("/tmp/流れ-保存.jxcel".to_owned()),
        unsaved: false,
        sheets: vec![sheet(3)],
    };
    let (_, changed) = answer_save(&window, &edited, &Ok(SaveReport::Saved), &saved);
    observe(changed, "保存");
    let (_, changed) = answer_state(&window, &saved, &Ok(()), &saved);
    observe(changed, "保存後の読み取り");
    assert_eq!(vec!["読み込み", "破棄の印", "新規作成", "保存"], emissions, "状態を変えた操作だけがイベントを送る");
}

#[test]
fn operations_that_change_nothing_do_not_ask_for_a_notification() {
    let window = label("doc-1");
    let clean = open(Some("/tmp/a.jxcel"), false);
    let (notify, failure) = answer_discard(&clean, &Ok(()), &clean);
    assert!(failure.is_none());
    assert!(!notify, "未保存でない文書への破棄の印がイベントを要求した");
    let (outcome, notify) = answer_save(&window, &clean, &Ok(SaveReport::Saved), &clean);
    assert_eq!(DocumentSaveOutcome::Saved, outcome);
    assert!(!notify, "未保存でない文書の保存がイベントを要求した");
    let (_, notify) = answer_state(&window, &clean, &Ok(()), &clean);
    assert!(!notify, "2 度目の問い合わせがイベントを要求した");
}

#[test]
fn saving_an_unchanged_document_notifies_nobody() {
    let window = label("doc-1");
    let clean = open(Some("/tmp/変更なし.jxcel"), false);
    assert!(!save_needs_location(&clean), "出所があるので保存先を尋ねてはならない");
    let (outcome, changed) = answer_save(&window, &clean, &Ok(SaveReport::Saved), &clean);
    assert_eq!(DocumentSaveOutcome::Saved, outcome, "出所へ書き出す");
    assert!(!changed, "未保存でない文書の保存は状態を変えない");
}

#[test]
fn activating_on_a_window_without_a_document_answers_the_same_failure() {
    let window = label("empty-1");
    assert!(!save_needs_location(&SessionState::Absent), "保持していないので保存先を尋ねてはならない");
    let (outcome, changed) =
        answer_save(&window, &SessionState::Absent, &Err(SessionError::NoDocument), &SessionState::Absent);
    assert!(matches!(outcome, DocumentSaveOutcome::Failed { .. }), "失敗として答える: {outcome:?}");
    assert!(!changed, "保持していないウィンドウへの操作は通知しない");
}

#[test]
fn releasing_a_gone_window_changes_the_state_without_a_notification() {
    let window = label("doc-消えた");
    let mut watched = WatchedWindows::new();
    // The window cannot be found, so the subscription does not take.
    let refused = watched.settle_subscription(&window, false);
    assert_eq!(refused, Err(SessionError::NoDocument));
    let (status, notify) = answer_state(&window, &SessionState::Absent, &refused, &SessionState::Absent);
    assert_eq!(DocumentSessionStatus::Absent, status);
    assert!(!notify, "送り先の無い変化でイベントを送った");
    assert!(watched.forget_unresolvable(&window, false), "掃除の経路が落とす");
}

#[test]
fn a_window_that_disappears_after_loading_changes_to_absent_without_a_notification() {
    let window = label("doc-消える");
    let mut watched = WatchedWindows::new();
    assert_eq!(watched.settle_subscription(&window, true), Ok(()));
    let loaded = open(Some("/tmp/消える窓.jxcel"), false);
    let (status, notify) = answer_state(&window, &SessionState::Absent, &Ok(()), &loaded);
    assert!(matches!(status, DocumentSessionStatus::Open(_)), "読み込めていない: {status:?}");
    assert!(notify, "読み込みは状態を変える操作である");
    // The window can no longer be found: its session is released first.
    let refused = watched.settle_watched(&window, false);
    assert_eq!(refused, Err(SessionError::NoDocument));
    let (status, notify) = answer_state(&window, &loaded, &refused, &SessionState::Absent);
    assert_eq!(DocumentSessionStatus::Absent, status, "引けないウィンドウのセッションが落ちていない");
    assert!(!notify, "送り先の無い `Open → Absent` の変化でイベントを送った");
}

#[test]
fn may_close_does_not_resolve_an_unresolved_window() {
    // A window the session does not hold answers Allow, and the inner host decides.
    let host = SessionDocumentHost::new(Answers { close: CloseAnswer::Allow, attach: Ok(()) }, DefaultDocumentHost);
    assert_eq!(CloseVerdict::Allow, host.may_close(&label("empty-1")));
    assert_eq!(session_close_verdict(&label("empty-1"), CloseAnswer::Allow), None, "内側へ委ねられていない");
}

#[test]
fn an_unsaved_window_refuses_attach_and_keeps_its_document() {
    let host = SessionDocumentHost::new(
        Answers { close: CloseAnswer::Deny, attach: Err(SessionError::UnsavedChanges) },
        Refusing,
    );
    let error = host.attach(&label("doc-1"), "second.jxcel").expect_err("未保存のウィンドウは引き渡しを拒否する");
    assert!(error.message().contains("未保存"), "理由が未保存に触れていない: {}", error.message());
    assert_ne!(error.message(), "内側が受け取らない", "拒否が内側へ渡った");
}

#[test]
fn the_trigger_declines_a_row_count_the_document_cannot_supply() {
    // Two rows of two columns loaded, five rows asked for.
    let refusal = check_shape(2, 2, 5).expect_err("行数が足りない引き金は拒否される");
    assert_eq!(refusal, "引き金の行数 5 が読み込んだ行数 2 を超えている");
}

#[test]
fn the_trigger_declines_when_the_rotation_cannot_change_any_cell() {
    let rows: Vec<Vec<u64>> = vec![vec![7]; 3];
    assert_eq!(check_shape(1, 3, 2), Ok(()));
    let refusal = rotation_plan(&rows, 1, 2).expect_err("内容が変わらない引き金は拒否される");
    assert_eq!(refusal, "行の値を回転しても内容が変わらない（選択した行がすべて同じ値である）");
}

#[test]
fn the_offered_name_is_the_file_name_or_the_default() {
    assert_eq!(suggested_save_name(Some("台帳.jxcel")), "台帳.jxcel");
    assert_eq!(suggested_save_name(Some("")), "無題");
    assert_eq!(suggested_save_name(None), "無題");
    assert_eq!(suggested_name(&open(Some("/tmp/台帳.jxcel"), true)), "台帳.jxcel");
    assert_eq!(suggested_name(&SessionState::Absent), "無題");
}

#[test]
fn a_refused_plan_ends_the_run_before_any_edit_or_save() {
    let same: Vec<Vec<u64>> = vec![vec![7]; 3];
    match next_trigger_action(2, TriggerEvent::Loaded(Some((1, same)))) {
        TriggerAction::Refuse(reason) => {
            assert_eq!(reason, "行の値を回転しても内容が変わらない（選択した行がすべて同じ値である）")
        }
        _ => panic!("内容が変わらない引き金は拒否される"),
    }
    match next_trigger_action(1, TriggerEvent::Loaded(None)) {
        TriggerAction::Refuse(reason) => assert_eq!(reason, "文書にシートが無い"),
        _ => panic!("シートの無い文書は拒否される"),
    }
    match next_trigger_action(5, TriggerEvent::Loaded(Some((2, vec![vec![1, 2], vec![3, 4]])))) {
        TriggerAction::Refuse(reason) => assert_eq!(reason, "引き金の行数 5 が読み込んだ行数 2 を超えている"),
        _ => panic!("行数が足りない引き金は拒否される"),
    }
    match next_trigger_action(0, TriggerEvent::Loaded(Some((0, vec![vec![], vec![]])))) {
        TriggerAction::Refuse(reason) => assert_eq!(reason, "先頭のシートに列が無い"),
        _ => panic!("列の無いシートは拒否される"),
    }
}

#[test]
fn an_accepted_plan_edits_then_saves_then_finishes() {
    let cells: Vec<Vec<u64>> = vec![vec![1], vec![2], vec![3]];
    match next_trigger_action(2, TriggerEvent::Loaded(Some((1, cells)))) {
        TriggerAction::Edit(writes) => assert_eq!(writes, vec![(0, 0, 1), (1, 0, 2)]),
        _ => panic!("変わる引き金は編集へ進む"),
    }
    assert!(matches!(next_trigger_action(2, TriggerEvent::Edited), TriggerAction::Save));
    assert!(matches!(next_trigger_action(2, TriggerEvent::Saved), TriggerAction::Finish));
}
