use std::cell::RefCell;
use std::rc::Rc;

use jxcel::menu::{
    builtin_quit_path, describe_disabled, notify_selection, quit_accelerator_spelling, routed_target, select_focused,
    top_level_le, AcceleratorHolder, MenuItemSpec, MenuPath, MenuPathError, MenuPlacement,
    MenuNode, MenuRegistrationError, MenuRegistry, MenuSelection, MenuTarget, SubmenuNode, APPLICATION_MENU_LABEL, BUILTIN_OWNER,
    FILE_MENU_LABEL, QUIT_ITEM_ID, QUIT_LABEL,
};
use jxcel::ports::WindowLabel;

/// A handler that only says who registered it.
type Handler = &'static str;

/// The enablement rule used by the tests: enabled only with a document.
#[derive(Debug, Clone, Copy, PartialEq, Eq)]
struct NeedsDocument;

fn decide(_rule: &NeedsDocument, target: &MenuTarget) -> bool {
    target.document().is_some()
}

fn path(segments: &[&str]) -> MenuPath {
    MenuPath::new(segments).expect("テストの位置は空でない")
}

fn target(window: Option<&str>, document: Option<&str>) -> MenuTarget {
    MenuTarget::new(window.map(WindowLabel::new), document.map(str::to_owned))
}

fn registry() -> MenuRegistry<Handler, NeedsDocument> {
    MenuRegistry::new()
}

/// The shortcut parser reads `Ctrl+S` (and `control+KeyS`) as this canonical chord.
fn ctrl_s() -> Result<String, String> {
    Ok("ctrl+KeyS".to_owned())
}

fn ctrl_o() -> Result<String, String> {
    Ok("ctrl+KeyO".to_owned())
}

#[test]
fn a_bare_top_level_item_is_rejected() {
    assert_eq!(MenuPath::new(&[]), Err(MenuPathError::BareTopLevelItem));
    assert_eq!(MenuPath::new(&[""]), Err(MenuPathError::EmptySegment));
    assert_eq!(MenuPath::new(&["ファイル", " "]), Err(MenuPathError::EmptySegment));
}

#[test]
fn the_builtin_quit_item_is_placed_in_the_platform_conventional_submenu() {
    let quit = builtin_quit_path(MenuPlacement::ApplicationWide);
    assert_eq!(quit.top_level(), APPLICATION_MENU_LABEL);
    assert!(!quit.segments().is_empty());
    let quit = builtin_quit_path(MenuPlacement::PerWindow);
    assert_eq!(quit.top_level(), FILE_MENU_LABEL);
    assert!(!quit.segments().is_empty());
}

#[test]
fn a_position_keeps_its_submenus_in_order() {
    let help = path(&["ヘルプ", "診断"]);
    assert_eq!(help.top_level(), "ヘルプ");
    assert_eq!(help.segments(), &vec!["ヘルプ".to_owned(), "診断".to_owned()]);
    assert_eq!(help.clone(), help);
    assert_eq!(
        MenuPathError::BareTopLevelItem.describe(),
        "メニュー項目の位置が空である。トップレベルには部分メニューしか置けず、単独の項目は macOS では無視される"
    );
    assert_eq!(MenuPathError::EmptySegment.describe(), "部分メニューの名前が空である");
}

#[test]
fn the_quit_shortcut_is_spelled_for_the_platform() {
    assert_eq!(quit_accelerator_spelling(MenuPlacement::ApplicationWide), "Cmd+Q");
    assert_eq!(quit_accelerator_spelling(MenuPlacement::PerWindow), "Ctrl+Q");
}

#[test]
fn the_top_level_follows_the_conventional_order() {
    let placement = MenuPlacement::PerWindow;
    assert!(top_level_le("ファイル", "編集", placement));
    assert!(top_level_le("編集", "ヘルプ", placement));
    assert!(top_level_le("ヘルプ", "独自", placement));
    assert!(!top_level_le("独自", "ファイル", placement));
    // The application menu comes first on macOS only.
    assert!(top_level_le("jxcel", "ファイル", MenuPlacement::ApplicationWide));
    assert!(!top_level_le("jxcel", "ファイル", MenuPlacement::PerWindow));
}

/// A registry whose handlers record the selections they receive.
fn recording_registry() -> (MenuRegistry<Box<dyn Fn(&MenuSelection)>, NeedsDocument>, Rc<RefCell<Vec<MenuSelection>>>) {
    let seen: Rc<RefCell<Vec<MenuSelection>>> = Rc::new(RefCell::new(Vec::new()));
    let mut registry: MenuRegistry<Box<dyn Fn(&MenuSelection)>, NeedsDocument> = MenuRegistry::new();
    let recorder = Rc::clone(&seen);
    let handler: Box<dyn Fn(&MenuSelection)> = Box::new(move |selection: &MenuSelection| {
        recorder.borrow_mut().push(selection.clone());
    });
    registry
        .enroll(MenuItemSpec::new("document", "save", path(&["ファイル"]), "保存", handler))
        .expect("登録できる");
    (registry, seen)
}

#[test]
fn selecting_a_registered_item_notifies_the_registrant() {
    let (registry, seen) = recording_registry();
    assert!(registry.dispatch("save", Some(WindowLabel::new("doc-1"))));
    let seen = seen.borrow();
    assert_eq!(seen.len(), 1);
    assert_eq!(seen[0].owner(), "document");
    assert_eq!(seen[0].item(), "save");
    assert_eq!(
        seen[0].window().map(WindowLabel::as_str),
        Some("doc-1"),
        "対象ウィンドウが届く（無い場合は None）"
    );
}

#[test]
fn an_activation_without_a_target_still_notifies_with_no_window() {
    let (registry, seen) = recording_registry();
    assert!(registry.dispatch("save", None));
    let seen = seen.borrow();
    assert_eq!(seen.len(), 1, "対象が無くても通知は届く");
    assert_eq!(seen[0].window(), None);
}

#[test]
fn selecting_an_unregistered_item_notifies_nobody() {
    let (registry, seen) = recording_registry();
    assert!(!registry.dispatch("存在しない", None));
    assert!(seen.borrow().is_empty(), "未登録の項目では誰にも通知しない");
}

#[test]
fn the_found_selection_carries_the_registrants_handler() {
    let mut registry = registry();
    registry
        .enroll(MenuItemSpec::new("document", "save", path(&["ファイル"]), "保存", "document"))
        .expect("登録できる");
    let (selection, handler) = registry.find_selection("save", Some(WindowLabel::new("doc-1"))).expect("登録されている");
    assert_eq!(*handler, "document");
    assert_eq!(selection.owner(), "document");
    assert!(registry.find_selection("存在しない", None).is_none());
    let calls = Rc::new(RefCell::new(0));
    let counter = Rc::clone(&calls);
    assert!(notify_selection(Some((selection, move |_: &MenuSelection| *counter.borrow_mut() += 1))));
    assert_eq!(*calls.borrow(), 1, "処理は一度だけ呼ばれる");
    assert!(!notify_selection(None::<(MenuSelection, fn(&MenuSelection))>));
}

#[test]
fn a_duplicate_shortcut_is_reported_to_the_registrant_at_registration() {
    let mut registry = registry();
    registry
        .enroll(
            MenuItemSpec::new("document", "save", path(&["ファイル"]), "保存", "document")
                .with_accelerator(ctrl_s()),
        )
        .expect("先の登録は成功する");
    let conflict = registry
        .enroll(
            MenuItemSpec::new("macro", "save-macro", path(&["ファイル"]), "マクロを保存", "macro")
                .with_accelerator(ctrl_s()),
        )
        .expect_err("競合として返る");
    match &conflict {
        MenuRegistrationError::Accelerator(conflict) => {
            assert_eq!(conflict.existing.owner.as_str(), "document");
            assert_eq!(conflict.existing.item.as_str(), "save");
            assert_eq!(conflict.incoming.owner.as_str(), "macro");
            assert_eq!(conflict.incoming.item.as_str(), "save-macro");
            assert_eq!(conflict.chord.as_str(), "ctrl+KeyS");
        }
        other => panic!("競合が期待される: {}", other.describe()),
    }
    assert_eq!(registry.len(), 1, "拒否された項目は登録されない");
    assert!(registry.find_selection("save-macro", None).is_none());
}

#[test]
fn re_registering_the_same_item_with_the_same_shortcut_is_idempotent() {
    let mut registry = registry();
    let spec = || {
        MenuItemSpec::new("document", "save", path(&["ファイル"]), "保存", "document")
            .with_accelerator(ctrl_s())
    };
    registry.enroll(spec()).expect("1 回目は成功する");
    registry.enroll(spec()).expect("同じ登録の再登録も成功する");
    registry.enroll(spec()).expect("3 回目も成功する");
    assert_eq!(registry.len(), 1, "同じ項目が増えない");
    assert_eq!(registry.accelerator_count(), 1, "組み合わせも 1 つだけ");
}

#[test]
fn a_re_registration_with_a_new_shortcut_releases_the_old_one() {
    let mut registry = registry();
    registry
        .enroll(
            MenuItemSpec::new("document", "save", path(&["ファイル"]), "保存", "document")
                .with_accelerator(ctrl_s()),
        )
        .expect("登録できる");
    registry
        .enroll(
            MenuItemSpec::new("document", "save", path(&["ファイル"]), "保存", "document")
                .with_accelerator(ctrl_o()),
        )
        .expect("同じ項目の組み合わせの更新として成功する");
    registry
        .enroll(
            MenuItemSpec::new("macro", "open", path(&["ファイル"]), "開く", "macro")
                .with_accelerator(ctrl_s()),
        )
        .expect("解放済みの組み合わせは競合しない");
    assert_eq!(registry.accelerator_count(), 2);
}

#[test]
fn a_shortcut_that_is_not_platform_resolved_is_rejected() {
    let mut registry = registry();
    let error = registry
        .enroll(
            MenuItemSpec::new("document", "save", path(&["ファイル"]), "保存", "document")
                .with_accelerator(Err("CmdOrCtrl はプラットフォーム依存の修飾キーである".to_owned())),
        )
        .expect_err("解釈できない綴りは登録時に拒否する");
    match &error {
        MenuRegistrationError::AcceleratorSyntax { item, source } => {
            assert_eq!(item.as_str(), "save");
            assert!(source.contains("CmdOrCtrl"));
        }
        other => panic!("綴りの誤りが期待される: {}", other.describe()),
    }
    assert_eq!(
        error.describe(),
        "メニュー項目 \"save\" のショートカットを解釈できない: CmdOrCtrl はプラットフォーム依存の修飾キーである"
    );
    assert_eq!(registry.len(), 0, "登録されていない");
}

#[test]
fn a_duplicate_item_identifier_from_another_owner_is_rejected() {
    let mut registry = registry();
    registry
        .enroll(MenuItemSpec::new("document", "save", path(&["ファイル"]), "保存", "document"))
        .expect("登録できる");
    let error = registry
        .enroll(MenuItemSpec::new("macro", "save", path(&["ファイル"]), "マクロを保存", "macro"))
        .expect_err("識別子の重複は拒否する");
    assert_eq!(error, MenuRegistrationError::ItemIdConflict { item: "save".to_owned() });
    assert_eq!(
        error.describe(),
        "メニュー項目の識別子 \"save\" はほかの登録元が既に使っている"
    );
    registry
        .enroll(MenuItemSpec::new("document", "save", path(&["ファイル"]), "保存", "document"))
        .expect("同じ登録の再登録は成功する");
    let (_, handler) = registry.find_selection("save", None).expect("登録されている");
    assert_eq!(*handler, "document");
}

#[test]
fn the_builtin_quit_item_registers_through_the_same_entry() {
    let mut registry = registry();
    registry
        .enroll(
            MenuItemSpec::new(
                BUILTIN_OWNER,
                QUIT_ITEM_ID,
                builtin_quit_path(MenuPlacement::PerWindow),
                QUIT_LABEL,
                "quit",
            )
            .with_accelerator(Ok("ctrl+KeyQ".to_owned())),
        )
        .expect("終了項目を登録できる");
    let (selection, handler) = registry.find_selection(QUIT_ITEM_ID, None).expect("終了項目がある");
    assert_eq!(*handler, "quit");
    assert_eq!(selection.owner(), BUILTIN_OWNER);
    assert_eq!(registry.accelerator_count(), 1);
}

#[test]
fn a_conflict_is_described_with_both_registrations() {
    let error = MenuRegistrationError::Accelerator(Box::new(jxcel::menu::AcceleratorConflict {
        existing: AcceleratorHolder { owner: "document".to_owned(), item: "save".to_owned() },
        incoming: AcceleratorHolder { owner: "macro".to_owned(), item: "save-macro".to_owned() },
        chord: "ctrl+KeyS".to_owned(),
    }));
    let text = error.describe();
    assert!(text.contains("document/save"));
    assert!(text.contains("macro/save-macro"));
    assert!(text.contains("ctrl+KeyS"));
    assert_eq!(
        MenuRegistrationError::Placement { message: "失敗".to_owned() }.describe(),
        "メニューを配置できなかった: 失敗"
    );
}

#[test]
fn a_per_window_activation_targets_the_originating_window() {
    assert_eq!(
        routed_target(
            MenuPlacement::PerWindow,
            Some(WindowLabel::new("doc-1")),
            Some(WindowLabel::new("empty-1")),
        )
        .map(|label| label.as_str().to_owned()),
        Some("doc-1".to_owned()),
    );
}

#[test]
fn an_app_wide_activation_targets_the_focused_window() {
    assert_eq!(
        routed_target(
            MenuPlacement::ApplicationWide,
            Some(WindowLabel::new("empty-1")),
            Some(WindowLabel::new("doc-1")),
        )
        .map(|label| label.as_str().to_owned()),
        Some("doc-1".to_owned()),
        "フォーカス中のウィンドウが他のどのウィンドウより優先される"
    );
    assert_eq!(
        routed_target(MenuPlacement::ApplicationWide, None, Some(WindowLabel::new("empty-1")))
            .map(|label| label.as_str().to_owned()),
        Some("empty-1".to_owned()),
    );
}

#[test]
fn nothing_focused_yields_no_target() {
    for placement in [MenuPlacement::PerWindow, MenuPlacement::ApplicationWide] {
        assert_eq!(routed_target(placement, None, None), None, "{placement:?}");
    }
    assert_eq!(select_focused(Vec::<(WindowLabel, bool)>::new()), None);
    assert_eq!(
        select_focused(vec![
            (WindowLabel::new("doc-1"), false),
            (WindowLabel::new("empty-1"), false),
        ]),
        None,
        "登録はあるがフォーカスされていない場合は対象にしない"
    );
}

#[test]
fn the_target_follows_the_focus_between_activations() {
    let first =
        routed_target(MenuPlacement::ApplicationWide, None, Some(WindowLabel::new("empty-1")));
    let second =
        routed_target(MenuPlacement::ApplicationWide, None, Some(WindowLabel::new("doc-1")));
    assert_ne!(first, second);
    assert_eq!(second.map(|label| label.as_str().to_owned()), Some("doc-1".to_owned()));
}

#[test]
fn the_focused_window_is_selected_deterministically() {
    assert_eq!(
        select_focused(vec![
            (WindowLabel::new("doc-2"), false),
            (WindowLabel::new("doc-1"), true),
            (WindowLabel::new("empty-1"), false),
        ])
        .map(|label| label.as_str().to_owned()),
        Some("doc-1".to_owned()),
    );
    assert_eq!(
        select_focused(vec![(WindowLabel::new("doc-2"), true), (WindowLabel::new("doc-1"), true)])
            .map(|label| label.as_str().to_owned()),
        Some("doc-1".to_owned()),
        "同時に複数が報告しても結果が実行ごとに変わらない"
    );
}

#[test]
fn enablement_is_recomputed_for_each_target_window() {
    let mut registry = registry();
    registry
        .enroll(
            MenuItemSpec::new("document", "save", path(&["ファイル"]), "保存", "document")
                .with_enablement(NeedsDocument),
        )
        .expect("登録できる");
    registry
        .enroll(MenuItemSpec::new("app", "quit-like", path(&["ファイル"]), "常に有効", "app"))
        .expect("述語を渡さない項目は常に有効である");

    let lookup = |state: &Vec<(String, bool)>, item: &str| {
        state.iter().find(|(id, _)| id == item).map(|(_, enabled)| *enabled)
    };
    let with_document = registry.enabled_state(&target(Some("doc-1"), Some("/tmp/one.csv")), decide);
    assert_eq!(lookup(&with_document, "save"), Some(true));
    assert_eq!(lookup(&with_document, "quit-like"), Some(true));

    let without_document = registry.enabled_state(&target(Some("empty-1"), None), decide);
    assert_eq!(lookup(&without_document, "save"), Some(false));
    assert_eq!(lookup(&without_document, "quit-like"), Some(true), "述語の無い項目は対象に依存しない");
    assert_eq!(describe_disabled(&without_document), "save");

    let no_target = registry.enabled_state(&target(None, None), decide);
    assert_eq!(lookup(&no_target, "save"), Some(false));
    assert_eq!(lookup(&no_target, "quit-like"), Some(true));
    assert_eq!(describe_disabled(&no_target), "save");
    assert_eq!(describe_disabled(&with_document), "(なし)");
}

#[test]
fn the_disabled_items_are_listed_in_identifier_order() {
    let state = vec![
        ("zeta".to_owned(), false),
        ("alpha".to_owned(), false),
        ("mid".to_owned(), true),
    ];
    assert_eq!(describe_disabled(&state), "alpha, zeta");
}

#[test]
fn the_target_description_names_the_window_and_its_document() {
    assert_eq!(
        target(Some("doc-1"), Some("/tmp/one.csv")).describe(),
        "doc-1（ドキュメント=/tmp/one.csv）"
    );
    assert_eq!(target(Some("empty-1"), None).describe(), "empty-1（ドキュメントなし）");
    assert_eq!(target(None, None).describe(), "(対象ウィンドウなし)");
}

#[test]
fn a_registered_item_appears_at_the_requested_position() {
    let mut registry = registry();
    registry
        .enroll(
            MenuItemSpec::new("document", "save", path(&["ファイル"]), "保存", "document")
                .with_accelerator(ctrl_s()),
        )
        .expect("登録できる");
    registry
        .enroll(MenuItemSpec::new("document", "save-as", path(&["ファイル"]), "名前を付けて保存", "document"))
        .expect("登録できる");
    registry
        .enroll(MenuItemSpec::new("diagnostics", "show-log", path(&["ヘルプ", "診断"]), "記録の場所", "diagnostics"))
        .expect("登録できる");

    let model = registry.model(MenuPlacement::PerWindow);
    let top: Vec<&str> = model.top().iter().map(SubmenuNode::label).collect();
    assert_eq!(top, ["ファイル", "ヘルプ"]);

    let items = model.items();
    let labels: Vec<&str> = items.iter().map(|item| item.label()).collect();
    assert_eq!(labels, ["保存", "名前を付けて保存", "記録の場所"]);
    assert_eq!(items[0].accelerator(), Some("ctrl+KeyS"));
    assert_eq!(items[1].accelerator(), None);

    let help = &model.top()[1];
    assert_eq!(help.children().len(), 1);
    match &help.children()[0] {
        MenuNode::Submenu(nested) => {
            assert_eq!(nested.label(), "診断");
            match &nested.children()[0] {
                MenuNode::Item(item) => assert_eq!(item.item(), "show-log"),
                MenuNode::Submenu(_) => panic!("項目が期待される位置に部分メニューがある"),
            }
        }
        MenuNode::Item(_) => panic!("部分メニューが期待される位置に項目がある"),
    }
}

#[test]
fn every_top_level_entry_of_the_model_is_a_submenu() {
    let mut registry = registry();
    for (owner, item, segments) in [
        ("document", "save", vec!["ファイル"]),
        ("edit", "undo", vec!["編集"]),
        ("help", "about", vec!["ヘルプ"]),
        ("unknown", "custom", vec!["独自"]),
    ] {
        registry
            .enroll(MenuItemSpec::new(owner, item, path(&segments), item, "handler"))
            .expect("登録できる");
    }
    let model = registry.model(MenuPlacement::PerWindow);
    assert!(!model.top().is_empty());
    let top: Vec<&str> = model.top().iter().map(SubmenuNode::label).collect();
    assert_eq!(top, ["ファイル", "編集", "ヘルプ", "独自"]);
    for item in model.items() {
        assert!(model.top().iter().any(|submenu| {
            submenu.children().iter().any(|child| {
                matches!(child, MenuNode::Item(node) if node.item() == item.item())
            })
        }));
    }
}

#[test]
fn the_application_menu_comes_first_on_macos() {
    let mut registry = registry();
    registry
        .enroll(MenuItemSpec::new("document", "save", path(&["ファイル"]), "保存", "document"))
        .expect("登録できる");
    registry
        .enroll(
            MenuItemSpec::new(
                BUILTIN_OWNER,
                QUIT_ITEM_ID,
                builtin_quit_path(MenuPlacement::ApplicationWide),
                QUIT_LABEL,
                "quit",
            )
            .with_accelerator(Ok("super+KeyQ".to_owned())),
        )
        .expect("終了項目を登録できる");
    let model = registry.model(MenuPlacement::ApplicationWide);
    let top: Vec<&str> = model.top().iter().map(SubmenuNode::label).collect();
    assert_eq!(top, ["jxcel", "ファイル"]);
    let quit = model
        .items()
        .into_iter()
        .find(|item| item.item() == QUIT_ITEM_ID)
        .expect("モデルに終了項目がある");
    assert_eq!(quit.accelerator(), Some("super+KeyQ"), "表示される組み合わせが項目に載っている");
    assert_eq!(quit.owner(), BUILTIN_OWNER);
}

#[test]
fn a_refused_item_never_reaches_the_model() {
    let mut registry = registry();
    registry
        .enroll(
            MenuItemSpec::new("document", "save", path(&["ファイル"]), "保存", "document")
                .with_accelerator(ctrl_s()),
        )
        .expect("先の登録は成功する");
    registry
        .enroll(
            MenuItemSpec::new("macro", "save-macro", path(&["ファイル"]), "マクロを保存", "macro")
                .with_accelerator(ctrl_s()),
        )
        .expect_err("競合として返る");
    let model = registry.model(MenuPlacement::PerWindow);
    let labels: Vec<&str> = model.items().iter().map(|item| item.label()).collect();
    assert_eq!(labels, ["保存"]);
}

#[test]
fn an_unresolved_spelling_is_rejected_at_registration() {
    let mut registry = registry();
    // `CmdOrCtrl+S` changes meaning with the platform; the shortcut parser refuses it.
    let error = registry
        .enroll(
            MenuItemSpec::new("macro-runtime", "macro-runtime.save", path(&[FILE_MENU_LABEL]), "保存", "macro-runtime")
                .with_accelerator(Err("CmdOrCtrl はプラットフォームで意味が変わる".to_owned())),
        )
        .expect_err("受理されない");
    assert!(
        matches!(error, MenuRegistrationError::AcceleratorSyntax { .. }),
        "構文の誤りとして返る: {}",
        error.describe()
    );
    assert_eq!(registry.len(), 0);
}

#[test]
fn the_builtin_quit_shortcut_is_platform_resolved_and_conventional() {
    // The spelling is one whose meaning does not change with the platform; the shortcut
    // parser folds it to this canonical chord.
    assert_eq!(quit_accelerator_spelling(MenuPlacement::PerWindow), "Ctrl+Q");
    assert_eq!(quit_accelerator_spelling(MenuPlacement::ApplicationWide), "Cmd+Q");
    let expected = "ctrl+KeyQ";
    let mut registry = registry();
    registry
        .enroll(
            MenuItemSpec::new(
                BUILTIN_OWNER,
                QUIT_ITEM_ID,
                builtin_quit_path(MenuPlacement::PerWindow),
                QUIT_LABEL,
                "builtin",
            )
            .with_accelerator(Ok(expected.to_owned())),
        )
        .expect("終了項目を登録できる");
    let model = registry.model(MenuPlacement::PerWindow);
    let items = model.items();
    let quit = items.iter().find(|item| item.item() == QUIT_ITEM_ID).expect("モデルに終了項目がある");
    assert_eq!(quit.accelerator(), Some(expected), "表示される組み合わせが項目に載っている");
}

#[test]
fn every_registered_item_appears_once_and_the_top_level_names_once_in_order() {
    let mut registry = registry();
    for (owner, item, segments) in [
        ("zeta", "z1", vec!["独自", "深い", "さらに深い"]),
        ("help", "about", vec!["ヘルプ"]),
        ("document", "save", vec!["ファイル"]),
        ("alpha", "a1", vec!["独自"]),
        ("document", "open", vec!["ファイル", "最近"]),
        ("edit", "undo", vec!["編集"]),
        ("alpha", "a2", vec!["独自", "深い"]),
    ] {
        registry
            .enroll(MenuItemSpec::new(owner, item, path(&segments), item, "handler"))
            .expect("登録できる");
    }
    // Registering one of them again changes nothing.
    registry
        .enroll(MenuItemSpec::new("alpha", "a1", path(&["独自"]), "a1", "handler"))
        .expect("同じ登録は受け付けられる");
    let model = registry.model(MenuPlacement::PerWindow);
    let top: Vec<&str> = model.top().iter().map(SubmenuNode::label).collect();
    assert_eq!(top, ["ファイル", "編集", "ヘルプ", "独自"]);
    let items = model.items();
    assert_eq!(items.len(), 7);
    for expected in ["z1", "about", "save", "a1", "open", "undo", "a2"] {
        assert_eq!(items.iter().filter(|item| item.item() == expected).count(), 1, "{expected} が一度だけ並ばない");
    }
}
