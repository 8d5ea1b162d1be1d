use jxcel::lifecycle::{
    clamp_to_char_boundary, crash_record_of, handover_label, confirm_csp_values, crash_record_bytes, csp_config_from,
    format_crash_record, parse_verification_trigger, startup_failure_record, vetoes_exit,
    write_crash_record, ActiveLogFile, CrashRecord, CspConfig, ExitControl, LaunchRequest,
    LoggingPolicy, PanicFacts, RecordingGuard, Residency, StartupError, VerificationAction,
    MAX_CRASH_RECORD_BYTES, PREREQUISITE_CSP, PREREQUISITE_DIAGNOSTICS,
};

fn policy(text: &str) -> CspConfig {
    csp_config_from(Some(text))
}

#[test]
fn connect_src_with_exactly_the_ipc_destinations_is_accepted() {
    let config =
        policy("default-src 'self'; connect-src ipc: http://ipc.localhost; script-src 'self'");
    assert_eq!(config.connect_src.len(), 2);
    assert!(confirm_csp_values(&config).is_ok());
}

#[test]
fn a_missing_ipc_destination_is_rejected_and_named() {
    let error = confirm_csp_values(&policy("default-src 'self'; connect-src ipc:"))
        .expect_err("欠けた宛先は拒否しなければならない");
    assert!(
        error.message().contains("http://ipc.localhost"),
        "どの宛先が欠けているかを名指しする: {}",
        error.message()
    );
}

#[test]
fn an_extra_connect_destination_is_rejected() {
    assert!(
        confirm_csp_values(&policy(
            "connect-src ipc: http://ipc.localhost https://example.com"
        ))
        .is_err(),
        "IPC 以外の宛先を許可してはならない"
    );
}

#[test]
fn a_wildcard_connect_destination_is_rejected() {
    assert!(
        confirm_csp_values(&policy("connect-src ipc: http://ipc.localhost *")).is_err(),
        "ワイルドカードを許可してはならない"
    );
}

#[test]
fn an_absent_connect_src_is_rejected() {
    assert!(
        confirm_csp_values(&policy("default-src 'self'")).is_err(),
        "connect-src の記述漏れを検出しなければならない"
    );
}

#[test]
fn the_destinations_may_come_in_any_order() {
    assert!(confirm_csp_values(&policy("connect-src http://ipc.localhost ipc:")).is_ok());
    assert!(confirm_csp_values(&policy("connect-src ipc: ipc: http://ipc.localhost")).is_err());
    // A later connect-src replaces an earlier one.
    assert!(confirm_csp_values(&policy(
        "connect-src https://example.com; connect-src ipc: http://ipc.localhost"
    ))
    .is_ok());
}

#[test]
fn no_policy_at_all_is_rejected_with_the_csp_prerequisite() {
    let config = csp_config_from(None);
    assert!(config.connect_src.is_empty());
    let error = confirm_csp_values(&config).expect_err("方針が無ければ拒否する");
    assert_eq!(error.prerequisite(), PREREQUISITE_CSP);
    assert!(error.detail().starts_with("connect-src が通信境界の宛先だけを許可していない（実効値: (なし) / 必須: ipc: http://ipc.localhost）"));
}

#[test]
fn the_residency_policy_follows_platform_conventions() {
    assert!(!vetoes_exit(Residency::ExitOnLastWindowClosed, None, false));
    assert!(!vetoes_exit(Residency::ExitOnLastWindowClosed, Some(0), false));
    assert!(vetoes_exit(Residency::StayResident, None, false));
}

#[test]
fn a_coded_exit_request_is_never_vetoed() {
    assert!(!vetoes_exit(Residency::StayResident, Some(0), false));
    assert!(!vetoes_exit(Residency::StayResident, Some(1), false));
}

#[test]
fn an_explicit_quit_releases_every_veto() {
    let mut control = ExitControl::default();
    assert!(!control.quit_requested(), "初期状態では掛け金は立っていない");
    control.authorize_quit();
    assert!(control.quit_requested());
    assert!(!vetoes_exit(Residency::StayResident, None, true));
}

fn sample_record() -> CrashRecord {
    CrashRecord {
        epoch_seconds: 1_700_000_000,
        version: "9.9.9",
        thread: "main (ThreadId(1))".to_owned(),
        process_terminates: true,
        message: "テスト用のパニック".to_owned(),
        location: "src/lib.rs:1:1".to_owned(),
        backtrace: None,
    }
}

#[test]
fn the_crash_record_pins_the_format() {
    assert_eq!(
        format_crash_record(&sample_record()),
        "===== 異常終了（パニック） =====\n\
         時刻 (UNIX epoch 秒): 1700000000\n\
         バージョン: 9.9.9\n\
         スレッド: main (ThreadId(1))\n\
         プロセスの終了: このパニックにより異常終了する\n\
         メッセージ: テスト用のパニック\n\
         位置: src/lib.rs:1:1\n",
    );
}

#[test]
fn a_worker_thread_panic_does_not_claim_the_process_ended() {
    let record = CrashRecord {
        thread: "tokio-runtime-worker (ThreadId(7))".to_owned(),
        process_terminates: false,
        ..sample_record()
    };
    let rendered = format_crash_record(&record);
    assert!(
        rendered.contains("このスレッドだけが終了する"),
        "終了しない事実を述べる: {rendered}"
    );
    assert!(!rendered.contains("このパニックにより異常終了する"));
}

#[test]
fn the_crash_record_includes_the_backtrace_when_captured() {
    let record = CrashRecord {
        backtrace: Some("   0: a\n   1: b\n\n".to_owned()),
        ..sample_record()
    };
    let rendered = format_crash_record(&record);
    assert!(
        rendered.ends_with("バックトレース:\n   0: a\n   1: b\n"),
        "余分な空行を残さず改行 1 つで終わる: {rendered:?}"
    );
    assert_eq!(rendered.matches("バックトレース").count(), 1);
    assert!(!format_crash_record(&sample_record()).contains("バックトレース"));
}

#[test]
fn the_crash_record_is_written_to_any_sink() {
    let mut sink = Vec::new();
    let written =
        write_crash_record(&mut sink, &sample_record()).expect("メモリへの書き込みは失敗しない");
    assert_eq!(written, sink.len());
    assert_eq!(
        String::from_utf8(sink.clone()).expect("UTF-8"),
        format_crash_record(&sample_record())
    );
    assert!(sink.ends_with(b"\n"));
    assert!(!sink.ends_with(b"\n\n"), "改行を重ねない");
}

#[test]
fn an_oversized_crash_record_is_clamped_at_a_character_boundary() {
    let record = CrashRecord {
        message: "あ".repeat(MAX_CRASH_RECORD_BYTES),
        ..sample_record()
    };
    let mut sink = Vec::new();
    write_crash_record(&mut sink, &record).expect("メモリへの書き込みは失敗しない");
    assert!(sink.len() <= MAX_CRASH_RECORD_BYTES, "上限を超えない");
    let text = String::from_utf8(sink).expect("文字境界で切るので UTF-8 のまま");
    assert!(text.starts_with("===== 異常終了（パニック） ====="));
    assert!(text.contains("切り詰めた"), "切り詰めた事実を残す: {text:?}");
    assert!(text.ends_with('\n'));
}

#[test]
fn a_record_that_fits_is_written_whole() {
    let bytes = crash_record_bytes(&sample_record());
    assert_eq!(bytes, format_crash_record(&sample_record()).into_bytes());
}

#[test]
fn clamping_never_splits_a_character() {
    assert_eq!(clamp_to_char_boundary("あい", 4), "あ");
    assert_eq!(clamp_to_char_boundary("あい", 3), "あ");
    assert_eq!(clamp_to_char_boundary("あい", 2), "");
    assert_eq!(clamp_to_char_boundary("abc", 2), "ab");
    assert_eq!(clamp_to_char_boundary("abc", 3), "abc");
    assert_eq!(clamp_to_char_boundary("abc", 99), "abc");
}

#[test]
fn the_recording_guard_prevents_reentry() {
    let mut guard = RecordingGuard::new();
    assert_eq!(guard.record_once(|| 1), Some(1));
    assert_eq!(guard.record_once(|| 2), Some(2));
    assert!(!guard.enter(), "事前条件: フラグは下りている");
    let mut ran = false;
    assert_eq!(
        guard.record_once(|| {
            ran = true;
        }),
        None
    );
    assert!(!ran, "再入では本体を走らせない");
    guard.leave();
    assert_eq!(guard.record_once(|| 3), Some(3));
}

#[test]
fn the_verification_trigger_keeps_the_plain_integer_meaning() {
    assert_eq!(
        parse_verification_trigger("1500"),
        Some((VerificationAction::Exit, 1500))
    );
    assert_eq!(
        parse_verification_trigger("0"),
        Some((VerificationAction::Exit, 0))
    );
}

#[test]
fn the_verification_trigger_can_select_an_intentional_panic() {
    assert_eq!(
        parse_verification_trigger("panic:1500"),
        Some((VerificationAction::Panic, 1500))
    );
    assert_eq!(
        parse_verification_trigger("exit:1500"),
        Some((VerificationAction::Exit, 1500))
    );
    assert_eq!(
        parse_verification_trigger(" panic : 1500 "),
        Some((VerificationAction::Panic, 1500))
    );
}

#[test]
fn an_uninterpretable_verification_trigger_selects_nothing() {
    for value in [
        "", "abc", "panic", "panic:", "exit:", "crash:1500", "1500:panic", "-1", "1.5",
    ] {
        assert_eq!(
            parse_verification_trigger(value),
            None,
            "解釈できてはならない: {value:?}"
        );
    }
}

#[test]
fn the_verification_trigger_edges() {
    assert_eq!(
        parse_verification_trigger("18446744073709551615"),
        Some((VerificationAction::Exit, u64::MAX))
    );
    assert_eq!(parse_verification_trigger("18446744073709551616"), None);
    assert_eq!(
        parse_verification_trigger("+7"),
        Some((VerificationAction::Exit, 7))
    );
    assert_eq!(parse_verification_trigger("+"), None);
    assert_eq!(VerificationAction::Panic.name(), "panic");
    assert_eq!(VerificationAction::parse("exit"), Some(VerificationAction::Exit));
}

#[test]
fn the_startup_failure_names_the_prerequisite() {
    let error = StartupError::new(PREREQUISITE_DIAGNOSTICS, "/var/log: 権限なし".to_owned());
    assert_eq!(
        error.message(),
        "起動を継続できません（満たされなかった前提: 診断情報の保存先）: /var/log: 権限なし"
    );
    assert_eq!(
        startup_failure_record(&error),
        "jxcel: 起動を継続できません（満たされなかった前提: 診断情報の保存先）: /var/log: 権限なし\njxcel: 起動を中止しました（前提「診断情報の保存先」を満たせません）。\n"
    );
}

#[test]
fn the_launch_request_names_the_first_document_argument() {
    let argv: Vec<String> = ["jxcel", "--flag", "", "/tmp/a.jxcel", "/tmp/b.jxcel"]
        .iter()
        .map(|s| s.to_string())
        .collect();
    let request = LaunchRequest::from_argv(&argv);
    assert_eq!(request.document.as_deref(), Some("/tmp/a.jxcel"));
    assert_eq!(request.describe(), "ドキュメント要求 /tmp/a.jxcel");
    let none = LaunchRequest::from_argv(&["jxcel".to_string(), "-x".to_string()]);
    assert_eq!(none.document, None);
    assert_eq!(none.describe(), "ドキュメント要求なし");
    assert_eq!(LaunchRequest::from_argv(&[]).document, None);
    let split = LaunchRequest::split_joined_argv(&["jxcel|C:\\a.jxcel".to_string()]);
    assert_eq!(split, vec!["jxcel".to_string(), "C:\\a.jxcel".to_string()]);
}

fn sample_policy() -> LoggingPolicy {
    LoggingPolicy {
        max_log_file_bytes: 8 * 1024 * 1024,
        keep_archived_files: 5,
        retained_log_files: 6,
        max_retained_log_bytes: 48 * 1024 * 1024,
        max_total_log_bytes: 50 * 1024 * 1024,
    }
}

#[test]
fn the_logging_policy_is_applied_and_checked() {
    let policy = sample_policy();
    let config = jxcel::lifecycle::logging_config("/logs", &policy);
    assert!(jxcel::lifecycle::confirm_logging_values(&config, &policy, true).is_ok());
    let error = jxcel::lifecycle::confirm_logging_values(&config, &policy, false)
        .expect_err("ディレクトリでなければ拒否する");
    assert_eq!(error.detail(), "記録の保存先 /logs をディレクトリとして使えない");
    let mut broken = jxcel::lifecycle::logging_config("/logs", &policy);
    broken.retained_bytes += 1;
    let error = jxcel::lifecycle::confirm_logging_values(&broken, &policy, true)
        .expect_err("方針と食い違えば拒否する");
    assert_eq!(
        error.detail(),
        "記録の保持方針が実効値と一致しない（1ファイル上限=8388608 B、アーカイブ=5、保持総数=6、保持合計=50331649 B。方針: 合計上限=52428800 B / 保持総数=6）"
    );
    assert_eq!(jxcel::lifecycle::active_file_name(&config), "jxcel.log");
    assert!(jxcel::lifecycle::confirm_effective_logging("/logs/jxcel.log", &ActiveLogFile::RegularFile).is_ok());
    let error = jxcel::lifecycle::confirm_effective_logging("/logs/jxcel.log", &ActiveLogFile::NotAFile)
        .expect_err("通常ファイルでなければ拒否する");
    assert_eq!(error.detail(), "記録中のファイル /logs/jxcel.log が通常ファイルでない");
}

#[test]
fn a_handover_window_takes_the_smallest_free_ordinal_from_the_window_count() {
    let labels = |names: &[&str]| names.iter().map(|name| (*name).to_owned()).collect::<Vec<String>>();
    assert_eq!(handover_label(&labels(&[])), "handover-1");
    assert_eq!(handover_label(&labels(&["doc-1"])), "handover-2");
    assert_eq!(handover_label(&labels(&["doc-1", "handover-2"])), "handover-3");
    assert_eq!(handover_label(&labels(&["handover-4", "doc-1", "empty-1"])), "handover-5");
    assert_eq!(handover_label(&labels(&["handover-2", "handover-3"])), "handover-4");
}

#[test]
fn a_crash_record_is_made_of_what_the_hook_observed() {
    let record = crash_record_of(PanicFacts {
        epoch_seconds: 1_700_000_000,
        version: "0.1.0",
        thread_name: Some("main".to_owned()),
        thread_id: "ThreadId(1)".to_owned(),
        on_main_thread: true,
        aborts: false,
        message: Some("壊れた".to_owned()),
        location: Some(("src/lib.rs".to_owned(), 12, 5)),
        backtrace: None,
    });
    assert_eq!(record.thread, "main (ThreadId(1))");
    assert_eq!(record.location, "src/lib.rs:12:5");
    assert_eq!(record.message, "壊れた");
    assert!(record.process_terminates);
    assert_eq!(record.epoch_seconds, 1_700_000_000);
    let worker = crash_record_of(PanicFacts {
        epoch_seconds: 0,
        version: "0.1.0",
        thread_name: None,
        thread_id: "ThreadId(7)".to_owned(),
        on_main_thread: false,
        aborts: false,
        message: None,
        location: None,
        backtrace: Some("frame".to_owned()),
    });
    assert_eq!(worker.thread, "(無名) (ThreadId(7))");
    assert_eq!(worker.location, "(位置不明)");
    assert_eq!(worker.message, "(文字列でないペイロード)");
    assert!(!worker.process_terminates, "a worker's panic does not end the process");
    assert_eq!(worker.backtrace.as_deref(), Some("frame"));
    let aborting = crash_record_of(PanicFacts {
        epoch_seconds: 0,
        version: "0.1.0",
        thread_name: None,
        thread_id: "ThreadId(7)".to_owned(),
        on_main_thread: false,
        aborts: true,
        message: None,
        location: None,
        backtrace: None,
    });
    assert!(aborting.process_terminates, "every panic ends an aborting build");
}

#[test]
fn a_crash_record_ends_in_one_newline_even_with_a_blank_backtrace() {
    let record = CrashRecord { backtrace: Some(" \n\n\t".to_owned()), ..sample_record() };
    let rendered = format_crash_record(&record);
    assert!(rendered.ends_with("位置: src/lib.rs:1:1\nバックトレース:\n"), "{rendered:?}");
    assert!(rendered.ends_with('\n') && !rendered.ends_with("\n\n"));
}

#[test]
fn clamping_keeps_the_longest_whole_characters_that_fit() {
    // "あ" is three bytes: four bytes hold one character, six hold two.
    assert_eq!(clamp_to_char_boundary("あいう", 4), "あ");
    assert_eq!(clamp_to_char_boundary("あいう", 6), "あい");
    assert_eq!(clamp_to_char_boundary("あいう", 2), "");
    assert_eq!(clamp_to_char_boundary("abc", 10), "abc");
}
