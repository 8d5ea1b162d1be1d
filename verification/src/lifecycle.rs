//! The application lifecycle's decisions: reporting a prerequisite that
//! startup cannot do without, the platform's residency convention, the
//! explicit-quit latch, the verification trigger, the crash record and its
//! byte limit, the content-security-policy check and the logging policy check.
use vstd::prelude::*;
use vstd::utf8::*;
use vstd::string::StringSliceAdditionalSpecFns;
use crate::text::{
    join_strings, same_strings,
    split, split_char,
    decimal, join, push_decimal, trim_end, trimmed_end, parse_u64, parse_unsigned, split_once, split_once_char, str_equal, trim, trimmed, views,
};

verus! {

/// Prerequisite: the application data area (where settings live).
pub const PREREQUISITE_APP_DATA: &'static str = "アプリケーションデータ領域";

/// Prerequisite: where diagnostics (logs) are stored.
pub const PREREQUISITE_DIAGNOSTICS: &'static str = "診断情報の保存先";

/// Prerequisite: the Tauri runtime and window construction.
pub const PREREQUISITE_RUNTIME: &'static str = "Tauri ランタイム";

/// Prerequisite: the content security policy that blocks outside network paths.
pub const PREREQUISITE_CSP: &'static str = "通信内容保護方針 (CSP)";

/// File that records a startup failure.
pub const STARTUP_FAILURE_FILE_NAME: &'static str = "jxcel-startup-error.log";

/// Stem of the active log file.
pub const LOG_FILE_STEM: &'static str = "jxcel";

/// File that records an abnormal termination.
pub const CRASH_RECORD_FILE_NAME: &'static str = "jxcel-crash.log";

/// Upper bound, in bytes, of one crash record.
pub const MAX_CRASH_RECORD_BYTES: usize = 65536;

/// Environment variable read by the verification trigger.
pub const VERIFY_EXIT_ENV: &'static str = "JXCEL_VERIFICATION_EXIT_AFTER_MS";

// ---------------------------------------------------------------------------
// Startup errors
// ---------------------------------------------------------------------------

/// A prerequisite that startup cannot continue without; it names the prerequisite.
#[derive(Debug, Clone, PartialEq, Eq)]
pub struct StartupError {
    prerequisite: &'static str,
    detail: String,
}

impl View for StartupError {
    /// The prerequisite's name and the detail.
    type V = (Seq<char>, Seq<char>);

    closed spec fn view(&self) -> (Seq<char>, Seq<char>) {
        (self.prerequisite@, self.detail@)
    }
}

/// The message a startup error presents.
pub open spec fn startup_error_message(e: (Seq<char>, Seq<char>)) -> Seq<char> {
    "起動を継続できません（満たされなかった前提: "@ + e.0 + "）: "@ + e.1
}

/// The text that reporting a startup failure prints and records.
pub open spec fn startup_failure_text(e: (Seq<char>, Seq<char>)) -> Seq<char> {
    "jxcel: "@ + startup_error_message(e) + "\njxcel: 起動を中止しました（前提「"@ + e.0
        + "」を満たせません）。\n"@
}

impl StartupError {
    /// An error naming `prerequisite`, with `detail`.
    pub fn new(prerequisite: &'static str, detail: String) -> (r: Self)
        ensures
            r@ == (prerequisite@, detail@),
    {
        StartupError { prerequisite, detail }
    }

    /// The name of the prerequisite that was not met.
    pub fn prerequisite(&self) -> (r: &'static str)
        ensures
            r@ == self@.0,
    {
        self.prerequisite
    }

    /// What went wrong with the prerequisite.
    pub fn detail(&self) -> (r: &str)
        ensures
            r@ == self@.1,
    {
        self.detail.as_str()
    }

    /// The message presented for this error (its `Display` text).
    pub fn message(&self) -> (r: String)
        ensures
            r@ == startup_error_message(self@),
    {
        let mut out = String::new();
        out.append("起動を継続できません（満たされなかった前提: ");
        out.append(self.prerequisite);
        out.append("）: ");
        out.append(self.detail.as_str());
        out
    }
}

/// The text printed to stderr and kept in the startup-failure file.
pub fn startup_failure_record(error: &StartupError) -> (r: String)
    ensures
        r@ == startup_failure_text(error@),
{
    let mut out = String::new();
    out.append("jxcel: ");
    let message = error.message();
    out.append(message.as_str());
    out.append("\njxcel: 起動を中止しました（前提「");
    out.append(error.prerequisite());
    out.append("」を満たせません）。\n");
    out
}

// ---------------------------------------------------------------------------
// Residency and the explicit quit (requirements 2.8, 2.9)
// ---------------------------------------------------------------------------

/// Whether the platform keeps the application alive after its last window closes.
#[derive(Debug, Clone, Copy, PartialEq, Eq, Structural)]
pub enum Residency {
    /// The process stays resident (macOS).
    StayResident,
    /// The process exits when the last window closes (Windows, Linux).
    ExitOnLastWindowClosed,
}

/// Whether an exit request is refused so that the process stays resident.
pub open spec fn spec_vetoes_exit(residency: Residency, code: Option<i32>, explicit_quit: bool) -> bool {
    residency == Residency::StayResident && code is None && !explicit_quit
}

/// Whether to refuse an exit request: only on a resident platform, only for a request
/// without an exit code (the last window was closed), and only while no explicit quit
/// was requested.
pub fn vetoes_exit(residency: Residency, code: Option<i32>, explicit_quit: bool) -> (r: bool)
    ensures
        r == spec_vetoes_exit(residency, code, explicit_quit),
{
    match residency {
        Residency::StayResident => code.is_none() && !explicit_quit,
        Residency::ExitOnLastWindowClosed => false,
    }
}

/// A one-way latch that records that an explicit quit was requested.
pub struct ExitControl {
    quit_requested: bool,
}

impl View for ExitControl {
    type V = bool;

    closed spec fn view(&self) -> bool {
        self.quit_requested
    }
}

impl ExitControl {
    /// A latch that is not set.
    pub fn new() -> (r: Self)
        ensures
            !r@,
    {
        ExitControl { quit_requested: false }
    }

    /// Sets the latch; from now on no exit request is refused.
    pub fn authorize_quit(&mut self)
        ensures
            final(self)@,
    {
        self.quit_requested = true;
    }

    /// Whether an explicit quit was requested.
    pub fn quit_requested(&self) -> (r: bool)
        ensures
            r == self@,
    {
        self.quit_requested
    }
}

impl Default for ExitControl {
    fn default() -> (r: Self)
        ensures
            !r@,
    {
        Self::new()
    }
}

/// Once an explicit quit has been authorized, no exit request is refused on any platform
/// and with any exit code: the explicit quit always ends the process.
pub proof fn lemma_explicit_quit_releases_every_veto(
    control: ExitControl,
    residency: Residency,
    code: Option<i32>,
)
    requires
        control@,
    ensures
        !spec_vetoes_exit(residency, code, control@),
{
}

/// A request that carries an exit code is never refused.
pub proof fn lemma_coded_exit_is_never_vetoed(residency: Residency, code: i32, explicit_quit: bool)
    ensures
        !spec_vetoes_exit(residency, Some(code), explicit_quit),
{
}

// ---------------------------------------------------------------------------
// Re-entry guard of the crash recorder
// ---------------------------------------------------------------------------

/// Guard that keeps the crash recorder from re-entering itself.
pub struct RecordingGuard {
    recording: bool,
}

impl View for RecordingGuard {
    /// Whether a record is being written.
    type V = bool;

    closed spec fn view(&self) -> bool {
        self.recording
    }
}

impl RecordingGuard {
    /// A guard with no record in progress.
    pub fn new() -> (r: Self)
        ensures
            !r@,
    {
        RecordingGuard { recording: false }
    }

    /// Marks a record as in progress and answers whether one already was.
    pub fn enter(&mut self) -> (was_recording: bool)
        ensures
            was_recording == old(self)@,
            final(self)@,
    {
        let was = self.recording;
        self.recording = true;
        was
    }

    /// Marks the record as finished.
    pub fn leave(&mut self)
        ensures
            !final(self)@,
    {
        self.recording = false;
    }

    /// Runs `body` only when no record is in progress; a re-entry answers `None` and does
    /// not run `body`. The guard is released once `body` has returned.
    pub fn record_once<R, F: FnOnce() -> R>(&mut self, body: F) -> (r: Option<R>)
        requires
            call_requires(body, ()),
        ensures
            old(self)@ ==> r is None && final(self)@,
            !old(self)@ ==> (r matches Some(v) && call_ensures(body, (), v)) && !final(self)@,
    {
        if self.enter() {
            return None;
        }
        let result = body();
        self.leave();
        Some(result)
    }
}

// ---------------------------------------------------------------------------
// Verification trigger (`[<action>:]<milliseconds>`)
// ---------------------------------------------------------------------------

/// What the verification trigger does.
#[derive(Debug, Clone, Copy, PartialEq, Eq, Structural)]
pub enum VerificationAction {
    /// The explicit quit.
    Exit,
    /// An intentional panic on the main thread.
    Panic,
}

/// The action a name denotes.
pub open spec fn action_named(name: Seq<char>) -> Option<VerificationAction> {
    if name == "exit"@ {
        Some(VerificationAction::Exit)
    } else if name == "panic"@ {
        Some(VerificationAction::Panic)
    } else {
        None
    }
}

/// The name of an action.
pub open spec fn action_name(action: VerificationAction) -> Seq<char> {
    match action {
        VerificationAction::Exit => "exit"@,
        VerificationAction::Panic => "panic"@,
    }
}

impl VerificationAction {
    /// The action a name denotes; other names denote none.
    pub fn parse(name: &str) -> (r: Option<Self>)
        ensures
            r == action_named(name@),
    {
        if str_equal(name, "exit") {
            Some(VerificationAction::Exit)
        } else if str_equal(name, "panic") {
            Some(VerificationAction::Panic)
        } else {
            None
        }
    }

    /// The name written in the trigger.
    pub fn name(self) -> (r: &'static str)
        ensures
            r@ == action_name(self),
    {
        match self {
            VerificationAction::Exit => "exit",
            VerificationAction::Panic => "panic",
        }
    }
}

/// The meaning of a trigger value: `<ms>` (the explicit quit) or `<action>:<ms>`, with
/// whitespace around each part ignored; anything else means nothing.
pub open spec fn verification_trigger(value: Seq<char>) -> Option<(VerificationAction, nat)> {
    match split_once(value, ':') {
        Some((action, delay)) => match action_named(trim(action)) {
            Some(a) => match parse_unsigned(trim(delay), u64::MAX as nat) {
                Some(ms) => Some((a, ms)),
                None => None,
            },
            None => None,
        },
        None => match parse_unsigned(trim(value), u64::MAX as nat) {
            Some(ms) => Some((VerificationAction::Exit, ms)),
            None => None,
        },
    }
}

/// Reads the value of the verification trigger.
pub fn parse_verification_trigger(value: &str) -> (r: Option<(VerificationAction, u64)>)
    ensures
        r matches Some((a, ms)) ==> verification_trigger(value@) == Some((a, ms as nat)),
        r is None ==> verification_trigger(value@) is None,
{
    let (action, delay) = match split_once_char(value, ':') {
        Some((action, delay)) => {
            match VerificationAction::parse(trimmed(action)) {
                Some(a) => (a, delay),
                None => return None,
            }
        },
        None => (VerificationAction::Exit, value),
    };
    match parse_u64(trimmed(delay)) {
        Some(ms) => Some((action, ms)),
        None => None,
    }
}


// ---------------------------------------------------------------------------
// Crash record (requirement 8.2)
// ---------------------------------------------------------------------------

/// One crash record. It holds what the panic carried and where it happened, never any
/// document content.
pub struct CrashRecord {
    /// Time of the record, in seconds since the UNIX epoch.
    pub epoch_seconds: u64,
    /// Version of the application.
    pub version: &'static str,
    /// The thread that panicked (name and id).
    pub thread: String,
    /// Whether this panic ends the process (a main-thread panic does, another does not).
    pub process_terminates: bool,
    /// The panic message.
    pub message: String,
    /// Where the panic happened (`file:line:column`).
    pub location: String,
    /// The backtrace, when one was captured.
    pub backtrace: Option<String>,
}

/// The sentence that says what the panic does to the process.
pub open spec fn termination_text(process_terminates: bool) -> Seq<char> {
    if process_terminates {
        "このパニックにより異常終了する"@
    } else {
        "このスレッドだけが終了する（メインスレッド以外のパニック）"@
    }
}

/// The backtrace section: absent without a backtrace; otherwise a heading and the
/// backtrace without its trailing whitespace, ended by one newline (a backtrace that is
/// only whitespace leaves the heading alone, so the record still ends in one newline).
pub open spec fn backtrace_text(backtrace: Option<String>) -> Seq<char> {
    match backtrace {
        Some(b) => if trim_end(b@).len() == 0 {
            "バックトレース:\n"@
        } else {
            "バックトレース:\n"@ + trim_end(b@) + "\n"@
        },
        None => Seq::empty(),
    }
}

/// The first line of every crash record.
pub open spec fn crash_header() -> Seq<char> {
    "===== 異常終了（パニック） =====\n"@
}

/// Text without trailing whitespace does not end in whitespace.
proof fn lemma_trim_end_last(s: Seq<char>)
    ensures
        trim_end(s).len() > 0 ==> !crate::text::is_white_space(trim_end(s).last()),
    decreases s.len(),
{
    if s.len() > 0 && crate::text::is_white_space(s.last()) {
        lemma_trim_end_last(s.drop_last());
    }
}

/// The text of a crash record: the fact of the abnormal termination, then one line each
/// for the time, version, thread, consequence, message and location, then the backtrace.
pub open spec fn crash_record_text(r: CrashRecord) -> Seq<char> {
    "===== 異常終了（パニック） =====\n"@
    + "時刻 (UNIX epoch 秒): "@ + decimal(r.epoch_seconds as nat) + "\n"@
    + "バージョン: "@ + r.version@ + "\n"@
    + "スレッド: "@ + r.thread@ + "\n"@
    + "プロセスの終了: "@ + termination_text(r.process_terminates) + "\n"@
    + "メッセージ: "@ + r.message@ + "\n"@
    + "位置: "@ + r.location@ + "\n"@
    + backtrace_text(r.backtrace)
}

/// What a panic hook observed, before it becomes a crash record.
pub struct PanicFacts {
    /// Time of the panic, in seconds since the UNIX epoch.
    pub epoch_seconds: u64,
    /// Version of the application.
    pub version: &'static str,
    /// The panicking thread's name, if it has one.
    pub thread_name: Option<String>,
    /// The panicking thread's identifier, as printed.
    pub thread_id: String,
    /// Whether the panicking thread is the main thread.
    pub on_main_thread: bool,
    /// Whether every panic aborts the process (a `panic = "abort"` build).
    pub aborts: bool,
    /// The payload's text, when the payload is text.
    pub message: Option<String>,
    /// Where the panic happened: file, line, column.
    pub location: Option<(String, u32, u32)>,
    /// The backtrace, when one was captured.
    pub backtrace: Option<String>,
}

/// The thread line of a record: its name (or a placeholder) and its identifier.
pub open spec fn thread_text(name: Option<String>, id: Seq<char>) -> Seq<char> {
    (match name {
        Some(n) => n@,
        None => "(無名)"@,
    }) + " ("@ + id + ")"@
}

/// The location line of a record: `file:line:column`, or a placeholder.
pub open spec fn location_text(location: Option<(String, u32, u32)>) -> Seq<char> {
    match location {
        Some((file, line, column)) => file@ + ":"@ + decimal(line as nat) + ":"@ + decimal(column as nat),
        None => "(位置不明)"@,
    }
}

/// The crash record of what the hook observed. A payload that is not text is not shown (its
/// debug form could carry document content); the process ends with a main-thread panic, or
/// with any panic in an aborting build.
pub fn crash_record_of(facts: PanicFacts) -> (r: CrashRecord)
    ensures
        r.epoch_seconds == facts.epoch_seconds,
        r.version == facts.version,
        r.thread@ == thread_text(facts.thread_name, facts.thread_id@),
        r.process_terminates == (facts.on_main_thread || facts.aborts),
        r.message@ == (match facts.message {
            Some(m) => m@,
            None => "(文字列でないペイロード)"@,
        }),
        r.location@ == location_text(facts.location),
        r.backtrace == facts.backtrace,
{
    let PanicFacts {
        epoch_seconds,
        version,
        thread_name,
        thread_id,
        on_main_thread,
        aborts,
        message,
        location,
        backtrace,
    } = facts;
    let mut thread = match &thread_name {
        Some(name) => name.as_str().to_owned(),
        None => "(無名)".to_owned(),
    };
    thread.append(" (");
    thread.append(thread_id.as_str());
    thread.append(")");
    let message = match message {
        Some(text) => text,
        None => "(文字列でないペイロード)".to_owned(),
    };
    let location = match &location {
        Some((file, line, column)) => {
            let mut out = file.as_str().to_owned();
            out.append(":");
            push_decimal(&mut out, *line as u64);
            out.append(":");
            push_decimal(&mut out, *column as u64);
            out
        },
        None => "(位置不明)".to_owned(),
    };
    CrashRecord {
        epoch_seconds,
        version,
        thread,
        process_terminates: on_main_thread || aborts,
        message,
        location,
        backtrace,
    }
}

/// Renders a crash record as text.
pub fn format_crash_record(record: &CrashRecord) -> (r: String)
    ensures
        r@ == crash_record_text(*record),
        r@.take(crash_header().len() as int) == crash_header(),
        r@.len() >= 2 && r@.last() == '\n',
        !(record.location@.len() > 0 && record.location@.last() == '\n') ==> r@[r@.len() - 2] != '\n',
{
    let mut text = String::new();
    text.append("===== 異常終了（パニック） =====\n");
    text.append("時刻 (UNIX epoch 秒): ");
    push_decimal(&mut text, record.epoch_seconds);
    text.append("\n");
    text.append("バージョン: ");
    text.append(record.version);
    text.append("\n");
    text.append("スレッド: ");
    text.append(record.thread.as_str());
    text.append("\n");
    text.append("プロセスの終了: ");
    if record.process_terminates {
        text.append("このパニックにより異常終了する");
    } else {
        text.append("このスレッドだけが終了する（メインスレッド以外のパニック）");
    }
    text.append("\n");
    text.append("メッセージ: ");
    text.append(record.message.as_str());
    text.append("\n");
    text.append("位置: ");
    text.append(record.location.as_str());
    text.append("\n");
    let ghost before = text@;
    match &record.backtrace {
        Some(backtrace) => {
            text.append("バックトレース:\n");
            let trace = trimmed_end(backtrace.as_str());
            if trace.unicode_len() > 0 {
                text.append(trace);
                text.append("\n");
            }
        },
        None => {},
    }
    assert(text@ =~= crash_record_text(*record));
    proof {
        reveal_strlit("===== 異常終了（パニック） =====\n");
        reveal_strlit("バックトレース:\n");
        reveal_strlit("\n");
        reveal_strlit("位置: ");
        assert(text@.take(crash_header().len() as int) =~= crash_header());
        match &record.backtrace {
            Some(b) => {
                lemma_trim_end_last(b@);
                if trim_end(b@).len() > 0 {
                    assert(text@[text@.len() - 2] == trim_end(b@).last());
                    assert(crate::text::is_white_space('\n'));
                    assert(trim_end(b@).last() != '\n');
                }
            },
            None => {
                if record.location@.len() > 0 {
                    assert(text@[text@.len() - 2] == record.location@.last());
                } else {
                    assert(text@[text@.len() - 2] == ' ');
                }
            },
        }
    }
    text
}

/// The line that ends a record cut at the size limit.
pub open spec fn truncation_marker_text() -> Seq<char> {
    "\n（記録の上限 65536 バイトを超えたため切り詰めた）\n"@
}

fn truncation_marker() -> (r: &'static str)
    ensures
        r@ == truncation_marker_text(),
        r.spec_bytes().len() < MAX_CRASH_RECORD_BYTES,
{
    let marker = "\n（記録の上限 65536 バイトを超えたため切り詰めた）\n";
    proof {
        reveal_strlit("\n（記録の上限 65536 バイトを超えたため切り詰めた）\n");
        lemma_encoded_length_bound(marker@);
    }
    marker
}

proof fn lemma_encoded_length_bound(s: Seq<char>)
    ensures
        encode_utf8(s).len() <= 4 * s.len(),
    decreases s.len(),
{
    if s.len() > 0 {
        lemma_encoded_length_bound(s.drop_first());
    }
}

/// The largest character boundary of `bytes` at or before `end`.
pub open spec fn boundary_at_or_before(bytes: Seq<u8>, end: int) -> int
    decreases end,
{
    if end <= 0 || is_char_boundary(bytes, end) {
        if end <= 0 {
            0
        } else {
            end
        }
    } else {
        boundary_at_or_before(bytes, end - 1)
    }
}

/// Where a text of `bytes` is cut to fit in `limit` bytes: the whole text if it fits,
/// otherwise the largest character boundary at or before `limit`.
pub open spec fn clamp_point(bytes: Seq<u8>, limit: int) -> int {
    if bytes.len() <= limit {
        bytes.len() as int
    } else {
        boundary_at_or_before(bytes, limit)
    }
}

proof fn lemma_boundary_at_or_before(bytes: Seq<u8>, end: int)
    requires
        valid_utf8(bytes),
        0 <= end <= bytes.len(),
    ensures
        0 <= boundary_at_or_before(bytes, end) <= end,
        is_char_boundary(bytes, boundary_at_or_before(bytes, end)),
        forall|k: int|
            boundary_at_or_before(bytes, end) < k <= end ==> !is_char_boundary(bytes, k),
    decreases end,
{
    if end > 0 && !is_char_boundary(bytes, end) {
        lemma_boundary_at_or_before(bytes, end - 1);
    }
}

/// `text` cut to at most `limit` bytes without splitting a character, so the result is
/// still valid UTF-8.
pub fn clamp_to_char_boundary(text: &str, limit: usize) -> (r: &str)
    ensures
        r.spec_bytes() == text.spec_bytes().take(clamp_point(text.spec_bytes(), limit as int)),
        r.spec_bytes().len() <= limit,
        text@.len() > 0 ==> r@ == text@.take(r@.len() as int),
        is_char_boundary(text.spec_bytes(), r.spec_bytes().len() as int),
        forall|k: int|
            r.spec_bytes().len() < k <= limit && k <= text.spec_bytes().len() ==> !is_char_boundary(
                text.spec_bytes(),
                k,
            ),
{
    broadcast use group_utf8_lib;

    let ghost bytes = text.spec_bytes();
    if text.as_bytes().len() <= limit {
        assert(bytes.take(bytes.len() as int) =~= bytes);
        return text;
    }
    let mut end = limit;
    while end > 0 && !text.is_char_boundary(end)
        invariant
            end <= limit < bytes.len(),
            bytes == text.spec_bytes(),
            valid_utf8(bytes),
            boundary_at_or_before(bytes, end as int) == boundary_at_or_before(bytes, limit as int),
        decreases end,
    {
        end = end - 1;
    }
    let (head, _tail) = text.split_at(end);
    proof {
        lemma_boundary_at_or_before(bytes, limit as int);
        decode_utf8_split(bytes, end as int);
        assert(bytes =~= bytes.subrange(0, end as int) + bytes.subrange(end as int, bytes.len() as int));
        assert(head.spec_bytes() =~= bytes.take(end as int));
        encode_utf8_decode_utf8(head@);
        encode_utf8_decode_utf8(text@);
        encode_utf8_decode_utf8(_tail@);
        assert(text@ =~= head@ + _tail@);
        assert(head@ =~= text@.take(head@.len() as int));
    }
    head
}


/// The bytes of a crash record as written: the UTF-8 text when it fits in
/// [`MAX_CRASH_RECORD_BYTES`], otherwise the text cut at a character boundary so that the
/// truncation line still fits after it.
pub open spec fn crash_record_bytes_spec(r: CrashRecord) -> Seq<u8> {
    let bytes = encode_utf8(crash_record_text(r));
    if bytes.len() <= MAX_CRASH_RECORD_BYTES {
        bytes
    } else {
        let marker = encode_utf8(truncation_marker_text());
        bytes.take(clamp_point(bytes, MAX_CRASH_RECORD_BYTES - marker.len())) + marker
    }
}

/// The bytes to write for a crash record; never more than [`MAX_CRASH_RECORD_BYTES`]
/// and always valid UTF-8.
pub fn crash_record_bytes(record: &CrashRecord) -> (r: Vec<u8>)
    ensures
        r@ == crash_record_bytes_spec(*record),
        r@.len() <= MAX_CRASH_RECORD_BYTES,
        valid_utf8(r@),
{
    broadcast use group_utf8_lib;

    let rendered = format_crash_record(record);
    let text = rendered.as_str();
    if text.as_bytes().len() <= MAX_CRASH_RECORD_BYTES {
        return text.as_bytes_vec();
    }
    let marker = truncation_marker();
    let room = MAX_CRASH_RECORD_BYTES - marker.as_bytes().len();
    let body = clamp_to_char_boundary(text, room);
    let mut out = body.as_bytes_vec();
    let mut tail = marker.as_bytes_vec();
    let ghost body_bytes = out@;
    out.append(&mut tail);
    proof {
        valid_utf8_concat(body_bytes, marker.spec_bytes());
    }
    out
}

/// The error type of a writer.
#[verifier::external_type_specification]
#[verifier::external_body]
pub struct ExIoError(std::io::Error);

/// Writes a crash record into `sink` and answers how many bytes were written.
pub fn write_crash_record(sink: &mut Vec<u8>, record: &CrashRecord) -> (r: Result<
    usize,
    std::io::Error,
>)
    ensures
        final(sink)@ == old(sink)@ + crash_record_bytes_spec(*record),
        r matches Ok(n) && n == crash_record_bytes_spec(*record).len(),
        crash_record_bytes_spec(*record).len() <= MAX_CRASH_RECORD_BYTES,
        valid_utf8(crash_record_bytes_spec(*record)),
{
    let mut bytes = crash_record_bytes(record);
    let written = bytes.len();
    sink.append(&mut bytes);
    Ok(written)
}


// ---------------------------------------------------------------------------
// Content security policy (requirements 1.6, 8.3)
// ---------------------------------------------------------------------------

/// The sources that tauri-utils' conversion of a policy string gives a directive: the
/// space-separated tokens after the directive's name in the last `;`-separated part whose
/// first token, once the part is trimmed, is that name.
pub open spec fn policy_directive_sources(parts: Seq<Seq<char>>, directive: Seq<char>) -> Option<
    Seq<Seq<char>>,
>
    decreases parts.len(),
{
    if parts.len() == 0 {
        None
    } else {
        let tokens = split(trim(parts.last()), ' ');
        if tokens[0] == directive {
            Some(tokens.drop_first())
        } else {
            policy_directive_sources(parts.drop_last(), directive)
        }
    }
}

/// The sources a policy string gives a directive, if the directive occurs.
pub open spec fn csp_sources(policy: Seq<char>, directive: Seq<char>) -> Option<Seq<Seq<char>>> {
    policy_directive_sources(split(policy, ';'), directive)
}

/// Converts a policy string with tauri-utils (`HashMap::<String, CspDirectiveSources>::from`
/// of `Csp::Policy`, then `Vec::<String>::from` of the directive's sources). The contract
/// restates the conversion of that crate's source: parts split on `;`, each trimmed and
/// split on spaces, the first token naming the directive, a later part replacing an
/// earlier one.
#[verifier::external_body]
fn policy_sources(policy: &str, directive: &str) -> (r: Option<Vec<String>>)
    ensures
        r matches Some(v) ==> csp_sources(policy@, directive@) == Some(views(v@)),
        r is None ==> csp_sources(policy@, directive@) is None,
{
    let directives: std::collections::HashMap<String, tauri_utils::config::CspDirectiveSources> =
        tauri_utils::config::Csp::Policy(policy.to_owned()).into();
    directives.get(directive).cloned().map(Vec::<String>::from)
}

/// The part of the effective content security policy that startup checks.
pub struct CspConfig {
    /// The whole policy on one line (empty when no policy is set).
    pub policy: String,
    /// The destinations `connect-src` allows.
    pub connect_src: Vec<String>,
}

/// The `connect-src` destinations of an optional policy (none without a policy or without
/// the directive).
pub open spec fn effective_connect_src(policy: Option<Seq<char>>) -> Seq<Seq<char>> {
    match policy {
        Some(p) => match csp_sources(p, "connect-src"@) {
            Some(v) => v,
            None => Seq::empty(),
        },
        None => Seq::empty(),
    }
}

/// Takes the checked part out of a policy string.
pub fn csp_config_from(policy: Option<&str>) -> (r: CspConfig)
    ensures
        r.policy@ == (match policy {
            Some(p) => p@,
            None => Seq::empty(),
        }),
        views(r.connect_src@) == effective_connect_src(
            match policy {
                Some(p) => Some(p@),
                None => None,
            },
        ),
{
    match policy {
        Some(text) => {
            let connect_src = match policy_sources(text, "connect-src") {
                Some(v) => v,
                None => Vec::new(),
            };
            assert(views(Seq::<String>::empty()) =~= Seq::<Seq<char>>::empty());
            CspConfig { policy: text.to_owned(), connect_src }
        },
        None => {
            let connect_src: Vec<String> = Vec::new();
            assert(views(connect_src@) =~= Seq::<Seq<char>>::empty());
            CspConfig { policy: String::new(), connect_src }
        },
    }
}

/// The only destinations `connect-src` may allow: the IPC endpoints.
pub open spec fn required_connect_src_spec() -> Seq<Seq<char>> {
    seq!["ipc:"@, "http://ipc.localhost"@]
}

/// The IPC endpoints that `connect-src` must allow, and nothing else.
pub fn required_connect_src() -> (r: Vec<String>)
    ensures
        views(r@) == required_connect_src_spec(),
{
    let mut r: Vec<String> = Vec::new();
    r.push("ipc:".to_owned());
    r.push("http://ipc.localhost".to_owned());
    assert(views(r@) =~= required_connect_src_spec());
    r
}

/// Destinations as shown in a startup line or message: separated by spaces, or
/// `(なし)` when there are none.
pub open spec fn shown_sources(sources: Seq<Seq<char>>) -> Seq<char> {
    if sources.len() == 0 {
        "(なし)"@
    } else {
        join(sources, " "@)
    }
}

/// Shows destinations for a startup line or an error message.
pub fn show_sources(sources: &Vec<String>) -> (r: String)
    ensures
        r@ == shown_sources(views(sources@)),
{
    if sources.len() == 0 {
        "(なし)".to_owned()
    } else {
        join_strings(sources, " ")
    }
}

/// Why a policy that allows other destinations than the IPC endpoints is refused.
pub open spec fn csp_refusal_detail(connect_src: Seq<Seq<char>>) -> Seq<char> {
    "connect-src が通信境界の宛先だけを許可していない（実効値: "@ + shown_sources(connect_src)
        + " / 必須: "@ + shown_sources(required_connect_src_spec())
        + "）。connect-src に IPC の宛先が欠けると、通信境界の呼び出しが警告 1 行だけを残して低速な文字列経路へ恒久的に降格する（tauri#12835）。tauri.conf.json の app.security.csp を直すこと。"@
}

/// Whether the policy allows exactly the IPC endpoints, each as often as required.
pub open spec fn csp_allows_only_ipc(connect_src: Seq<Seq<char>>) -> bool {
    connect_src.to_multiset() == required_connect_src_spec().to_multiset()
}

/// Accepts the policy only when `connect-src` allows exactly the IPC endpoints; a missing
/// endpoint, an extra destination or a missing directive stops startup.
pub fn confirm_csp_values(config: &CspConfig) -> (r: Result<(), StartupError>)
    ensures
        r is Ok <==> csp_allows_only_ipc(views(config.connect_src@)),
        r matches Err(e) ==> e@ == (PREREQUISITE_CSP@, csp_refusal_detail(
            views(config.connect_src@),
        )),
{
    let required = required_connect_src();
    if same_strings(&config.connect_src, &required) {
        return Ok(());
    }
    let mut detail = String::new();
    detail.append("connect-src が通信境界の宛先だけを許可していない（実効値: ");
    let actual = show_sources(&config.connect_src);
    detail.append(actual.as_str());
    detail.append(" / 必須: ");
    let wanted = show_sources(&required);
    detail.append(wanted.as_str());
    detail.append(
        "）。connect-src に IPC の宛先が欠けると、通信境界の呼び出しが警告 1 行だけを残して低速な文字列経路へ恒久的に降格する（tauri#12835）。tauri.conf.json の app.security.csp を直すこと。",
    );
    Err(StartupError::new(PREREQUISITE_CSP, detail))
}

/// The startup line that records the effective `connect-src` and the whole policy.
pub open spec fn effective_csp_line(policy: Seq<char>, connect_src: Seq<Seq<char>>) -> Seq<char> {
    "通信内容保護方針の実効 connect-src: "@ + shown_sources(connect_src) + " / 方針全体: "@ + (
    if policy.len() == 0 {
        "(未設定)"@
    } else {
        policy
    })
}

/// The startup line recorded after the runtime is built.
pub fn effective_csp_record(config: &CspConfig) -> (r: String)
    ensures
        r@ == effective_csp_line(config.policy@, views(config.connect_src@)),
{
    let mut line = String::new();
    line.append("通信内容保護方針の実効 connect-src: ");
    let shown = show_sources(&config.connect_src);
    line.append(shown.as_str());
    line.append(" / 方針全体: ");
    if config.policy.as_str().unicode_len() == 0 {
        line.append("(未設定)");
    } else {
        line.append(config.policy.as_str());
    }
    line
}

/// Checks the policy again after the runtime was built (the same check).
pub fn confirm_effective_csp(config: &CspConfig) -> (r: Result<(), StartupError>)
    ensures
        r is Ok <==> csp_allows_only_ipc(views(config.connect_src@)),
        r matches Err(e) ==> e@ == (PREREQUISITE_CSP@, csp_refusal_detail(
            views(config.connect_src@),
        )),
{
    confirm_csp_values(config)
}


// ---------------------------------------------------------------------------
// Launch request handed over by a second instance (requirement 1.5)
// ---------------------------------------------------------------------------

/// Whether an argument names a document: not empty and not an option (`-…`).
pub open spec fn names_document(argument: Seq<char>) -> bool {
    argument.len() > 0 && argument[0] != '-'
}

/// The first argument that names a document.
pub open spec fn first_document(arguments: Seq<Seq<char>>) -> Option<Seq<char>>
    decreases arguments.len(),
{
    if arguments.len() == 0 {
        None
    } else if names_document(arguments[0]) {
        Some(arguments[0])
    } else {
        first_document(arguments.drop_first())
    }
}

/// The arguments after the program itself.
pub open spec fn after_program(argv: Seq<Seq<char>>) -> Seq<Seq<char>> {
    if argv.len() == 0 {
        argv
    } else {
        argv.drop_first()
    }
}

/// The arguments when each handed-over element joins several with `|` (Windows).
pub open spec fn joined_arguments(argv: Seq<Seq<char>>) -> Seq<Seq<char>>
    decreases argv.len(),
{
    if argv.len() == 0 {
        Seq::empty()
    } else {
        joined_arguments(argv.drop_last()) + split(argv.last(), '|')
    }
}

/// A launch request handed over by a second instance.
pub struct LaunchRequest {
    /// The requested document, if any.
    pub document: Option<String>,
}

impl LaunchRequest {
    /// Reads the request from the handed-over arguments: the first argument after the
    /// program that is neither empty nor an option names the document.
    pub fn from_argv(argv: &[String]) -> (r: Self)
        ensures
            (match r.document {
                Some(d) => Some(d@),
                None => None,
            }) == first_document(after_program(views(argv@))),
    {
        let mut i: usize = 1;
        let ghost args = after_program(views(argv@));
        if argv.len() == 0 {
            return LaunchRequest { document: None };
        }
        assert(args.skip(0) =~= args);
        while i < argv.len()
            invariant
                1 <= i <= argv.len(),
                args == views(argv@).drop_first(),
                first_document(args) == first_document(args.skip(i - 1)),
            decreases argv.len() - i,
        {
            let argument = argv[i].as_str();
            let ghost rest = args.skip(i - 1);
            assert(rest[0] == argument@);
            if argument.unicode_len() > 0 && argument.get_char(0) != '-' {
                return LaunchRequest { document: Some(argv[i].clone()) };
            }
            assert(rest.drop_first() =~= args.skip(i as int));
            i = i + 1;
        }
        LaunchRequest { document: None }
    }

    /// Splits elements that join several arguments with `|` (the form in which the
    /// single-instance plugin hands arguments over on Windows).
    pub fn split_joined_argv(argv: &[String]) -> (r: Vec<String>)
        ensures
            views(r@) == joined_arguments(views(argv@)),
    {
        let mut out: Vec<String> = Vec::new();
        let mut i: usize = 0;
        assert(views(argv@).take(0) =~= Seq::<Seq<char>>::empty());
        while i < argv.len()
            invariant
                i <= argv.len(),
                views(out@) == joined_arguments(views(argv@).take(i as int)),
            decreases argv.len() - i,
        {
            let pieces = split_char(argv[i].as_str(), '|');
            let ghost before = views(out@);
            let mut k: usize = 0;
            while k < pieces.len()
                invariant
                    k <= pieces.len(),
                    views(out@) == before + views(pieces@).take(k as int),
                decreases pieces.len() - k,
            {
                let ghost prev = out@;
                out.push(pieces[k].clone());
                assert(views(out@) =~= views(prev).push(pieces@[k as int]@));
                assert(views(pieces@).take(k + 1) =~= views(pieces@).take(k as int).push(
                    pieces@[k as int]@,
                ));
                assert(views(out@) =~= before + views(pieces@).take(k + 1));
                k = k + 1;
            }
            assert(views(pieces@).take(pieces.len() as int) =~= views(pieces@));
            assert(views(argv@).take(i + 1).drop_last() =~= views(argv@).take(i as int));
            i = i + 1;
        }
        assert(views(argv@).take(argv.len() as int) =~= views(argv@));
        out
    }

    /// A short description for the log.
    pub fn describe(&self) -> (r: String)
        ensures
            r@ == (match self.document {
                Some(d) => "ドキュメント要求 "@ + d@,
                None => "ドキュメント要求なし"@,
            }),
    {
        match &self.document {
            Some(path) => {
                let mut out = String::new();
                out.append("ドキュメント要求 ");
                out.append(path.as_str());
                out
            },
            None => "ドキュメント要求なし".to_owned(),
        }
    }
}

/// The label of the `k`-th hand-over window.
pub open spec fn handover_text(k: int) -> Seq<char> {
    "handover-"@ + decimal(k as nat)
}

/// Every decimal notation has at least one digit.
proof fn lemma_decimal_nonempty(n: nat)
    ensures
        decimal(n).len() >= 1,
    decreases n,
{
    if n >= 10 {
        lemma_decimal_nonempty(n / 10);
    }
}

/// Different numbers are written differently.
proof fn lemma_decimal_injective(a: nat, b: nat)
    requires
        decimal(a) == decimal(b),
    ensures
        a == b,
    decreases a,
{
    if a < 10 && b < 10 {
        assert(decimal(a) == seq![crate::text::digit_char(a)]);
        assert(decimal(b) == seq![crate::text::digit_char(b)]);
        assert(decimal(a)[0] == crate::text::digit_char(a));
        assert(decimal(b)[0] == crate::text::digit_char(b));
        lemma_digit_char_injective(a, b);
    } else if a < 10 {
        lemma_decimal_nonempty(b / 10);
        assert(decimal(b).len() >= 2);
    } else if b < 10 {
        lemma_decimal_nonempty(a / 10);
        assert(decimal(a).len() >= 2);
    } else {
        let da = decimal(a);
        let db = decimal(b);
        assert(da.last() == db.last());
        lemma_digit_char_injective(a % 10, b % 10);
        assert(da.drop_last() =~= decimal(a / 10));
        assert(db.drop_last() =~= decimal(b / 10));
        lemma_decimal_injective(a / 10, b / 10);
    }
}

/// Different digits have different characters.
proof fn lemma_digit_char_injective(x: nat, y: nat)
    requires
        x < 10,
        y < 10,
        crate::text::digit_char(x) == crate::text::digit_char(y),
    ensures
        x == y,
{
}

/// Different hand-over numbers give different labels.
proof fn lemma_handover_text_injective(a: int, b: int)
    requires
        a >= 0,
        b >= 0,
        handover_text(a) == handover_text(b),
    ensures
        a == b,
{
    let p = "handover-"@;
    assert(handover_text(a).skip(p.len() as int) =~= decimal(a as nat));
    assert(handover_text(b).skip(p.len() as int) =~= decimal(b as nat));
    lemma_decimal_injective(a as nat, b as nat);
}

/// Among the labels numbered from one more than the number of existing labels up to twice
/// as many plus one, at least one is not taken.
proof fn lemma_some_candidate_is_free(labels: Seq<Seq<char>>)
    ensures
        exists|k: int| labels.len() + 1 <= k <= 2 * labels.len() + 1 && !labels.contains(#[trigger] handover_text(k)),
{
    let n = labels.len() as int;
    if forall|k: int| n + 1 <= k <= 2 * n + 1 ==> labels.contains(#[trigger] handover_text(k)) {
        let candidates = vstd::set_lib::set_int_range(n + 1, 2 * n + 2);
        vstd::set_lib::lemma_int_range(n + 1, 2 * n + 2);
        let f = |k: int| handover_text(k);
        let named = candidates.map(f);
        assert(vstd::relations::injective_on(f, candidates)) by {
            assert forall|x: int, y: int| candidates.contains(x) && candidates.contains(y) && #[trigger] f(x)
                == #[trigger] f(y) implies x == y by {
                lemma_handover_text_injective(x, y);
            }
        }
        vstd::set_lib::lemma_map_size(candidates, named, f);
        assert(named.subset_of(labels.to_set())) by {
            assert forall|t: Seq<char>| #[trigger] named.contains(t) implies labels.to_set().contains(t) by {
                let k = choose|k: int| candidates.contains(k) && f(k) == t;
                assert(labels.contains(handover_text(k)));
            }
        }
        vstd::set_lib::lemma_len_subset(named, labels.to_set());
        labels.lemma_cardinality_of_set();
        assert(false);
    }
}

/// Whether one of the strings is `text`.
fn contains_text(strings: &Vec<String>, text: &str) -> (r: bool)
    ensures
        r == views(strings@).contains(text@),
{
    let mut i: usize = 0;
    while i < strings.len()
        invariant
            i <= strings@.len(),
            forall|j: int| 0 <= j < i ==> views(strings@)[j] != text@,
        decreases strings@.len() - i,
    {
        if str_equal(strings[i].as_str(), text) {
            assert(views(strings@)[i as int] == text@);
            return true;
        }
        i = i + 1;
    }
    false
}

/// The label of a window created for a handed-over request: the smallest `handover-<k>`
/// with `k` from one more than the number of windows that no window uses (`existing` are
/// the labels of the windows there are).
pub fn handover_label(existing: &Vec<String>) -> (r: String)
    requires
        existing@.len() < u64::MAX / 4,
    ensures
        exists|k: int| #![trigger handover_text(k)]
            existing@.len() + 1 <= k && r@ == handover_text(k) && !views(existing@).contains(r@)
                && forall|j: int| existing@.len() + 1 <= j < k ==> views(existing@).contains(
                #[trigger] handover_text(j),
            ),
{
    let n = existing.len() as u64;
    let mut k: u64 = n + 1;
    proof {
        lemma_some_candidate_is_free(views(existing@));
    }
    loop
        invariant
            n == existing@.len(),
            n < u64::MAX / 4,
            n + 1 <= k <= 2 * n + 1,
            forall|j: int| n + 1 <= j < k ==> views(existing@).contains(#[trigger] handover_text(j)),
            exists|m: int| n + 1 <= m <= 2 * n + 1 && !views(existing@).contains(#[trigger] handover_text(m)),
        decreases 2 * n + 1 - k,
    {
        let mut label = "handover-".to_owned();
        push_decimal(&mut label, k);
        assert(label@ == handover_text(k as int));
        if !contains_text(existing, label.as_str()) {
            return label;
        }
        proof {
            let m = choose|m: int| n + 1 <= m <= 2 * n + 1 && !views(existing@).contains(#[trigger] handover_text(m));
            assert(m != k);
            if m < k {
                assert(views(existing@).contains(handover_text(m)));
            }
        }
        k = k + 1;
    }
}

// ---------------------------------------------------------------------------
// Logging policy (requirements 8.1, 8.5, 8.7)
// ---------------------------------------------------------------------------

/// The retention policy for logs.
pub struct LoggingPolicy {
    /// Upper bound of one log file.
    pub max_log_file_bytes: u64,
    /// Number of archived files kept besides the active one.
    pub keep_archived_files: u32,
    /// Number of files that may be kept in all (archives and the active file).
    pub retained_log_files: u64,
    /// Bytes that may be kept in all by the rotating files.
    pub max_retained_log_bytes: u64,
    /// Upper bound of everything kept in the log directory.
    pub max_total_log_bytes: u64,
}

/// The settings handed to the logger.
pub struct LoggingConfig {
    /// The log directory (the same value the policy resolved).
    pub directory: String,
    /// Stem of the active file.
    pub file_stem: &'static str,
    /// Upper bound of one file.
    pub max_file_bytes: u64,
    /// Number of archived files kept.
    pub archived_files: usize,
    /// Number of files kept in all.
    pub retained_files: u64,
    /// Bytes kept in all.
    pub retained_bytes: u64,
}

/// Builds the logger settings from the policy values.
pub fn logging_config(log_dir: &str, policy: &LoggingPolicy) -> (r: LoggingConfig)
    ensures
        r.directory@ == log_dir@,
        r.file_stem@ == LOG_FILE_STEM@,
        r.max_file_bytes == policy.max_log_file_bytes,
        r.archived_files == policy.keep_archived_files,
        r.retained_files == policy.retained_log_files,
        r.retained_bytes == policy.max_retained_log_bytes,
{
    LoggingConfig {
        directory: log_dir.to_owned(),
        file_stem: LOG_FILE_STEM,
        max_file_bytes: policy.max_log_file_bytes,
        archived_files: policy.keep_archived_files as usize,
        retained_files: policy.retained_log_files,
        retained_bytes: policy.max_retained_log_bytes,
    }
}

/// Whether the settings are the policy's values and keep the retention invariant:
/// (archives + the active file) × the file limit, within the total limit.
pub open spec fn logging_matches_policy(c: LoggingConfig, p: LoggingPolicy) -> bool {
    &&& c.max_file_bytes == p.max_log_file_bytes
    &&& c.archived_files == p.keep_archived_files
    &&& c.retained_files == c.archived_files + 1
    &&& c.retained_bytes == c.max_file_bytes * c.retained_files
    &&& c.retained_bytes <= p.max_total_log_bytes
}

/// Why settings that break the policy are refused.
pub open spec fn logging_refusal_detail(c: LoggingConfig, p: LoggingPolicy) -> Seq<char> {
    "記録の保持方針が実効値と一致しない（1ファイル上限="@ + decimal(c.max_file_bytes as nat)
        + " B、アーカイブ="@ + decimal(c.archived_files as nat) + "、保持総数="@ + decimal(
        c.retained_files as nat,
    ) + "、保持合計="@ + decimal(c.retained_bytes as nat) + " B。方針: 合計上限="@ + decimal(
        p.max_total_log_bytes as nat,
    ) + " B / 保持総数="@ + decimal(p.retained_log_files as nat) + "）"@
}

/// Why a log directory that is not a directory is refused.
pub open spec fn log_directory_refusal_detail(directory: Seq<char>) -> Seq<char> {
    "記録の保存先 "@ + directory + " をディレクトリとして使えない"@
}

/// Confirms before the runtime is built that the logger receives the policy's values and
/// that the log directory is a directory (`directory_is_dir` is what the file system says).
pub fn confirm_logging_values(
    config: &LoggingConfig,
    policy: &LoggingPolicy,
    directory_is_dir: bool,
) -> (r: Result<(), StartupError>)
    ensures
        r is Ok <==> logging_matches_policy(*config, *policy) && directory_is_dir,
        r matches Err(e) ==> e@.0 == PREREQUISITE_DIAGNOSTICS@,
        r matches Err(e) ==> e@.1 == (if logging_matches_policy(*config, *policy) {
            log_directory_refusal_detail(config.directory@)
        } else {
            logging_refusal_detail(*config, *policy)
        }),
{
    let archived = config.archived_files as u64;
    let a = config.max_file_bytes as u128;
    let b = config.retained_files as u128;
    assert(a * b <= 0xffff_ffff_ffff_ffffu128 * 0xffff_ffff_ffff_ffffu128) by (nonlinear_arith)
        requires
            a <= 0xffff_ffff_ffff_ffffu128,
            b <= 0xffff_ffff_ffff_ffffu128,
    ;
    let matches = config.max_file_bytes == policy.max_log_file_bytes && archived
        == policy.keep_archived_files as u64 && archived < u64::MAX && config.retained_files
        == archived + 1 && config.retained_bytes as u128 == (config.max_file_bytes as u128)
        * (config.retained_files as u128) && config.retained_bytes <= policy.max_total_log_bytes;
    if !matches {
        let mut detail = String::new();
        detail.append("記録の保持方針が実効値と一致しない（1ファイル上限=");
        push_decimal(&mut detail, config.max_file_bytes);
        detail.append(" B、アーカイブ=");
        push_decimal(&mut detail, archived);
        detail.append("、保持総数=");
        push_decimal(&mut detail, config.retained_files);
        detail.append("、保持合計=");
        push_decimal(&mut detail, config.retained_bytes);
        detail.append(" B。方針: 合計上限=");
        push_decimal(&mut detail, policy.max_total_log_bytes);
        detail.append(" B / 保持総数=");
        push_decimal(&mut detail, policy.retained_log_files);
        detail.append("）");
        return Err(StartupError::new(PREREQUISITE_DIAGNOSTICS, detail));
    }
    if !directory_is_dir {
        let mut detail = String::new();
        detail.append("記録の保存先 ");
        detail.append(config.directory.as_str());
        detail.append(" をディレクトリとして使えない");
        return Err(StartupError::new(PREREQUISITE_DIAGNOSTICS, detail));
    }
    Ok(())
}

/// What the file system says about the active log file after the logger started.
pub enum ActiveLogFile {
    /// It is a regular file.
    RegularFile,
    /// It exists but is not a regular file.
    NotAFile,
    /// It could not be read; the error text.
    Unreadable(String),
}

/// The name of the active log file inside the log directory.
pub fn active_file_name(config: &LoggingConfig) -> (r: String)
    ensures
        r@ == config.file_stem@ + ".log"@,
{
    let mut name = config.file_stem.to_owned();
    name.append(".log");
    name
}

/// Confirms after the runtime was built that the logger wrote its active file
/// (`shown` is how the file's path is shown).
pub fn confirm_effective_logging(shown: &str, observed: &ActiveLogFile) -> (r: Result<(), StartupError>)
    ensures
        r is Ok <==> observed is RegularFile,
        r matches Err(e) ==> e@ == (PREREQUISITE_DIAGNOSTICS@, match observed {
            ActiveLogFile::Unreadable(error) => "記録機構が "@ + shown@ + " へ記録を書けなかった: "@
                + error@,
            _ => "記録中のファイル "@ + shown@ + " が通常ファイルでない"@,
        }),
{
    match observed {
        ActiveLogFile::RegularFile => Ok(()),
        ActiveLogFile::NotAFile => {
            let mut detail = String::new();
            detail.append("記録中のファイル ");
            detail.append(shown);
            detail.append(" が通常ファイルでない");
            Err(StartupError::new(PREREQUISITE_DIAGNOSTICS, detail))
        },
        ActiveLogFile::Unreadable(error) => {
            let mut detail = String::new();
            detail.append("記録機構が ");
            detail.append(shown);
            detail.append(" へ記録を書けなかった: ");
            detail.append(error.as_str());
            Err(StartupError::new(PREREQUISITE_DIAGNOSTICS, detail))
        },
    }
}

/// The seam that will apply the rendering workaround before the runtime is built; it does
/// nothing yet and has no effect.
pub fn reserve_render_fallback_point() {
}

/// The absolute paths of this application's helper executables that the orphan sweep
/// also matches; none are known yet, so the sweep matches by name only.
pub fn expected_sidecar_executables() -> (r: Vec<String>)
    ensures
        r@.len() == 0,
{
    Vec::new()
}

} // verus!
