//! The session's commands as decisions: the boundary's view of the core state (without the
//! location), the reasons told to the user, the one rule that decides whether a change is
//! announced, and the body of each command around the core's operation.
use vstd::prelude::*;
use crate::ports::WindowLabel;
use crate::session::state::{
    CloseAnswer, ErrorView, Origin, OriginView, SaveReport, SessionError, SessionState,
    SheetSummary, StateView, same_state, sheet_view,
};

verus! {

// ---------------------------------------------------------------------------
// Boundary values
// ---------------------------------------------------------------------------

/// The kind of origin shown at the boundary: the location never crosses it.
#[derive(Debug, Clone, Copy, PartialEq, Eq, Structural)]
pub enum DocumentOrigin {
    /// Created in the application.
    New,
    /// Read from a file.
    File,
}

/// One sheet at the boundary: identifier as text, counts as `u32`.
#[derive(Debug, Clone, PartialEq, Eq)]
pub struct DocumentSheet {
    /// The identifier.
    pub id: String,
    /// The display name.
    pub name: String,
    /// The number of columns.
    pub columns: u32,
    /// The number of rows.
    pub rows: u32,
}

/// A held document at the boundary.
#[derive(Debug, Clone, PartialEq, Eq)]
pub struct DocumentSummary {
    /// The file name (empty when there is no file).
    pub name: String,
    /// The kind of origin.
    pub origin: DocumentOrigin,
    /// Whether there are unsaved changes.
    pub unsaved: bool,
    /// The sheets.
    pub sheets: Vec<DocumentSheet>,
}

/// The state of a window's session at the boundary.
#[derive(Debug, Clone, PartialEq, Eq)]
pub enum DocumentSessionStatus {
    /// No document.
    Absent,
    /// A document.
    Open(DocumentSummary),
    /// The document could not be read, with the reason for the user.
    Unavailable {
        /// The reason.
        reason: String,
    },
}

/// The outcome of a save.
#[derive(Debug, Clone, PartialEq, Eq)]
pub enum DocumentSaveOutcome {
    /// Saved.
    Saved,
    /// The user cancelled; nothing was written.
    Cancelled,
    /// Not written, with the reason.
    Failed {
        /// The reason.
        reason: String,
    },
}

/// The outcome of creating a new document.
#[derive(Debug, Clone, PartialEq, Eq)]
pub enum DocumentNewOutcome {
    /// A new document was prepared.
    Created,
    /// Refused, with the reason (not a failure).
    Refused {
        /// The reason.
        reason: String,
    },
}

/// The location chosen for saving a document that has no file.
#[derive(Debug, Clone, PartialEq, Eq)]
pub enum SaveLocation {
    /// The user chose this location.
    Chosen(String),
    /// The user cancelled.
    Cancelled,
    /// The choice could not be offered; the reason.
    Unavailable(String),
}

/// The view of a boundary sheet.
pub open spec fn document_sheet_view(s: DocumentSheet) -> (Seq<char>, Seq<char>, u32, u32) {
    (s.id@, s.name@, s.columns, s.rows)
}

/// The view of a boundary state.
pub enum StatusView {
    /// No document.
    Absent,
    /// A document.
    Open {
        /// The file name.
        name: Seq<char>,
        /// The kind of origin.
        origin: DocumentOrigin,
        /// Unsaved changes.
        unsaved: bool,
        /// The sheets.
        sheets: Seq<(Seq<char>, Seq<char>, u32, u32)>,
    },
    /// Could not be read.
    Unavailable {
        /// The reason.
        reason: Seq<char>,
    },
}

impl View for DocumentSessionStatus {
    type V = StatusView;

    open spec fn view(&self) -> StatusView {
        match self {
            DocumentSessionStatus::Absent => StatusView::Absent,
            DocumentSessionStatus::Open(s) => StatusView::Open {
                name: s.name@,
                origin: s.origin,
                unsaved: s.unsaved,
                sheets: s.sheets@.map_values(|x: DocumentSheet| document_sheet_view(x)),
            },
            DocumentSessionStatus::Unavailable { reason } => StatusView::Unavailable {
                reason: reason@,
            },
        }
    }
}

/// The view of a save outcome: `None` for saved, else whether cancelled and the reason.
pub enum SaveOutcomeView {
    /// Saved.
    Saved,
    /// Cancelled.
    Cancelled,
    /// Failed with the reason.
    Failed(Seq<char>),
}

impl View for DocumentSaveOutcome {
    type V = SaveOutcomeView;

    open spec fn view(&self) -> SaveOutcomeView {
        match self {
            DocumentSaveOutcome::Saved => SaveOutcomeView::Saved,
            DocumentSaveOutcome::Cancelled => SaveOutcomeView::Cancelled,
            DocumentSaveOutcome::Failed { reason } => SaveOutcomeView::Failed(reason@),
        }
    }
}

impl View for DocumentNewOutcome {
    /// `None` when created, else the reason of the refusal.
    type V = Option<Seq<char>>;

    open spec fn view(&self) -> Option<Seq<char>> {
        match self {
            DocumentNewOutcome::Created => None,
            DocumentNewOutcome::Refused { reason } => Some(reason@),
        }
    }
}

// ---------------------------------------------------------------------------
// From the core's values to the boundary's (the location is dropped)
// ---------------------------------------------------------------------------

/// A count at the boundary: saturated at `u32::MAX`, never truncated.
pub open spec fn saturated_u32(n: nat) -> u32 {
    if n <= u32::MAX {
        n as u32
    } else {
        u32::MAX
    }
}

/// The kind of an origin (its location is dropped).
pub open spec fn origin_kind(o: OriginView) -> DocumentOrigin {
    match o {
        OriginView::New => DocumentOrigin::New,
        OriginView::File(_) => DocumentOrigin::File,
    }
}

/// A sheet at the boundary.
pub open spec fn boundary_sheet(s: (Seq<char>, Seq<char>, usize, usize)) -> (
    Seq<char>,
    Seq<char>,
    u32,
    u32,
) {
    (s.0, s.1, saturated_u32(s.2 as nat), saturated_u32(s.3 as nat))
}

/// Why the document of `label` could not be read.
pub open spec fn unavailable_text(label: Seq<char>, detail: Seq<char>) -> Seq<char> {
    label + " のドキュメントを読み込めなかった: "@ + detail
}

/// Why the document of `label` could not be written.
pub open spec fn write_failure_text(label: Seq<char>, detail: Seq<char>) -> Seq<char> {
    label + " のドキュメントを書き出せなかった: "@ + detail
}

/// The boundary state of a core snapshot.
pub open spec fn boundary_status(state: StateView, label: Seq<char>) -> StatusView {
    match state {
        StateView::Absent => StatusView::Absent,
        StateView::Open { name, origin, unsaved, sheets } => StatusView::Open {
            name,
            origin: origin_kind(origin),
            unsaved,
            sheets: sheets.map_values(|s: (Seq<char>, Seq<char>, usize, usize)| boundary_sheet(s)),
        },
        StateView::Unavailable { reason } => StatusView::Unavailable {
            reason: unavailable_text(label, reason),
        },
    }
}

/// The kind of an origin (its location is dropped).
pub fn origin_to_boundary(origin: &Origin) -> (r: DocumentOrigin)
    ensures
        r == origin_kind(origin@),
{
    match origin {
        Origin::New => DocumentOrigin::New,
        Origin::File(_) => DocumentOrigin::File,
    }
}

/// A count at the boundary: saturated, never truncated.
pub fn count_to_u32(value: usize) -> (r: u32)
    ensures
        r == saturated_u32(value as nat),
{
    if value <= 4294967295usize {
        value as u32
    } else {
        4294967295u32
    }
}

/// A sheet at the boundary: identifier as text, counts as `u32`.
pub fn sheet_to_boundary(sheet: &SheetSummary) -> (r: DocumentSheet)
    ensures
        document_sheet_view(r) == boundary_sheet(sheet_view(*sheet)),
{
    DocumentSheet {
        id: sheet.id.clone(),
        name: sheet.name.clone(),
        columns: count_to_u32(sheet.columns),
        rows: count_to_u32(sheet.rows),
    }
}

/// Why the document of `label` could not be read (the core's diagnosis as the detail).
pub fn unavailable_reason(label: &WindowLabel, detail: &str) -> (r: String)
    ensures
        r@ == unavailable_text(label@, detail@),
{
    let mut out = label.as_str().to_owned();
    out.append(" のドキュメントを読み込めなかった: ");
    out.append(detail);
    out
}

/// Why the document of `label` could not be written.
pub fn write_failure_reason(label: &WindowLabel, detail: &str) -> (r: String)
    ensures
        r@ == write_failure_text(label@, detail@),
{
    let mut out = label.as_str().to_owned();
    out.append(" のドキュメントを書き出せなかった: ");
    out.append(detail);
    out
}

/// The boundary state of a core snapshot; the location is dropped, and a remembered read
/// failure is worded as on the first failure.
pub fn to_boundary(state: &SessionState, label: &WindowLabel) -> (r: DocumentSessionStatus)
    ensures
        r@ == boundary_status(state@, label@),
{
    match state {
        SessionState::Absent => DocumentSessionStatus::Absent,
        SessionState::Open { name, origin, unsaved, sheets } => {
            let mut out: Vec<DocumentSheet> = Vec::new();
            let mut i: usize = 0;
            while i < sheets.len()
                invariant
                    i <= sheets@.len(),
                    out@.len() == i,
                    forall|k: int|
                        0 <= k < i ==> document_sheet_view(#[trigger] out@[k]) == boundary_sheet(
                            sheet_view(sheets@[k]),
                        ),
                decreases sheets@.len() - i,
            {
                out.push(sheet_to_boundary(&sheets[i]));
                i = i + 1;
            }
            let r = DocumentSessionStatus::Open(
                DocumentSummary {
                    name: name.clone(),
                    origin: origin_to_boundary(origin),
                    unsaved: *unsaved,
                    sheets: out,
                },
            );
            proof {
                assert(name@ == state@->name);
                assert(out@.map_values(|x: DocumentSheet| document_sheet_view(x)) =~= state@->sheets.map_values(
                    |s: (Seq<char>, Seq<char>, usize, usize)| boundary_sheet(s),
                ));
            }
            r
        },
        SessionState::Unavailable { reason } => DocumentSessionStatus::Unavailable {
            reason: unavailable_reason(label, reason.as_str()),
        },
    }
}

// ---------------------------------------------------------------------------
// The one rule for announcing a change
// ---------------------------------------------------------------------------

/// Whether a change from `before` to `after` is announced: the state changed, and not to
/// "no document" (the window of such a change is already gone).
pub open spec fn notifies(before: StateView, after: StateView) -> bool {
    before != after && !(after is Absent)
}

/// Whether to announce the change from `before` to `after`.
pub fn should_notify(before: &SessionState, after: &SessionState) -> (r: bool)
    ensures
        r == notifies(before@, after@),
{
    !same_state(before, after) && !matches!(after, SessionState::Absent)
}

} // verus!

verus! {

// ---------------------------------------------------------------------------
// Reasons told to the user
// ---------------------------------------------------------------------------

/// The reason for a session error: one wording per error, since each asks something
/// different of the user.
pub open spec fn failure_text(label: Seq<char>, error: ErrorView) -> Seq<char> {
    match error {
        ErrorView::Read(source) => unavailable_text(label, source),
        ErrorView::Busy => label + " のドキュメントで別の操作が進行中である"@,
        ErrorView::UnsavedChanges => label + " のドキュメントに未保存の変更がある"@,
        ErrorView::NoDocument => label + " はドキュメントを保持していない"@,
    }
}

/// The reason for refusing to prepare a new document.
pub open spec fn refusal_text(label: Seq<char>, error: ErrorView) -> Seq<char> {
    match error {
        ErrorView::UnsavedChanges => label
            + " のドキュメントに未保存の変更があるため、新しいドキュメントを用意できない"@,
        ErrorView::Busy => label + " のドキュメントで別の操作が進行中である"@,
        ErrorView::NoDocument => label + " のウィンドウを特定できなかった"@,
        ErrorView::Read(source) => unavailable_text(label, source),
    }
}

/// The boundary state answered for a failed load: "no document" when no session could be
/// prepared, else "could not be read" with the reason.
pub open spec fn failure_status_of(label: Seq<char>, error: ErrorView) -> StatusView {
    match error {
        ErrorView::NoDocument => StatusView::Absent,
        other => StatusView::Unavailable { reason: failure_text(label, other) },
    }
}

/// `label` followed by `tail`.
fn labelled(label: &WindowLabel, tail: &str) -> (r: String)
    ensures
        r@ == label@ + tail@,
{
    let mut out = label.as_str().to_owned();
    out.append(tail);
    out
}

/// The reason for a session error.
pub fn failure_reason(label: &WindowLabel, error: &SessionError) -> (r: String)
    ensures
        r@ == failure_text(label@, error@),
{
    match error {
        SessionError::Read { source } => unavailable_reason(label, source.as_str()),
        SessionError::Busy => labelled(label, " のドキュメントで別の操作が進行中である"),
        SessionError::UnsavedChanges => labelled(label, " のドキュメントに未保存の変更がある"),
        SessionError::NoDocument => labelled(label, " はドキュメントを保持していない"),
    }
}

/// The boundary state answered for a failed load.
pub fn failure_status(label: &WindowLabel, error: &SessionError) -> (r: DocumentSessionStatus)
    ensures
        r@ == failure_status_of(label@, error@),
{
    match error {
        SessionError::NoDocument => DocumentSessionStatus::Absent,
        other => DocumentSessionStatus::Unavailable { reason: failure_reason(label, other) },
    }
}

/// The reason for refusing to prepare a new document: why it cannot be made.
pub fn refusal_reason(label: &WindowLabel, error: &SessionError) -> (r: String)
    ensures
        r@ == refusal_text(label@, error@),
{
    match error {
        SessionError::UnsavedChanges => labelled(
            label,
            " のドキュメントに未保存の変更があるため、新しいドキュメントを用意できない",
        ),
        SessionError::Busy => labelled(label, " のドキュメントで別の操作が進行中である"),
        SessionError::NoDocument => labelled(label, " のウィンドウを特定できなかった"),
        SessionError::Read { source } => unavailable_reason(label, source.as_str()),
    }
}

// ---------------------------------------------------------------------------
// The bodies of the commands, around the core's operation
// ---------------------------------------------------------------------------

/// The answer to a state query: the state after resolving (or the reason of the failed
/// load), and whether the change is announced.
pub open spec fn state_answer(
    label: Seq<char>,
    before: StateView,
    outcome: Result<(), ErrorView>,
    after: StateView,
) -> (StatusView, bool) {
    (
        match outcome {
            Ok(()) => boundary_status(after, label),
            Err(e) => failure_status_of(label, e),
        },
        notifies(before, after),
    )
}

/// The view of an operation's outcome.
pub open spec fn outcome_view(o: Result<(), SessionError>) -> Result<(), ErrorView> {
    match o {
        Ok(()) => Ok(()),
        Err(e) => Err(e@),
    }
}

/// The body of the state query: `before` is the snapshot before resolving the window's
/// document (the first access loads it), `outcome` what resolving did, `after` the snapshot
/// after it.
pub fn answer_state(
    label: &WindowLabel,
    before: &SessionState,
    outcome: &Result<(), SessionError>,
    after: &SessionState,
) -> (r: (DocumentSessionStatus, bool))
    ensures
        (r.0@, r.1) == state_answer(label@, before@, outcome_view(*outcome), after@),
{
    let notify = should_notify(before, after);
    let status = match outcome {
        Ok(()) => to_boundary(after, label),
        Err(error) => failure_status(label, error),
    };
    (status, notify)
}

/// The answer to a request for a new document: created (announced when the state
/// changed), or refused with the reason and not announced.
pub open spec fn new_answer(
    label: Seq<char>,
    before: StateView,
    outcome: Result<(), ErrorView>,
    after: StateView,
) -> (Option<Seq<char>>, bool) {
    match outcome {
        Ok(()) => (None, notifies(before, after)),
        Err(e) => (Some(refusal_text(label, e)), false),
    }
}

/// The body of "new": `before`/`after` are the snapshots around the core's creation and
/// `outcome` what it did.
pub fn answer_new(
    label: &WindowLabel,
    before: &SessionState,
    outcome: &Result<(), SessionError>,
    after: &SessionState,
) -> (r: (DocumentNewOutcome, bool))
    ensures
        (r.0@, r.1) == new_answer(label@, before@, outcome_view(*outcome), after@),
{
    let notify = should_notify(before, after);
    match outcome {
        Ok(()) => (DocumentNewOutcome::Created, notify),
        Err(error) => (DocumentNewOutcome::Refused { reason: refusal_reason(label, error) }, false),
    }
}

/// The body of "discard": whether to announce (only when the mark actually dropped) and
/// the failure to record.
pub fn answer_discard(
    before: &SessionState,
    outcome: &Result<(), SessionError>,
    after: &SessionState,
) -> (r: (bool, Option<SessionError>))
    ensures
        match outcome {
            Ok(()) => r.0 == notifies(before@, after@) && r.1 is None,
            Err(e) => !r.0 && (r.1 matches Some(x) && x@ == e@),
        },
{
    match outcome {
        Ok(()) => (should_notify(before, after), None),
        Err(error) => (false, Some(error.duplicate())),
    }
}

/// The boundary outcome of the core's save; `None` when a location must be chosen.
pub open spec fn save_outcome_of(label: Seq<char>, report: SaveReport) -> Option<SaveOutcomeView> {
    match report {
        SaveReport::Saved => Some(SaveOutcomeView::Saved),
        SaveReport::Failed { source } => Some(SaveOutcomeView::Failed(write_failure_text(label, source@))),
        SaveReport::Cancelled => Some(SaveOutcomeView::Cancelled),
        SaveReport::NeedsLocation => None,
    }
}

/// The boundary outcome of the core's save, for the three reports that need no location.
pub fn save_outcome(label: &WindowLabel, report: &SaveReport) -> (r: Option<DocumentSaveOutcome>)
    ensures
        match r {
            Some(o) => save_outcome_of(label@, *report) == Some(o@),
            None => save_outcome_of(label@, *report) is None,
        },
{
    match report {
        SaveReport::Saved => Some(DocumentSaveOutcome::Saved),
        SaveReport::Failed { source } => Some(
            DocumentSaveOutcome::Failed { reason: write_failure_reason(label, source.as_str()) },
        ),
        SaveReport::Cancelled => Some(DocumentSaveOutcome::Cancelled),
        SaveReport::NeedsLocation => None,
    }
}

/// Whether saving asks for a location: only a held document that has no file yet.
pub open spec fn asks_location(before: StateView) -> bool {
    before matches StateView::Open { origin: OriginView::New, .. }
}

/// The first step of "save": whether the user must choose a location (a held document
/// without a file). A window without a document, or a document with a file, is saved by
/// the core directly.
pub fn save_needs_location(before: &SessionState) -> (r: bool)
    ensures
        r == asks_location(before@),
{
    match before {
        SessionState::Open { origin: Origin::New, .. } => true,
        _ => false,
    }
}

/// The file name to suggest for saving: the origin's file name when there is one.
pub fn origin_file_name(state: &SessionState) -> (r: Option<&str>)
    ensures
        match state@ {
            StateView::Open { name, origin: OriginView::File(_), .. } => r matches Some(n) && n@ == name,
            _ => r is None,
        },
{
    match state {
        SessionState::Open { name, origin: Origin::File(_), .. } => Some(name.as_str()),
        _ => None,
    }
}

/// The name offered for saving when the document gives none.
pub const DEFAULT_SAVE_NAME: &'static str = "無題";

/// The name offered for saving: the document's file name when there is a non-empty one,
/// else the default name.
pub open spec fn suggested_text(origin_file_name: Option<Seq<char>>) -> Seq<char> {
    match origin_file_name {
        Some(name) => if name.len() > 0 {
            name
        } else {
            DEFAULT_SAVE_NAME@
        },
        None => DEFAULT_SAVE_NAME@,
    }
}

/// The name offered for saving, from the origin's file name (none and empty alike give the
/// default name).
pub fn suggested_save_name(origin_file_name: Option<&str>) -> (r: String)
    ensures
        r@ == suggested_text(
            match origin_file_name {
                Some(name) => Some(name@),
                None => None,
            },
        ),
{
    match origin_file_name {
        Some(name) => if name.unicode_len() > 0 {
            name.to_owned()
        } else {
            DEFAULT_SAVE_NAME.to_owned()
        },
        None => DEFAULT_SAVE_NAME.to_owned(),
    }
}

/// The name offered when a location is asked for the window's document: its file name, or
/// the default name for a document that has no file.
pub fn suggested_name(state: &SessionState) -> (r: String)
    ensures
        r@ == suggested_text(
            match state@ {
                StateView::Open { name, origin: OriginView::File(_), .. } => Some(name),
                _ => None,
            },
        ),
{
    suggested_save_name(origin_file_name(state))
}

/// The second step of "save" when a location was asked for: the location to save to, or
/// the final answer (cancelled, or the choice could not be offered), which changes nothing.
pub fn location_decision(location: SaveLocation) -> (r: Result<String, (DocumentSaveOutcome, bool)>)
    ensures
        match location {
            SaveLocation::Chosen(path) => r matches Ok(p) && p@ == path@,
            SaveLocation::Cancelled => r matches Err(answer) && answer.0@ == SaveOutcomeView::Cancelled && !answer.1,
            SaveLocation::Unavailable(message) => r matches Err(answer) && answer.0@
                == SaveOutcomeView::Failed(message@) && !answer.1,
        },
{
    match location {
        SaveLocation::Cancelled => Err((DocumentSaveOutcome::Cancelled, false)),
        SaveLocation::Unavailable(message) => Err(
            (DocumentSaveOutcome::Failed { reason: message }, false),
        ),
        SaveLocation::Chosen(path) => Ok(path),
    }
}

/// The reason given when a write to a chosen location still asks for a location.
pub open spec fn undecided_location_text(label: Seq<char>) -> Seq<char> {
    label + " の保存先を決められなかった"@
}

/// The view of the core's save result.
pub open spec fn report_view(r: Result<SaveReport, SessionError>) -> Result<SaveReport, ErrorView> {
    match r {
        Ok(report) => Ok(report),
        Err(e) => Err(e@),
    }
}

/// The answer to "save" once the core has saved (to the origin or to the chosen location).
pub open spec fn save_answer(
    label: Seq<char>,
    before: StateView,
    report: Result<SaveReport, ErrorView>,
    after: StateView,
) -> (SaveOutcomeView, bool) {
    match report {
        Err(e) => (SaveOutcomeView::Failed(failure_text(label, e)), false),
        Ok(r) => (
            match save_outcome_of(label, r) {
                Some(o) => o,
                None => SaveOutcomeView::Failed(undecided_location_text(label)),
            },
            notifies(before, after),
        ),
    }
}

/// The last step of "save": `before` is the snapshot before saving, `report` what the core's
/// save did, `after` the snapshot after it. A window without a document answers a failure;
/// a request for a location after a location was given is reported as a failure (the
/// location is never asked twice).
pub fn answer_save(
    label: &WindowLabel,
    before: &SessionState,
    report: &Result<SaveReport, SessionError>,
    after: &SessionState,
) -> (r: (DocumentSaveOutcome, bool))
    ensures
        (r.0@, r.1) == save_answer(label@, before@, report_view(*report), after@),
{
    let report = match report {
        Ok(report) => report,
        Err(error) => {
            return (DocumentSaveOutcome::Failed { reason: failure_reason(label, error) }, false);
        },
    };
    let outcome = match save_outcome(label, report) {
        Some(outcome) => outcome,
        None => DocumentSaveOutcome::Failed { reason: labelled(label, " の保存先を決められなかった") },
    };
    (outcome, should_notify(before, after))
}

// ---------------------------------------------------------------------------
// Words for the log (no name, no location)
// ---------------------------------------------------------------------------

/// The log word of a state.
pub fn describe_status(status: &DocumentSessionStatus) -> (r: &'static str)
    ensures
        r@ == (match status@ {
            StatusView::Absent => "保持していない"@,
            StatusView::Open { .. } => "保持している"@,
            StatusView::Unavailable { .. } => "読み込めなかった"@,
        }),
{
    match status {
        DocumentSessionStatus::Absent => "保持していない",
        DocumentSessionStatus::Open(_) => "保持している",
        DocumentSessionStatus::Unavailable { .. } => "読み込めなかった",
    }
}

/// The log word of a save outcome.
pub fn describe_save(outcome: &DocumentSaveOutcome) -> (r: &'static str)
    ensures
        r@ == (match outcome@ {
            SaveOutcomeView::Saved => "保存した"@,
            SaveOutcomeView::Cancelled => "取り消された"@,
            SaveOutcomeView::Failed(_) => "書き出せなかった"@,
        }),
{
    match outcome {
        DocumentSaveOutcome::Saved => "保存した",
        DocumentSaveOutcome::Cancelled => "取り消された",
        DocumentSaveOutcome::Failed { .. } => "書き出せなかった",
    }
}

/// The log word of a new-document outcome.
pub fn describe_new(outcome: &DocumentNewOutcome) -> (r: &'static str)
    ensures
        r@ == (match outcome@ {
            None => "用意した"@,
            Some(_) => "拒否した"@,
        }),
{
    match outcome {
        DocumentNewOutcome::Created => "用意した",
        DocumentNewOutcome::Refused { .. } => "拒否した",
    }
}

} // verus!

verus! {

/// An operation that leaves the snapshot as it was is never announced (reads do not
/// announce; only operations that change the state do).
pub proof fn lemma_unchanged_state_is_not_announced(before: StateView, after: StateView)
    requires
        before == after,
    ensures
        !notifies(before, after),
{
}

/// A change to "no document" is never announced: its window is already gone.
pub proof fn lemma_change_to_absent_is_not_announced(before: StateView)
    ensures
        !notifies(before, StateView::Absent),
{
}

/// The location of a document never reaches the boundary: two snapshots that differ only in
/// where the file is answer the same boundary state.
pub proof fn lemma_location_never_crosses_the_boundary(
    label: Seq<char>,
    name: Seq<char>,
    first: Seq<char>,
    second: Seq<char>,
    unsaved: bool,
    sheets: Seq<(Seq<char>, Seq<char>, usize, usize)>,
)
    ensures
        boundary_status(
            StateView::Open { name, origin: OriginView::File(first), unsaved, sheets },
            label,
        ) == boundary_status(
            StateView::Open { name, origin: OriginView::File(second), unsaved, sheets },
            label,
        ),
{
}

/// A read failure is worded the same when it happens and when it is asked about again
/// later (the remembered diagnosis gives the same reason).
pub proof fn lemma_remembered_failure_keeps_its_wording(label: Seq<char>, diagnosis: Seq<char>)
    ensures
        boundary_status(StateView::Unavailable { reason: diagnosis }, label) == failure_status_of(
            label,
            ErrorView::Read(diagnosis),
        ),
{
}

/// What "save" answers, whatever the session core did: the location is asked for exactly
/// when the document has no file, and then the default name is offered; a cancelled or
/// unavailable choice is answered without a notice; after the core's save, the notice is
/// given exactly when the save was carried out and the snapshot changed to one that still
/// holds a document, so a save that left the state as it was is never announced.
pub proof fn lemma_save_answers(
    label: Seq<char>,
    before: StateView,
    report: Result<SaveReport, ErrorView>,
    after: StateView,
)
    ensures
        asks_location(before) <==> (before matches StateView::Open { origin: OriginView::New, .. }),
        asks_location(before) ==> suggested_text(
            match before {
                StateView::Open { name, origin: OriginView::File(_), .. } => Some(name),
                _ => None,
            },
        ) == DEFAULT_SAVE_NAME@,
        save_answer(label, before, report, after).1 == (report is Ok && notifies(before, after)),
        before == after ==> !save_answer(label, before, report, after).1,
{
}

/// A refused new document and a failed save are never announced.
pub proof fn lemma_refusals_are_not_announced(
    label: Seq<char>,
    before: StateView,
    error: ErrorView,
    after: StateView,
)
    ensures
        !new_answer(label, before, Err(error), after).1,
        !save_answer(label, before, Err(error), after).1,
{
}

} // verus!

verus! {

/// A sheet reaches the boundary with its identifier, its name, its column count as its
/// columns and its row count as its rows (a count beyond `u32::MAX` shows `u32::MAX`).
pub proof fn lemma_boundary_sheet_keeps_each_count(id: Seq<char>, name: Seq<char>, columns: usize, rows: usize)
    ensures
        boundary_sheet((id, name, columns, rows)).0 == id,
        boundary_sheet((id, name, columns, rows)).1 == name,
        columns <= u32::MAX ==> boundary_sheet((id, name, columns, rows)).2 == columns,
        rows <= u32::MAX ==> boundary_sheet((id, name, columns, rows)).3 == rows,
        columns > u32::MAX ==> boundary_sheet((id, name, columns, rows)).2 == u32::MAX,
        rows > u32::MAX ==> boundary_sheet((id, name, columns, rows)).3 == u32::MAX,
{
}

/// What the boundary shows of a snapshot: nothing held stays nothing held; a held document
/// keeps its name, its unsaved mark, the kind of its origin (new or from a file) and as many
/// sheets as it has; an unreadable one stays unreadable.
pub proof fn lemma_boundary_keeps_the_document(state: StateView, label: Seq<char>)
    ensures
        state is Absent <==> boundary_status(state, label) is Absent,
        state is Unavailable <==> boundary_status(state, label) is Unavailable,
        state matches StateView::Open { name, origin, unsaved, sheets } ==> boundary_status(state, label) matches StatusView::Open {
            name: shown_name,
            origin: shown_origin,
            unsaved: shown_unsaved,
            sheets: shown,
        } && shown_name == name && shown_unsaved == unsaved && shown.len() == sheets.len() && (origin is New
            <==> shown_origin is New) && (origin is File <==> shown_origin is File),
{
}

/// A held document reaches the boundary with its sheets in order, each with its own counts.
pub proof fn lemma_boundary_keeps_the_sheets(
    name: Seq<char>,
    origin: OriginView,
    unsaved: bool,
    sheets: Seq<(Seq<char>, Seq<char>, usize, usize)>,
    label: Seq<char>,
    k: int,
)
    requires
        0 <= k < sheets.len(),
        sheets[k].2 <= u32::MAX,
        sheets[k].3 <= u32::MAX,
    ensures
        boundary_status(StateView::Open { name, origin, unsaved, sheets }, label) matches StatusView::Open {
            sheets: shown,
            ..
        } && shown.len() == sheets.len() && shown[k].0 == sheets[k].0 && shown[k].1 == sheets[k].1 && shown[k].2
            == sheets[k].2 && shown[k].3 == sheets[k].3,
{
}

/// Every change of a window's snapshot is announced, whatever changed (its name, origin,
/// unsaved mark or any count of its sheets), unless the window no longer holds anything;
/// a snapshot that did not change is never announced.
pub proof fn lemma_every_change_is_announced(before: StateView, after: StateView)
    ensures
        before != after && !(after is Absent) ==> notifies(before, after),
        before == after ==> !notifies(before, after),
        after is Absent ==> !notifies(before, after),
        forall|name: Seq<char>, origin: OriginView, unsaved: bool, first: Seq<(Seq<char>, Seq<char>, usize, usize)>, second: Seq<(Seq<char>, Seq<char>, usize, usize)>|
            first != second ==> #[trigger] notifies(
                StateView::Open { name, origin, unsaved, sheets: first },
                StateView::Open { name, origin, unsaved, sheets: second },
            ),
{
}

} // verus!
