//! The session core's values as this library reads them.
use vstd::prelude::*;

verus! {

/// Where a document came from.
#[derive(Debug, Clone, PartialEq, Eq)]
pub enum Origin {
    /// Created in the application; it has no file yet.
    New,
    /// Read from a file at this location.
    File(String),
}

/// The view of an origin.
pub enum OriginView {
    /// Created in the application.
    New,
    /// Read from this location.
    File(Seq<char>),
}

impl View for Origin {
    type V = OriginView;

    open spec fn view(&self) -> OriginView {
        match self {
            Origin::New => OriginView::New,
            Origin::File(path) => OriginView::File(path@),
        }
    }
}

} // verus!

verus! {

/// A summary of one sheet: identifier (as text), display name, column and row counts.
#[derive(Debug, Clone, PartialEq, Eq)]
pub struct SheetSummary {
    /// The sheet's identifier, as text.
    pub id: String,
    /// The sheet's display name.
    pub name: String,
    /// The number of columns.
    pub columns: usize,
    /// The number of rows.
    pub rows: usize,
}

/// The view of a sheet summary.
pub open spec fn sheet_view(s: SheetSummary) -> (Seq<char>, Seq<char>, usize, usize) {
    (s.id@, s.name@, s.columns, s.rows)
}

/// The views of sheet summaries.
pub open spec fn sheets_view(s: Seq<SheetSummary>) -> Seq<(Seq<char>, Seq<char>, usize, usize)> {
    s.map_values(|x: SheetSummary| sheet_view(x))
}

/// A snapshot of one window's session.
#[derive(Debug, Clone, PartialEq, Eq)]
pub enum SessionState {
    /// The window holds no document.
    Absent,
    /// The window holds a document.
    Open {
        /// The file name (empty for a document that has no file yet).
        name: String,
        /// Where the document came from.
        origin: Origin,
        /// Whether there are changes that were not saved.
        unsaved: bool,
        /// The sheets.
        sheets: Vec<SheetSummary>,
    },
    /// The document could not be read; the core's technical diagnosis.
    Unavailable {
        /// The diagnosis.
        reason: String,
    },
}

/// The view of a session snapshot.
pub enum StateView {
    /// No document.
    Absent,
    /// A document.
    Open {
        /// The file name.
        name: Seq<char>,
        /// The origin.
        origin: OriginView,
        /// Unsaved changes.
        unsaved: bool,
        /// The sheets.
        sheets: Seq<(Seq<char>, Seq<char>, usize, usize)>,
    },
    /// The document could not be read.
    Unavailable {
        /// The diagnosis.
        reason: Seq<char>,
    },
}

impl View for SessionState {
    type V = StateView;

    open spec fn view(&self) -> StateView {
        match self {
            SessionState::Absent => StateView::Absent,
            SessionState::Open { name, origin, unsaved, sheets } => StateView::Open {
                name: name@,
                origin: origin@,
                unsaved: *unsaved,
                sheets: sheets_view(sheets@),
            },
            SessionState::Unavailable { reason } => StateView::Unavailable { reason: reason@ },
        }
    }
}

/// Why a session operation failed.
#[derive(Debug, Clone, PartialEq, Eq)]
pub enum SessionError {
    /// The document could not be read; the format's diagnosis.
    Read {
        /// The diagnosis.
        source: String,
    },
    /// Another operation on the document is in progress.
    Busy,
    /// The document has unsaved changes.
    UnsavedChanges,
    /// The window holds no document.
    NoDocument,
}

/// The view of a session error.
pub enum ErrorView {
    /// Could not be read, with the diagnosis.
    Read(Seq<char>),
    /// Busy.
    Busy,
    /// Unsaved changes.
    UnsavedChanges,
    /// No document.
    NoDocument,
}

impl View for SessionError {
    type V = ErrorView;

    open spec fn view(&self) -> ErrorView {
        match self {
            SessionError::Read { source } => ErrorView::Read(source@),
            SessionError::Busy => ErrorView::Busy,
            SessionError::UnsavedChanges => ErrorView::UnsavedChanges,
            SessionError::NoDocument => ErrorView::NoDocument,
        }
    }
}

impl SessionError {
    /// A copy of the error.
    pub fn duplicate(&self) -> (r: Self)
        ensures
            r@ == self@,
    {
        match self {
            SessionError::Read { source } => SessionError::Read { source: source.clone() },
            SessionError::Busy => SessionError::Busy,
            SessionError::UnsavedChanges => SessionError::UnsavedChanges,
            SessionError::NoDocument => SessionError::NoDocument,
        }
    }
}

/// What the core's save did.
#[derive(Debug, Clone, PartialEq, Eq)]
pub enum SaveReport {
    /// Written; unsaved changes are gone and the origin is the file.
    Saved,
    /// Not written; the write's diagnosis. Unsaved changes stay.
    Failed {
        /// The diagnosis.
        source: String,
    },
    /// Cancelled; nothing was written.
    Cancelled,
    /// The document has no file yet: a location must be chosen.
    NeedsLocation,
}

/// Whether a window may close, as the core answers it.
#[derive(Debug, Clone, Copy, PartialEq, Eq, Structural)]
pub enum CloseAnswer {
    /// It may close.
    Allow,
    /// It must not close (unsaved changes).
    Deny,
}

/// Whether two origins are the same.
fn same_origin(a: &Origin, b: &Origin) -> (r: bool)
    ensures
        r == (a@ == b@),
{
    match (a, b) {
        (Origin::New, Origin::New) => true,
        (Origin::File(x), Origin::File(y)) => crate::text::str_equal(x.as_str(), y.as_str()),
        _ => false,
    }
}

/// Whether two lists of sheet summaries are the same.
fn same_sheets(a: &Vec<SheetSummary>, b: &Vec<SheetSummary>) -> (r: bool)
    ensures
        r == (sheets_view(a@) == sheets_view(b@)),
{
    if a.len() != b.len() {
        assert(sheets_view(a@).len() != sheets_view(b@).len());
        return false;
    }
    let mut i: usize = 0;
    while i < a.len()
        invariant
            i <= a@.len(),
            a@.len() == b@.len(),
            forall|k: int| 0 <= k < i ==> sheets_view(a@)[k] == sheets_view(b@)[k],
        decreases a@.len() - i,
    {
        let x = &a[i];
        let y = &b[i];
        if !(crate::text::str_equal(x.id.as_str(), y.id.as_str()) && crate::text::str_equal(
            x.name.as_str(),
            y.name.as_str(),
        ) && x.columns == y.columns && x.rows == y.rows) {
            assert(sheets_view(a@)[i as int] != sheets_view(b@)[i as int]);
            return false;
        }
        i = i + 1;
    }
    assert(sheets_view(a@) =~= sheets_view(b@));
    true
}

/// Whether two snapshots are the same.
pub fn same_state(a: &SessionState, b: &SessionState) -> (r: bool)
    ensures
        r == (a@ == b@),
{
    match (a, b) {
        (SessionState::Absent, SessionState::Absent) => true,
        (
            SessionState::Open { name: n1, origin: o1, unsaved: u1, sheets: s1 },
            SessionState::Open { name: n2, origin: o2, unsaved: u2, sheets: s2 },
        ) => crate::text::str_equal(n1.as_str(), n2.as_str()) && same_origin(o1, o2) && *u1 == *u2
            && same_sheets(s1, s2),
        (SessionState::Unavailable { reason: x }, SessionState::Unavailable { reason: y }) => {
            crate::text::str_equal(x.as_str(), y.as_str())
        },
        _ => false,
    }
}

} // verus!
