//! Applying a macro run's change set to the document: the checks that refuse a change set
//! before anything is written (sheet, rows, columns, widths), the rounds in which repeated
//! duplications are sent, and the one undo pair that a run leaves in the history.
use vstd::prelude::*;
use vstd::std_specs::hash::group_hash_axioms;
use std::collections::HashSet;
use crate::text::{decimal, push_decimal, str_equal};

verus! {

broadcast use group_hash_axioms;

/// One change of a run, as the checks read it (in application order).
#[derive(Debug, Clone, PartialEq, Eq)]
pub enum StagedChange {
    /// Rows appended to a sheet; the number of values of each row.
    Insert {
        /// The sheet the change names.
        sheet: String,
        /// How many values each appended row has.
        widths: Vec<usize>,
    },
    /// Rows duplicated: (row key, row identifier as text) of each.
    Duplicate {
        /// The sheet the change names.
        sheet: String,
        /// The rows.
        rows: Vec<(u64, String)>,
    },
    /// One cell written (already resolved to the last write of the cell).
    SetCells {
        /// The sheet the change names.
        sheet: String,
        /// The row's key.
        row: u64,
        /// The row's identifier as text.
        row_name: String,
        /// The column (from zero).
        column: usize,
    },
    /// Rows removed: (row key, row identifier as text) of each.
    Remove {
        /// The sheet the change names.
        sheet: String,
        /// The rows.
        rows: Vec<(u64, String)>,
    },
}

/// The view of a change.
pub enum ChangeView {
    /// Appended rows.
    Insert(Seq<char>, Seq<usize>),
    /// Duplicated rows.
    Duplicate(Seq<char>, Seq<(u64, String)>),
    /// One cell: sheet, row key, row name, column.
    SetCells(Seq<char>, u64, Seq<char>, usize),
    /// Removed rows.
    Remove(Seq<char>, Seq<(u64, String)>),
}

impl View for StagedChange {
    type V = ChangeView;

    open spec fn view(&self) -> ChangeView {
        match self {
            StagedChange::Insert { sheet, widths } => ChangeView::Insert(sheet@, widths@),
            StagedChange::Duplicate { sheet, rows } => ChangeView::Duplicate(sheet@, rows@),
            StagedChange::SetCells { sheet, row, row_name, column } => ChangeView::SetCells(
                sheet@,
                *row,
                row_name@,
                *column,
            ),
            StagedChange::Remove { sheet, rows } => ChangeView::Remove(sheet@, rows@),
        }
    }
}

/// What a run changes, counted as the change set counts it.
#[derive(Debug, Clone, Copy, PartialEq, Eq, Structural)]
pub struct ChangeSummary {
    /// Cells written.
    pub set_cells: usize,
    /// Rows appended.
    pub inserted_rows: usize,
    /// Rows removed.
    pub removed_rows: usize,
    /// Rows duplicated.
    pub duplicated_rows: usize,
}

impl ChangeSummary {
    /// Whether the run changes nothing.
    pub fn is_empty(&self) -> (r: bool)
        ensures
            r == (self.set_cells == 0 && self.inserted_rows == 0 && self.removed_rows == 0
                && self.duplicated_rows == 0),
    {
        self.set_cells == 0 && self.inserted_rows == 0 && self.removed_rows == 0
            && self.duplicated_rows == 0
    }
}

/// Why a change set could not be applied: a reason that can be told apart, not a wording.
#[derive(Debug, Clone, PartialEq, Eq)]
pub enum MacroApplyError {
    /// The target sheet is not in the document, declares no column, or disagrees with the
    /// plan's column count.
    SheetUnusable {
        /// The target sheet.
        sheet: String,
    },
    /// A change names another sheet than the target (nothing is written).
    SheetMismatch {
        /// The target sheet.
        expected: String,
        /// The sheet the change named.
        found: String,
    },
    /// A change names a row that is not there (nothing is written).
    UnknownRow {
        /// The sheet.
        sheet: String,
        /// The missing row's identifier.
        row: String,
    },
    /// A change names a column out of range (nothing is written).
    UnknownColumn {
        /// The sheet.
        sheet: String,
        /// The column.
        column: usize,
        /// The sheet's column count.
        columns: usize,
    },
    /// An appended row has more values than the sheet has columns (nothing is written).
    RowTooWide {
        /// The sheet.
        sheet: String,
        /// The row's number of values.
        values: usize,
        /// The sheet's column count.
        columns: usize,
    },
    /// The grid refused after the checks passed (the user edited meanwhile).
    Rejected {
        /// The sheet.
        sheet: String,
        /// The grid's reason.
        reason: String,
    },
    /// The mapping's premise broke.
    Inconsistent {
        /// What disagreed.
        reason: String,
    },
    /// The change set was never readable.
    Unread,
    /// The session could not apply (no document, …); the session's description.
    Session(String),
}

/// The view of an apply error.
pub enum ApplyErrorView {
    /// Unusable sheet.
    SheetUnusable(Seq<char>),
    /// Another sheet named.
    SheetMismatch(Seq<char>, Seq<char>),
    /// Missing row.
    UnknownRow(Seq<char>, Seq<char>),
    /// Column out of range.
    UnknownColumn(Seq<char>, usize, usize),
    /// Row too wide.
    RowTooWide(Seq<char>, usize, usize),
    /// Refused by the grid.
    Rejected(Seq<char>, Seq<char>),
    /// Broken premise.
    Inconsistent(Seq<char>),
    /// Unreadable change set.
    Unread,
    /// The session's refusal.
    Session(Seq<char>),
}

impl View for MacroApplyError {
    type V = ApplyErrorView;

    open spec fn view(&self) -> ApplyErrorView {
        match self {
            MacroApplyError::SheetUnusable { sheet } => ApplyErrorView::SheetUnusable(sheet@),
            MacroApplyError::SheetMismatch { expected, found } => ApplyErrorView::SheetMismatch(
                expected@,
                found@,
            ),
            MacroApplyError::UnknownRow { sheet, row } => ApplyErrorView::UnknownRow(sheet@, row@),
            MacroApplyError::UnknownColumn { sheet, column, columns } => ApplyErrorView::UnknownColumn(
                sheet@,
                *column,
                *columns,
            ),
            MacroApplyError::RowTooWide { sheet, values, columns } => ApplyErrorView::RowTooWide(
                sheet@,
                *values,
                *columns,
            ),
            MacroApplyError::Rejected { sheet, reason } => ApplyErrorView::Rejected(sheet@, reason@),
            MacroApplyError::Inconsistent { reason } => ApplyErrorView::Inconsistent(reason@),
            MacroApplyError::Unread => ApplyErrorView::Unread,
            MacroApplyError::Session(message) => ApplyErrorView::Session(message@),
        }
    }
}

/// The text of an apply error: what it holds, written out mechanically.
pub open spec fn apply_error_text(e: ApplyErrorView) -> Seq<char> {
    match e {
        ApplyErrorView::SheetUnusable(sheet) => "schema of sheet "@ + sheet + " is unusable"@,
        ApplyErrorView::SheetMismatch(expected, found) => "the change names sheet "@ + found
            + ", but this apply writes sheet "@ + expected,
        ApplyErrorView::UnknownRow(sheet, row) => "no row "@ + row + " in sheet "@ + sheet,
        ApplyErrorView::UnknownColumn(sheet, column, columns) => "column "@ + decimal(column as nat)
            + " is out of range: sheet "@ + sheet + " has "@ + decimal(columns as nat) + " columns"@,
        ApplyErrorView::RowTooWide(sheet, values, columns) => "a row of "@ + decimal(values as nat)
            + " values is wider than the "@ + decimal(columns as nat) + " columns of sheet "@ + sheet,
        ApplyErrorView::Rejected(sheet, reason) => "sheet "@ + sheet + " rejected the change: "@
            + reason,
        ApplyErrorView::Inconsistent(reason) => "the mapping disagrees with the change set: "@
            + reason,
        ApplyErrorView::Unread => "the change set was not readable"@,
        ApplyErrorView::Session(message) => message,
    }
}

impl MacroApplyError {
    /// The text of the error.
    pub fn describe(&self) -> (r: String)
        ensures
            r@ == apply_error_text(self@),
    {
        match self {
            MacroApplyError::SheetUnusable { sheet } => {
                let mut out = "schema of sheet ".to_owned();
                out.append(sheet.as_str());
                out.append(" is unusable");
                out
            },
            MacroApplyError::SheetMismatch { expected, found } => {
                let mut out = "the change names sheet ".to_owned();
                out.append(found.as_str());
                out.append(", but this apply writes sheet ");
                out.append(expected.as_str());
                out
            },
            MacroApplyError::UnknownRow { sheet, row } => {
                let mut out = "no row ".to_owned();
                out.append(row.as_str());
                out.append(" in sheet ");
                out.append(sheet.as_str());
                out
            },
            MacroApplyError::UnknownColumn { sheet, column, columns } => {
                let mut out = "column ".to_owned();
                push_decimal(&mut out, *column as u64);
                out.append(" is out of range: sheet ");
                out.append(sheet.as_str());
                out.append(" has ");
                push_decimal(&mut out, *columns as u64);
                out.append(" columns");
                out
            },
            MacroApplyError::RowTooWide { sheet, values, columns } => {
                let mut out = "a row of ".to_owned();
                push_decimal(&mut out, *values as u64);
                out.append(" values is wider than the ");
                push_decimal(&mut out, *columns as u64);
                out.append(" columns of sheet ");
                out.append(sheet.as_str());
                out
            },
            MacroApplyError::Rejected { sheet, reason } => {
                let mut out = "sheet ".to_owned();
                out.append(sheet.as_str());
                out.append(" rejected the change: ");
                out.append(reason.as_str());
                out
            },
            MacroApplyError::Inconsistent { reason } => {
                let mut out = "the mapping disagrees with the change set: ".to_owned();
                out.append(reason.as_str());
                out
            },
            MacroApplyError::Unread => "the change set was not readable".to_owned(),
            MacroApplyError::Session(message) => message.clone(),
        }
    }
}

} // verus!

verus! {

/// The first appended row wider than `columns`, if any.
pub open spec fn first_wide(widths: Seq<usize>, columns: nat) -> Option<usize>
    decreases widths.len(),
{
    if widths.len() == 0 {
        None
    } else if widths[0] > columns {
        Some(widths[0])
    } else {
        first_wide(widths.drop_first(), columns)
    }
}

/// The first row not in `present`, if any.
pub open spec fn first_missing(rows: Seq<(u64, String)>, present: Set<u64>) -> Option<Seq<char>>
    decreases rows.len(),
{
    if rows.len() == 0 {
        None
    } else if !present.contains(rows[0].0) {
        Some(rows[0].1@)
    } else {
        first_missing(rows.drop_first(), present)
    }
}

/// Why one change is refused against the target sheet (its columns and rows), if it is.
pub open spec fn change_refusal(
    sheet: Seq<char>,
    columns: nat,
    present: Set<u64>,
    change: ChangeView,
) -> Option<ApplyErrorView> {
    match change {
        ChangeView::Insert(named, widths) => if named != sheet {
            Some(ApplyErrorView::SheetMismatch(sheet, named))
        } else {
            match first_wide(widths, columns) {
                Some(w) => Some(ApplyErrorView::RowTooWide(sheet, w, columns as usize)),
                None => None,
            }
        },
        ChangeView::Duplicate(named, rows) => if named != sheet {
            Some(ApplyErrorView::SheetMismatch(sheet, named))
        } else {
            match first_missing(rows, present) {
                Some(row) => Some(ApplyErrorView::UnknownRow(sheet, row)),
                None => None,
            }
        },
        ChangeView::SetCells(named, row, name, column) => if named != sheet {
            Some(ApplyErrorView::SheetMismatch(sheet, named))
        } else if !present.contains(row) {
            Some(ApplyErrorView::UnknownRow(sheet, name))
        } else if column >= columns {
            Some(ApplyErrorView::UnknownColumn(sheet, column, columns as usize))
        } else {
            None
        },
        ChangeView::Remove(named, rows) => if named != sheet {
            Some(ApplyErrorView::SheetMismatch(sheet, named))
        } else {
            match first_missing(rows, present) {
                Some(row) => Some(ApplyErrorView::UnknownRow(sheet, row)),
                None => None,
            }
        },
    }
}

/// The refusal of the first refused change, in application order.
pub open spec fn changes_refusal(
    sheet: Seq<char>,
    columns: nat,
    present: Set<u64>,
    changes: Seq<ChangeView>,
) -> Option<ApplyErrorView>
    decreases changes.len(),
{
    if changes.len() == 0 {
        None
    } else {
        match change_refusal(sheet, columns, present, changes[0]) {
            Some(e) => Some(e),
            None => changes_refusal(sheet, columns, present, changes.drop_first()),
        }
    }
}

/// The target sheet as found in the document: its column count and its rows' identifiers
/// in document order.
#[derive(Debug, Clone, PartialEq, Eq)]
pub struct SheetShape {
    /// The number of declared columns.
    pub columns: usize,
    /// The rows' identifiers.
    pub rows: Vec<u64>,
}

/// What checking a change set gives: the target sheet must be in the document, declare
/// columns and agree with the plan; then every change must name the target, existing rows,
/// columns in range and rows no wider than the columns. On success, the counts.
pub open spec fn inspection(
    sheet: Seq<char>,
    shape: Option<(nat, Seq<u64>)>,
    plan_columns: nat,
    changes: Seq<ChangeView>,
    summary: ChangeSummary,
) -> Result<ChangeSummary, ApplyErrorView> {
    match shape {
        None => Err(ApplyErrorView::SheetUnusable(sheet)),
        Some((columns, rows)) => if plan_columns == 0 || columns != plan_columns {
            Err(ApplyErrorView::SheetUnusable(sheet))
        } else {
            match changes_refusal(sheet, plan_columns, rows.to_set(), changes) {
                Some(e) => Err(e),
                None => Ok(summary),
            }
        },
    }
}

/// The view of a found sheet.
pub open spec fn shape_view(shape: Option<&SheetShape>) -> Option<(nat, Seq<u64>)> {
    match shape {
        Some(s) => Some((s.columns as nat, s.rows@)),
        None => None,
    }
}

/// The views of changes.
pub open spec fn changes_view(changes: Seq<StagedChange>) -> Seq<ChangeView> {
    changes.map_values(|c: StagedChange| c@)
}

/// The identifiers of the rows, as a set (one pass over the rows).
pub fn row_index(rows: &Vec<u64>) -> (r: HashSet<u64>)
    ensures
        r@ == rows@.to_set(),
{
    let mut index: HashSet<u64> = HashSet::new();
    let mut i: usize = 0;
    while i < rows.len()
        invariant
            i <= rows@.len(),
            index@ == rows@.take(i as int).to_set(),
        decreases rows@.len() - i,
    {
        index.insert(rows[i]);
        assert(rows@.take(i + 1) =~= rows@.take(i as int).push(rows@[i as int]));
        proof {
            rows@.take(i as int).lemma_push_to_set_commute(rows@[i as int]);
        }
        i = i + 1;
    }
    assert(rows@.take(rows@.len() as int) =~= rows@);
    index
}

/// Checks that a change names the target sheet.
pub fn require_sheet(expected: &str, found: &str) -> (r: Result<(), MacroApplyError>)
    ensures
        expected@ == found@ ==> r is Ok,
        expected@ != found@ ==> (r matches Err(e) && e@ == ApplyErrorView::SheetMismatch(
            expected@,
            found@,
        )),
{
    if str_equal(expected, found) {
        Ok(())
    } else {
        Err(MacroApplyError::SheetMismatch { expected: expected.to_owned(), found: found.to_owned() })
    }
}

/// Checks that a row is in the sheet.
pub fn require_row(index: &HashSet<u64>, sheet: &str, row: u64, name: &str) -> (r: Result<
    (),
    MacroApplyError,
>)
    ensures
        index@.contains(row) ==> r is Ok,
        !index@.contains(row) ==> (r matches Err(e) && e@ == ApplyErrorView::UnknownRow(sheet@, name@)),
{
    if index.contains(&row) {
        Ok(())
    } else {
        Err(MacroApplyError::UnknownRow { sheet: sheet.to_owned(), row: name.to_owned() })
    }
}

/// The first appended row wider than `columns`.
fn find_wide(widths: &Vec<usize>, columns: usize) -> (r: Option<usize>)
    ensures
        r == first_wide(widths@, columns as nat),
{
    let mut i: usize = 0;
    assert(widths@.skip(0) =~= widths@);
    while i < widths.len()
        invariant
            i <= widths@.len(),
            first_wide(widths@, columns as nat) == first_wide(widths@.skip(i as int), columns as nat),
        decreases widths@.len() - i,
    {
        if widths[i] > columns {
            return Some(widths[i]);
        }
        assert(widths@.skip(i as int).drop_first() =~= widths@.skip(i + 1));
        i = i + 1;
    }
    None
}

/// The first row that is not in the index.
fn find_missing(rows: &Vec<(u64, String)>, index: &HashSet<u64>) -> (r: Option<String>)
    ensures
        match first_missing(rows@, index@) {
            Some(name) => r matches Some(x) && x@ == name,
            None => r is None,
        },
{
    let mut i: usize = 0;
    assert(rows@.skip(0) =~= rows@);
    while i < rows.len()
        invariant
            i <= rows@.len(),
            first_missing(rows@, index@) == first_missing(rows@.skip(i as int), index@),
        decreases rows@.len() - i,
    {
        if !index.contains(&rows[i].0) {
            return Some(rows[i].1.as_str().to_owned());
        }
        assert(rows@.skip(i as int).drop_first() =~= rows@.skip(i + 1));
        i = i + 1;
    }
    None
}

/// Checks one change against the target sheet.
fn check_change(sheet: &str, columns: usize, index: &HashSet<u64>, change: &StagedChange) -> (r:
    Result<(), MacroApplyError>)
    ensures
        match change_refusal(sheet@, columns as nat, index@, change@) {
            Some(e) => r matches Err(x) && x@ == e,
            None => r is Ok,
        },
{
    match change {
        StagedChange::Insert { sheet: named, widths } => {
            if let Err(e) = require_sheet(sheet, named.as_str()) {
                return Err(e);
            }
            match find_wide(widths, columns) {
                Some(values) => Err(MacroApplyError::RowTooWide { sheet: sheet.to_owned(), values, columns }),
                None => Ok(()),
            }
        },
        StagedChange::Duplicate { sheet: named, rows } | StagedChange::Remove { sheet: named, rows } => {
            if let Err(e) = require_sheet(sheet, named.as_str()) {
                return Err(e);
            }
            match find_missing(rows, index) {
                Some(row) => Err(MacroApplyError::UnknownRow { sheet: sheet.to_owned(), row }),
                None => Ok(()),
            }
        },
        StagedChange::SetCells { sheet: named, row, row_name, column } => {
            if let Err(e) = require_sheet(sheet, named.as_str()) {
                return Err(e);
            }
            if let Err(e) = require_row(index, sheet, *row, row_name.as_str()) {
                return Err(e);
            }
            if *column >= columns {
                Err(MacroApplyError::UnknownColumn { sheet: sheet.to_owned(), column: *column, columns })
            } else {
                Ok(())
            }
        },
    }
}

/// Checks a change set before anything is written, and gives its counts (`summary`, as
/// the change set counts them) when it can be applied. `shape` is the target sheet as found
/// in the document (none when it is not there) and `plan_columns` the plan's column count.
pub fn inspect(
    sheet: &str,
    shape: Option<&SheetShape>,
    plan_columns: usize,
    changes: &Vec<StagedChange>,
    summary: ChangeSummary,
) -> (r: Result<ChangeSummary, MacroApplyError>)
    ensures
        match inspection(sheet@, shape_view(shape), plan_columns as nat, changes_view(changes@), summary) {
            Ok(s) => r == Ok::<ChangeSummary, MacroApplyError>(s),
            Err(e) => r matches Err(x) && x@ == e,
        },
{
    let target = match shape {
        Some(target) => target,
        None => {
            return Err(MacroApplyError::SheetUnusable { sheet: sheet.to_owned() });
        },
    };
    if plan_columns == 0 || target.columns != plan_columns {
        return Err(MacroApplyError::SheetUnusable { sheet: sheet.to_owned() });
    }
    let index = row_index(&target.rows);
    let ghost cs = changes_view(changes@);
    let mut i: usize = 0;
    assert(cs.skip(0) =~= cs);
    while i < changes.len()
        invariant
            i <= changes@.len(),
            cs == changes_view(changes@),
            shape == Some(target),
            plan_columns != 0,
            target.columns == plan_columns,
            index@ == target.rows@.to_set(),
            changes_refusal(sheet@, plan_columns as nat, index@, cs) == changes_refusal(
                sheet@,
                plan_columns as nat,
                index@,
                cs.skip(i as int),
            ),
        decreases changes@.len() - i,
    {
        assert(cs.skip(i as int)[0] == changes@[i as int]@);
        match check_change(sheet, plan_columns, &index, &changes[i]) {
            Ok(()) => {},
            Err(e) => {
                assert(cs.skip(i as int).len() > 0);
                assert(changes_refusal(sheet@, plan_columns as nat, index@, cs.skip(i as int)) == Some(e@));
                return Err(e);
            },
        }
        assert(cs.skip(i as int).drop_first() =~= cs.skip(i + 1));
        i = i + 1;
    }
    Ok(summary)
}

} // verus!

verus! {

// ---------------------------------------------------------------------------
// Duplication rounds
// ---------------------------------------------------------------------------

/// The rows in the order of their first occurrence, each once.
pub open spec fn first_occurrences(s: Seq<u64>) -> Seq<u64>
    decreases s.len(),
{
    if s.len() == 0 {
        Seq::empty()
    } else {
        let d = first_occurrences(s.drop_last());
        if d.contains(s.last()) {
            d
        } else {
            d.push(s.last())
        }
    }
}

/// How often `x` occurs in `s`.
pub open spec fn occurrences(s: Seq<u64>, x: u64) -> nat
    decreases s.len(),
{
    if s.len() == 0 {
        0
    } else {
        occurrences(s.drop_last(), x) + if s.last() == x {
            1nat
        } else {
            0nat
        }
    }
}

/// The largest number of occurrences among the rows `d` of `s` (zero for none).
pub open spec fn most_occurrences(s: Seq<u64>, d: Seq<u64>) -> nat
    decreases d.len(),
{
    if d.len() == 0 {
        0
    } else {
        let m = most_occurrences(s, d.drop_last());
        let c = occurrences(s, d.last());
        if c > m {
            c
        } else {
            m
        }
    }
}

/// The rows sent in round `r`: those occurring more than `r` times, in first-occurrence
/// order.
pub open spec fn round_rows(s: Seq<u64>, r: nat) -> Seq<u64> {
    first_occurrences(s).filter(more_than(s, r))
}

/// Whether a row occurs in `s` more than `r` times.
pub open spec fn more_than(s: Seq<u64>, r: nat) -> spec_fn(u64) -> bool {
    |x: u64| occurrences(s, x) > r
}

/// The rounds of a duplication: as many as the most repeated row occurs, each holding the
/// rows that still have a copy to make, in first-occurrence order.
pub open spec fn duplication_rounds(s: Seq<u64>) -> Seq<Seq<u64>> {
    Seq::new(most_occurrences(s, first_occurrences(s)), |r: int| round_rows(s, r as nat))
}

/// Rows listed once each in first-occurrence order contain no repetition.
proof fn lemma_first_occurrences_distinct(s: Seq<u64>)
    ensures
        first_occurrences(s).no_duplicates(),
        forall|x: u64| first_occurrences(s).contains(x) <==> s.contains(x),
    decreases s.len(),
{
    if s.len() > 0 {
        let t = s.drop_last();
        lemma_first_occurrences_distinct(t);
        let d = first_occurrences(t);
        let l = s.last();
        assert(s =~= t.push(l));
        assert forall|x: u64| s.contains(x) <==> (t.contains(x) || x == l) by {
            if s.contains(x) {
                let i = choose|i: int| 0 <= i < s.len() && s[i] == x;
                if i < t.len() {
                    assert(t[i] == x);
                }
            }
            if t.contains(x) {
                let i = choose|i: int| 0 <= i < t.len() && t[i] == x;
                assert(s[i] == x);
            }
            if x == l {
                assert(s[s.len() - 1] == x);
            }
        }
        if !d.contains(l) {
            assert forall|x: u64| d.push(l).contains(x) <==> (d.contains(x) || x == l) by {
                if d.push(l).contains(x) {
                    let i = choose|i: int| 0 <= i < d.push(l).len() && d.push(l)[i] == x;
                    if i < d.len() {
                        assert(d[i] == x);
                    }
                }
                if d.contains(x) {
                    let i = choose|i: int| 0 <= i < d.len() && d[i] == x;
                    assert(d.push(l)[i] == x);
                }
                if x == l {
                    assert(d.push(l)[d.len() as int] == x);
                }
            }
            assert forall|i: int, j: int|
                0 <= i < d.push(l).len() && 0 <= j < d.push(l).len() && i != j implies d.push(l)[i]
                != d.push(l)[j] by {
                if i < d.len() && j < d.len() {
                } else if i < d.len() {
                    assert(d.contains(d[i]));
                } else {
                    assert(d.contains(d[j]));
                }
            }
        }
    }
}

/// A row occurs at most as often as the sequence is long.
proof fn lemma_occurrences_bounded(s: Seq<u64>, x: u64)
    ensures
        occurrences(s, x) <= s.len(),
    decreases s.len(),
{
    if s.len() > 0 {
        lemma_occurrences_bounded(s.drop_last(), x);
    }
}

/// Splits the rows of one duplication into rounds: a row given `n` times is duplicated `n`
/// times, one copy per round, and the order of first occurrences is kept.
pub fn rounds_of(rows: &Vec<u64>) -> (r: Vec<Vec<u64>>)
    ensures
        r@.map_values(|v: Vec<u64>| v@) == duplication_rounds(rows@),
{
    let mut counts: Vec<(u64, usize)> = Vec::new();
    let mut k: usize = 0;
    while k < rows.len()
        invariant
            k <= rows@.len(),
            counts@.map_values(|p: (u64, usize)| p.0) == first_occurrences(rows@.take(k as int)),
            forall|j: int|
                0 <= j < counts@.len() ==> (#[trigger] counts@[j]).1 == occurrences(
                    rows@.take(k as int),
                    counts@[j].0,
                ),
        decreases rows@.len() - k,
    {
        let row = rows[k];
        let ghost prefix = rows@.take(k as int);
        let ghost next = rows@.take(k + 1);
        assert(next.drop_last() =~= prefix);
        assert(next.last() == row);
        proof {
            lemma_first_occurrences_distinct(prefix);
        }
        let mut j: usize = 0;
        while j < counts.len() && counts[j].0 != row
            invariant
                j <= counts@.len(),
                forall|q: int| 0 <= q < j ==> (#[trigger] counts@[q]).0 != row,
            decreases counts@.len() - j,
        {
            j = j + 1;
        }
        let ghost keys = counts@.map_values(|p: (u64, usize)| p.0);
        if j < counts.len() {
            let c = counts[j].1;
            proof {
                lemma_occurrences_bounded(prefix, row);
                assert(keys[j as int] == row);
                assert(keys.contains(row));
            }
            counts.set(j, (row, c + 1));
            proof {
                assert(counts@.map_values(|p: (u64, usize)| p.0) =~= keys);
                assert forall|q: int| 0 <= q < counts@.len() implies (#[trigger] counts@[q]).1
                    == occurrences(next, counts@[q].0) by {
                    if q != j {
                        assert(keys[q] != keys[j as int]);
                    }
                }
            }
        } else {
            proof {
                assert forall|q: int| 0 <= q < keys.len() implies keys[q] != row by {
                    assert(keys[q] == counts@[q].0);
                }
                assert(!keys.contains(row));
            }
            counts.push((row, 1));
            proof {
                assert(counts@.map_values(|p: (u64, usize)| p.0) =~= keys.push(row));
                assert forall|q: int| 0 <= q < counts@.len() implies (#[trigger] counts@[q]).1
                    == occurrences(next, counts@[q].0) by {
                    if q < keys.len() {
                        assert(keys[q] != row);
                    } else {
                        assert(!prefix.contains(row));
                        lemma_absent_occurs_never(prefix, row);
                    }
                }
            }
        }
        k = k + 1;
    }
    assert(rows@.take(rows@.len() as int) =~= rows@);
    let ghost d = first_occurrences(rows@);
    // The number of rounds: the largest count.
    let mut rounds: usize = 0;
    let mut j: usize = 0;
    while j < counts.len()
        invariant
            j <= counts@.len(),
            counts@.map_values(|p: (u64, usize)| p.0) == d,
            forall|q: int| 0 <= q < counts@.len() ==> (#[trigger] counts@[q]).1 == occurrences(rows@, counts@[q].0),
            rounds == most_occurrences(rows@, d.take(j as int)),
        decreases counts@.len() - j,
    {
        assert(d.take(j + 1).drop_last() =~= d.take(j as int));
        assert(d[j as int] == counts@[j as int].0);
        if counts[j].1 > rounds {
            rounds = counts[j].1;
        }
        j = j + 1;
    }
    assert(d.take(d.len() as int) =~= d);
    let mut out: Vec<Vec<u64>> = Vec::new();
    let mut r: usize = 0;
    while r < rounds
        invariant
            r <= rounds,
            d == first_occurrences(rows@),
            rounds == most_occurrences(rows@, d),
            counts@.map_values(|p: (u64, usize)| p.0) == d,
            forall|q: int| 0 <= q < counts@.len() ==> (#[trigger] counts@[q]).1 == occurrences(rows@, counts@[q].0),
            out@.len() == r,
            forall|q: int| 0 <= q < r ==> (#[trigger] out@[q])@ == round_rows(rows@, q as nat),
        decreases rounds - r,
    {
        let mut round: Vec<u64> = Vec::new();
        let mut j: usize = 0;
        while j < counts.len()
            invariant
                j <= counts@.len(),
                d == first_occurrences(rows@),
                counts@.map_values(|p: (u64, usize)| p.0) == d,
                forall|q: int| 0 <= q < counts@.len() ==> (#[trigger] counts@[q]).1 == occurrences(rows@, counts@[q].0),
                round@ == d.take(j as int).filter(more_than(rows@, r as nat)),
            decreases counts@.len() - j,
        {
            assert(d.take(j + 1).drop_last() =~= d.take(j as int));
            assert(d[j as int] == counts@[j as int].0);
            if counts[j].1 > r {
                round.push(counts[j].0);
            }
            proof {
                let f = more_than(rows@, r as nat);
                assert(d.take(j + 1).filter(f) == (if f(d.take(j + 1).last()) {
                    d.take(j as int).filter(f).push(d.take(j + 1).last())
                } else {
                    d.take(j as int).filter(f)
                })) by {
                    reveal_with_fuel(Seq::filter, 1);
                }
            }
            j = j + 1;
        }
        assert(counts@.map_values(|p: (u64, usize)| p.0).len() == counts@.len());
        assert(j == d.len());
        assert(d.take(d.len() as int) =~= d);
        assert(d == first_occurrences(rows@));
        assert(round@ == d.filter(more_than(rows@, r as nat)));
        assert(round@ == round_rows(rows@, r as nat));
        out.push(round);
        r = r + 1;
    }
    assert(out@.map_values(|v: Vec<u64>| v@) =~= duplication_rounds(rows@));
    out
}

/// A row that does not occur has no occurrences.
proof fn lemma_absent_occurs_never(s: Seq<u64>, x: u64)
    requires
        !s.contains(x),
    ensures
        occurrences(s, x) == 0,
    decreases s.len(),
{
    if s.len() > 0 {
        assert(s.last() != x) by {
            assert(s[s.len() - 1] == s.last());
        }
        assert forall|i: int| 0 <= i < s.drop_last().len() implies s.drop_last()[i] != x by {
            assert(s[i] == s.drop_last()[i]);
        }
        lemma_absent_occurs_never(s.drop_last(), x);
    }
}

} // verus!

verus! {

// ---------------------------------------------------------------------------
// The one undo pair of a run
// ---------------------------------------------------------------------------

/// What applying one change produced: the commands that undo it and those that redo it,
/// each in the order they were applied.
pub struct Step<C> {
    /// The undoing commands, in application order.
    pub inverse: Vec<C>,
    /// The redoing commands, in application order.
    pub redo: Vec<C>,
}

/// The undo and redo commands of a run: undoing runs the steps' undoing commands in the
/// reverse of the order they were applied; redoing runs the redoing commands in order.
pub open spec fn assembled<C>(steps: Seq<Step<C>>) -> (Seq<C>, Seq<C>) {
    (
        steps.map_values(|s: Step<C>| s.inverse@).flatten().reverse(),
        steps.map_values(|s: Step<C>| s.redo@).flatten(),
    )
}

/// Builds the one undo pair from the applied steps.
pub fn assemble<C>(steps: Vec<Step<C>>) -> (r: (Vec<C>, Vec<C>))
    ensures
        (r.0@, r.1@) == assembled(steps@),
{
    let ghost all = steps@;
    let ghost inverses = all.map_values(|s: Step<C>| s.inverse@);
    let ghost redos = all.map_values(|s: Step<C>| s.redo@);
    let mut steps = steps;
    let mut inverse: Vec<C> = Vec::new();
    let mut redo: Vec<C> = Vec::new();
    let mut k: usize = 0;
    let n = steps.len();
    assert(all.skip(0) =~= all);
    while steps.len() > 0
        invariant
            k <= n,
            n == all.len(),
            steps@ == all.skip(k as int),
            inverses == all.map_values(|s: Step<C>| s.inverse@),
            redos == all.map_values(|s: Step<C>| s.redo@),
            inverse@ == inverses.take(k as int).flatten_alt(),
            redo@ == redos.take(k as int).flatten_alt(),
        decreases steps@.len(),
    {
        let mut step = steps.remove(0);
        assert(step == all[k as int]);
        assert(inverses.take(k + 1).drop_last() =~= inverses.take(k as int));
        assert(redos.take(k + 1).drop_last() =~= redos.take(k as int));
        inverse.append(&mut step.inverse);
        redo.append(&mut step.redo);
        assert(all.skip(k as int).drop_first() =~= all.skip(k + 1));
        k = k + 1;
    }
    assert(inverses.take(n as int) =~= inverses);
    assert(redos.take(n as int) =~= redos);
    proof {
        inverses.lemma_flatten_and_flatten_alt_are_equivalent();
        redos.lemma_flatten_and_flatten_alt_are_equivalent();
    }
    let ghost forward = inverse@;
    let mut reversed: Vec<C> = Vec::new();
    while inverse.len() > 0
        invariant
            forward.len() == reversed@.len() + inverse@.len(),
            inverse@ == forward.take(inverse@.len() as int),
            forall|i: int| 0 <= i < reversed@.len() ==> reversed@[i] == forward[forward.len() - 1 - i],
        decreases inverse@.len(),
    {
        let last = inverse.pop();
        match last {
            Some(c) => {
                reversed.push(c);
            },
            None => {},
        }
        assert(inverse@ =~= forward.take(inverse@.len() as int));
    }
    assert(reversed@ =~= forward.reverse());
    (reversed, redo)
}

/// Several history commands bundled as one, or a single one as it is.
#[derive(Debug, Clone, PartialEq, Eq)]
pub enum Collapsed<C> {
    /// One command, not wrapped.
    Single(C),
    /// Several commands applied in order as one step.
    Composite(Vec<C>),
}

/// Bundles commands into one history command (a single one is not wrapped).
pub fn collapse<C>(commands: Vec<C>) -> (r: Collapsed<C>)
    ensures
        commands@.len() == 1 ==> r == Collapsed::Single(commands@[0]),
        commands@.len() != 1 ==> (r matches Collapsed::Composite(v) && v@ == commands@),
{
    let mut commands = commands;
    if commands.len() == 1 {
        match commands.pop() {
            Some(c) => Collapsed::Single(c),
            None => Collapsed::Composite(commands),
        }
    } else {
        Collapsed::Composite(commands)
    }
}

/// Whether `c` bundles exactly `commands` (a single command unwrapped).
pub open spec fn bundles<C>(c: Collapsed<C>, commands: Seq<C>) -> bool {
    match c {
        Collapsed::Single(x) => commands == seq![x],
        Collapsed::Composite(v) => commands.len() != 1 && v@ == commands,
    }
}

/// The history entry of a run: the undo and redo commands bundled, or nothing when the run
/// changed nothing (nothing is pushed then).
pub fn history_entry<C>(steps: Vec<Step<C>>) -> (r: Option<(Collapsed<C>, Collapsed<C>)>)
    ensures
        assembled(steps@).0.len() == 0 ==> r is None,
        assembled(steps@).0.len() > 0 ==> (r matches Some(pair) && bundles(pair.0, assembled(steps@).0)
            && bundles(pair.1, assembled(steps@).1)),
{
    let (inverse, redo) = assemble(steps);
    if inverse.len() == 0 {
        return None;
    }
    let ghost i = inverse@;
    let ghost d = redo@;
    let undo = collapse(inverse);
    let again = collapse(redo);
    proof {
        if i.len() == 1 {
            assert(i =~= seq![i[0]]);
        }
        if d.len() == 1 {
            assert(d =~= seq![d[0]]);
        }
    }
    Some((undo, again))
}

/// The rows to remove from the target sheet: the folded removals that name it, in order.
pub fn removals_for(sheet: &str, removed: &Vec<(String, u64)>) -> (r: Vec<u64>)
    ensures
        r@ == removed@.filter(|p: (String, u64)| p.0@ == sheet@).map_values(|p: (String, u64)| p.1),
{
    let mut out: Vec<u64> = Vec::new();
    let mut i: usize = 0;
    while i < removed.len()
        invariant
            i <= removed@.len(),
            out@ == removed@.take(i as int).filter(|p: (String, u64)| p.0@ == sheet@).map_values(
                |p: (String, u64)| p.1,
            ),
        decreases removed@.len() - i,
    {
        assert(removed@.take(i + 1).drop_last() =~= removed@.take(i as int));
        proof {
            reveal_with_fuel(Seq::filter, 1);
        }
        if str_equal(removed[i].0.as_str(), sheet) {
            out.push(removed[i].1);
        }
        proof {
            let f = |p: (String, u64)| p.0@ == sheet@;
            let g = |p: (String, u64)| p.1;
            let prev = removed@.take(i as int).filter(f);
            if f(removed@[i as int]) {
                assert(removed@.take(i + 1).filter(f) == prev.push(removed@[i as int]));
                assert(prev.push(removed@[i as int]).map_values(g) =~= prev.map_values(g).push(removed@[i as int].1));
            } else {
                assert(removed@.take(i + 1).filter(f) == prev);
            }
        }
        i = i + 1;
    }
    assert(removed@.take(removed@.len() as int) =~= removed@);
    out
}

} // verus!

verus! {

// ---------------------------------------------------------------------------
// Appended rows and written values
// ---------------------------------------------------------------------------

/// Where the appended rows start: they are the last `count` rows after appending; fewer
/// rows than that means the grid did not append them.
pub fn inserted_start(rows_after: usize, count: usize) -> (r: Result<usize, MacroApplyError>)
    ensures
        count <= rows_after ==> r == Ok::<usize, MacroApplyError>((rows_after - count) as usize),
        count > rows_after ==> (r matches Err(e) && e@ == ApplyErrorView::Inconsistent(
            "InsertRows が "@ + decimal(count as nat) + " 行を足していない"@,
        )),
{
    if count <= rows_after {
        Ok(rows_after - count)
    } else {
        let mut reason = "InsertRows が ".to_owned();
        push_decimal(&mut reason, count as u64);
        reason.append(" 行を足していない");
        Err(MacroApplyError::Inconsistent { reason })
    }
}

/// The cell writes of appended row `offset`: (row identifier, column, offset) per value.
pub open spec fn appended_row_cells(ids: Seq<u64>, start: nat, widths: Seq<usize>, offset: nat) -> Seq<
    (u64, usize, usize),
> {
    Seq::new(widths[offset as int] as nat, |c: int| (ids[(start + offset) as int], c as usize, offset as usize))
}

/// The cell writes of the first `n` appended rows, row by row.
pub open spec fn appended_cells(ids: Seq<u64>, start: nat, widths: Seq<usize>, n: nat) -> Seq<
    (u64, usize, usize),
>
    decreases n,
{
    if n == 0 {
        Seq::empty()
    } else {
        appended_cells(ids, start, widths, (n - 1) as nat) + appended_row_cells(ids, start, widths, (n - 1) as nat)
    }
}

/// The number of appended rows that receive values: the rows from `start` paired with the
/// macro's rows, as far as both go.
pub open spec fn paired_rows(ids_len: nat, start: nat, values_len: nat) -> nat {
    let appended = if ids_len >= start {
        (ids_len - start) as nat
    } else {
        0
    };
    if appended <= values_len {
        appended
    } else {
        values_len
    }
}

/// Places the macro's values on the appended rows: the rows from `start` (in document order)
/// take the macro's rows in order, each value at its column. The writes are (row, column,
/// index of the macro's row); the caller copies the values into one write of cells.
pub fn appended_writes(ids: &Vec<u64>, start: usize, widths: &Vec<usize>) -> (r: Vec<(u64, usize, usize)>)
    ensures
        r@ == appended_cells(ids@, start as nat, widths@, paired_rows(ids@.len(), start as nat, widths@.len())),
{
    let n: usize = if ids.len() >= start {
        if ids.len() - start <= widths.len() {
            ids.len() - start
        } else {
            widths.len()
        }
    } else {
        0
    };
    assert(n == 0 || start + n <= ids@.len());
    let mut out: Vec<(u64, usize, usize)> = Vec::new();
    let mut offset: usize = 0;
    while offset < n
        invariant
            offset <= n,
            n == paired_rows(ids@.len(), start as nat, widths@.len()),
            n == 0 || start + n <= ids@.len(),
            n <= widths@.len(),
            out@ == appended_cells(ids@, start as nat, widths@, offset as nat),
        decreases n - offset,
    {
        assert(start + offset < ids@.len());
        assert(ids@.len() == ids.len());
        let row = ids[start + offset];
        let width = widths[offset];
        let ghost before = out@;
        let mut c: usize = 0;
        while c < width
            invariant
                c <= width,
                width == widths@[offset as int],
                row == ids@[start + offset],
                out@ == before + appended_row_cells(ids@, start as nat, widths@, offset as nat).take(c as int),
            decreases width - c,
        {
            out.push((row, c, offset));
            assert(appended_row_cells(ids@, start as nat, widths@, offset as nat).take(c + 1) =~= appended_row_cells(
                ids@,
                start as nat,
                widths@,
                offset as nat,
            ).take(c as int).push((row, c, offset)));
            c = c + 1;
        }
        assert(appended_row_cells(ids@, start as nat, widths@, offset as nat).take(width as int) =~= appended_row_cells(
            ids@,
            start as nat,
            widths@,
            offset as nat,
        ));
        offset = offset + 1;
    }
    out
}

} // verus!

verus! {

/// The position of row `id`: its last position among `rows` (identifiers are unique, so
/// its only one).
pub open spec fn position_of(rows: Seq<u64>, id: u64) -> int
    decreases rows.len(),
{
    if rows.len() == 0 {
        -1
    } else if rows.last() == id {
        rows.len() - 1
    } else {
        position_of(rows.drop_last(), id)
    }
}

/// One more write in the search for the rows whose prior values are kept: a write naming
/// another sheet is refused; a write on a new row (writes come ordered by row) adds that row
/// with its position, or is refused when the row is not there.
pub open spec fn material_step(
    sheet: Seq<char>,
    rows: Seq<u64>,
    m: Seq<(u64, usize)>,
    write: (Seq<char>, u64, Seq<char>),
) -> Result<Seq<(u64, usize)>, ApplyErrorView> {
    if write.0 != sheet {
        Err(ApplyErrorView::SheetMismatch(sheet, write.0))
    } else if m.len() > 0 && m.last().0 == write.1 {
        Ok(m)
    } else if position_of(rows, write.1) >= 0 {
        Ok(m.push((write.1, position_of(rows, write.1) as usize)))
    } else {
        Err(ApplyErrorView::UnknownRow(sheet, write.2))
    }
}

/// The rows whose prior values a batch of cell writes keeps for undoing, in order, or the
/// refusal of the first write that cannot be applied.
pub open spec fn materials(
    sheet: Seq<char>,
    rows: Seq<u64>,
    writes: Seq<(Seq<char>, u64, Seq<char>)>,
) -> Result<Seq<(u64, usize)>, ApplyErrorView>
    decreases writes.len(),
{
    if writes.len() == 0 {
        Ok(Seq::empty())
    } else {
        match materials(sheet, rows, writes.drop_last()) {
            Err(e) => Err(e),
            Ok(m) => material_step(sheet, rows, m, writes.last()),
        }
    }
}

/// The view of the writes' sheets and rows (key and name).
pub open spec fn writes_view(writes: Seq<(String, u64, String)>) -> Seq<(Seq<char>, u64, Seq<char>)> {
    writes.map_values(|w: (String, u64, String)| (w.0@, w.1, w.2@))
}

/// The positions of the rows (one pass over the rows).
fn positions(rows: &Vec<u64>) -> (r: std::collections::HashMap<u64, usize>)
    ensures
        forall|id: u64| #[trigger] r@.contains_key(id) <==> position_of(rows@, id) >= 0,
        forall|id: u64| r@.contains_key(id) ==> r@[id] == position_of(rows@, id),
{
    let mut index: std::collections::HashMap<u64, usize> = std::collections::HashMap::new();
    let mut i: usize = 0;
    while i < rows.len()
        invariant
            i <= rows@.len(),
            forall|id: u64| #[trigger] index@.contains_key(id) <==> position_of(rows@.take(i as int), id) >= 0,
            forall|id: u64| index@.contains_key(id) ==> index@[id] == position_of(rows@.take(i as int), id),
        decreases rows@.len() - i,
    {
        index.insert(rows[i], i);
        assert(rows@.take(i + 1).drop_last() =~= rows@.take(i as int));
        assert(rows@.take(i + 1).last() == rows@[i as int]);
        proof {
            assert forall|id: u64| position_of(rows@.take(i as int), id) < i by {
                lemma_position_below(rows@.take(i as int), id);
            }
        }
        i = i + 1;
    }
    assert(rows@.take(rows@.len() as int) =~= rows@);
    index
}

proof fn lemma_position_below(rows: Seq<u64>, id: u64)
    ensures
        position_of(rows, id) < rows.len(),
        position_of(rows, id) >= -1,
    decreases rows.len(),
{
    if rows.len() > 0 {
        lemma_position_below(rows.drop_last(), id);
    }
}

/// The rows whose prior values a batch of cell writes keeps for undoing: each written row
/// once with its position (the writes come ordered by row), or the refusal of the first
/// write that names another sheet or a row that is not there.
pub fn write_materials(sheet: &str, writes: &Vec<(String, u64, String)>, rows: &Vec<u64>) -> (r: Result<
    Vec<(u64, usize)>,
    MacroApplyError,
>)
    ensures
        match materials(sheet@, rows@, writes_view(writes@)) {
            Ok(m) => r matches Ok(v) && v@ == m,
            Err(e) => r matches Err(x) && x@ == e,
        },
{
    let index = positions(rows);
    let ghost ws = writes_view(writes@);
    let mut out: Vec<(u64, usize)> = Vec::new();
    let mut i: usize = 0;
    while i < writes.len()
        invariant
            i <= writes@.len(),
            ws == writes_view(writes@),
            forall|id: u64| #[trigger] index@.contains_key(id) <==> position_of(rows@, id) >= 0,
            forall|id: u64| index@.contains_key(id) ==> index@[id] == position_of(rows@, id),
            materials(sheet@, rows@, ws.take(i as int)) == Ok::<Seq<(u64, usize)>, ApplyErrorView>(out@),
        decreases writes@.len() - i,
    {
        assert(ws.take(i + 1).drop_last() =~= ws.take(i as int));
        assert(ws.take(i + 1).last() == (writes@[i as int].0@, writes@[i as int].1, writes@[i as int].2@));
        let (named, row) = (&writes[i].0, writes[i].1);
        if !str_equal(named.as_str(), sheet) {
            proof {
                assert(materials(sheet@, rows@, ws.take(i + 1)) is Err);
                lemma_materials_keep_error(sheet@, rows@, ws, i as int + 1);
                assert(ws.take(ws.len() as int) =~= ws);
            }
            return Err(MacroApplyError::SheetMismatch { expected: sheet.to_owned(), found: named.clone() });
        }
        let fresh = out.len() == 0 || out[out.len() - 1].0 != row;
        if fresh {
            match index.get(&row) {
                Some(at) => {
                    out.push((row, *at));
                },
                None => {
                    proof {
                        lemma_materials_keep_error(sheet@, rows@, ws, i as int + 1);
                        assert(ws.take(ws.len() as int) =~= ws);
                    }
                    return Err(MacroApplyError::UnknownRow { sheet: sheet.to_owned(), row: writes[i].2.clone() });
                },
            }
        }
        i = i + 1;
    }
    assert(ws.take(ws.len() as int) =~= ws);
    Ok(out)
}

/// Once a prefix of the writes is refused, so are all the writes (with the same refusal).
proof fn lemma_materials_keep_error(
    sheet: Seq<char>,
    rows: Seq<u64>,
    ws: Seq<(Seq<char>, u64, Seq<char>)>,
    k: int,
)
    requires
        0 <= k <= ws.len(),
        materials(sheet, rows, ws.take(k)) is Err,
    ensures
        materials(sheet, rows, ws) == materials(sheet, rows, ws.take(k)),
    decreases ws.len() - k,
{
    if k < ws.len() {
        assert(ws.take(k + 1).drop_last() =~= ws.take(k));
        lemma_materials_keep_error(sheet, rows, ws, k + 1);
    } else {
        assert(ws.take(k) =~= ws);
    }
}

} // verus!

verus! {

// ---------------------------------------------------------------------------
// A run: the decision after the inspection, and what it answers and pushes
// ---------------------------------------------------------------------------

/// What a run does once its change set was inspected.
#[derive(Debug, Clone, PartialEq, Eq)]
pub enum RunDecision {
    /// The change set is refused: nothing is applied, nothing is pushed.
    Refuse(MacroApplyError),
    /// The change set changes nothing: answered with its counts, nothing applied or pushed.
    Unchanged(ChangeSummary),
    /// The changes are applied, then answered with the counts.
    Apply(ChangeSummary),
}

/// Whether the counts say that nothing changes.
pub open spec fn summary_empty(s: ChangeSummary) -> bool {
    s.set_cells == 0 && s.inserted_rows == 0 && s.removed_rows == 0 && s.duplicated_rows == 0
}

/// The decision for an inspection's result.
pub open spec fn decision_of(inspection: Result<ChangeSummary, MacroApplyError>) -> RunDecision {
    match inspection {
        Err(e) => RunDecision::Refuse(e),
        Ok(s) => if summary_empty(s) {
            RunDecision::Unchanged(s)
        } else {
            RunDecision::Apply(s)
        },
    }
}

/// What a run answers for its decision.
pub open spec fn answer_of(decision: RunDecision) -> Result<ChangeSummary, MacroApplyError> {
    match decision {
        RunDecision::Refuse(e) => Err(e),
        RunDecision::Unchanged(s) => Ok(s),
        RunDecision::Apply(s) => Ok(s),
    }
}

/// Whether a run pushes a history entry: only an applied run whose steps changed something.
pub open spec fn pushes<C>(decision: RunDecision, steps: Seq<Step<C>>) -> bool {
    decision is Apply && assembled(steps).0.len() > 0
}

/// The decision of a run after the inspection of its change set: a refusal is answered at
/// once, a change set that changes nothing is answered with its counts, and only the rest is
/// applied.
pub fn decide_run(inspection: Result<ChangeSummary, MacroApplyError>) -> (r: RunDecision)
    ensures
        r == decision_of(inspection),
{
    match inspection {
        Err(e) => RunDecision::Refuse(e),
        Ok(s) => if s.is_empty() {
            RunDecision::Unchanged(s)
        } else {
            RunDecision::Apply(s)
        },
    }
}

/// The end of a run: its answer, and the one history entry to push (labelled as a macro
/// run), if any. `steps` are the steps applied (none unless the decision was to apply).
pub fn run_outcome<C>(decision: RunDecision, steps: Vec<Step<C>>) -> (r: (
    Result<ChangeSummary, MacroApplyError>,
    Option<(Collapsed<C>, Collapsed<C>)>,
))
    ensures
        r.0 == answer_of(decision),
        r.1 is Some == pushes(decision, steps@),
        r.1 matches Some(pair) ==> bundles(pair.0, assembled(steps@).0) && bundles(pair.1, assembled(steps@).1),
{
    match decision {
        RunDecision::Refuse(e) => (Err(e), None),
        RunDecision::Unchanged(s) => (Ok(s), None),
        RunDecision::Apply(s) => (Ok(s), history_entry(steps)),
    }
}

/// A run pushes at most one history entry, so the history grows by at most one; a refused
/// change set and one that changes nothing are answered without applying anything and
/// without pushing; and what a run answers is exactly what the inspection gave (its error,
/// or its counts).
pub proof fn lemma_a_run_pushes_at_most_one_entry<C>(
    inspection: Result<ChangeSummary, MacroApplyError>,
    steps: Seq<Step<C>>,
)
    ensures
        answer_of(decision_of(inspection)) == inspection,
        pushes(decision_of(inspection), steps) ==> decision_of(inspection) is Apply,
        inspection is Err ==> !(decision_of(inspection) is Apply) && !pushes(decision_of(inspection), steps),
        inspection matches Ok(s) && summary_empty(s) ==> !(decision_of(inspection) is Apply) && !pushes(
            decision_of(inspection),
            steps,
        ),
{
}

// ---------------------------------------------------------------------------
// The step of a batch of cell writes
// ---------------------------------------------------------------------------

/// A written row as the step restores it: its key, its position and its values.
pub open spec fn restored_rows<V>(materials: Seq<(u64, usize)>, values: Seq<Vec<V>>) -> Seq<(u64, usize, Vec<V>)> {
    Seq::new(materials.len(), |k: int| (materials[k].0, materials[k].1, values[k]))
}

/// The step of a batch of cell writes: undoing restores each written row (once, in the
/// order of `materials`, with its key and position) to its values before the writes, and
/// redoing restores the same rows to their values after the writes. `before[k]` and
/// `after[k]` are the values of the row `materials[k]`.
pub fn cells_step<V>(materials: Vec<(u64, usize)>, before: Vec<Vec<V>>, after: Vec<Vec<V>>) -> (r: Step<
    Vec<(u64, usize, Vec<V>)>,
>)
    requires
        before@.len() == materials@.len(),
        after@.len() == materials@.len(),
    ensures
        r.inverse@.len() == 1 && r.inverse@[0]@ == restored_rows(materials@, before@),
        r.redo@.len() == 1 && r.redo@[0]@ == restored_rows(materials@, after@),
{
    let n = materials.len();
    let mut undo: Vec<(u64, usize, Vec<V>)> = Vec::new();
    let mut again: Vec<(u64, usize, Vec<V>)> = Vec::new();
    let mut before = before;
    let mut after = after;
    let ghost b0 = before@;
    let ghost a0 = after@;
    let mut k: usize = 0;
    while k < n
        invariant
            n == materials@.len(),
            b0.len() == n,
            a0.len() == n,
            k <= n,
            before@ == b0.skip(k as int),
            after@ == a0.skip(k as int),
            undo@ == restored_rows(materials@, b0).take(k as int),
            again@ == restored_rows(materials@, a0).take(k as int),
        decreases n - k,
    {
        let b = before.remove(0);
        let a = after.remove(0);
        assert(b == b0[k as int]);
        assert(a == a0[k as int]);
        undo.push((materials[k].0, materials[k].1, b));
        again.push((materials[k].0, materials[k].1, a));
        assert(before@ =~= b0.skip(k + 1));
        assert(after@ =~= a0.skip(k + 1));
        assert(undo@ =~= restored_rows(materials@, b0).take(k + 1));
        assert(again@ =~= restored_rows(materials@, a0).take(k + 1));
        k = k + 1;
    }
    assert(undo@ =~= restored_rows(materials@, b0));
    assert(again@ =~= restored_rows(materials@, a0));
    Step { inverse: vec![undo], redo: vec![again] }
}

} // verus!

verus! {

// ---------------------------------------------------------------------------
// What the inspection accepts
// ---------------------------------------------------------------------------

proof fn lemma_first_wide(widths: Seq<usize>, columns: nat)
    ensures
        first_wide(widths, columns) is None <==> forall|i: int| 0 <= i < widths.len() ==> #[trigger] widths[i] <= columns,
    decreases widths.len(),
{
    if widths.len() > 0 {
        lemma_first_wide(widths.drop_first(), columns);
        if first_wide(widths, columns) is None {
            assert forall|i: int| 0 <= i < widths.len() implies #[trigger] widths[i] <= columns by {
                if i > 0 {
                    assert(widths.drop_first()[i - 1] == widths[i]);
                }
            }
        } else if widths[0] <= columns {
            let i = choose|i: int| 0 <= i < widths.drop_first().len() && !(#[trigger] widths.drop_first()[i] <= columns);
            assert(widths[i + 1] == widths.drop_first()[i]);
        }
    }
}

proof fn lemma_first_missing(rows: Seq<(u64, String)>, present: Set<u64>)
    ensures
        first_missing(rows, present) is None <==> forall|i: int| 0 <= i < rows.len() ==> present.contains(
            #[trigger] rows[i].0,
        ),
    decreases rows.len(),
{
    if rows.len() > 0 {
        lemma_first_missing(rows.drop_first(), present);
        if first_missing(rows, present) is None {
            assert forall|i: int| 0 <= i < rows.len() implies present.contains(#[trigger] rows[i].0) by {
                if i > 0 {
                    assert(rows.drop_first()[i - 1] == rows[i]);
                }
            }
        } else if present.contains(rows[0].0) {
            let i = choose|i: int|
                0 <= i < rows.drop_first().len() && !present.contains(#[trigger] rows.drop_first()[i].0);
            assert(rows[i + 1] == rows.drop_first()[i]);
        }
    }
}

/// Whether a change can be applied to the target sheet: it names the sheet, every row it
/// names is there, the column it writes is in range, and no row it appends is wider than
/// the columns.
pub open spec fn change_fits(sheet: Seq<char>, columns: nat, present: Set<u64>, change: ChangeView) -> bool {
    match change {
        ChangeView::Insert(named, widths) => named == sheet && forall|i: int|
            0 <= i < widths.len() ==> #[trigger] widths[i] <= columns,
        ChangeView::Duplicate(named, rows) => named == sheet && forall|i: int|
            0 <= i < rows.len() ==> present.contains(#[trigger] rows[i].0),
        ChangeView::SetCells(named, row, _, column) => named == sheet && present.contains(row) && column < columns,
        ChangeView::Remove(named, rows) => named == sheet && forall|i: int|
            0 <= i < rows.len() ==> present.contains(#[trigger] rows[i].0),
    }
}

/// A change is refused exactly when it does not fit.
pub proof fn lemma_change_refused_unless_it_fits(sheet: Seq<char>, columns: nat, present: Set<u64>, change: ChangeView)
    ensures
        change_refusal(sheet, columns, present, change) is None <==> change_fits(sheet, columns, present, change),
{
    match change {
        ChangeView::Insert(_, widths) => lemma_first_wide(widths, columns),
        ChangeView::Duplicate(_, rows) => lemma_first_missing(rows, present),
        ChangeView::Remove(_, rows) => lemma_first_missing(rows, present),
        ChangeView::SetCells(..) => {},
    }
}

/// The inspection of a usable sheet accepts the change set with its counts exactly when
/// every change fits the sheet; otherwise it refuses with the refusal of the first change,
/// in application order, that does not fit.
pub proof fn lemma_inspection_refuses_the_first_misfit(
    sheet: Seq<char>,
    columns: nat,
    present: Set<u64>,
    changes: Seq<ChangeView>,
)
    ensures
        changes_refusal(sheet, columns, present, changes) is None <==> forall|i: int|
            0 <= i < changes.len() ==> change_fits(sheet, columns, present, #[trigger] changes[i]),
        changes_refusal(sheet, columns, present, changes) matches Some(e) ==> exists|i: int|
            0 <= i < changes.len() && change_refusal(sheet, columns, present, #[trigger] changes[i]) == Some(e)
                && forall|j: int| 0 <= j < i ==> change_fits(sheet, columns, present, #[trigger] changes[j]),
    decreases changes.len(),
{
    if changes.len() > 0 {
        let rest = changes.drop_first();
        lemma_inspection_refuses_the_first_misfit(sheet, columns, present, rest);
        lemma_change_refused_unless_it_fits(sheet, columns, present, changes[0]);
        assert forall|i: int| 0 <= i < rest.len() implies #[trigger] rest[i] == changes[i + 1] by {}
        if change_refusal(sheet, columns, present, changes[0]) is None {
            if changes_refusal(sheet, columns, present, changes) is None {
                assert forall|i: int| 0 <= i < changes.len() implies change_fits(
                    sheet,
                    columns,
                    present,
                    #[trigger] changes[i],
                ) by {
                    if i > 0 {
                        assert(rest[i - 1] == changes[i]);
                    }
                }
            } else {
                let e = changes_refusal(sheet, columns, present, changes)->0;
                let k = choose|k: int|
                    0 <= k < rest.len() && change_refusal(sheet, columns, present, #[trigger] rest[k]) == Some(e)
                        && forall|j: int| 0 <= j < k ==> change_fits(sheet, columns, present, #[trigger] rest[j]);
                assert(changes[k + 1] == rest[k]);
                assert forall|j: int| 0 <= j < k + 1 implies change_fits(sheet, columns, present, #[trigger] changes[j]) by {
                    if j > 0 {
                        assert(rest[j - 1] == changes[j]);
                    }
                }
                let k2 = choose|k2: int| 0 <= k2 < rest.len() && !change_fits(sheet, columns, present, #[trigger] rest[k2]);
                assert(changes[k2 + 1] == rest[k2]);
            }
        } else {
            assert(!change_fits(sheet, columns, present, changes[0]));
        }
    }
}

} // verus!

verus! {

/// A run is applied exactly when some count of its change set is not zero: cells written,
/// rows appended, rows removed or rows duplicated; a change set whose four counts are all
/// zero is answered unchanged, and a refused one is refused with its error.
pub proof fn lemma_any_change_is_applied(inspection: Result<ChangeSummary, MacroApplyError>)
    ensures
        inspection matches Ok(s) ==> (decision_of(inspection) == RunDecision::Apply(s) <==> (s.set_cells > 0
            || s.inserted_rows > 0 || s.removed_rows > 0 || s.duplicated_rows > 0)),
        inspection matches Ok(s) ==> (decision_of(inspection) == RunDecision::Unchanged(s) <==> (s.set_cells
            == 0 && s.inserted_rows == 0 && s.removed_rows == 0 && s.duplicated_rows == 0)),
        inspection matches Err(e) ==> decision_of(inspection) == RunDecision::Refuse(e),
{
}

} // verus!
