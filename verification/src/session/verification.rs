//! The verification trigger of the session path: its grammar (`open,edit,<rows>,save`), the
//! checks that stop a run that could not show a change reaching the saved file, and the plan
//! of the one batch of cell writes (each selected row takes the values of the next row).
use vstd::prelude::*;
use vstd::std_specs::cmp::PartialEqSpec;
use crate::session::state::{CloseAnswer, OriginView, SessionState, StateView};
use crate::text::{decimal, parse_unsigned, parse_usize, push_decimal, split, split_char, str_equal, trim, trimmed, views};

verus! {

/// The environment variable read by the session trigger.
pub const VERIFY_SESSION_ENV: &'static str = "JXCEL_VERIFICATION_SESSION";

/// A trigger value as read: the number of rows to rewrite (at least one).
#[derive(Debug, Clone, Copy, PartialEq, Eq, Structural)]
pub struct SessionTrigger {
    /// The number of rows to rewrite.
    pub rows: usize,
}

/// The meaning of a trigger value: exactly four comma-separated elements `open`, `edit`, a
/// decimal row count of at least one, and `save`, each with surrounding whitespace ignored.
pub open spec fn session_trigger(value: Seq<char>) -> Option<nat> {
    let parts = split(value, ',');
    if parts.len() == 4 && trim(parts[0]) == "open"@ && trim(parts[1]) == "edit"@ && trim(parts[3])
        == "save"@ {
        match parse_unsigned(trim(parts[2]), usize::MAX as nat) {
            Some(n) => if n > 0 {
                Some(n)
            } else {
                None
            },
            None => None,
        }
    } else {
        None
    }
}

/// Reads a trigger value; a value that means nothing gives nothing (and is ignored).
pub fn parse_session_trigger(value: &str) -> (r: Option<SessionTrigger>)
    ensures
        match session_trigger(value@) {
            Some(n) => r == Some(SessionTrigger { rows: n as usize }),
            None => r is None,
        },
{
    let parts = split_char(value, ',');
    if parts.len() != 4 {
        return None;
    }
    proof {
        assert(views(parts@)[0] == parts@[0]@);
        assert(views(parts@)[1] == parts@[1]@);
        assert(views(parts@)[2] == parts@[2]@);
        assert(views(parts@)[3] == parts@[3]@);
    }
    if !(str_equal(trimmed(parts[0].as_str()), "open") && str_equal(trimmed(parts[1].as_str()), "edit")
        && str_equal(trimmed(parts[3].as_str()), "save")) {
        return None;
    }
    match parse_usize(trimmed(parts[2].as_str())) {
        Some(rows) => if rows == 0 {
            None
        } else {
            Some(SessionTrigger { rows })
        },
        None => None,
    }
}

// ---------------------------------------------------------------------------
// Checks before the batch
// ---------------------------------------------------------------------------

/// Why a run stops before touching the document: no column, fewer than two rows (a rotation
/// of one row is the identity), or more rows asked for than were loaded.
pub open spec fn shape_refusal(columns: nat, loaded: nat, rows: nat) -> Option<Seq<char>> {
    if columns == 0 {
        Some("先頭のシートに列が無い"@)
    } else if loaded < 2 {
        Some("行の値を回転させるには 2 行以上要る（読み込んだ行数 = "@ + decimal(loaded) + "）"@)
    } else if rows > loaded {
        Some("引き金の行数 "@ + decimal(rows) + " が読み込んだ行数 "@ + decimal(loaded) + " を超えている"@)
    } else {
        None
    }
}

/// Checks the first sheet's shape against the trigger before anything is applied.
pub fn check_shape(columns: usize, loaded: usize, rows: usize) -> (r: Result<(), String>)
    ensures
        match shape_refusal(columns as nat, loaded as nat, rows as nat) {
            Some(reason) => r matches Err(e) && e@ == reason,
            None => r is Ok,
        },
{
    if columns == 0 {
        return Err("先頭のシートに列が無い".to_owned());
    }
    if loaded < 2 {
        let mut out = "行の値を回転させるには 2 行以上要る（読み込んだ行数 = ".to_owned();
        push_decimal(&mut out, loaded as u64);
        out.append("）");
        return Err(out);
    }
    if rows > loaded {
        let mut out = "引き金の行数 ".to_owned();
        push_decimal(&mut out, rows as u64);
        out.append(" が読み込んだ行数 ");
        push_decimal(&mut out, loaded as u64);
        out.append(" を超えている");
        return Err(out);
    }
    Ok(())
}

// ---------------------------------------------------------------------------
// The batch: each selected row takes the values of the next row
// ---------------------------------------------------------------------------

/// The row whose values row `p` takes: the next one, the last taking the first.
pub open spec fn source_of(p: nat, total: nat) -> nat {
    (p + 1) % total
}

/// How many columns row `p` is written: the columns the sheet has and the source row holds.
pub open spec fn written_columns<V>(rows: Seq<Seq<V>>, columns: nat, p: nat) -> nat {
    let width = rows[source_of(p, rows.len()) as int].len();
    if columns <= width {
        columns
    } else {
        width
    }
}

/// The writes of row `p`: (target row, column, source row) for each written column.
pub open spec fn row_writes<V>(rows: Seq<Seq<V>>, columns: nat, p: nat) -> Seq<(usize, usize, usize)> {
    Seq::new(
        written_columns(rows, columns, p),
        |c: int| (p as usize, c as usize, source_of(p, rows.len()) as usize),
    )
}

/// The writes of the first `count` rows, in row and column order.
pub open spec fn rotation_writes<V>(rows: Seq<Seq<V>>, columns: nat, count: nat) -> Seq<
    (usize, usize, usize),
>
    decreases count,
{
    if count == 0 {
        Seq::empty()
    } else {
        rotation_writes(rows, columns, (count - 1) as nat) + row_writes(rows, columns, (count - 1) as nat)
    }
}

/// Whether writing column `c` of row `p` changes the cell.
pub open spec fn write_changes<V: PartialEq>(rows: Seq<Seq<V>>, p: nat, c: nat) -> bool {
    let s = source_of(p, rows.len()) as int;
    c >= rows[p as int].len() || !rows[p as int][c as int].eq_spec(&rows[s][c as int])
}

/// Whether the first `count` rows' writes change at least one cell.
pub open spec fn rotation_changes<V: PartialEq>(rows: Seq<Seq<V>>, columns: nat, count: nat) -> bool {
    exists|p: nat, c: nat| p < count && c < written_columns(rows, columns, p) && #[trigger] write_changes(rows, p, c)
}

/// What planning the batch gives: a refusal for a sheet without the shape, for a row that
/// is not there, or for a rotation that changes nothing; else the writes.
pub open spec fn rotation_outcome<V: PartialEq>(rows: Seq<Seq<V>>, columns: nat, count: nat) -> Result<
    Seq<(usize, usize, usize)>,
    Seq<char>,
> {
    if rows.len() < 2 || columns == 0 {
        Err("シートの形が書き換えに足りない"@)
    } else if count > rows.len() {
        Err("行 "@ + decimal(rows.len() as nat) + " を読めなかった"@)
    } else if !rotation_changes(rows, columns, count) {
        Err("行の値を回転しても内容が変わらない（選択した行がすべて同じ値である）"@)
    } else {
        Ok(rotation_writes(rows, columns, count))
    }
}

/// Plans the one batch of the trigger over the first sheet's rows in document order, each
/// cell given by a key (equal cells have equal keys): each of the first `count` rows takes,
/// column by column, the values of the next row. The writes are (target row, column, source
/// row); the caller copies the values into one write of cells.
pub fn rotation_plan(rows: &Vec<Vec<u64>>, columns: usize, count: usize) -> (r: Result<
    Vec<(usize, usize, usize)>,
    String,
>)
    ensures
        match rotation_outcome(rows@.map_values(|r: Vec<u64>| r@), columns as nat, count as nat) {
            Ok(writes) => r matches Ok(w) && w@ == writes,
            Err(reason) => r matches Err(e) && e@ == reason,
        },
{
    let ghost rs = rows@.map_values(|r: Vec<u64>| r@);
    let total = rows.len();
    if total < 2 || columns == 0 {
        return Err("シートの形が書き換えに足りない".to_owned());
    }
    let mut writes: Vec<(usize, usize, usize)> = Vec::new();
    let mut changed = false;
    let mut p: usize = 0;
    while p < count
        invariant
            total == rows@.len(),
            rs == rows@.map_values(|r: Vec<u64>| r@),
            total >= 2,
            columns > 0,
            p <= count,
            p <= total,
            writes@ == rotation_writes(rs, columns as nat, p as nat),
            changed == exists|q: nat, c: nat|
                q < p && c < written_columns(rs, columns as nat, q) && #[trigger] write_changes(rs, q, c),
        decreases count - p,
    {
        if p >= total {
            let mut out = "行 ".to_owned();
            push_decimal(&mut out, p as u64);
            out.append(" を読めなかった");
            return Err(out);
        }
        let source_index = if p + 1 == total {
            0
        } else {
            p + 1
        };
        assert(source_index as nat == source_of(p as nat, total as nat)) by {
            if p + 1 == total {
                vstd::arithmetic::div_mod::lemma_mod_self_0(total as int);
            } else {
                vstd::arithmetic::div_mod::lemma_small_mod((p + 1) as nat, total as nat);
            }
        }
        let target = &rows[p];
        let source = &rows[source_index];
        assert(rs[p as int] == target@);
        assert(rs[source_index as int] == source@);
        let width = if columns <= source.len() {
            columns
        } else {
            source.len()
        };
        let ghost before = writes@;
        let ghost changed_before = changed;
        let mut c: usize = 0;
        while c < width
            invariant
                total == rows@.len(),
                rs == rows@.map_values(|r: Vec<u64>| r@),
                p < total,
                source_index as nat == source_of(p as nat, total as nat),
                rs[p as int] == target@,
                rs[source_index as int] == source@,
                width == written_columns(rs, columns as nat, p as nat),
                c <= width,
                    writes@ == before + row_writes(rs, columns as nat, p as nat).take(c as int),
                changed == (changed_before || exists|d: nat| d < c && #[trigger] write_changes(rs, p as nat, d)),
            decreases width - c,
        {
            let differs = if c < target.len() {
                !(target[c] == source[c])
            } else {
                true
            };
            proof {
                assert(differs == write_changes(rs, p as nat, c as nat));
            }
            writes.push((p, c, source_index));
            assert(row_writes(rs, columns as nat, p as nat).take(c + 1) =~= row_writes(
                rs,
                columns as nat,
                p as nat,
            ).take(c as int).push((p, c, source_index)));
            if differs {
                changed = true;
            }
            proof {
                if differs {
                    assert(write_changes(rs, p as nat, c as nat));
                }
            }
            c = c + 1;
        }
        assert(row_writes(rs, columns as nat, p as nat).take(width as int) =~= row_writes(
            rs,
            columns as nat,
            p as nat,
        ));
        proof {
            assert(changed == exists|q: nat, d: nat|
                q < p + 1 && d < written_columns(rs, columns as nat, q) && #[trigger] write_changes(rs, q, d)) by {
                if changed {
                    if changed_before {
                        let (q, d) = choose|q: nat, d: nat|
                            q < p && d < written_columns(rs, columns as nat, q) && #[trigger] write_changes(rs, q, d);
                        assert(q < p + 1 && d < written_columns(rs, columns as nat, q) && write_changes(rs, q, d));
                    } else {
                        let d = choose|d: nat| d < width && #[trigger] write_changes(rs, p as nat, d);
                        assert((p as nat) < p + 1 && d < written_columns(rs, columns as nat, p as nat) && write_changes(rs, p as nat, d));
                    }
                } else {
                    assert forall|q: nat, d: nat|
                        q < p + 1 && d < written_columns(rs, columns as nat, q) implies !#[trigger] write_changes(rs, q, d) by {
                        if q < p {
                        } else {
                            assert(q == p);
                        }
                    }
                }
            }
        }
        p = p + 1;
    }
    if count > total {
        proof {
            assert(p == total);
        }
        let mut out = "行 ".to_owned();
        push_decimal(&mut out, total as u64);
        out.append(" を読めなかった");
        return Err(out);
    }
    if !changed {
        return Err("行の値を回転しても内容が変わらない（選択した行がすべて同じ値である）".to_owned());
    }
    Ok(writes)
}

// ---------------------------------------------------------------------------
// Words of the record
// ---------------------------------------------------------------------------


// ---------------------------------------------------------------------------
// The run, one step at a time
// ---------------------------------------------------------------------------

/// What the driver of a run reports after each step it performed.
pub enum TriggerEvent {
    /// The requested document was loaded: the first sheet's column count and its rows in
    /// document order, each cell given by a key (equal cells, equal keys); none when the
    /// document has no sheet.
    Loaded(Option<(usize, Vec<Vec<u64>>)>),
    /// The planned writes were applied in one edit.
    Edited,
    /// The document was saved.
    Saved,
}

/// What the driver of a run does next.
pub enum TriggerAction {
    /// Stop with the reason: the run makes no edit and no save.
    Refuse(String),
    /// Apply these writes (target row, column, source row) in one edit.
    Edit(Vec<(usize, usize, usize)>),
    /// Save the document.
    Save,
    /// The run is complete.
    Finish,
}

/// The rows of a loaded sheet, by their keys.
pub open spec fn keys_view(cells: Vec<Vec<u64>>) -> Seq<Seq<u64>> {
    cells@.map_values(|r: Vec<u64>| r@)
}

/// The plan of a run once the document is loaded: the shape check first, then the batch.
pub open spec fn trigger_plan(columns: nat, cells: Seq<Seq<u64>>, rows: nat) -> Result<
    Seq<(usize, usize, usize)>,
    Seq<char>,
> {
    match shape_refusal(columns, cells.len(), rows) {
        Some(reason) => Err(reason),
        None => rotation_outcome(cells, columns, rows),
    }
}

/// The next step of a run that rewrites `rows` rows: after the load, the refusal or the one
/// edit of the plan; after the edit, the save; after the save, the end. A refused plan is
/// answered before anything is written, so the run neither edits nor saves.
pub fn next_trigger_action(rows: usize, event: TriggerEvent) -> (r: TriggerAction)
    ensures
        match event {
            TriggerEvent::Loaded(None) => r matches TriggerAction::Refuse(e) && e@ == "文書にシートが無い"@,
            TriggerEvent::Loaded(Some(loaded)) => match trigger_plan(loaded.0 as nat, keys_view(loaded.1), rows as nat) {
                Ok(writes) => r matches TriggerAction::Edit(w) && w@ == writes,
                Err(reason) => r matches TriggerAction::Refuse(e) && e@ == reason,
            },
            TriggerEvent::Edited => r is Save,
            TriggerEvent::Saved => r is Finish,
        },
{
    match event {
        TriggerEvent::Loaded(None) => TriggerAction::Refuse("文書にシートが無い".to_owned()),
        TriggerEvent::Loaded(Some((columns, cells))) => {
            match check_shape(columns, cells.len(), rows) {
                Err(reason) => TriggerAction::Refuse(reason),
                Ok(()) => match rotation_plan(&cells, columns, rows) {
                    Ok(writes) => TriggerAction::Edit(writes),
                    Err(reason) => TriggerAction::Refuse(reason),
                },
            }
        },
        TriggerEvent::Edited => TriggerAction::Save,
        TriggerEvent::Saved => TriggerAction::Finish,
    }
}

/// A run of the trigger neither edits nor saves exactly when the loaded sheet has no column,
/// fewer than two rows, fewer rows than asked for, or rows whose rotation changes no cell:
/// the step after the load is then the refusal, the last step of the run. Otherwise the
/// step after the load is the edit of the rotation, whose writes change some cell.
pub proof fn lemma_refused_runs_neither_edit_nor_save(cells: Seq<Seq<u64>>, columns: nat, rows: nat)
    ensures
        trigger_plan(columns, cells, rows) is Err <==> (columns == 0 || cells.len() < 2 || rows > cells.len()
            || !rotation_changes(cells, columns, rows)),
        trigger_plan(columns, cells, rows) matches Ok(writes) ==> writes == rotation_writes(cells, columns, rows)
            && rotation_changes(cells, columns, rows),
{
}

/// The record's word for the close answer.
pub fn describe_close(answer: CloseAnswer) -> (r: &'static str)
    ensures
        r@ == (if answer == CloseAnswer::Allow {
            "許可"@
        } else {
            "拒否"@
        }),
{
    match answer {
        CloseAnswer::Allow => "許可",
        CloseAnswer::Deny => "拒否",
    }
}

/// The record's word for a core snapshot.
pub fn describe_state(state: &SessionState) -> (r: &'static str)
    ensures
        r@ == (match state@ {
            StateView::Absent => "Absent"@,
            StateView::Open { .. } => "Open"@,
            StateView::Unavailable { .. } => "Unavailable"@,
        }),
{
    match state {
        SessionState::Absent => "Absent",
        SessionState::Open { .. } => "Open",
        SessionState::Unavailable { .. } => "Unavailable",
    }
}

/// Where the saved file is, read from the snapshot after saving: its origin's location, or
/// why it cannot be found there.
pub fn saved_location(state: &SessionState) -> (r: Result<&str, String>)
    ensures
        match state@ {
            StateView::Open { origin: OriginView::File(path), .. } => r matches Ok(p) && p@ == path,
            _ => r matches Err(e) && e@ == "保存のあとの出所がファイルでない（状態 = "@ + (match state@ {
                StateView::Absent => "Absent"@,
                StateView::Open { .. } => "Open"@,
                StateView::Unavailable { .. } => "Unavailable"@,
            }) + ")"@,
        },
{
    match state {
        SessionState::Open { origin: crate::session::state::Origin::File(path), .. } => Ok(path.as_str()),
        other => {
            let mut out = "保存のあとの出所がファイルでない（状態 = ".to_owned();
            out.append(describe_state(other));
            out.append(")");
            Err(out)
        },
    }
}

/// The facts of one completed run, as recorded.
#[derive(Debug, Clone, Copy, PartialEq, Eq, Structural)]
pub struct SessionTriggerOutcome {
    /// Rows of the first sheet after loading.
    pub rows_loaded: usize,
    /// The revision after the batch (one after loading, two after the batch).
    pub revision: u64,
    /// Rows the trigger asked to rewrite.
    pub rows_applied: usize,
    /// Cells written by the one batch.
    pub cells_applied: usize,
    /// Bytes of the saved file.
    pub bytes_saved: u64,
    /// The close answer before saving (a refusal: the batch left unsaved changes).
    pub may_close_before: CloseAnswer,
    /// The close answer after saving (allowed: saving dropped them).
    pub may_close_after: CloseAnswer,
}

} // verus!
