//! The macro host's own checks: a change is refused when it names a sheet, row or column the
//! document does not have; capability calls resolve relative paths next to the saved
//! document and stay within their size limits; the network fetch takes `http` and `https`
//! only and accepts a successful, small, UTF-8 body.
use vstd::prelude::*;
use vstd::std_specs::hash::group_hash_axioms;
use vstd::utf8::{decode_utf8, valid_utf8};
use vstd::string::StringSliceAdditionalSpecFns;
use std::collections::HashSet;
use crate::macro_apply::{SheetShape, row_index};
use crate::session::state::{OriginView, SessionState, StateView};
use crate::text::{decimal, push_decimal};

verus! {

broadcast use group_hash_axioms;

/// The read limit of `file.read`, in bytes (16 MiB).
pub const MAX_FILE_READ_BYTES: u64 = 16777216;

/// The write limit of `file.write`, in bytes (16 MiB).
pub const MAX_FILE_WRITE_BYTES: usize = 16777216;

/// The body limit of `net.fetch`, in bytes (4 MiB).
pub const MAX_NET_BYTES: usize = 4194304;

/// The time limit of one `net.fetch`, in seconds (the run's default time limit).
pub const NET_TIMEOUT_SECONDS: u64 = 30;

/// One change a macro stages, as the host checks it against the document.
#[derive(Debug, Clone, PartialEq, Eq)]
pub enum HostChange {
    /// Cell writes: (row key, row identifier as text, column) of each write.
    SetCells {
        /// The sheet.
        sheet: String,
        /// The writes' rows and columns.
        writes: Vec<(u64, String, usize)>,
    },
    /// Rows appended: the number of values of each row.
    InsertRows {
        /// The sheet.
        sheet: String,
        /// The values' counts.
        widths: Vec<usize>,
    },
    /// Rows removed: (row key, row identifier as text) of each.
    RemoveRows {
        /// The sheet.
        sheet: String,
        /// The rows.
        rows: Vec<(u64, String)>,
    },
    /// Rows duplicated: (row key, row identifier as text) of each.
    DuplicateRows {
        /// The sheet.
        sheet: String,
        /// The rows.
        rows: Vec<(u64, String)>,
    },
}

/// Why a sheet is refused: it is not in the document.
pub open spec fn no_sheet_text(sheet: Seq<char>) -> Seq<char> {
    "シート "@ + sheet + " はこの文書に無い"@
}

/// Why a row is refused.
pub open spec fn no_row_text(sheet: Seq<char>, row: Seq<char>) -> Seq<char> {
    "行 "@ + row + " はシート "@ + sheet + " に無い"@
}

/// Why a column is refused.
pub open spec fn column_out_of_range_text(sheet: Seq<char>, column: usize, columns: usize) -> Seq<char> {
    "列 "@ + decimal(column as nat) + " はシート "@ + sheet + " の範囲外である（列数 "@ + decimal(
        columns as nat,
    ) + "）"@
}

/// Why an appended row is refused.
pub open spec fn width_mismatch_text(index: nat, sheet: Seq<char>, columns: usize) -> Seq<char> {
    decimal(index) + " 番目に追加する行の値の数が列の数と一致しない（シート "@ + sheet + " の列数は "@
        + decimal(columns as nat) + "）"@
}

/// The first position whose write names a row not in `present`.
pub open spec fn first_absent_write(writes: Seq<(u64, String, usize)>, present: Set<u64>) -> Option<int> {
    if exists|i: int| 0 <= i < writes.len() && !present.contains(writes[i].0) {
        Some(choose|i: int|
            0 <= i < writes.len() && !present.contains(writes[i].0) && forall|j: int|
                0 <= j < i ==> present.contains(#[trigger] writes[j].0))
    } else {
        None
    }
}

/// The first position whose write names a column not below `columns`.
pub open spec fn first_wide_write(writes: Seq<(u64, String, usize)>, columns: usize) -> Option<int> {
    if exists|i: int| 0 <= i < writes.len() && writes[i].2 >= columns {
        Some(choose|i: int|
            0 <= i < writes.len() && writes[i].2 >= columns && forall|j: int|
                0 <= j < i ==> (#[trigger] writes[j]).2 < columns)
    } else {
        None
    }
}

/// The first appended row whose number of values differs from `columns`.
pub open spec fn first_mismatch(widths: Seq<usize>, columns: usize) -> Option<int> {
    if exists|i: int| 0 <= i < widths.len() && widths[i] != columns {
        Some(choose|i: int|
            0 <= i < widths.len() && widths[i] != columns && forall|j: int|
                0 <= j < i ==> #[trigger] widths[j] == columns)
    } else {
        None
    }
}

/// The first row not in `present`.
pub open spec fn first_absent_row(rows: Seq<(u64, String)>, present: Set<u64>) -> Option<int> {
    if exists|i: int| 0 <= i < rows.len() && !present.contains(rows[i].0) {
        Some(choose|i: int|
            0 <= i < rows.len() && !present.contains(rows[i].0) && forall|j: int|
                0 <= j < i ==> present.contains(#[trigger] rows[j].0))
    } else {
        None
    }
}

/// Why a staged change is refused against the document (the sheet it names as found
/// there, or none): an empty change is never refused; otherwise the sheet must be there,
/// and then every row it names must exist, every written column must be in range, and every
/// appended row must have exactly one value per column.
pub open spec fn host_refusal(change: HostChange, found: Option<(usize, Seq<u64>)>) -> Option<Seq<char>> {
    match change {
        HostChange::SetCells { sheet, writes } => if writes@.len() == 0 {
            None
        } else {
            match found {
                None => Some(no_sheet_text(sheet@)),
                Some((columns, rows)) => match first_absent_write(writes@, rows.to_set()) {
                    Some(i) => Some(no_row_text(sheet@, writes@[i].1@)),
                    None => match first_wide_write(writes@, columns) {
                        Some(i) => Some(column_out_of_range_text(sheet@, writes@[i].2, columns)),
                        None => None,
                    },
                },
            }
        },
        HostChange::InsertRows { sheet, widths } => if widths@.len() == 0 {
            None
        } else {
            match found {
                None => Some(no_sheet_text(sheet@)),
                Some((columns, rows)) => match first_mismatch(widths@, columns) {
                    Some(i) => Some(width_mismatch_text(i as nat, sheet@, columns)),
                    None => None,
                },
            }
        },
        HostChange::RemoveRows { sheet, rows: named } | HostChange::DuplicateRows {
            sheet,
            rows: named,
        } => if named@.len() == 0 {
            None
        } else {
            match found {
                None => Some(no_sheet_text(sheet@)),
                Some((columns, rows)) => match first_absent_row(named@, rows.to_set()) {
                    Some(i) => Some(no_row_text(sheet@, named@[i].1@)),
                    None => None,
                },
            }
        },
    }
}

/// The view of a found sheet.
pub open spec fn found_view(found: Option<&SheetShape>) -> Option<(usize, Seq<u64>)> {
    match found {
        Some(s) => Some((s.columns, s.rows@)),
        None => None,
    }
}

/// "Row … is not in sheet …".
fn no_row(sheet: &str, row: &str) -> (r: String)
    ensures
        r@ == no_row_text(sheet@, row@),
{
    let mut out = "行 ".to_owned();
    out.append(row);
    out.append(" はシート ");
    out.append(sheet);
    out.append(" に無い");
    out
}

/// "Sheet … is not in this document".
fn no_sheet(sheet: &str) -> (r: String)
    ensures
        r@ == no_sheet_text(sheet@),
{
    let mut out = "シート ".to_owned();
    out.append(sheet);
    out.append(" はこの文書に無い");
    out
}

/// The first position of a row not in the index.
fn find_absent_row(rows: &Vec<(u64, String)>, index: &HashSet<u64>) -> (r: Option<usize>)
    ensures
        match r {
            Some(i) => i < rows@.len() && first_absent_row(rows@, index@) == Some(i as int),
            None => first_absent_row(rows@, index@) is None,
        },
{
    let mut i: usize = 0;
    while i < rows.len()
        invariant
            i <= rows@.len(),
            forall|j: int| 0 <= j < i ==> index@.contains(#[trigger] rows@[j].0),
        decreases rows@.len() - i,
    {
        if !index.contains(&rows[i].0) {
            proof {
                let k = choose|k: int|
                    0 <= k < rows@.len() && !index@.contains(rows@[k].0) && forall|j: int|
                        0 <= j < k ==> index@.contains(#[trigger] rows@[j].0);
                if k < i {
                } else if k > i {
                    assert(index@.contains(rows@[i as int].0));
                }
            }
            return Some(i);
        }
        i = i + 1;
    }
    None
}

/// Checks a staged change against the document before it is collected. `found` is the
/// sheet the change names as found in the document (none when it is not there).
#[verifier::loop_isolation(false)]
pub fn refuse_missing(change: &HostChange, found: Option<&SheetShape>) -> (r: Result<(), String>)
    ensures
        match host_refusal(*change, found_view(found)) {
            Some(reason) => r matches Err(e) && e@ == reason,
            None => r is Ok,
        },
{
    match change {
        HostChange::SetCells { sheet, writes } => {
            if writes.len() == 0 {
                return Ok(());
            }
            let target = match found {
                Some(target) => target,
                None => {
                    return Err(no_sheet(sheet.as_str()));
                },
            };
            let index = row_index(&target.rows);
            let mut i: usize = 0;
            while i < writes.len()
                invariant
                    i <= writes@.len(),
                    index@ == target.rows@.to_set(),
                    forall|j: int| 0 <= j < i ==> index@.contains(#[trigger] writes@[j].0),
                decreases writes@.len() - i,
            {
                if !index.contains(&writes[i].0) {
                    proof {
                        let k = choose|k: int|
                            0 <= k < writes@.len() && !index@.contains(writes@[k].0) && forall|j: int|
                                0 <= j < k ==> index@.contains(#[trigger] writes@[j].0);
                        if k < i {
                        } else if k > i {
                            assert(index@.contains(writes@[i as int].0));
                        }
                    }
                    return Err(no_row(sheet.as_str(), writes[i].1.as_str()));
                }
                i = i + 1;
            }
            let columns = target.columns;
            let mut i: usize = 0;
            while i < writes.len()
                invariant
                    i <= writes@.len(),
                    columns == target.columns,
                    forall|j: int| 0 <= j < i ==> (#[trigger] writes@[j]).2 < columns,
                decreases writes@.len() - i,
            {
                if writes[i].2 >= columns {
                    proof {
                        let k = choose|k: int|
                            0 <= k < writes@.len() && writes@[k].2 >= columns && forall|j: int|
                                0 <= j < k ==> (#[trigger] writes@[j]).2 < columns;
                        if k < i {
                        } else if k > i {
                            assert(writes@[i as int].2 < columns);
                        }
                    }
                    let mut out = "列 ".to_owned();
                    push_decimal(&mut out, writes[i].2 as u64);
                    out.append(" はシート ");
                    out.append(sheet.as_str());
                    out.append(" の範囲外である（列数 ");
                    push_decimal(&mut out, columns as u64);
                    out.append("）");
                    return Err(out);
                }
                i = i + 1;
            }
            Ok(())
        },
        HostChange::InsertRows { sheet, widths } => {
            if widths.len() == 0 {
                return Ok(());
            }
            let target = match found {
                Some(target) => target,
                None => {
                    return Err(no_sheet(sheet.as_str()));
                },
            };
            let columns = target.columns;
            let mut i: usize = 0;
            while i < widths.len()
                invariant
                    i <= widths@.len(),
                    columns == target.columns,
                    forall|j: int| 0 <= j < i ==> #[trigger] widths@[j] == columns,
                decreases widths@.len() - i,
            {
                if widths[i] != columns {
                    proof {
                        let k = choose|k: int|
                            0 <= k < widths@.len() && widths@[k] != columns && forall|j: int|
                                0 <= j < k ==> #[trigger] widths@[j] == columns;
                        if k < i {
                        } else if k > i {
                            assert(widths@[i as int] == columns);
                        }
                    }
                    let mut out = String::new();
                    push_decimal(&mut out, i as u64);
                    out.append(" 番目に追加する行の値の数が列の数と一致しない（シート ");
                    out.append(sheet.as_str());
                    out.append(" の列数は ");
                    push_decimal(&mut out, columns as u64);
                    out.append("）");
                    proof {
                        assert(Seq::<char>::empty() + decimal(i as nat) =~= decimal(i as nat));
                    }
                    return Err(out);
                }
                i = i + 1;
            }
            Ok(())
        },
        HostChange::RemoveRows { sheet, rows } | HostChange::DuplicateRows { sheet, rows } => {
            if rows.len() == 0 {
                return Ok(());
            }
            let target = match found {
                Some(target) => target,
                None => {
                    return Err(no_sheet(sheet.as_str()));
                },
            };
            let index = row_index(&target.rows);
            match find_absent_row(rows, &index) {
                Some(i) => Err(no_row(sheet.as_str(), rows[i].1.as_str())),
                None => Ok(()),
            }
        },
    }
}

} // verus!

verus! {

// ---------------------------------------------------------------------------
// Capability calls: paths and limits
// ---------------------------------------------------------------------------

/// Where a capability path is read from or written to.
#[derive(Debug, Clone, PartialEq, Eq)]
pub enum PathBase {
    /// The path is absolute: used as given.
    AsGiven,
    /// The path is relative: joined to the directory of the saved document at this location.
    NextTo(String),
}

/// How a capability path resolves: an empty path is refused, an absolute one is used as
/// given, a relative one is taken next to the saved document, and refused for a document
/// that was never saved (no base is invented).
pub open spec fn path_resolution(
    path: Seq<char>,
    capability: Seq<char>,
    absolute: bool,
    state: StateView,
) -> Result<Option<Seq<char>>, Seq<char>> {
    if path.len() == 0 {
        Err(capability + " に空のパスは渡せない"@)
    } else if absolute {
        Ok(None)
    } else {
        match state {
            StateView::Open { origin: OriginView::File(document), .. } => Ok(Some(document)),
            _ => Err(capability + " の相対パス "@ + path + " を解決できない（この文書はまだ保存されていない）"@),
        }
    }
}

/// Decides how a capability path resolves; `absolute` is whether the platform reads the
/// path as absolute, `state` the window's session snapshot.
pub fn resolve_relative(path: &str, capability: &str, absolute: bool, state: &SessionState) -> (r:
    Result<PathBase, String>)
    ensures
        match path_resolution(path@, capability@, absolute, state@) {
            Ok(None) => r == Ok::<PathBase, String>(PathBase::AsGiven),
            Ok(Some(document)) => r matches Ok(PathBase::NextTo(d)) && d@ == document,
            Err(reason) => r matches Err(e) && e@ == reason,
        },
{
    if path.unicode_len() == 0 {
        let mut out = capability.to_owned();
        out.append(" に空のパスは渡せない");
        return Err(out);
    }
    if absolute {
        return Ok(PathBase::AsGiven);
    }
    match state {
        SessionState::Open { origin: crate::session::state::Origin::File(document), .. } => Ok(
            PathBase::NextTo(document.clone()),
        ),
        _ => {
            let mut out = capability.to_owned();
            out.append(" の相対パス ");
            out.append(path);
            out.append(" を解決できない（この文書はまだ保存されていない）");
            Err(out)
        },
    }
}

/// Checks what `file.read` found before reading it: a directory is refused, and so is a
/// file above the read limit.
pub fn check_file_read(path: &str, is_dir: bool, len: u64) -> (r: Result<(), String>)
    ensures
        is_dir ==> (r matches Err(e) && e@ == path@
            + " はディレクトリである（file.read はテキストのファイルを読む）"@),
        !is_dir && len > MAX_FILE_READ_BYTES ==> (r matches Err(e) && e@ == path@ + " は大き過ぎる（"@
            + decimal(len as nat) + " バイト。file.read の上限は "@ + decimal(
            MAX_FILE_READ_BYTES as nat,
        ) + " バイト）"@),
        !is_dir && len <= MAX_FILE_READ_BYTES ==> r is Ok,
{
    if is_dir {
        let mut out = path.to_owned();
        out.append(" はディレクトリである（file.read はテキストのファイルを読む）");
        return Err(out);
    }
    if len > MAX_FILE_READ_BYTES {
        let mut out = path.to_owned();
        out.append(" は大き過ぎる（");
        push_decimal(&mut out, len);
        out.append(" バイト。file.read の上限は ");
        push_decimal(&mut out, MAX_FILE_READ_BYTES);
        out.append(" バイト）");
        return Err(out);
    }
    Ok(())
}

/// Checks the body of `file.write` before anything touches the disk.
pub fn check_file_write(path: &str, text: &str) -> (r: Result<(), String>)
    ensures
        text.spec_bytes().len() > MAX_FILE_WRITE_BYTES ==> (r matches Err(e) && e@ == path@
            + " へ書く本文が大き過ぎる（"@ + decimal(text.spec_bytes().len() as nat)
            + " バイト。file.write の上限は "@ + decimal(MAX_FILE_WRITE_BYTES as nat) + " バイト）"@),
        text.spec_bytes().len() <= MAX_FILE_WRITE_BYTES ==> r is Ok,
{
    let len = text.as_bytes().len();
    if len > MAX_FILE_WRITE_BYTES {
        let mut out = path.to_owned();
        out.append(" へ書く本文が大き過ぎる（");
        push_decimal(&mut out, len as u64);
        out.append(" バイト。file.write の上限は ");
        push_decimal(&mut out, MAX_FILE_WRITE_BYTES as u64);
        out.append(" バイト）");
        return Err(out);
    }
    Ok(())
}

/// `String::from_utf8`: the text of the bytes when they are UTF-8.
#[verifier::external_body]
fn utf8_text(bytes: Vec<u8>) -> (r: Option<String>)
    ensures
        r is Some <==> valid_utf8(bytes@),
        r matches Some(text) ==> text@ == decode_utf8(bytes@),
{
    String::from_utf8(bytes).ok()
}

/// The text that `file.read` returns: the file's bytes as UTF-8 text.
pub fn file_text(path: &str, bytes: Vec<u8>) -> (r: Result<String, String>)
    ensures
        valid_utf8(bytes@) ==> (r matches Ok(text) && text@ == decode_utf8(bytes@)),
        !valid_utf8(bytes@) ==> (r matches Err(e) && e@ == path@
            + " は UTF-8 のテキストではない（file.read はテキストを返す）"@),
{
    match utf8_text(bytes) {
        Some(text) => Ok(text),
        None => {
            let mut out = path.to_owned();
            out.append(" は UTF-8 のテキストではない（file.read はテキストを返す）");
            Err(out)
        },
    }
}

// ---------------------------------------------------------------------------
// The network fetch
// ---------------------------------------------------------------------------

/// What `reqwest::Url::parse` (the `url` crate's parser of absolute URLs) gives for the
/// text: the parsed URL's scheme (lower-cased, without `:`), or the parse error's text.
pub uninterp spec fn url_parse_outcome(input: Seq<char>) -> Result<Seq<char>, Seq<char>>;

/// Parses an absolute URL with `reqwest::Url::parse`; gives its scheme (as `Url::scheme`
/// returns it), or the parse error's text. The contract claims only that the outcome is the
/// named function of the input.
#[verifier::external_body]
fn parse_url(input: &str) -> (r: Result<String, String>)
    ensures
        match url_parse_outcome(input@) {
            Ok(scheme) => r matches Ok(s) && s@ == scheme,
            Err(message) => r matches Err(e) && e@ == message,
        },
{
    match reqwest::Url::parse(input) {
        Ok(url) => Ok(url.scheme().to_owned()),
        Err(error) => Err(error.to_string()),
    }
}

/// What `net.fetch` decides about a URL, given what parsing it gave (its scheme, or the
/// parse error's text): an unreadable URL and any scheme other than `http` and `https` are
/// refused.
pub open spec fn fetch_refusal_for(url: Seq<char>, parsed: Result<Seq<char>, Seq<char>>) -> Option<Seq<char>> {
    match parsed {
        Err(message) => Some(url + " は URL として読めない: "@ + message),
        Ok(scheme) => if scheme == "http"@ || scheme == "https"@ {
            None
        } else {
            Some("net.fetch は http と https だけを取れる（"@ + scheme + " は取れない）: "@ + url)
        },
    }
}

/// What `net.fetch` decides about a URL before fetching.
pub open spec fn fetch_refusal(url: Seq<char>) -> Option<Seq<char>> {
    fetch_refusal_for(url, url_parse_outcome(url))
}

/// The view of a parse outcome.
pub open spec fn parsed_view(parsed: Result<String, String>) -> Result<Seq<char>, Seq<char>> {
    match parsed {
        Ok(scheme) => Ok(scheme@),
        Err(message) => Err(message@),
    }
}

/// The decision of `net.fetch` once the URL was parsed: the URL itself when its scheme is
/// `http` or `https`, else why it may not be fetched.
pub fn fetch_decision(url: &str, parsed: Result<String, String>) -> (r: Result<String, String>)
    ensures
        match fetch_refusal_for(url@, parsed_view(parsed)) {
            None => r matches Ok(target) && target@ == url@,
            Some(reason) => r matches Err(e) && e@ == reason,
        },
{
    match parsed {
        Err(message) => {
            let mut out = url.to_owned();
            out.append(" は URL として読めない: ");
            out.append(message.as_str());
            Err(out)
        },
        Ok(scheme) => {
            if crate::text::str_equal(scheme.as_str(), "http") || crate::text::str_equal(
                scheme.as_str(),
                "https",
            ) {
                Ok(url.to_owned())
            } else {
                let mut out = "net.fetch は http と https だけを取れる（".to_owned();
                out.append(scheme.as_str());
                out.append(" は取れない）: ");
                out.append(url);
                Err(out)
            }
        },
    }
}

/// The URL that `net.fetch` fetches (the caller's URL itself, once accepted), or why it
/// may not be fetched.
pub fn fetch_target(url: &str) -> (r: Result<String, String>)
    ensures
        match fetch_refusal(url@) {
            None => r matches Ok(target) && target@ == url@,
            Some(reason) => r matches Err(e) && e@ == reason,
        },
{
    let parsed = parse_url(url);
    fetch_decision(url, parsed)
}

/// The text `net.fetch` returns for a response: only a successful (2xx) status, a body
/// within the limit (the caller reads at most one byte past it), and UTF-8 text.
pub fn fetched_text(url: &str, success: bool, status: &str, body: Vec<u8>) -> (r: Result<String, String>)
    ensures
        !success ==> (r matches Err(e) && e@ == url@ + " の取得は "@ + status@
            + " で終わった（net.fetch は 2xx だけを受け取る）"@),
        success && body@.len() > MAX_NET_BYTES ==> (r matches Err(e) && e@ == url@
            + " の本文が大き過ぎる（net.fetch の上限は "@ + decimal(MAX_NET_BYTES as nat) + " バイト）"@),
        success && body@.len() <= MAX_NET_BYTES && !valid_utf8(body@) ==> (r matches Err(e) && e@
            == url@ + " の本文は UTF-8 のテキストではない"@),
        success && body@.len() <= MAX_NET_BYTES && valid_utf8(body@) ==> (r matches Ok(text)
            && text@ == decode_utf8(body@)),
{
    if !success {
        let mut out = url.to_owned();
        out.append(" の取得は ");
        out.append(status);
        out.append(" で終わった（net.fetch は 2xx だけを受け取る）");
        return Err(out);
    }
    if body.len() > MAX_NET_BYTES {
        let mut out = url.to_owned();
        out.append(" の本文が大き過ぎる（net.fetch の上限は ");
        push_decimal(&mut out, MAX_NET_BYTES as u64);
        out.append(" バイト）");
        return Err(out);
    }
    match utf8_text(body) {
        Some(text) => Ok(text),
        None => {
            let mut out = url.to_owned();
            out.append(" の本文は UTF-8 のテキストではない");
            Err(out)
        },
    }
}

} // verus!

verus! {

proof fn lemma_first_width_mismatch(widths: Seq<usize>, columns: usize, i: int)
    requires
        0 <= i < widths.len(),
        widths[i] != columns,
    ensures
        exists|k: int|
            0 <= k <= i && widths[k] != columns && forall|j: int| 0 <= j < k ==> #[trigger] widths[j] == columns,
    decreases i,
{
    if exists|j: int| 0 <= j < i && widths[j] != columns {
        let j = choose|j: int| 0 <= j < i && widths[j] != columns;
        lemma_first_width_mismatch(widths, columns, j);
    } else {
        assert forall|j: int| 0 <= j < i implies #[trigger] widths[j] == columns by {}
    }
}

/// Appending rows to a found sheet is accepted exactly when every appended row has as many
/// values as the sheet has columns (fewer and more alike are refused); a refusal names the
/// first row whose count differs.
pub proof fn lemma_appended_rows_match_the_columns(
    sheet: String,
    widths: Vec<usize>,
    columns: usize,
    rows: Seq<u64>,
)
    requires
        widths@.len() > 0,
    ensures
        host_refusal(HostChange::InsertRows { sheet, widths }, Some((columns, rows))) is None <==> forall|i: int|
            0 <= i < widths@.len() ==> #[trigger] widths@[i] == columns,
        host_refusal(HostChange::InsertRows { sheet, widths }, Some((columns, rows))) matches Some(reason)
            ==> exists|i: int|
            0 <= i < widths@.len() && widths@[i] != columns && (forall|j: int|
                0 <= j < i ==> #[trigger] widths@[j] == columns) && reason == width_mismatch_text(
                i as nat,
                sheet@,
                columns,
            ),
{
    let w = widths@;
    if exists|i: int| 0 <= i < w.len() && w[i] != columns {
        let i = choose|i: int| 0 <= i < w.len() && w[i] != columns;
        lemma_first_width_mismatch(w, columns, i);
    }
}

/// Writing cells of a found sheet is accepted exactly when every write names a row of the
/// sheet and a column below its column count; removing or duplicating rows of a found sheet
/// is accepted exactly when every named row is in it. An empty change is always accepted, and
/// a non-empty change to a sheet that is not found is refused.
pub proof fn lemma_changes_must_name_what_is_there(change: HostChange, columns: usize, rows: Seq<u64>)
    ensures
        change matches HostChange::SetCells { writes, .. } ==> (host_refusal(change, Some((columns, rows)))
            is None <==> forall|i: int|
            0 <= i < writes@.len() ==> rows.contains(#[trigger] writes@[i].0) && writes@[i].2 < columns),
        change matches HostChange::RemoveRows { rows: named, .. } ==> (host_refusal(change, Some((columns, rows)))
            is None <==> forall|i: int| 0 <= i < named@.len() ==> rows.contains(#[trigger] named@[i].0)),
        change matches HostChange::DuplicateRows { rows: named, .. } ==> (host_refusal(
            change,
            Some((columns, rows)),
        ) is None <==> forall|i: int| 0 <= i < named@.len() ==> rows.contains(#[trigger] named@[i].0)),
        change matches HostChange::SetCells { sheet, writes } ==> (writes@.len() == 0 ==> host_refusal(change, None)
            is None) && (writes@.len() > 0 ==> host_refusal(change, None) == Some(no_sheet_text(sheet@))),
        change matches HostChange::InsertRows { sheet, widths } ==> (widths@.len() == 0 ==> host_refusal(change, None)
            is None) && (widths@.len() > 0 ==> host_refusal(change, None) == Some(no_sheet_text(sheet@))),
{
    let present = rows.to_set();
    match change {
        HostChange::SetCells { writes, .. } => {
            let w = writes@;
            if first_absent_write(w, present) is None {
                if exists|i: int| 0 <= i < w.len() && w[i].2 >= columns {
                    let i = choose|i: int| 0 <= i < w.len() && w[i].2 >= columns;
                    lemma_first_wide_exists(w, columns, i);
                }
            } else {
                let i = choose|i: int| 0 <= i < w.len() && !present.contains(w[i].0);
                lemma_first_absent_write_exists(w, present, i);
            }
        },
        HostChange::RemoveRows { rows: named, .. } | HostChange::DuplicateRows { rows: named, .. } => {
            let n = named@;
            if exists|i: int| 0 <= i < n.len() && !present.contains(n[i].0) {
                let i = choose|i: int| 0 <= i < n.len() && !present.contains(n[i].0);
                lemma_first_absent_row_exists(n, present, i);
            }
        },
        HostChange::InsertRows { .. } => {},
    }
}

proof fn lemma_first_wide_exists(w: Seq<(u64, String, usize)>, columns: usize, i: int)
    requires
        0 <= i < w.len(),
        w[i].2 >= columns,
    ensures
        exists|k: int| 0 <= k <= i && w[k].2 >= columns && forall|j: int| 0 <= j < k ==> (#[trigger] w[j]).2 < columns,
    decreases i,
{
    if exists|j: int| 0 <= j < i && w[j].2 >= columns {
        let j = choose|j: int| 0 <= j < i && w[j].2 >= columns;
        lemma_first_wide_exists(w, columns, j);
    } else {
        assert forall|j: int| 0 <= j < i implies (#[trigger] w[j]).2 < columns by {}
    }
}

proof fn lemma_first_absent_write_exists(w: Seq<(u64, String, usize)>, present: Set<u64>, i: int)
    requires
        0 <= i < w.len(),
        !present.contains(w[i].0),
    ensures
        exists|k: int| 0 <= k <= i && !present.contains(w[k].0) && forall|j: int| 0 <= j < k ==> present.contains(#[trigger] w[j].0),
    decreases i,
{
    if exists|j: int| 0 <= j < i && !present.contains(w[j].0) {
        let j = choose|j: int| 0 <= j < i && !present.contains(w[j].0);
        lemma_first_absent_write_exists(w, present, j);
    } else {
        assert forall|j: int| 0 <= j < i implies present.contains(#[trigger] w[j].0) by {}
    }
}

proof fn lemma_first_absent_row_exists(n: Seq<(u64, String)>, present: Set<u64>, i: int)
    requires
        0 <= i < n.len(),
        !present.contains(n[i].0),
    ensures
        exists|k: int| 0 <= k <= i && !present.contains(n[k].0) && forall|j: int| 0 <= j < k ==> present.contains(#[trigger] n[j].0),
    decreases i,
{
    if exists|j: int| 0 <= j < i && !present.contains(n[j].0) {
        let j = choose|j: int| 0 <= j < i && !present.contains(n[j].0);
        lemma_first_absent_row_exists(n, present, j);
    } else {
        assert forall|j: int| 0 <= j < i implies present.contains(#[trigger] n[j].0) by {}
    }
}

} // verus!
