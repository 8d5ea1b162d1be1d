//! The document owner that chains the session to the host installed before it: the session
//! answers first, the inner host only when the session lets the request through.
use vstd::prelude::*;
use crate::ports::{AttachError, CloseVerdict, DocumentHost, WindowLabel};
use crate::session::state::{CloseAnswer, ErrorView, SessionError};

verus! {

/// Why the window must not close.
pub open spec fn unsaved_text(label: Seq<char>) -> Seq<char> {
    label + " のドキュメントに未保存の変更がある"@
}

/// Why the hand-over was not received.
pub open spec fn attach_text(label: Seq<char>, error: ErrorView) -> Seq<char> {
    match error {
        ErrorView::UnsavedChanges => label
            + " のドキュメントに未保存の変更があるため、別のドキュメントを開けない"@,
        ErrorView::Busy => label + " のドキュメントで別の操作が進行中である"@,
        ErrorView::NoDocument => label + " のドキュメントを受け取れなかった"@,
        ErrorView::Read(source) => label + " のドキュメントを読み込めなかった: "@ + source,
    }
}

/// Why the window must not close: unsaved changes.
pub fn unsaved_reason(window: &WindowLabel) -> (r: String)
    ensures
        r@ == unsaved_text(window@),
{
    let mut out = window.as_str().to_owned();
    out.append(" のドキュメントに未保存の変更がある");
    out
}

/// Why the hand-over was not received; the format's diagnosis is part of it.
pub fn attach_reason(window: &WindowLabel, error: &SessionError) -> (r: String)
    ensures
        r@ == attach_text(window@, error@),
{
    let mut out = window.as_str().to_owned();
    match error {
        SessionError::UnsavedChanges => {
            out.append(" のドキュメントに未保存の変更があるため、別のドキュメントを開けない");
        },
        SessionError::Busy => {
            out.append(" のドキュメントで別の操作が進行中である");
        },
        SessionError::NoDocument => {
            out.append(" のドキュメントを受け取れなかった");
        },
        SessionError::Read { source } => {
            out.append(" のドキュメントを読み込めなかった: ");
            out.append(source.as_str());
        },
    }
    out
}

/// The session's part of "may this window close": a refusal when the session has unsaved
/// changes, else nothing (the inner host answers).
pub fn session_close_verdict(window: &WindowLabel, answer: CloseAnswer) -> (r: Option<CloseVerdict>)
    ensures
        answer == CloseAnswer::Deny ==> (r matches Some(CloseVerdict::Deny { reason }) && reason@
            == unsaved_text(window@)),
        answer == CloseAnswer::Allow ==> r is None,
{
    match answer {
        CloseAnswer::Deny => Some(CloseVerdict::Deny { reason: unsaved_reason(window) }),
        CloseAnswer::Allow => None,
    }
}

/// The session's part of a hand-over: the error when the session did not receive it, else
/// nothing (the inner host receives it too).
pub fn session_attach_error(window: &WindowLabel, outcome: &Result<(), SessionError>) -> (r: Option<
    AttachError,
>)
    ensures
        match outcome {
            Ok(()) => r is None,
            Err(e) => r matches Some(error) && error@ == attach_text(window@, e@),
        },
{
    match outcome {
        Ok(()) => None,
        Err(error) => Some(AttachError::new(attach_reason(window, error).as_str())),
    }
}

/// The session's entrances that the chained host uses: whether the window may close, and
/// the hand-over of a chosen file (which also subscribes to the window's destruction).
pub trait SessionEntrances {
    /// The session's answer for the window (a window not resolved yet is not resolved).
    fn may_close(&self, window: &WindowLabel) -> CloseAnswer;

    /// Hands the file over to the window's session.
    fn attach(&self, window: &WindowLabel, path: &str) -> Result<(), SessionError>;
}

/// The host that chains the session before the host installed earlier (`inner`): the
/// session's refusal stands, otherwise the inner host answers; a hand-over reaches the inner
/// host only when the session received it.
pub struct SessionDocumentHost<S, I> {
    entrances: S,
    inner: I,
}

impl<S: SessionEntrances, I: DocumentHost> SessionDocumentHost<S, I> {
    /// Chains the session's entrances before `inner`, the host that was installed before.
    pub fn new(entrances: S, inner: I) -> (r: Self)
        ensures
            r.entrances() == entrances,
            r.inner() == inner,
    {
        SessionDocumentHost { entrances, inner }
    }

    /// The session's entrances.
    pub closed spec fn entrances(&self) -> S {
        self.entrances
    }

    /// The inner host.
    pub closed spec fn inner(&self) -> I {
        self.inner
    }
}

impl<S: SessionEntrances, I: DocumentHost> DocumentHost for SessionDocumentHost<S, I> {
    /// The session answers first: its refusal stands; otherwise the inner host answers.
    fn may_close(&self, window: &WindowLabel) -> (r: CloseVerdict)
        ensures
            exists|answer: CloseAnswer|
                call_ensures(S::may_close, (&self.entrances(), window), answer) && match answer {
                    CloseAnswer::Deny => r matches CloseVerdict::Deny { reason } && reason@
                        == unsaved_text(window@),
                    CloseAnswer::Allow => call_ensures(I::may_close, (&self.inner(), window), r),
                },
    {
        match session_close_verdict(window, self.entrances.may_close(window)) {
            Some(refusal) => refusal,
            None => self.inner.may_close(window),
        }
    }

    /// The session receives the file first: its refusal stands with the session's reason;
    /// otherwise the inner host receives the file and answers.
    fn attach(&self, window: &WindowLabel, path: &str) -> (r: Result<(), AttachError>)
        ensures
            exists|received: Result<(), SessionError>|
                call_ensures(S::attach, (&self.entrances(), window, path), received) && match received {
                    Err(e) => r matches Err(error) && error@ == attach_text(window@, e@),
                    Ok(()) => call_ensures(I::attach, (&self.inner(), window, path), r),
                },
    {
        let received = self.entrances.attach(window, path);
        match session_attach_error(window, &received) {
            Some(error) => Err(error),
            None => self.inner.attach(window, path),
        }
    }
}

} // verus!
