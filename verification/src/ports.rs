//! The delegation point to the document owner: whether a window may close, and the
//! hand-over of a chosen file. Also the window label that identifies a window.
use vstd::prelude::*;

verus! {

/// The label that identifies a window (`doc-<n>`, `empty-<n>`, …).
#[derive(Debug, Clone, PartialEq, Eq, Hash, PartialOrd, Ord)]
pub struct WindowLabel {
    label: String,
}

impl View for WindowLabel {
    type V = Seq<char>;

    closed spec fn view(&self) -> Seq<char> {
        self.label@
    }
}

impl WindowLabel {
    /// The label with this text.
    pub fn new(label: &str) -> (r: Self)
        ensures
            r@ == label@,
    {
        WindowLabel { label: label.to_owned() }
    }

    /// The label's text.
    pub fn as_str(&self) -> (r: &str)
        ensures
            r@ == self@,
    {
        self.label.as_str()
    }

    /// The same label (a copy whose text is known to be equal).
    pub fn duplicate(&self) -> (r: Self)
        ensures
            r@ == self@,
    {
        WindowLabel::new(self.label.as_str())
    }
}

/// Whether a window may close. Every window gets an answer.
#[derive(Debug, Clone, PartialEq, Eq)]
pub enum CloseVerdict {
    /// It may close.
    Allow,
    /// It must not close; the reason is material for the caller to convey.
    Deny {
        /// Why it must not close (may be empty).
        reason: String,
    },
}

impl CloseVerdict {
    /// Whether the window may close.
    pub fn is_allow(&self) -> (r: bool)
        ensures
            r == (self is Allow),
    {
        match self {
            CloseVerdict::Allow => true,
            CloseVerdict::Deny { .. } => false,
        }
    }

    /// The reason of a refusal (none when closing is allowed).
    pub fn reason(&self) -> (r: Option<&str>)
        ensures
            match self {
                CloseVerdict::Allow => r is None,
                CloseVerdict::Deny { reason } => r matches Some(t) && t@ == reason@,
            },
    {
        match self {
            CloseVerdict::Allow => None,
            CloseVerdict::Deny { reason } => Some(reason.as_str()),
        }
    }
}

/// Why the hand-over of a chosen file failed (the owner's reason, as text).
#[derive(Debug, Clone, PartialEq, Eq)]
pub struct AttachError {
    message: String,
}

impl View for AttachError {
    type V = Seq<char>;

    closed spec fn view(&self) -> Seq<char> {
        self.message@
    }
}

impl AttachError {
    /// The error with this description.
    pub fn new(message: &str) -> (r: Self)
        ensures
            r@ == message@,
    {
        AttachError { message: message.to_owned() }
    }

    /// The description.
    pub fn message(&self) -> (r: &str)
        ensures
            r@ == self@,
    {
        self.message.as_str()
    }
}

/// The contract of the document owner: it answers at once whether a window may close and
/// receives the file chosen for a window. The shell never reads the file.
pub trait DocumentHost {
    /// Whether this window may close, answered at once.
    fn may_close(&self, window: &WindowLabel) -> CloseVerdict;

    /// Hands the chosen file over to the owner.
    fn attach(&self, window: &WindowLabel, path: &str) -> Result<(), AttachError>;
}

/// The host used until a document owner is installed: it allows every window to close and
/// accepts every hand-over without touching the path.
#[derive(Debug, Default, Clone, Copy)]
pub struct DefaultDocumentHost;

impl DocumentHost for DefaultDocumentHost {
    fn may_close(&self, window: &WindowLabel) -> (r: CloseVerdict)
        ensures
            r is Allow,
    {
        CloseVerdict::Allow
    }

    fn attach(&self, window: &WindowLabel, path: &str) -> (r: Result<(), AttachError>)
        ensures
            r is Ok,
    {
        Ok(())
    }
}

} // verus!
