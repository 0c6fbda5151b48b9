//! What can go wrong between an agent and a helper.

use crate::text;
use vstd::prelude::*;

verus! {

/// `std::io::Error`, carried through as it is.
#[verifier::external_type_specification]
#[verifier::external_body]
pub struct ExIoError(std::io::Error);

/// What can go wrong between an agent and a helper.
#[derive(Debug)]
pub enum DesktopIpcError {
    /// The desktop helper is not connected.
    HelperUnavailable,
    /// Nobody is logged in to a graphical session.
    NoActiveGuiSession(String),
    /// The display server is not one that the helper supports.
    DisplayUnsupported(String),
    /// The reply does not have the form that was asked for.
    InvalidResponse(String),
    /// Reading or writing failed.
    Io(std::io::Error),
    /// A frame breaks the wire protocol.
    Protocol(String),
    /// The helper reports an error of its own.
    Remote(String),
}

/// An error that the helper reports.
#[derive(Debug, Clone)]
pub struct IpcErrorBody {
    pub code: String,
    pub message: String,
}

/// A [`DesktopIpcError`] with its strings as sequences of characters.
pub enum DesktopIpcErrorView {
    HelperUnavailable,
    NoActiveGuiSession(Seq<char>),
    DisplayUnsupported(Seq<char>),
    InvalidResponse(Seq<char>),
    Io(std::io::Error),
    Protocol(Seq<char>),
    Remote(Seq<char>),
}

impl View for DesktopIpcError {
    type V = DesktopIpcErrorView;

    open spec fn view(&self) -> DesktopIpcErrorView {
        match *self {
            DesktopIpcError::HelperUnavailable => DesktopIpcErrorView::HelperUnavailable,
            DesktopIpcError::NoActiveGuiSession(s) => DesktopIpcErrorView::NoActiveGuiSession(s@),
            DesktopIpcError::DisplayUnsupported(s) => DesktopIpcErrorView::DisplayUnsupported(s@),
            DesktopIpcError::InvalidResponse(s) => DesktopIpcErrorView::InvalidResponse(s@),
            DesktopIpcError::Io(e) => DesktopIpcErrorView::Io(e),
            DesktopIpcError::Protocol(s) => DesktopIpcErrorView::Protocol(s@),
            DesktopIpcError::Remote(s) => DesktopIpcErrorView::Remote(s@),
        }
    }
}

impl From<std::io::Error> for DesktopIpcError {
    fn from(e: std::io::Error) -> (r: Self) {
        DesktopIpcError::Io(e)
    }
}

impl vstd::std_specs::convert::FromSpecImpl<std::io::Error> for DesktopIpcError {
    open spec fn obeys_from_spec() -> bool {
        true
    }

    open spec fn from_spec(e: std::io::Error) -> Self {
        DesktopIpcError::Io(e)
    }
}

/// What an error reported by the helper means to the agent. A helper that turns
/// the agent away counts as unavailable.
pub open spec fn remote_error(code: Seq<char>, message: Seq<char>) -> DesktopIpcErrorView {
    if code == "helper_unavailable"@ || code == "unauthorized"@ {
        DesktopIpcErrorView::HelperUnavailable
    } else if code == "no_active_gui_session"@ {
        DesktopIpcErrorView::NoActiveGuiSession(message)
    } else if code == "display_unsupported"@ {
        DesktopIpcErrorView::DisplayUnsupported(message)
    } else {
        DesktopIpcErrorView::Remote(code + ": "@ + message)
    }
}

/// What an error reported by the helper means to the agent.
pub fn map_remote_error(error: &IpcErrorBody) -> (r: DesktopIpcError)
    ensures
        r@ == remote_error(error.code@, error.message@),
{
    let code: &str = error.code.as_str();
    if text::same_text(code, "helper_unavailable") || text::same_text(code, "unauthorized") {
        DesktopIpcError::HelperUnavailable
    } else if text::same_text(code, "no_active_gui_session") {
        DesktopIpcError::NoActiveGuiSession(error.message.clone())
    } else if text::same_text(code, "display_unsupported") {
        DesktopIpcError::DisplayUnsupported(error.message.clone())
    } else {
        let mut whole = text::concat(code, ": ");
        whole.append(error.message.as_str());
        DesktopIpcError::Remote(whole)
    }
}

/// Whether `text` announces an I/O error in the words of its `Display`.
pub open spec fn is_io_message(e: std::io::Error, text: Seq<char>) -> bool {
    exists|s: String| #[trigger]
        vstd::string::to_string_from_display_ensures::<std::io::Error>(&e, s) && text
            == "ipc io error: "@ + s@
}

impl DesktopIpcError {
    /// Whether `text` is the sentence that tells a reader of a log what went wrong.
    pub open spec fn is_message(self, text: Seq<char>) -> bool {
        match self@ {
            DesktopIpcErrorView::HelperUnavailable => text
                == "helper_unavailable: desktop helper is not connected"@,
            DesktopIpcErrorView::NoActiveGuiSession(s) => text == "no_active_gui_session: "@ + s,
            DesktopIpcErrorView::DisplayUnsupported(s) => text == "display_unsupported: "@ + s,
            DesktopIpcErrorView::InvalidResponse(s) => text == "invalid response: "@ + s,
            DesktopIpcErrorView::Io(e) => is_io_message(e, text),
            DesktopIpcErrorView::Protocol(s) => text == "ipc protocol error: "@ + s,
            DesktopIpcErrorView::Remote(s) => text == s,
        }
    }

    /// The sentence that tells a reader of a log what went wrong.
    pub fn message(&self) -> (r: String)
        ensures
            self.is_message(r@),
    {
        match self {
            DesktopIpcError::HelperUnavailable =>
                "helper_unavailable: desktop helper is not connected".to_owned(),
            DesktopIpcError::NoActiveGuiSession(s) => text::concat(
                "no_active_gui_session: ",
                s.as_str(),
            ),
            DesktopIpcError::DisplayUnsupported(s) => text::concat(
                "display_unsupported: ",
                s.as_str(),
            ),
            DesktopIpcError::InvalidResponse(s) => text::concat("invalid response: ", s.as_str()),
            DesktopIpcError::Io(e) => {
                let cause = e.to_string();
                let r = text::concat("ipc io error: ", cause.as_str());
                assert(is_io_message(*e, r@)) by {
                    assert(vstd::string::to_string_from_display_ensures::<std::io::Error>(e, cause));
                }
                r
            },
            DesktopIpcError::Protocol(s) => text::concat("ipc protocol error: ", s.as_str()),
            DesktopIpcError::Remote(s) => s.clone(),
        }
    }
}

} // verus!
