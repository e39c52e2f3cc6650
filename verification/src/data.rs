//! Wire-message data types and their mathematical views.

use vstd::prelude::*;

verus! {

/// Discovery response sent to the browser extension to establish a
/// connection. On the wire its fields are spelled `ProtocolVersion` and
/// `WebSocketPort`.
#[derive(Clone, Copy, Debug, PartialEq, Eq, Structural)]
pub struct ActivateEditing {
    /// The protocol version.
    pub protocol_version: u32,
    /// The port for the listening WebSocket.
    pub web_socket_port: u32,
}

/// A selected region of text, as 0-indexed offsets.
#[derive(Clone, Copy, Debug, PartialEq, Eq, Structural)]
pub struct Selection {
    /// 0-indexed start of the selection.
    pub start: usize,
    /// 0-indexed end of the selection.
    pub end: usize,
}

/// A change made by the user in the browser: the whole current document
/// text, not a diff.
pub struct BrowserChange {
    /// The title of the document.
    pub title: String,
    /// The host of the document's url.
    pub url: String,
    /// Not used.
    pub syntax: String,
    /// Value of the text content.
    pub text: String,
    /// User's selections in the browser.
    pub selections: Vec<Selection>,
}

/// A change made by the user in the editor; same full-replace semantics as
/// [`BrowserChange`].
pub struct EditorChange {
    /// The new document content.
    pub text: String,
    /// User's selections in the editor.
    pub selections: Vec<Selection>,
}

/// Mathematical value of a [`BrowserChange`].
pub struct BrowserChangeV {
    pub title: Seq<char>,
    pub url: Seq<char>,
    pub syntax: Seq<char>,
    pub text: Seq<char>,
    pub selections: Seq<Selection>,
}

/// Mathematical value of an [`EditorChange`].
pub struct EditorChangeV {
    pub text: Seq<char>,
    pub selections: Seq<Selection>,
}

impl View for BrowserChange {
    type V = BrowserChangeV;

    open spec fn view(&self) -> BrowserChangeV {
        BrowserChangeV {
            title: self.title@,
            url: self.url@,
            syntax: self.syntax@,
            text: self.text@,
            selections: self.selections@,
        }
    }
}

impl View for EditorChange {
    type V = EditorChangeV;

    open spec fn view(&self) -> EditorChangeV {
        EditorChangeV { text: self.text@, selections: self.selections@ }
    }
}

} // verus!
