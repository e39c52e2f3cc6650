//! Bridge server core for live-synchronizing a browser `<textarea>` with a
//! host text editor: wire-protocol codec, connection dispatch, and the
//! session/lifecycle state machine.

use vstd::prelude::*;

pub mod codec;
pub mod data;
pub mod dispatch;
pub mod lit;
pub mod parse;
pub mod server;

pub use data::ActivateEditing;
pub use data::BrowserChange;
pub use data::EditorChange;
pub use data::Selection;
pub use dispatch::RequestKind;
pub use server::Server;

verus! {

/// TCP port on which the bridge listens, for both the discovery request and
/// the WebSocket upgrade.
pub const PORT: u32 = 4001;

/// Version of the wire protocol reported in the discovery response.
pub const PROTOCOL_VERSION: u32 = 1;

} // verus!
