//! The bridge server's lifecycle and session state machine.
//!
//! The runtime handle of the bridge holds four independently guarded slots:
//! the active session's outbound sender, the background thread, the shutdown
//! signal and the editor-change forwarding channel. [`Server`] models which
//! of those slots are populated, and its methods are the decisions the
//! runtime obeys: what each lifecycle operation does to the slots, and which
//! bytes, if any, an event turns into.

use vstd::prelude::*;

use crate::codec;
use crate::data::EditorChange;
use crate::data::EditorChangeV;
use crate::data::Selection;

verus! {

/// Which slots of the bridge handle are populated.
#[derive(Clone, Copy, Debug, PartialEq, Eq, Structural)]
pub struct Server {
    /// A session's outbound sender is installed: a browser peer is connected.
    pub session_open: bool,
    /// The background network thread is running.
    pub running: bool,
    /// The shutdown signal has not been fired yet.
    pub shutdown_armed: bool,
    /// The editor-change forwarding channel is installed.
    pub change_channel_open: bool,
}

/// The state `stop` leaves behind: signal fired, thread joined; the session
/// and change-channel slots are not touched by `stop` itself.
pub open spec fn stopped(s: Server) -> Server {
    Server { running: false, shutdown_armed: false, ..s }
}

/// What the accept loop does with one editor change: while a session is
/// open, exactly the serialized change goes out; otherwise nothing.
pub open spec fn frame_for(s: Server, c: EditorChangeV) -> Option<Seq<u8>> {
    if s.session_open {
        Some(codec::editor_change_json(c))
    } else {
        None
    }
}

/// The frames the browser is handed for a sequence of editor changes, in
/// order.
pub open spec fn relayed_frames(s: Server, changes: Seq<EditorChangeV>) -> Seq<Seq<u8>>
    decreases changes.len(),
{
    if changes.len() == 0 {
        Seq::empty()
    } else {
        let rest = relayed_frames(s, changes.drop_last());
        match frame_for(s, changes.last()) {
            Option::Some(f) => rest.push(f),
            Option::None => rest,
        }
    }
}

/// One event seen by the session's reader task.
pub enum FrameEvent {
    /// A text frame with the given payload bytes.
    Text(Seq<u8>),
    /// The browser closed the socket.
    CloseFrame,
    /// Reading failed.
    ReadError,
    /// Any other frame kind: ignored.
    OtherFrame,
}

/// What the reader task does with one event: a text frame never ends the
/// session, whether or not it parses; it hands the parsed text, if any, to
/// the editor callback. A close frame or a read error ends the session.
pub open spec fn session_step(s: Server, ev: FrameEvent) -> (Server, Option<Seq<char>>) {
    match ev {
        FrameEvent::Text(f) => (
            s,
            match codec::spec_parse_browser_change(f) {
                Option::Some(c) => Some(c.text),
                Option::None => None,
            },
        ),
        FrameEvent::CloseFrame => (Server { session_open: false, ..s }, None),
        FrameEvent::ReadError => (Server { session_open: false, ..s }, None),
        FrameEvent::OtherFrame => (s, None),
    }
}

/// The selection a well-shaped offset pair stands for.
pub open spec fn sel_of_pair(p: Seq<usize>) -> Selection {
    Selection { start: p[0], end: p[1] }
}

/// The selections a sequence of offset pairs stands for.
pub open spec fn sels_of_pairs(ps: Seq<Seq<usize>>) -> Seq<Selection> {
    ps.map_values(|p: Seq<usize>| sel_of_pair(p))
}

/// Converts editor-native selections, each a `[start, end]` pair, into
/// selection values. Yields `None` exactly when some selection is not a
/// pair: that is a contract violation of the editor integration, not
/// recoverable input.
pub fn selections_from_pairs(pairs: &Vec<Vec<usize>>) -> (r: Option<Vec<Selection>>)
    ensures
        r is Some <==> (forall|i: int|
            0 <= i < pairs@.len() ==> (#[trigger] pairs@[i])@.len() == 2),
        (match r {
            Option::Some(v) => v@ == sels_of_pairs(pairs.deep_view()),
            Option::None => true,
        }),
{
    let n = pairs.len();
    let mut out: Vec<Selection> = Vec::new();
    let mut i: usize = 0;
    while i < n
        invariant
            i <= n,
            n == pairs@.len(),
            out@.len() == i,
            forall|k: int| 0 <= k < i ==> (#[trigger] pairs@[k])@.len() == 2,
            forall|k: int|
                0 <= k < i ==> out@[k] == sel_of_pair(pairs.deep_view()[k]),
        decreases n - i,
    {
        let p = &pairs[i];
        if p.len() != 2 {
            return None;
        }
        out.push(Selection { start: p[0], end: p[1] });
        i = i + 1;
    }
    proof {
        assert(out@ =~= sels_of_pairs(pairs.deep_view()));
    }
    Some(out)
}

impl Server {
    /// An idle handle: no listener, no session, no background thread, no
    /// I/O.
    pub fn new() -> (s: Server)
        ensures
            s == (Server {
                session_open: false,
                running: false,
                shutdown_armed: false,
                change_channel_open: false,
            }),
    {
        Server { session_open: false, running: false, shutdown_armed: false, change_channel_open: false }
    }

    /// Starting the server installs a fresh shutdown signal and change
    /// channel and spawns the background thread. Starting while already
    /// running leaks the prior thread; the session slot is left as it is.
    pub fn start(&mut self)
        ensures
            *final(self) == (Server {
                session_open: old(self).session_open,
                running: true,
                shutdown_armed: true,
                change_channel_open: true,
            }),
    {
        self.running = true;
        self.shutdown_armed = true;
        self.change_channel_open = true;
    }

    /// Stopping fires the shutdown signal, if armed, and joins the
    /// background thread, if any. Both slots are taken, so a repeated stop
    /// finds them empty and does nothing: it cannot block on a join and it
    /// cannot panic.
    pub fn stop(&mut self)
        ensures
            *final(self) == stopped(*old(self)),
    {
        self.shutdown_armed = false;
        self.running = false;
    }

    /// A successful WebSocket upgrade installs the new session's outbound
    /// sender, replacing whatever session reference existed before
    /// (last-write-wins).
    pub fn on_upgrade(&mut self)
        ensures
            *final(self) == (Server { session_open: true, ..*old(self) }),
    {
        self.session_open = true;
    }

    /// When the reader task ends, the outbound sender is cleared, so later
    /// updates become no-ops until a new session is established.
    pub fn on_session_end(&mut self)
        ensures
            *final(self) == (Server { session_open: false, ..*old(self) }),
    {
        self.session_open = false;
    }

    /// The editor pushed a buffer change: turn it into an editor change for
    /// the forwarding channel. While the change channel is not installed,
    /// the change is silently dropped. Every selection must be a
    /// `[start, end]` pair; the editor integration guarantees that shape.
    pub fn update(&self, text: String, selections: Vec<Vec<usize>>) -> (r: Option<EditorChange>)
        requires
            forall|i: int|
                0 <= i < selections@.len() ==> (#[trigger] selections@[i])@.len() == 2,
        ensures
            r is Some <==> self.change_channel_open,
            (match r {
                Option::Some(c) => c@ == (EditorChangeV {
                    text: text@,
                    selections: sels_of_pairs(selections.deep_view()),
                }),
                Option::None => true,
            }),
    {
        let sels = match selections_from_pairs(&selections) {
            Option::Some(v) => v,
            Option::None => {
                proof {
                    assert(false);
                }
                return None;
            },
        };
        if self.change_channel_open {
            Some(EditorChange { text, selections: sels })
        } else {
            None
        }
    }

    /// The accept loop received one editor change from the forwarding
    /// channel: while a session is open it yields exactly the serialized
    /// change for the session's outbound queue, otherwise nothing.
    pub fn on_editor_change(&self, change: &EditorChange) -> (r: Option<Vec<u8>>)
        ensures
            (match r {
                Option::Some(f) => frame_for(*self, change@) == Some(f@),
                Option::None => frame_for(*self, change@) is None,
            }),
    {
        if self.session_open {
            Some(codec::encode_editor_change(change))
        } else {
            None
        }
    }
}

/// The text a browser frame asks the editor callback to write: the `text`
/// member of the frame, exactly when the frame deserializes as a browser
/// change; a malformed frame yields nothing and is dropped.
pub fn browser_frame_text(frame: &[u8]) -> (r: Option<String>)
    ensures
        r is Some <==> codec::spec_parse_browser_change(frame@) is Some,
        (match r {
            Option::Some(t) => t@ == codec::spec_parse_browser_change(frame@).unwrap().text,
            Option::None => true,
        }),
{
    match codec::parse_browser_change(frame) {
        Option::Some(c) => Some(c.text),
        Option::None => None,
    }
}

// ---------------------------------------------------------------------------
// Laws
// ---------------------------------------------------------------------------

/// While one session stays open, a sequence of editor changes is relayed
/// completely: one frame for each change, in the order the changes were
/// made, with no drop and no duplication.
pub proof fn lemma_relay_in_order(s: Server, changes: Seq<EditorChangeV>)
    requires
        s.session_open,
    ensures
        relayed_frames(s, changes).len() == changes.len(),
        forall|i: int|
            0 <= i < changes.len() ==> relayed_frames(s, changes)[i] == codec::editor_change_json(
                changes[i],
            ),
    decreases changes.len(),
{
    if changes.len() > 0 {
        lemma_relay_in_order(s, changes.drop_last());
    }
}

/// A frame that does not deserialize leaves the session alive: the very
/// next well-formed frame is still processed and hands its text to the
/// editor callback.
pub proof fn lemma_malformed_frame_keeps_session(s: Server, bad: Seq<u8>, good: Seq<u8>)
    requires
        s.session_open,
        codec::spec_parse_browser_change(bad) is None,
        codec::spec_parse_browser_change(good) is Some,
    ensures
        session_step(s, FrameEvent::Text(bad)).0 == s,
        session_step(s, FrameEvent::Text(bad)).0.session_open,
        session_step(session_step(s, FrameEvent::Text(bad)).0, FrameEvent::Text(good)).1 == Some(
            codec::spec_parse_browser_change(good).unwrap().text,
        ),
{
}

/// Stopping twice is the same as stopping once: the second stop finds the
/// signal and thread slots already empty.
pub proof fn lemma_stop_idempotent(s: Server)
    ensures
        stopped(stopped(s)) == stopped(s),
{
}

/// An editor change made while no session is open produces nothing: no
/// frame goes out, and nothing is queued for a later session.
pub proof fn lemma_update_without_session(s: Server, changes: Seq<EditorChangeV>)
    requires
        !s.session_open,
    ensures
        relayed_frames(s, changes) == Seq::<Seq<u8>>::empty(),
    decreases changes.len(),
{
    if changes.len() > 0 {
        lemma_update_without_session(s, changes.drop_last());
        assert(relayed_frames(s, changes) =~= Seq::<Seq<u8>>::empty());
    }
}

} // verus!
