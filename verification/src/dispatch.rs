//! Connection dispatch: classifies the bytes peeked from a newly accepted
//! connection and builds the discovery response.

use vstd::prelude::*;

use crate::codec;
use crate::data::ActivateEditing;
use crate::lit;

verus! {

/// What a newly accepted connection asks for.
#[derive(Clone, Copy, Debug, PartialEq, Eq, Structural)]
pub enum RequestKind {
    /// The peeked bytes hold a WebSocket handshake marker.
    Upgrade,
    /// The peeked bytes start a plain discovery request.
    Discovery,
    /// Anything else, a silent client included: dropped without a response.
    Unknown,
}

/// `pat` occurs in `s` starting at some position.
pub open spec fn contains_seq(s: Seq<u8>, pat: Seq<u8>) -> bool {
    exists|i: int|
        0 <= i && i + pat.len() <= s.len() && #[trigger] s.subrange(i, i + pat.len()) == pat
}

/// `s` starts with `pat`.
pub open spec fn starts_with(s: Seq<u8>, pat: Seq<u8>) -> bool {
    pat.len() <= s.len() && s.subrange(0, pat.len() as int) == pat
}

/// The classification rule, in order: a WebSocket upgrade marker anywhere
/// wins; otherwise a discovery request line at the start; otherwise unknown.
pub open spec fn spec_classify(peeked: Seq<u8>) -> RequestKind {
    if contains_seq(peeked, lit::lit_upgrade_marker()) {
        RequestKind::Upgrade
    } else if starts_with(peeked, lit::lit_discovery_prefix()) {
        RequestKind::Discovery
    } else {
        RequestKind::Unknown
    }
}

/// The window of `hay` at `i` equals `needle`.
fn window_eq(hay: &[u8], i: usize, needle: &[u8]) -> (r: bool)
    requires
        i + needle@.len() <= hay@.len(),
    ensures
        r == (hay@.subrange(i as int, i + needle@.len()) == needle@),
{
    let hn = hay.len();
    let nn = needle.len();
    let mut k: usize = 0;
    while k < nn
        invariant
            k <= nn,
            nn == needle@.len(),
            hn == hay@.len(),
            i + nn <= hn,
            forall|m: int| 0 <= m < k ==> hay@[i + m] == needle@[m],
        decreases nn - k,
    {
        if hay[i + k] != needle[k] {
            proof {
                assert(hay@.subrange(i as int, i + needle@.len())[k as int] != needle@[k as int]);
            }
            return false;
        }
        k = k + 1;
    }
    proof {
        assert(hay@.subrange(i as int, i + needle@.len()) =~= needle@);
    }
    true
}

/// Whether `needle` occurs anywhere in `hay`.
fn contains_subslice(hay: &[u8], needle: &[u8]) -> (r: bool)
    ensures
        r == contains_seq(hay@, needle@),
{
    if needle.len() > hay.len() {
        proof {
            assert(!contains_seq(hay@, needle@));
        }
        return false;
    }
    if needle.len() == 0 {
        proof {
            assert(hay@.subrange(0, 0 + needle@.len() as int) =~= needle@);
            assert(contains_seq(hay@, needle@));
        }
        return true;
    }
    let hn = hay.len();
    let nn = needle.len();
    let mut i: usize = 0;
    while i <= hn - nn
        invariant
            nn == needle@.len(),
            hn == hay@.len(),
            1 <= nn <= hn,
            i <= hn - nn + 1,
            forall|k: int|
                0 <= k < i ==> #[trigger] hay@.subrange(k, k + needle@.len()) != needle@,
        decreases hn - i,
    {
        if window_eq(hay, i, needle) {
            proof {
                assert(contains_seq(hay@, needle@));
            }
            return true;
        }
        i = i + 1;
    }
    proof {
        assert(!contains_seq(hay@, needle@));
    }
    false
}

/// Classifies the bytes peeked from a new connection.
pub fn classify_request(peeked: &[u8]) -> (r: RequestKind)
    ensures
        r == spec_classify(peeked@),
{
    let marker = lit::lit_upgrade_marker_vec();
    if contains_subslice(peeked, marker.as_slice()) {
        return RequestKind::Upgrade;
    }
    let prefix = lit::lit_discovery_prefix_vec();
    if peeked.len() >= prefix.len() && window_eq(peeked, 0, prefix.as_slice()) {
        return RequestKind::Discovery;
    }
    RequestKind::Unknown
}

/// The complete discovery HTTP response: status line, headers, and the
/// serialized discovery body.
pub open spec fn discovery_response_bytes(a: ActivateEditing) -> Seq<u8> {
    lit::lit_http_head() + codec::dec_digits(codec::activate_editing_json(a).len())
        + lit::lit_http_tail() + codec::activate_editing_json(a)
}

/// Builds the discovery HTTP response for one discovery request.
pub fn discovery_http_response(a: &ActivateEditing) -> (r: Vec<u8>)
    ensures
        r@ == discovery_response_bytes(*a),
{
    let mut body = codec::encode_activate_editing(a);
    let mut out = lit::lit_http_head_vec();
    codec::push_usize_dec(&mut out, body.len());
    let mut tail = lit::lit_http_tail_vec();
    out.append(&mut tail);
    out.append(&mut body);
    proof {
        assert(out@ =~= discovery_response_bytes(*a));
    }
    out
}

/// The discovery response of this bridge: protocol version and the port the
/// listener is bound on.
pub fn discovery_response() -> (r: Vec<u8>)
    ensures
        r@ == discovery_response_bytes(
            ActivateEditing {
                protocol_version: crate::PROTOCOL_VERSION,
                web_socket_port: crate::PORT,
            },
        ),
{
    let a = ActivateEditing {
        protocol_version: crate::PROTOCOL_VERSION,
        web_socket_port: crate::PORT,
    };
    discovery_http_response(&a)
}

} // verus!
