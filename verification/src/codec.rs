//! Wire-protocol codec: JSON encoding of outbound messages and JSON parsing
//! of inbound messages, specified over byte sequences.
//!
//! The encoder produces exactly the compact form the protocol mandates; the
//! parser accepts the usual JSON liberties (insignificant whitespace, member
//! order, unknown members) and rejects everything a strict JSON reader
//! rejects (missing or duplicated members, wrong value shapes, unescaped
//! control characters, lone surrogate escapes, numbers out of range).

use vstd::prelude::*;

use crate::data::ActivateEditing;
use crate::data::BrowserChange;
use crate::data::EditorChange;
use crate::data::EditorChangeV;
use crate::data::Selection;
use crate::lit;
use crate::parse;
use crate::data::BrowserChangeV;
use vstd::utf8::valid_utf8;
use vstd::utf8::decode_utf8;
use vstd::utf8::encode_utf8;

verus! {

// ---------------------------------------------------------------------------
// Decimal digits
// ---------------------------------------------------------------------------

/// The decimal digit string of `n`, most significant digit first, without
/// leading zeros (a single `0` for zero).
pub open spec fn dec_digits(n: nat) -> Seq<u8>
    decreases n,
{
    if n < 10 {
        seq![(48 + n) as u8]
    } else {
        dec_digits(n / 10).push((48 + n % 10) as u8)
    }
}

/// Appends the decimal digit string of `n`.
pub fn push_u64_dec(out: &mut Vec<u8>, n: u64)
    ensures
        final(out)@ == old(out)@ + dec_digits(n as nat),
    decreases n,
{
    if n >= 10 {
        push_u64_dec(out, n / 10);
        out.push(48 + (n % 10) as u8);
        proof {
            assert(out@ =~= old(out)@ + dec_digits(n as nat));
        }
    } else {
        out.push(48 + n as u8);
        proof {
            assert(out@ =~= old(out)@ + dec_digits(n as nat));
        }
    }
}

/// Appends the decimal digit string of `n`.
pub fn push_usize_dec(out: &mut Vec<u8>, n: usize)
    ensures
        final(out)@ == old(out)@ + dec_digits(n as nat),
    decreases n,
{
    if n >= 10 {
        push_usize_dec(out, n / 10);
        out.push(48 + (n % 10) as u8);
        proof {
            assert(out@ =~= old(out)@ + dec_digits(n as nat));
        }
    } else {
        out.push(48 + n as u8);
        proof {
            assert(out@ =~= old(out)@ + dec_digits(n as nat));
        }
    }
}

// ---------------------------------------------------------------------------
// String escaping
// ---------------------------------------------------------------------------

/// The lower-case hexadecimal digit of a value below 16.
pub open spec fn hexdig(d: u8) -> u8 {
    if d < 10 {
        (48 + d) as u8
    } else {
        (87 + d) as u8
    }
}

/// How one byte of UTF-8 text appears inside a JSON string: quote, backslash
/// and the named control characters get a two-character escape, the other
/// control characters a `\u00..` escape, and every other byte stands as it
/// is.
pub open spec fn esc_byte(b: u8) -> Seq<u8> {
    if b == 34 {
        seq![92u8, 34]
    } else if b == 92 {
        seq![92u8, 92]
    } else if b == 8 {
        seq![92u8, 98]
    } else if b == 9 {
        seq![92u8, 116]
    } else if b == 10 {
        seq![92u8, 110]
    } else if b == 12 {
        seq![92u8, 102]
    } else if b == 13 {
        seq![92u8, 114]
    } else if b < 32 {
        seq![92u8, 117, 48, 48, hexdig(b / 16), hexdig(b % 16)]
    } else {
        seq![b]
    }
}

/// The JSON-escaped form of a byte sequence.
pub open spec fn json_escape(bs: Seq<u8>) -> Seq<u8>
    decreases bs.len(),
{
    if bs.len() == 0 {
        Seq::empty()
    } else {
        json_escape(bs.drop_last()) + esc_byte(bs.last())
    }
}

/// Appends the escaped form of one byte.
fn push_escaped_byte(out: &mut Vec<u8>, b: u8)
    ensures
        final(out)@ == old(out)@ + esc_byte(b),
{
    if b == 34 {
        out.push(92);
        out.push(34);
    } else if b == 92 {
        out.push(92);
        out.push(92);
    } else if b == 8 {
        out.push(92);
        out.push(98);
    } else if b == 9 {
        out.push(92);
        out.push(116);
    } else if b == 10 {
        out.push(92);
        out.push(110);
    } else if b == 12 {
        out.push(92);
        out.push(102);
    } else if b == 13 {
        out.push(92);
        out.push(114);
    } else if b < 32 {
        out.push(92);
        out.push(117);
        out.push(48);
        out.push(48);
        let hi = b / 16;
        let lo = b % 16;
        out.push(if hi < 10 { 48 + hi } else { 87 + hi });
        out.push(if lo < 10 { 48 + lo } else { 87 + lo });
    } else {
        out.push(b);
    }
    proof {
        assert(out@ =~= old(out)@ + esc_byte(b));
    }
}

/// Appends the JSON-escaped form of `bs`.
pub fn push_json_escaped(out: &mut Vec<u8>, bs: &[u8])
    ensures
        final(out)@ == old(out)@ + json_escape(bs@),
{
    let mut i: usize = 0;
    while i < bs.len()
        invariant
            i <= bs.len(),
            out@ == old(out)@ + json_escape(bs@.subrange(0, i as int)),
        decreases bs.len() - i,
    {
        push_escaped_byte(out, bs[i]);
        proof {
            assert(bs@.subrange(0, i + 1 as int).drop_last() =~= bs@.subrange(0, i as int));
            assert(out@ =~= old(out)@ + json_escape(bs@.subrange(0, i + 1 as int)));
        }
        i = i + 1;
    }
    proof {
        assert(bs@.subrange(0, bs@.len() as int) =~= bs@);
    }
}

// ---------------------------------------------------------------------------
// Message encodings
// ---------------------------------------------------------------------------

/// The JSON object of one selection: `{"start":S,"end":E}`.
pub open spec fn selection_json(s: Selection) -> Seq<u8> {
    lit::lit_sel_start() + dec_digits(s.start as nat) + lit::lit_sel_end() + dec_digits(
        s.end as nat,
    ) + seq![125u8]
}

/// The comma-separated selection objects, in order, without the enclosing
/// brackets.
pub open spec fn selections_json(ss: Seq<Selection>) -> Seq<u8>
    decreases ss.len(),
{
    if ss.len() == 0 {
        Seq::empty()
    } else if ss.len() == 1 {
        selection_json(ss.last())
    } else {
        selections_json(ss.drop_last()) + seq![44u8] + selection_json(ss.last())
    }
}

/// The wire form of an editor change:
/// `{"text":"...","selections":[...]}` with the text JSON-escaped.
pub open spec fn editor_change_json(c: EditorChangeV) -> Seq<u8> {
    lit::lit_text_open() + json_escape(encode_utf8(c.text)) + lit::lit_sels() + selections_json(
        c.selections,
    ) + lit::lit_close_sels()
}

/// The wire form of the discovery response:
/// `{"ProtocolVersion":P,"WebSocketPort":W}`.
pub open spec fn activate_editing_json(a: ActivateEditing) -> Seq<u8> {
    lit::lit_obj_pv() + dec_digits(a.protocol_version as nat) + lit::lit_wsp() + dec_digits(
        a.web_socket_port as nat,
    ) + seq![125u8]
}

/// Appends the JSON object of one selection.
fn push_selection(out: &mut Vec<u8>, s: &Selection)
    ensures
        final(out)@ == old(out)@ + selection_json(*s),
{
    let mut head = lit::lit_sel_start_vec();
    out.append(&mut head);
    push_usize_dec(out, s.start);
    let mut mid = lit::lit_sel_end_vec();
    out.append(&mut mid);
    push_usize_dec(out, s.end);
    out.push(125);
    proof {
        assert(out@ =~= old(out)@ + selection_json(*s));
    }
}

/// Serializes an editor change for the browser. The frame is valid UTF-8,
/// as the payload of a WebSocket text frame must be.
pub fn encode_editor_change(c: &EditorChange) -> (r: Vec<u8>)
    ensures
        r@ == editor_change_json(c@),
        valid_utf8(r@),
{
    proof {
        lemma_editor_change_json_valid_utf8(c@);
    }
    let mut out = lit::lit_text_open_vec();
    push_json_escaped(&mut out, c.text.as_str().as_bytes());
    let mut mid = lit::lit_sels_vec();
    out.append(&mut mid);
    let ghost pre = out@;
    let n = c.selections.len();
    let mut i: usize = 0;
    while i < n
        invariant
            i <= n,
            n == c.selections@.len(),
            out@ == pre + selections_json(c.selections@.subrange(0, i as int)),
        decreases n - i,
    {
        if i > 0 {
            out.push(44);
        }
        push_selection(&mut out, &c.selections[i]);
        proof {
            assert(c.selections@.subrange(0, i + 1 as int).drop_last() =~= c.selections@.subrange(
                0,
                i as int,
            ));
            assert(out@ =~= pre + selections_json(c.selections@.subrange(0, i + 1 as int)));
        }
        i = i + 1;
    }
    out.push(93);
    out.push(125);
    proof {
        assert(c.selections@.subrange(0, c.selections@.len() as int) =~= c.selections@);
        assert(out@ =~= editor_change_json(c@));
    }
    out
}

/// Serializes the discovery response.
pub fn encode_activate_editing(a: &ActivateEditing) -> (r: Vec<u8>)
    ensures
        r@ == activate_editing_json(*a),
{
    let mut out = lit::lit_obj_pv_vec();
    push_u64_dec(&mut out, a.protocol_version as u64);
    let mut mid = lit::lit_wsp_vec();
    out.append(&mut mid);
    push_u64_dec(&mut out, a.web_socket_port as u64);
    out.push(125);
    proof {
        assert(out@ =~= activate_editing_json(*a));
    }
    out
}


// ---------------------------------------------------------------------------
// Message parsing
// ---------------------------------------------------------------------------

/// The members of a browser change collected so far while reading an object.
pub struct BcFields {
    pub title: Option<Seq<u8>>,
    pub url: Option<Seq<u8>>,
    pub syntax: Option<Seq<u8>>,
    pub text: Option<Seq<u8>>,
    pub selections: Option<Seq<Selection>>,
}

/// The members of a discovery response collected so far.
pub struct AeFields {
    pub protocol_version: Option<u32>,
    pub web_socket_port: Option<u32>,
}

/// The `start`/`end` members of one selection object collected so far, and
/// the position reached. A duplicated member or a member of the wrong shape
/// rejects the object; unknown members are skipped.
pub open spec fn spec_parse_selection_members(
    s: Seq<u8>,
    i: int,
    start: Option<usize>,
    end: Option<usize>,
) -> Option<(Option<usize>, Option<usize>, int)>
    decreases s.len() - i,
{
    if !(0 <= i < s.len()) {
        None
    } else {
        match parse::spec_parse_string(s, i) {
            Option::None => None,
            Option::Some((key, e1)) => {
                let j = parse::ws_end(s, e1);
                if !(i < j < s.len()) || s[j] != 58 {
                    None
                } else {
                    let k = parse::ws_end(s, j + 1);
                    if !(j < k <= s.len()) {
                        None
                    } else {
                        let stepped: Option<(Option<usize>, Option<usize>, int)> = if key
                            == lit::key_start() {
                            match parse::spec_parse_u64(s, k) {
                                Option::Some((v, e)) => if start is None && v as nat
                                    <= usize::MAX as nat {
                                    Some((Some(v as usize), end, e))
                                } else {
                                    None
                                },
                                Option::None => None,
                            }
                        } else if key == lit::key_end() {
                            match parse::spec_parse_u64(s, k) {
                                Option::Some((v, e)) => if end is None && v as nat
                                    <= usize::MAX as nat {
                                    Some((start, Some(v as usize), e))
                                } else {
                                    None
                                },
                                Option::None => None,
                            }
                        } else {
                            match parse::spec_skip_value(s, k) {
                                Option::Some(e) => Some((start, end, e)),
                                Option::None => None,
                            }
                        };
                        match stepped {
                            Option::None => None,
                            Option::Some((st2, en2, e2)) => {
                                let m = parse::ws_end(s, e2);
                                if m < s.len() && s[m] == 44 {
                                    let n = parse::ws_end(s, m + 1);
                                    if i < n <= s.len() {
                                        spec_parse_selection_members(s, n, st2, en2)
                                    } else {
                                        None
                                    }
                                } else if m < s.len() && s[m] == 125 {
                                    Some((st2, en2, m + 1))
                                } else {
                                    None
                                }
                            },
                        }
                    }
                }
            },
        }
    }
}

/// One selection object at `i`: both members present exactly once.
pub open spec fn spec_parse_selection_obj(s: Seq<u8>, i: int) -> Option<(Selection, int)> {
    if 0 <= i < s.len() && s[i] == 123 {
        let j = parse::ws_end(s, i + 1);
        if !(i < j <= s.len()) {
            None
        } else if j < s.len() && s[j] == 125 {
            None
        } else {
            match spec_parse_selection_members(s, j, None, None) {
                Option::Some((Option::Some(st), Option::Some(en), e)) => Some(
                    (Selection { start: st, end: en }, e),
                ),
                _ => None,
            }
        }
    } else {
        None
    }
}

/// The remaining elements and closing bracket of the selection array,
/// starting at a selection object.
pub open spec fn spec_parse_selections_elems(s: Seq<u8>, i: int, acc: Seq<Selection>) -> Option<
    (Seq<Selection>, int),
>
    decreases s.len() - i,
{
    if !(0 <= i < s.len()) {
        None
    } else {
        match spec_parse_selection_obj(s, i) {
            Option::None => None,
            Option::Some((sel, e)) => {
                let m = parse::ws_end(s, e);
                if m < s.len() && s[m] == 44 {
                    let n = parse::ws_end(s, m + 1);
                    if i < n <= s.len() {
                        spec_parse_selections_elems(s, n, acc.push(sel))
                    } else {
                        None
                    }
                } else if m < s.len() && s[m] == 93 {
                    Some((acc.push(sel), m + 1))
                } else {
                    None
                }
            },
        }
    }
}

/// A selection array at `i`.
pub open spec fn spec_parse_selections(s: Seq<u8>, i: int) -> Option<(Seq<Selection>, int)> {
    if 0 <= i < s.len() && s[i] == 91 {
        let j = parse::ws_end(s, i + 1);
        if !(i < j <= s.len()) {
            None
        } else if j < s.len() && s[j] == 93 {
            Some((Seq::empty(), j + 1))
        } else {
            spec_parse_selections_elems(s, j, Seq::empty())
        }
    } else {
        None
    }
}

/// The members of a browser change object, starting at a key. Every known
/// member must be well shaped and at most once; unknown members are skipped.
pub open spec fn spec_parse_bc_members(s: Seq<u8>, i: int, f: BcFields) -> Option<(BcFields, int)>
    decreases s.len() - i,
{
    if !(0 <= i < s.len()) {
        None
    } else {
        match parse::spec_parse_string(s, i) {
            Option::None => None,
            Option::Some((key, e1)) => {
                let j = parse::ws_end(s, e1);
                if !(i < j < s.len()) || s[j] != 58 {
                    None
                } else {
                    let k = parse::ws_end(s, j + 1);
                    if !(j < k <= s.len()) {
                        None
                    } else {
                        let stepped: Option<(BcFields, int)> = if key == lit::key_title() {
                            match parse::spec_parse_string(s, k) {
                                Option::Some((v, e)) => if f.title is None {
                                    Some((BcFields { title: Some(v), ..f }, e))
                                } else {
                                    None
                                },
                                Option::None => None,
                            }
                        } else if key == lit::key_url() {
                            match parse::spec_parse_string(s, k) {
                                Option::Some((v, e)) => if f.url is None {
                                    Some((BcFields { url: Some(v), ..f }, e))
                                } else {
                                    None
                                },
                                Option::None => None,
                            }
                        } else if key == lit::key_syntax() {
                            match parse::spec_parse_string(s, k) {
                                Option::Some((v, e)) => if f.syntax is None {
                                    Some((BcFields { syntax: Some(v), ..f }, e))
                                } else {
                                    None
                                },
                                Option::None => None,
                            }
                        } else if key == lit::key_text() {
                            match parse::spec_parse_string(s, k) {
                                Option::Some((v, e)) => if f.text is None {
                                    Some((BcFields { text: Some(v), ..f }, e))
                                } else {
                                    None
                                },
                                Option::None => None,
                            }
                        } else if key == lit::key_selections() {
                            match spec_parse_selections(s, k) {
                                Option::Some((v, e)) => if f.selections is None {
                                    Some((BcFields { selections: Some(v), ..f }, e))
                                } else {
                                    None
                                },
                                Option::None => None,
                            }
                        } else {
                            match parse::spec_skip_value(s, k) {
                                Option::Some(e) => Some((f, e)),
                                Option::None => None,
                            }
                        };
                        match stepped {
                            Option::None => None,
                            Option::Some((f2, e2)) => {
                                let m = parse::ws_end(s, e2);
                                if m < s.len() && s[m] == 44 {
                                    let n = parse::ws_end(s, m + 1);
                                    if i < n <= s.len() {
                                        spec_parse_bc_members(s, n, f2)
                                    } else {
                                        None
                                    }
                                } else if m < s.len() && s[m] == 125 {
                                    Some((f2, m + 1))
                                } else {
                                    None
                                }
                            },
                        }
                    }
                }
            },
        }
    }
}

/// The members of a discovery response object, starting at a key.
pub open spec fn spec_parse_ae_members(s: Seq<u8>, i: int, f: AeFields) -> Option<(AeFields, int)>
    decreases s.len() - i,
{
    if !(0 <= i < s.len()) {
        None
    } else {
        match parse::spec_parse_string(s, i) {
            Option::None => None,
            Option::Some((key, e1)) => {
                let j = parse::ws_end(s, e1);
                if !(i < j < s.len()) || s[j] != 58 {
                    None
                } else {
                    let k = parse::ws_end(s, j + 1);
                    if !(j < k <= s.len()) {
                        None
                    } else {
                        let stepped: Option<(AeFields, int)> = if key == lit::key_protocol_version() {
                            match parse::spec_parse_u64(s, k) {
                                Option::Some((v, e)) => if f.protocol_version is None && v
                                    <= u32::MAX as u64 {
                                    Some((AeFields { protocol_version: Some(v as u32), ..f }, e))
                                } else {
                                    None
                                },
                                Option::None => None,
                            }
                        } else if key == lit::key_web_socket_port() {
                            match parse::spec_parse_u64(s, k) {
                                Option::Some((v, e)) => if f.web_socket_port is None && v
                                    <= u32::MAX as u64 {
                                    Some((AeFields { web_socket_port: Some(v as u32), ..f }, e))
                                } else {
                                    None
                                },
                                Option::None => None,
                            }
                        } else {
                            match parse::spec_skip_value(s, k) {
                                Option::Some(e) => Some((f, e)),
                                Option::None => None,
                            }
                        };
                        match stepped {
                            Option::None => None,
                            Option::Some((f2, e2)) => {
                                let m = parse::ws_end(s, e2);
                                if m < s.len() && s[m] == 44 {
                                    let n = parse::ws_end(s, m + 1);
                                    if i < n <= s.len() {
                                        spec_parse_ae_members(s, n, f2)
                                    } else {
                                        None
                                    }
                                } else if m < s.len() && s[m] == 125 {
                                    Some((f2, m + 1))
                                } else {
                                    None
                                }
                            },
                        }
                    }
                }
            },
        }
    }
}

/// The whole document must be one object, with nothing but whitespace after
/// it. Yields the collected members.
pub open spec fn spec_parse_bc_document(s: Seq<u8>) -> Option<BcFields> {
    let empty = BcFields {
        title: None,
        url: None,
        syntax: None,
        text: None,
        selections: None,
    };
    let i = parse::ws_end(s, 0);
    if 0 <= i < s.len() && s[i] == 123 {
        let j = parse::ws_end(s, i + 1);
        if !(i < j <= s.len()) {
            None
        } else {
            let parsed: Option<(BcFields, int)> = if j < s.len() && s[j] == 125 {
                Some((empty, j + 1))
            } else {
                spec_parse_bc_members(s, j, empty)
            };
            match parsed {
                Option::None => None,
                Option::Some((f, e)) => {
                    if parse::ws_end(s, e) == s.len() {
                        Some(f)
                    } else {
                        None
                    }
                },
            }
        }
    } else {
        None
    }
}

/// The whole document must be one object, with nothing but whitespace after
/// it. Yields the collected members.
pub open spec fn spec_parse_ae_document(s: Seq<u8>) -> Option<AeFields> {
    let empty = AeFields { protocol_version: None, web_socket_port: None };
    let i = parse::ws_end(s, 0);
    if 0 <= i < s.len() && s[i] == 123 {
        let j = parse::ws_end(s, i + 1);
        if !(i < j <= s.len()) {
            None
        } else {
            let parsed: Option<(AeFields, int)> = if j < s.len() && s[j] == 125 {
                Some((empty, j + 1))
            } else {
                spec_parse_ae_members(s, j, empty)
            };
            match parsed {
                Option::None => None,
                Option::Some((f, e)) => {
                    if parse::ws_end(s, e) == s.len() {
                        Some(f)
                    } else {
                        None
                    }
                },
            }
        }
    } else {
        None
    }
}

/// What a browser-change frame means: every required member present, every
/// string field valid UTF-8.
pub open spec fn spec_parse_browser_change(s: Seq<u8>) -> Option<BrowserChangeV> {
    match spec_parse_bc_document(s) {
        Option::None => None,
        Option::Some(f) => match (f.title, f.url, f.syntax, f.text, f.selections) {
            (
                Option::Some(ti),
                Option::Some(u),
                Option::Some(sy),
                Option::Some(te),
                Option::Some(sel),
            ) => {
                if valid_utf8(ti) && valid_utf8(u) && valid_utf8(sy) && valid_utf8(te) {
                    Some(
                        BrowserChangeV {
                            title: decode_utf8(ti),
                            url: decode_utf8(u),
                            syntax: decode_utf8(sy),
                            text: decode_utf8(te),
                            selections: sel,
                        },
                    )
                } else {
                    None
                }
            },
            _ => None,
        },
    }
}

/// What a discovery-response document means: both members present.
pub open spec fn spec_parse_activate_editing(s: Seq<u8>) -> Option<ActivateEditing> {
    match spec_parse_ae_document(s) {
        Option::None => None,
        Option::Some(f) => match (f.protocol_version, f.web_socket_port) {
            (Option::Some(p), Option::Some(w)) => Some(
                ActivateEditing { protocol_version: p, web_socket_port: w },
            ),
            _ => None,
        },
    }
}


/// Relies on `String::from_utf8`: it succeeds exactly on valid UTF-8 input,
/// and the returned string holds exactly the input bytes.
#[verifier::external_body]
fn string_from_utf8(bytes: Vec<u8>) -> (r: Option<String>)
    ensures
        r is Some <==> valid_utf8(bytes@),
        (match r {
            Option::Some(s) => encode_utf8(s@) == bytes@,
            Option::None => true,
        }),
{
    String::from_utf8(bytes).ok()
}

/// The members of a selection object collected so far, executable.
fn parse_selection_members(s: &[u8], i: usize, start: Option<usize>, end: Option<usize>) -> (r:
    Option<(Option<usize>, Option<usize>, usize)>)
    requires
        i <= s@.len(),
    ensures
        (match r {
            Option::Some((st, en, e)) => spec_parse_selection_members(s@, i as int, start, end)
                == Some((st, en, e as int)) && i < e <= s@.len(),
            Option::None => spec_parse_selection_members(s@, i as int, start, end) is None,
        }),
    decreases s@.len() - i,
{
    if i >= s.len() {
        return None;
    }
    let (key, e1) = match parse::parse_string(s, i) {
        Option::Some(p) => p,
        Option::None => {
            return None;
        },
    };
    let j = parse::skip_ws(s, e1);
    if !(j < s.len() && s[j] == 58) {
        return None;
    }
    let k = parse::skip_ws(s, j + 1);
    let stepped: Option<(Option<usize>, Option<usize>, usize)> = if parse::bytes_eq(
        key.as_slice(),
        lit::key_start_vec().as_slice(),
    ) {
        match parse::parse_u64(s, k) {
            Option::Some((v, e)) => {
                if start.is_none() && v <= usize::MAX as u64 {
                    Some((Some(v as usize), end, e))
                } else {
                    None
                }
            },
            Option::None => None,
        }
    } else if parse::bytes_eq(key.as_slice(), lit::key_end_vec().as_slice()) {
        match parse::parse_u64(s, k) {
            Option::Some((v, e)) => {
                if end.is_none() && v <= usize::MAX as u64 {
                    Some((start, Some(v as usize), e))
                } else {
                    None
                }
            },
            Option::None => None,
        }
    } else {
        match parse::skip_value(s, k) {
            Option::Some(e) => Some((start, end, e)),
            Option::None => None,
        }
    };
    let (st2, en2, e2) = match stepped {
        Option::Some(t) => t,
        Option::None => {
            return None;
        },
    };
    let m = parse::skip_ws(s, e2);
    if m < s.len() && s[m] == 44 {
        let n = parse::skip_ws(s, m + 1);
        parse_selection_members(s, n, st2, en2)
    } else if m < s.len() && s[m] == 125 {
        Some((st2, en2, m + 1))
    } else {
        None
    }
}

/// One selection object, executable.
fn parse_selection_obj(s: &[u8], i: usize) -> (r: Option<(Selection, usize)>)
    requires
        i <= s@.len(),
    ensures
        (match r {
            Option::Some((sel, e)) => spec_parse_selection_obj(s@, i as int) == Some(
                (sel, e as int),
            ) && i < e <= s@.len(),
            Option::None => spec_parse_selection_obj(s@, i as int) is None,
        }),
{
    if !(i < s.len() && s[i] == 123) {
        return None;
    }
    let j = parse::skip_ws(s, i + 1);
    if j < s.len() && s[j] == 125 {
        return None;
    }
    match parse_selection_members(s, j, None, None) {
        Option::Some((Option::Some(st), Option::Some(en), e)) => Some(
            (Selection { start: st, end: en }, e),
        ),
        Option::Some(_) => None,
        Option::None => None,
    }
}

/// The elements of the selection array, executable.
fn parse_selections_elems(s: &[u8], i: usize, acc: Vec<Selection>) -> (r: Option<
    (Vec<Selection>, usize),
>)
    requires
        i <= s@.len(),
    ensures
        (match r {
            Option::Some((v, e)) => spec_parse_selections_elems(s@, i as int, acc@) == Some(
                (v@, e as int),
            ) && i < e <= s@.len(),
            Option::None => spec_parse_selections_elems(s@, i as int, acc@) is None,
        }),
    decreases s@.len() - i,
{
    if i >= s.len() {
        return None;
    }
    let (sel, e) = match parse_selection_obj(s, i) {
        Option::Some(p) => p,
        Option::None => {
            return None;
        },
    };
    let m = parse::skip_ws(s, e);
    if m < s.len() && s[m] == 44 {
        let n = parse::skip_ws(s, m + 1);
        let mut acc2 = acc;
        acc2.push(sel);
        parse_selections_elems(s, n, acc2)
    } else if m < s.len() && s[m] == 93 {
        let mut acc2 = acc;
        acc2.push(sel);
        Some((acc2, m + 1))
    } else {
        None
    }
}

/// The selection array, executable.
fn parse_selections(s: &[u8], i: usize) -> (r: Option<(Vec<Selection>, usize)>)
    requires
        i <= s@.len(),
    ensures
        (match r {
            Option::Some((v, e)) => spec_parse_selections(s@, i as int) == Some((v@, e as int))
                && i < e <= s@.len(),
            Option::None => spec_parse_selections(s@, i as int) is None,
        }),
{
    if !(i < s.len() && s[i] == 91) {
        return None;
    }
    let j = parse::skip_ws(s, i + 1);
    if j < s.len() && s[j] == 93 {
        let empty: Vec<Selection> = Vec::new();
        return Some((empty, j + 1));
    }
    parse_selections_elems(s, j, Vec::new())
}

/// The members of a browser change collected so far, executable.
struct BcAcc {
    title: Option<Vec<u8>>,
    url: Option<Vec<u8>>,
    syntax: Option<Vec<u8>>,
    text: Option<Vec<u8>>,
    selections: Option<Vec<Selection>>,
}

/// The value a [`BcAcc`] stands for.
spec fn bc_acc_view(a: BcAcc) -> BcFields {
    BcFields {
        title: match a.title {
            Option::Some(v) => Some(v@),
            Option::None => None,
        },
        url: match a.url {
            Option::Some(v) => Some(v@),
            Option::None => None,
        },
        syntax: match a.syntax {
            Option::Some(v) => Some(v@),
            Option::None => None,
        },
        text: match a.text {
            Option::Some(v) => Some(v@),
            Option::None => None,
        },
        selections: match a.selections {
            Option::Some(v) => Some(v@),
            Option::None => None,
        },
    }
}

/// The members of a browser change object, executable.
fn parse_bc_members(s: &[u8], i: usize, acc: BcAcc) -> (r: Option<(BcAcc, usize)>)
    requires
        i <= s@.len(),
    ensures
        (match r {
            Option::Some((f, e)) => spec_parse_bc_members(s@, i as int, bc_acc_view(acc)) == Some(
                (bc_acc_view(f), e as int),
            ) && i < e <= s@.len(),
            Option::None => spec_parse_bc_members(s@, i as int, bc_acc_view(acc)) is None,
        }),
    decreases s@.len() - i,
{
    if i >= s.len() {
        return None;
    }
    let (key, e1) = match parse::parse_string(s, i) {
        Option::Some(p) => p,
        Option::None => {
            return None;
        },
    };
    let j = parse::skip_ws(s, e1);
    if !(j < s.len() && s[j] == 58) {
        return None;
    }
    let k = parse::skip_ws(s, j + 1);
    let stepped: Option<(BcAcc, usize)> = if parse::bytes_eq(
        key.as_slice(),
        lit::key_title_vec().as_slice(),
    ) {
        if acc.title.is_some() {
            None
        } else {
            match parse::parse_string(s, k) {
                Option::Some((v, e)) => Some((BcAcc { title: Some(v), ..acc }, e)),
                Option::None => None,
            }
        }
    } else if parse::bytes_eq(key.as_slice(), lit::key_url_vec().as_slice()) {
        if acc.url.is_some() {
            None
        } else {
            match parse::parse_string(s, k) {
                Option::Some((v, e)) => Some((BcAcc { url: Some(v), ..acc }, e)),
                Option::None => None,
            }
        }
    } else if parse::bytes_eq(key.as_slice(), lit::key_syntax_vec().as_slice()) {
        if acc.syntax.is_some() {
            None
        } else {
            match parse::parse_string(s, k) {
                Option::Some((v, e)) => Some((BcAcc { syntax: Some(v), ..acc }, e)),
                Option::None => None,
            }
        }
    } else if parse::bytes_eq(key.as_slice(), lit::key_text_vec().as_slice()) {
        if acc.text.is_some() {
            None
        } else {
            match parse::parse_string(s, k) {
                Option::Some((v, e)) => Some((BcAcc { text: Some(v), ..acc }, e)),
                Option::None => None,
            }
        }
    } else if parse::bytes_eq(key.as_slice(), lit::key_selections_vec().as_slice()) {
        if acc.selections.is_some() {
            None
        } else {
            match parse_selections(s, k) {
                Option::Some((v, e)) => Some((BcAcc { selections: Some(v), ..acc }, e)),
                Option::None => None,
            }
        }
    } else {
        match parse::skip_value(s, k) {
            Option::Some(e) => Some((acc, e)),
            Option::None => None,
        }
    };
    let (f2, e2) = match stepped {
        Option::Some(t) => t,
        Option::None => {
            return None;
        },
    };
    let m = parse::skip_ws(s, e2);
    if m < s.len() && s[m] == 44 {
        let n = parse::skip_ws(s, m + 1);
        parse_bc_members(s, n, f2)
    } else if m < s.len() && s[m] == 125 {
        Some((f2, m + 1))
    } else {
        None
    }
}

/// The members of a discovery response collected so far, executable.
struct AeAcc {
    protocol_version: Option<u32>,
    web_socket_port: Option<u32>,
}

/// The value an [`AeAcc`] stands for.
spec fn ae_acc_view(a: AeAcc) -> AeFields {
    AeFields { protocol_version: a.protocol_version, web_socket_port: a.web_socket_port }
}

/// The members of a discovery response object, executable.
fn parse_ae_members(s: &[u8], i: usize, acc: AeAcc) -> (r: Option<(AeAcc, usize)>)
    requires
        i <= s@.len(),
    ensures
        (match r {
            Option::Some((f, e)) => spec_parse_ae_members(s@, i as int, ae_acc_view(acc)) == Some(
                (ae_acc_view(f), e as int),
            ) && i < e <= s@.len(),
            Option::None => spec_parse_ae_members(s@, i as int, ae_acc_view(acc)) is None,
        }),
    decreases s@.len() - i,
{
    if i >= s.len() {
        return None;
    }
    let (key, e1) = match parse::parse_string(s, i) {
        Option::Some(p) => p,
        Option::None => {
            return None;
        },
    };
    let j = parse::skip_ws(s, e1);
    if !(j < s.len() && s[j] == 58) {
        return None;
    }
    let k = parse::skip_ws(s, j + 1);
    let stepped: Option<(AeAcc, usize)> = if parse::bytes_eq(
        key.as_slice(),
        lit::key_protocol_version_vec().as_slice(),
    ) {
        match parse::parse_u64(s, k) {
            Option::Some((v, e)) => {
                if acc.protocol_version.is_none() && v <= u32::MAX as u64 {
                    Some((AeAcc { protocol_version: Some(v as u32), ..acc }, e))
                } else {
                    None
                }
            },
            Option::None => None,
        }
    } else if parse::bytes_eq(key.as_slice(), lit::key_web_socket_port_vec().as_slice()) {
        match parse::parse_u64(s, k) {
            Option::Some((v, e)) => {
                if acc.web_socket_port.is_none() && v <= u32::MAX as u64 {
                    Some((AeAcc { web_socket_port: Some(v as u32), ..acc }, e))
                } else {
                    None
                }
            },
            Option::None => None,
        }
    } else {
        match parse::skip_value(s, k) {
            Option::Some(e) => Some((acc, e)),
            Option::None => None,
        }
    };
    let (f2, e2) = match stepped {
        Option::Some(t) => t,
        Option::None => {
            return None;
        },
    };
    let m = parse::skip_ws(s, e2);
    if m < s.len() && s[m] == 44 {
        let n = parse::skip_ws(s, m + 1);
        parse_ae_members(s, n, f2)
    } else if m < s.len() && s[m] == 125 {
        Some((f2, m + 1))
    } else {
        None
    }
}

/// Deserializes a browser change frame. Yields `None` exactly when the frame
/// is not the JSON object the protocol mandates: not an object, a required
/// member missing, doubled or of the wrong shape, or a string not valid
/// UTF-8.
pub fn parse_browser_change(frame: &[u8]) -> (r: Option<BrowserChange>)
    ensures
        (match r {
            Option::Some(c) => spec_parse_browser_change(frame@) == Some(c@),
            Option::None => spec_parse_browser_change(frame@) is None,
        }),
{
    let i = parse::skip_ws(frame, 0);
    if !(i < frame.len() && frame[i] == 123) {
        return None;
    }
    let j = parse::skip_ws(frame, i + 1);
    let acc0 = BcAcc { title: None, url: None, syntax: None, text: None, selections: None };
    let parsed: Option<(BcAcc, usize)> = if j < frame.len() && frame[j] == 125 {
        Some((acc0, j + 1))
    } else {
        parse_bc_members(frame, j, acc0)
    };
    let (f, e) = match parsed {
        Option::Some(p) => p,
        Option::None => {
            return None;
        },
    };
    let t = parse::skip_ws(frame, e);
    if t != frame.len() {
        return None;
    }
    match f {
        BcAcc {
            title: Option::Some(tb),
            url: Option::Some(ub),
            syntax: Option::Some(sb),
            text: Option::Some(xb),
            selections: Option::Some(sl),
        } => {
            let ghost tbs = tb@;
            let ghost ubs = ub@;
            let ghost sbs = sb@;
            let ghost xbs = xb@;
            let title = match string_from_utf8(tb) {
                Option::Some(v) => v,
                Option::None => {
                    return None;
                },
            };
            let url = match string_from_utf8(ub) {
                Option::Some(v) => v,
                Option::None => {
                    return None;
                },
            };
            let syntax = match string_from_utf8(sb) {
                Option::Some(v) => v,
                Option::None => {
                    return None;
                },
            };
            let text = match string_from_utf8(xb) {
                Option::Some(v) => v,
                Option::None => {
                    return None;
                },
            };
            proof {
                vstd::utf8::encode_utf8_decode_utf8(title@);
                vstd::utf8::encode_utf8_decode_utf8(url@);
                vstd::utf8::encode_utf8_decode_utf8(syntax@);
                vstd::utf8::encode_utf8_decode_utf8(text@);
            }
            let c = BrowserChange { title, url, syntax, text, selections: sl };
            proof {
                assert(c@ == spec_parse_browser_change(frame@).unwrap());
            }
            Some(c)
        },
        _ => None,
    }
}

/// Deserializes a discovery response document.
pub fn parse_activate_editing(body: &[u8]) -> (r: Option<ActivateEditing>)
    ensures
        (match r {
            Option::Some(a) => spec_parse_activate_editing(body@) == Some(a),
            Option::None => spec_parse_activate_editing(body@) is None,
        }),
{
    let i = parse::skip_ws(body, 0);
    if !(i < body.len() && body[i] == 123) {
        return None;
    }
    let j = parse::skip_ws(body, i + 1);
    let acc0 = AeAcc { protocol_version: None, web_socket_port: None };
    let parsed: Option<(AeAcc, usize)> = if j < body.len() && body[j] == 125 {
        Some((acc0, j + 1))
    } else {
        parse_ae_members(body, j, acc0)
    };
    let (f, e) = match parsed {
        Option::Some(p) => p,
        Option::None => {
            return None;
        },
    };
    let t = parse::skip_ws(body, e);
    if t != body.len() {
        return None;
    }
    match f {
        AeAcc { protocol_version: Option::Some(p), web_socket_port: Option::Some(w) } => Some(
            ActivateEditing { protocol_version: p, web_socket_port: w },
        ),
        _ => None,
    }
}


// ---------------------------------------------------------------------------
// Round trip of the discovery response
// ---------------------------------------------------------------------------

/// Shape of a decimal digit string: never empty, digits only, no leading
/// zero unless the value is zero, and it reads back as the value.
pub proof fn lemma_dec_digits_shape(n: nat)
    ensures
        dec_digits(n).len() >= 1,
        forall|k: int| 0 <= k < dec_digits(n).len() ==> parse::is_digit(#[trigger] dec_digits(n)[k]),
        n >= 1 ==> dec_digits(n)[0] != 48,
        n < 10 <==> dec_digits(n).len() == 1,
        parse::dec_val(dec_digits(n)) == n,
    decreases n,
{
    if n >= 10 {
        lemma_dec_digits_shape(n / 10);
        assert(dec_digits(n).drop_last() =~= dec_digits(n / 10));
        assert(dec_digits(n).last() == (48 + n % 10) as u8);
        assert((dec_digits(n).last() - 48) as nat == n % 10);
        assert(parse::dec_val(dec_digits(n)) == parse::dec_val(dec_digits(n / 10)) * 10 + n % 10);
        assert(n / 10 * 10 + n % 10 == n);
    } else {
        assert(dec_digits(n).drop_last() =~= Seq::<u8>::empty());
        assert(dec_digits(n).last() == (48 + n) as u8);
        assert((dec_digits(n).last() - 48) as nat == n);
        assert(parse::dec_val(Seq::<u8>::empty()) == 0);
        assert(parse::dec_val(dec_digits(n)) == parse::dec_val(dec_digits(n).drop_last()) * 10 + (
        dec_digits(n).last() - 48) as nat);
    }
}

/// A run of digits from `i` to `e`, followed by a non-digit or the end,
/// places the digit scan exactly at `e`.
pub proof fn lemma_digits_run(s: Seq<u8>, i: int, e: int)
    requires
        0 <= i <= e <= s.len(),
        forall|k: int| i <= k < e ==> parse::is_digit(#[trigger] s[k]),
        e == s.len() || !parse::is_digit(s[e]),
    ensures
        parse::digits_end(s, i) == e,
    decreases e - i,
{
    if i < e {
        lemma_digits_run(s, i + 1, e);
    }
}

/// The digit string of `n` standing at `i`, delimited on the right, parses
/// as the number `n` ending at `e`.
pub proof fn lemma_parse_u64_at(s: Seq<u8>, i: int, n: nat, e: int)
    requires
        0 <= i <= e <= s.len(),
        s.subrange(i, e) == dec_digits(n),
        n <= u64::MAX,
        e == s.len() || !parse::is_digit(s[e]),
    ensures
        parse::spec_parse_u64(s, i) == Some((n as u64, e)),
{
    lemma_dec_digits_shape(n);
    assert(e - i == dec_digits(n).len());
    assert forall|k: int| i <= k < e implies parse::is_digit(#[trigger] s[k]) by {
        assert(s[k] == s.subrange(i, e)[k - i]);
        assert(parse::is_digit(dec_digits(n)[k - i]));
    }
    lemma_digits_run(s, i, e);
    assert(s.subrange(i, parse::digits_end(s, i)) == dec_digits(n));
    assert(s[i] == dec_digits(n)[0]);
}

/// A byte a JSON string holds literally: no quote, no backslash, no control
/// character.
pub open spec fn plain_byte(b: u8) -> bool {
    b >= 32 && b != 34 && b != 92
}

/// A key whose bytes all stand literally inside a JSON string.
pub open spec fn plain_key(k: Seq<u8>) -> bool {
    forall|m: int| 0 <= m < k.len() ==> plain_byte(#[trigger] k[m])
}

/// A run of plain bytes up to a closing quote is read back verbatim.
pub proof fn lemma_parse_plain_body(s: Seq<u8>, i: int, e: int, acc: Seq<u8>)
    requires
        0 <= i <= e < s.len(),
        forall|k: int| i <= k < e ==> plain_byte(#[trigger] s[k]),
        s[e] == 34,
    ensures
        parse::parse_str_body(s, i, acc) == Some((acc + s.subrange(i, e), e + 1)),
    decreases e - i,
{
    if i == e {
        assert(acc + s.subrange(i, e) =~= acc);
    } else {
        lemma_parse_plain_body(s, i + 1, e, acc.push(s[i]));
        assert(acc.push(s[i]) + s.subrange(i + 1, e) =~= acc + s.subrange(i, e));
    }
}

/// A quoted plain key standing at `i` parses as that key.
pub proof fn lemma_parse_key_string(s: Seq<u8>, i: int, key: Seq<u8>)
    requires
        0 <= i,
        i + key.len() + 2 <= s.len(),
        s[i] == 34,
        s.subrange(i + 1, i + 1 + key.len()) == key,
        s[i + 1 + key.len()] == 34,
        plain_key(key),
    ensures
        parse::spec_parse_string(s, i) == Some((key, i + key.len() + 2)),
{
    let e = i + 1 + key.len();
    assert forall|k: int| i + 1 <= k < e implies plain_byte(#[trigger] s[k]) by {
        assert(s[k] == s.subrange(i + 1, e)[k - (i + 1)]);
        assert(plain_byte(key[k - (i + 1)]));
    }
    lemma_parse_plain_body(s, i + 1, e, Seq::empty());
    assert(Seq::empty() + s.subrange(i + 1, e) =~= key);
}

/// The bytes of the two discovery-response keys stand literally.
pub proof fn lemma_discovery_keys_plain()
    ensures
        plain_key(lit::key_protocol_version()),
        plain_key(lit::key_web_socket_port()),
{
    assert forall|m: int| 0 <= m < lit::key_protocol_version().len() implies plain_byte(
        #[trigger] lit::key_protocol_version()[m],
    ) by {
        assert(lit::key_protocol_version().len() == 15);
    }
    assert forall|m: int| 0 <= m < lit::key_web_socket_port().len() implies plain_byte(
        #[trigger] lit::key_web_socket_port()[m],
    ) by {
        assert(lit::key_web_socket_port().len() == 13);
    }
}

/// Round trip of the discovery response: serializing any discovery response
/// and deserializing the result gives the value back.
/// The byte layout of a serialized discovery response, and what the scan
/// primitives yield at each position of it.
#[verifier::rlimit(100)]
proof fn lemma_activate_layout(a: ActivateEditing, p: int, q: int)
    requires
        p == 19 + dec_digits(a.protocol_version as nat).len(),
        q == p + 17 + dec_digits(a.web_socket_port as nat).len(),
    ensures
        activate_editing_json(a).len() == q + 1,
        parse::ws_end(activate_editing_json(a), 0) == 0,
        activate_editing_json(a)[0] == 123,
        activate_editing_json(a)[1] == 34,
        parse::ws_end(activate_editing_json(a), 1) == 1,
        parse::spec_parse_string(activate_editing_json(a), 1) == Some(
            (lit::key_protocol_version(), 18int),
        ),
        activate_editing_json(a)[18] == 58,
        parse::ws_end(activate_editing_json(a), 18) == 18,
        parse::ws_end(activate_editing_json(a), 19) == 19,
        parse::spec_parse_u64(activate_editing_json(a), 19) == Some(
            (a.protocol_version as u64, p),
        ),
        activate_editing_json(a)[p] == 44,
        parse::ws_end(activate_editing_json(a), p) == p,
        activate_editing_json(a)[p + 1] == 34,
        parse::ws_end(activate_editing_json(a), p + 1) == p + 1,
        parse::spec_parse_string(activate_editing_json(a), p + 1) == Some(
            (lit::key_web_socket_port(), p + 16int),
        ),
        activate_editing_json(a)[p + 16] == 58,
        parse::ws_end(activate_editing_json(a), p + 16) == p + 16,
        parse::ws_end(activate_editing_json(a), p + 17) == p + 17,
        parse::spec_parse_u64(activate_editing_json(a), p + 17) == Some(
            (a.web_socket_port as u64, q),
        ),
        activate_editing_json(a)[q] == 125,
        parse::ws_end(activate_editing_json(a), q) == q,
        parse::ws_end(activate_editing_json(a), q + 1) == q + 1,
        lit::key_protocol_version() != lit::key_web_socket_port(),
{
    let s = activate_editing_json(a);
    let d1 = dec_digits(a.protocol_version as nat);
    let d2 = dec_digits(a.web_socket_port as nat);
    lemma_dec_digits_shape(a.protocol_version as nat);
    lemma_dec_digits_shape(a.web_socket_port as nat);
    lemma_discovery_keys_plain();
    assert(s.len() == q + 1);
    assert(s.subrange(0, 19) =~= lit::lit_obj_pv());
    assert(s.subrange(19, p) =~= d1);
    assert(s.subrange(p, p + 17) =~= lit::lit_wsp());
    assert(s.subrange(p + 17, q) =~= d2);
    assert(s[q] == 125);
    assert(s[0] == 123);
    assert(parse::ws_end(s, 0) == 0);
    assert(s[1] == 34);
    assert(parse::ws_end(s, 1) == 1);
    let key1 = lit::key_protocol_version();
    assert(s.subrange(2, 17) =~= key1);
    assert(s[17] == 34);
    lemma_parse_key_string(s, 1, key1);
    assert(s[18] == 58);
    assert(parse::ws_end(s, 18) == 18);
    assert forall|k: int| 19 <= k < p implies parse::is_digit(#[trigger] s[k]) by {
        assert(s[k] == s.subrange(19, p)[k - 19]);
    }
    assert(parse::ws_end(s, 19) == 19);
    assert(s[p] == 44);
    lemma_parse_u64_at(s, 19, a.protocol_version as nat, p);
    assert(parse::ws_end(s, p) == p);
    assert(s[p + 1] == 34);
    assert(parse::ws_end(s, p + 1) == p + 1);
    let key2 = lit::key_web_socket_port();
    assert(s.subrange(p + 2, p + 15) =~= key2);
    assert(s[p + 15] == 34);
    lemma_parse_key_string(s, p + 1, key2);
    assert(s[p + 16] == 58);
    assert(parse::ws_end(s, p + 16) == p + 16);
    assert forall|k: int| p + 17 <= k < q implies parse::is_digit(#[trigger] s[k]) by {
        assert(s[k] == s.subrange(p + 17, q)[k - (p + 17)]);
    }
    assert(parse::ws_end(s, p + 17) == p + 17);
    lemma_parse_u64_at(s, p + 17, a.web_socket_port as nat, q);
    assert(parse::ws_end(s, q) == q);
    assert(parse::ws_end(s, q + 1) == q + 1);
    assert(key1[0] != key2[0]);
}

/// Round trip of the discovery response: serializing any discovery response
/// and deserializing the result gives the value back.
#[verifier::rlimit(100)]
pub proof fn lemma_activate_round_trip(a: ActivateEditing)
    ensures
        spec_parse_activate_editing(activate_editing_json(a)) == Some(a),
{
    let s = activate_editing_json(a);
    let p = 19 + dec_digits(a.protocol_version as nat).len() as int;
    let q = p + 17 + dec_digits(a.web_socket_port as nat).len() as int;
    lemma_activate_layout(a, p, q);
    let f0 = AeFields { protocol_version: None, web_socket_port: None };
    let f1 = AeFields { protocol_version: Some(a.protocol_version), web_socket_port: None };
    let f2 = AeFields {
        protocol_version: Some(a.protocol_version),
        web_socket_port: Some(a.web_socket_port),
    };
    assert(spec_parse_ae_members(s, p + 1, f1) == Some((f2, q + 1)));
    assert(spec_parse_ae_members(s, 1, f0) == Some((f2, q + 1)));
    assert(spec_parse_ae_document(s) == Some(f2));
}


// ---------------------------------------------------------------------------
// Encoded frames are valid UTF-8
// ---------------------------------------------------------------------------

/// An ASCII byte sequence is valid UTF-8.
proof fn lemma_ascii_valid_utf8(bs: Seq<u8>)
    requires
        forall|k: int| 0 <= k < bs.len() ==> #[trigger] bs[k] <= 0x7f,
    ensures
        valid_utf8(bs),
    decreases bs.len(),
{
    if bs.len() > 0 {
        let b = bs[0];
        assert(vstd::utf8::leading_bits_width_1(b) <= 0x7f) by (bit_vector);
        assert(vstd::utf8::valid_first_scalar(bs));
        assert(vstd::utf8::length_of_first_scalar(bs) == 1);
        lemma_ascii_valid_utf8(bs.subrange(1, bs.len() as int));
        assert(vstd::utf8::pop_first_scalar(bs) =~= bs.subrange(1, bs.len() as int));
    }
}

/// The escape of an ASCII byte is a short ASCII sequence.
proof fn lemma_esc_byte_ascii(b: u8)
    requires
        b <= 0x7f,
    ensures
        forall|k: int| 0 <= k < esc_byte(b).len() ==> #[trigger] esc_byte(b)[k] <= 0x7f,
{
}

/// A byte at or above 0x80 passes through the escaper as it is.
proof fn lemma_json_escape_high(bs: Seq<u8>)
    requires
        forall|k: int| 0 <= k < bs.len() ==> #[trigger] bs[k] >= 0x80,
    ensures
        json_escape(bs) == bs,
    decreases bs.len(),
{
    if bs.len() > 0 {
        lemma_json_escape_high(bs.drop_last());
        assert(esc_byte(bs.last()) =~= seq![bs.last()]);
        assert(json_escape(bs) =~= bs);
    } else {
        assert(json_escape(bs) =~= bs);
    }
}

/// The escaper distributes over concatenation.
proof fn lemma_json_escape_concat(a: Seq<u8>, b: Seq<u8>)
    ensures
        json_escape(a + b) == json_escape(a) + json_escape(b),
    decreases b.len(),
{
    if b.len() == 0 {
        assert(a + b =~= a);
        assert(json_escape(b) =~= Seq::<u8>::empty());
        assert(json_escape(a) + json_escape(b) =~= json_escape(a));
    } else {
        lemma_json_escape_concat(a, b.drop_last());
        assert((a + b).drop_last() =~= a + b.drop_last());
        assert((a + b).last() == b.last());
        assert(json_escape(a + b) =~= json_escape(a) + json_escape(b));
    }
}

/// The escaped UTF-8 encoding of any text is valid UTF-8: escapes replace
/// ASCII bytes by ASCII sequences, and the bytes of a multibyte scalar pass
/// through untouched.
pub proof fn lemma_escaped_text_valid_utf8(chars: Seq<char>)
    ensures
        valid_utf8(json_escape(encode_utf8(chars))),
    decreases chars.len(),
{
    if chars.len() == 0 {
        assert(encode_utf8(chars) =~= Seq::<u8>::empty());
        assert(json_escape(Seq::<u8>::empty()) =~= Seq::<u8>::empty());
    } else {
        let c = chars[0] as u32;
        let first = vstd::utf8::encode_scalar(c);
        let rest = encode_utf8(chars.drop_first());
        assert(encode_utf8(chars) == first + rest);
        lemma_json_escape_concat(first, rest);
        lemma_escaped_text_valid_utf8(chars.drop_first());
        vstd::utf8::char_is_scalar(chars[0]);
        if c <= 0x7f {
            let b = vstd::utf8::leading_byte_width_1(c);
            assert((c & 0x7F) <= 0x7F) by (bit_vector);
            assert(b <= 0x7f);
            assert(first =~= seq![b]);
            assert(seq![b].drop_last() =~= Seq::<u8>::empty());
            assert(json_escape(Seq::<u8>::empty()) =~= Seq::<u8>::empty());
            assert(json_escape(first) =~= esc_byte(b));
            lemma_esc_byte_ascii(b);
            lemma_ascii_valid_utf8(esc_byte(b));
        } else {
            assert forall|k: int| 0 <= k < first.len() implies #[trigger] first[k] >= 0x80 by {
                let z2: u8 = ((c >> 6) & 0x1F) as u8;
                let z3: u8 = ((c >> 12) & 0x0F) as u8;
                let z4: u8 = ((c >> 18) & 0x7) as u8;
                let y1: u8 = (c & 0x3F) as u8;
                let y2: u8 = ((c >> 6) & 0x3F) as u8;
                let y3: u8 = ((c >> 12) & 0x3F) as u8;
                assert((0xC0u8 | z2) >= 0x80) by (bit_vector);
                assert((0xE0u8 | z3) >= 0x80) by (bit_vector);
                assert((0xF0u8 | z4) >= 0x80) by (bit_vector);
                assert((0x80u8 | y1) >= 0x80) by (bit_vector);
                assert((0x80u8 | y2) >= 0x80) by (bit_vector);
                assert((0x80u8 | y3) >= 0x80) by (bit_vector);
            }
            lemma_json_escape_high(first);
            vstd::utf8::encode_utf8_valid_utf8(seq![chars[0]]);
            assert(seq![chars[0]].drop_first() =~= Seq::<char>::empty());
            assert(encode_utf8(Seq::<char>::empty()) =~= Seq::<u8>::empty());
            assert(encode_utf8(seq![chars[0]]) =~= first);
        }
        vstd::utf8::valid_utf8_concat(json_escape(first), json_escape(rest));
    }
}

/// The serialized selections are ASCII.
proof fn lemma_selections_json_ascii(ss: Seq<Selection>)
    ensures
        forall|k: int|
            0 <= k < selections_json(ss).len() ==> #[trigger] selections_json(ss)[k] <= 0x7f,
    decreases ss.len(),
{
    if ss.len() > 0 {
        lemma_selections_json_ascii(ss.drop_last());
        let s = ss.last();
        lemma_dec_digits_shape(s.start as nat);
        lemma_dec_digits_shape(s.end as nat);
        assert forall|k: int|
            0 <= k < selection_json(s).len() implies #[trigger] selection_json(s)[k]
            <= 0x7f by {
            let d1 = dec_digits(s.start as nat);
            let d2 = dec_digits(s.end as nat);
            if 9 <= k < 9 + d1.len() {
                assert(selection_json(s)[k] == d1[k - 9]);
                assert(parse::is_digit(d1[k - 9]));
            } else if 9 + d1.len() + 7 <= k < 9 + d1.len() + 7 + d2.len() {
                assert(selection_json(s)[k] == d2[k - (16 + d1.len())]);
                assert(parse::is_digit(d2[k - (16 + d1.len())]));
            }
        }
        if ss.len() == 1 {
            assert(selections_json(ss) == selection_json(s));
        } else {
            let pre = selections_json(ss.drop_last());
            assert(selections_json(ss) == pre + seq![44u8] + selection_json(s));
            assert forall|k: int|
                0 <= k < selections_json(ss).len() implies #[trigger] selections_json(ss)[k]
                <= 0x7f by {
                if k < pre.len() {
                    assert(selections_json(ss)[k] == pre[k]);
                } else if k == pre.len() {
                    assert(selections_json(ss)[k] == 44);
                } else {
                    assert(selections_json(ss)[k] == selection_json(s)[k - pre.len() - 1]);
                }
            }
        }
    }
}

/// The whole encoded editor change is valid UTF-8, so it can travel as the
/// payload of a WebSocket text frame.
pub proof fn lemma_editor_change_json_valid_utf8(c: EditorChangeV)
    ensures
        valid_utf8(editor_change_json(c)),
{
    let head = lit::lit_text_open();
    let esc = json_escape(encode_utf8(c.text));
    let mid = lit::lit_sels();
    let sels = selections_json(c.selections);
    let tail = lit::lit_close_sels();
    lemma_escaped_text_valid_utf8(c.text);
    lemma_ascii_valid_utf8(head);
    lemma_selections_json_ascii(c.selections);
    lemma_ascii_valid_utf8(mid + sels + tail);
    vstd::utf8::valid_utf8_concat(head, esc);
    vstd::utf8::valid_utf8_concat(head + esc, mid + sels + tail);
    assert(head + esc + (mid + sels + tail) =~= editor_change_json(c));
}

} // verus!
