//! The fixed byte sequences of the wire protocol, each as a spec sequence
//! beside the executable function that materializes it.

use vstd::prelude::*;

verus! {

/// `{"ProtocolVersion":`: opening of the discovery-response object, up to the first value.
pub open spec fn lit_obj_pv() -> Seq<u8> {
    seq![123u8, 34, 80, 114, 111, 116, 111, 99, 111, 108, 86, 101, 114, 115, 105, 111, 110, 34, 58]
}

/// Exec counterpart of [`lit_obj_pv`].
pub fn lit_obj_pv_vec() -> (r: Vec<u8>)
    ensures
        r@ == lit_obj_pv(),
{
    let mut r: Vec<u8> = Vec::new();
    r.push(123);
    r.push(34);
    r.push(80);
    r.push(114);
    r.push(111);
    r.push(116);
    r.push(111);
    r.push(99);
    r.push(111);
    r.push(108);
    r.push(86);
    r.push(101);
    r.push(114);
    r.push(115);
    r.push(105);
    r.push(111);
    r.push(110);
    r.push(34);
    r.push(58);
    proof {
        assert(r@ =~= lit_obj_pv());
    }
    r
}

/// `,"WebSocketPort":`: separator between the two discovery-response fields.
pub open spec fn lit_wsp() -> Seq<u8> {
    seq![44u8, 34, 87, 101, 98, 83, 111, 99, 107, 101, 116, 80, 111, 114, 116, 34, 58]
}

/// Exec counterpart of [`lit_wsp`].
pub fn lit_wsp_vec() -> (r: Vec<u8>)
    ensures
        r@ == lit_wsp(),
{
    let mut r: Vec<u8> = Vec::new();
    r.push(44);
    r.push(34);
    r.push(87);
    r.push(101);
    r.push(98);
    r.push(83);
    r.push(111);
    r.push(99);
    r.push(107);
    r.push(101);
    r.push(116);
    r.push(80);
    r.push(111);
    r.push(114);
    r.push(116);
    r.push(34);
    r.push(58);
    proof {
        assert(r@ =~= lit_wsp());
    }
    r
}

/// `{"text":"`: opening of the editor-change object, up to the text value.
pub open spec fn lit_text_open() -> Seq<u8> {
    seq![123u8, 34, 116, 101, 120, 116, 34, 58, 34]
}

/// Exec counterpart of [`lit_text_open`].
pub fn lit_text_open_vec() -> (r: Vec<u8>)
    ensures
        r@ == lit_text_open(),
{
    let mut r: Vec<u8> = Vec::new();
    r.push(123);
    r.push(34);
    r.push(116);
    r.push(101);
    r.push(120);
    r.push(116);
    r.push(34);
    r.push(58);
    r.push(34);
    proof {
        assert(r@ =~= lit_text_open());
    }
    r
}

/// `","selections":[`: separator between the text value and the selection array.
pub open spec fn lit_sels() -> Seq<u8> {
    seq![34u8, 44, 34, 115, 101, 108, 101, 99, 116, 105, 111, 110, 115, 34, 58, 91]
}

/// Exec counterpart of [`lit_sels`].
pub fn lit_sels_vec() -> (r: Vec<u8>)
    ensures
        r@ == lit_sels(),
{
    let mut r: Vec<u8> = Vec::new();
    r.push(34);
    r.push(44);
    r.push(34);
    r.push(115);
    r.push(101);
    r.push(108);
    r.push(101);
    r.push(99);
    r.push(116);
    r.push(105);
    r.push(111);
    r.push(110);
    r.push(115);
    r.push(34);
    r.push(58);
    r.push(91);
    proof {
        assert(r@ =~= lit_sels());
    }
    r
}

/// `{"start":`: opening of one selection object.
pub open spec fn lit_sel_start() -> Seq<u8> {
    seq![123u8, 34, 115, 116, 97, 114, 116, 34, 58]
}

/// Exec counterpart of [`lit_sel_start`].
pub fn lit_sel_start_vec() -> (r: Vec<u8>)
    ensures
        r@ == lit_sel_start(),
{
    let mut r: Vec<u8> = Vec::new();
    r.push(123);
    r.push(34);
    r.push(115);
    r.push(116);
    r.push(97);
    r.push(114);
    r.push(116);
    r.push(34);
    r.push(58);
    proof {
        assert(r@ =~= lit_sel_start());
    }
    r
}

/// `,"end":`: separator between the two selection fields.
pub open spec fn lit_sel_end() -> Seq<u8> {
    seq![44u8, 34, 101, 110, 100, 34, 58]
}

/// Exec counterpart of [`lit_sel_end`].
pub fn lit_sel_end_vec() -> (r: Vec<u8>)
    ensures
        r@ == lit_sel_end(),
{
    let mut r: Vec<u8> = Vec::new();
    r.push(44);
    r.push(34);
    r.push(101);
    r.push(110);
    r.push(100);
    r.push(34);
    r.push(58);
    proof {
        assert(r@ =~= lit_sel_end());
    }
    r
}

/// `]}`: closing of the selection array and the change object.
pub open spec fn lit_close_sels() -> Seq<u8> {
    seq![93u8, 125]
}

/// `title`: member key of the document title.
pub open spec fn key_title() -> Seq<u8> {
    seq![116u8, 105, 116, 108, 101]
}

/// Exec counterpart of [`key_title`].
pub fn key_title_vec() -> (r: Vec<u8>)
    ensures
        r@ == key_title(),
{
    let mut r: Vec<u8> = Vec::new();
    r.push(116);
    r.push(105);
    r.push(116);
    r.push(108);
    r.push(101);
    proof {
        assert(r@ =~= key_title());
    }
    r
}

/// `url`: member key of the document url.
pub open spec fn key_url() -> Seq<u8> {
    seq![117u8, 114, 108]
}

/// Exec counterpart of [`key_url`].
pub fn key_url_vec() -> (r: Vec<u8>)
    ensures
        r@ == key_url(),
{
    let mut r: Vec<u8> = Vec::new();
    r.push(117);
    r.push(114);
    r.push(108);
    proof {
        assert(r@ =~= key_url());
    }
    r
}

/// `syntax`: member key of the syntax hint.
pub open spec fn key_syntax() -> Seq<u8> {
    seq![115u8, 121, 110, 116, 97, 120]
}

/// Exec counterpart of [`key_syntax`].
pub fn key_syntax_vec() -> (r: Vec<u8>)
    ensures
        r@ == key_syntax(),
{
    let mut r: Vec<u8> = Vec::new();
    r.push(115);
    r.push(121);
    r.push(110);
    r.push(116);
    r.push(97);
    r.push(120);
    proof {
        assert(r@ =~= key_syntax());
    }
    r
}

/// `text`: member key of the document text.
pub open spec fn key_text() -> Seq<u8> {
    seq![116u8, 101, 120, 116]
}

/// Exec counterpart of [`key_text`].
pub fn key_text_vec() -> (r: Vec<u8>)
    ensures
        r@ == key_text(),
{
    let mut r: Vec<u8> = Vec::new();
    r.push(116);
    r.push(101);
    r.push(120);
    r.push(116);
    proof {
        assert(r@ =~= key_text());
    }
    r
}

/// `selections`: member key of the selection array.
pub open spec fn key_selections() -> Seq<u8> {
    seq![115u8, 101, 108, 101, 99, 116, 105, 111, 110, 115]
}

/// Exec counterpart of [`key_selections`].
pub fn key_selections_vec() -> (r: Vec<u8>)
    ensures
        r@ == key_selections(),
{
    let mut r: Vec<u8> = Vec::new();
    r.push(115);
    r.push(101);
    r.push(108);
    r.push(101);
    r.push(99);
    r.push(116);
    r.push(105);
    r.push(111);
    r.push(110);
    r.push(115);
    proof {
        assert(r@ =~= key_selections());
    }
    r
}

/// `start`: member key of a selection start.
pub open spec fn key_start() -> Seq<u8> {
    seq![115u8, 116, 97, 114, 116]
}

/// Exec counterpart of [`key_start`].
pub fn key_start_vec() -> (r: Vec<u8>)
    ensures
        r@ == key_start(),
{
    let mut r: Vec<u8> = Vec::new();
    r.push(115);
    r.push(116);
    r.push(97);
    r.push(114);
    r.push(116);
    proof {
        assert(r@ =~= key_start());
    }
    r
}

/// `end`: member key of a selection end.
pub open spec fn key_end() -> Seq<u8> {
    seq![101u8, 110, 100]
}

/// Exec counterpart of [`key_end`].
pub fn key_end_vec() -> (r: Vec<u8>)
    ensures
        r@ == key_end(),
{
    let mut r: Vec<u8> = Vec::new();
    r.push(101);
    r.push(110);
    r.push(100);
    proof {
        assert(r@ =~= key_end());
    }
    r
}

/// `ProtocolVersion`: member key of the protocol version.
pub open spec fn key_protocol_version() -> Seq<u8> {
    seq![80u8, 114, 111, 116, 111, 99, 111, 108, 86, 101, 114, 115, 105, 111, 110]
}

/// Exec counterpart of [`key_protocol_version`].
pub fn key_protocol_version_vec() -> (r: Vec<u8>)
    ensures
        r@ == key_protocol_version(),
{
    let mut r: Vec<u8> = Vec::new();
    r.push(80);
    r.push(114);
    r.push(111);
    r.push(116);
    r.push(111);
    r.push(99);
    r.push(111);
    r.push(108);
    r.push(86);
    r.push(101);
    r.push(114);
    r.push(115);
    r.push(105);
    r.push(111);
    r.push(110);
    proof {
        assert(r@ =~= key_protocol_version());
    }
    r
}

/// `WebSocketPort`: member key of the WebSocket port.
pub open spec fn key_web_socket_port() -> Seq<u8> {
    seq![87u8, 101, 98, 83, 111, 99, 107, 101, 116, 80, 111, 114, 116]
}

/// Exec counterpart of [`key_web_socket_port`].
pub fn key_web_socket_port_vec() -> (r: Vec<u8>)
    ensures
        r@ == key_web_socket_port(),
{
    let mut r: Vec<u8> = Vec::new();
    r.push(87);
    r.push(101);
    r.push(98);
    r.push(83);
    r.push(111);
    r.push(99);
    r.push(107);
    r.push(101);
    r.push(116);
    r.push(80);
    r.push(111);
    r.push(114);
    r.push(116);
    proof {
        assert(r@ =~= key_web_socket_port());
    }
    r
}

/// `true`: JSON literal true.
pub open spec fn lit_true() -> Seq<u8> {
    seq![116u8, 114, 117, 101]
}

/// `false`: JSON literal false.
pub open spec fn lit_false() -> Seq<u8> {
    seq![102u8, 97, 108, 115, 101]
}

/// `null`: JSON literal null.
pub open spec fn lit_null() -> Seq<u8> {
    seq![110u8, 117, 108, 108]
}

/// `Upgrade: websocket`: header line marking a WebSocket handshake request.
pub open spec fn lit_upgrade_marker() -> Seq<u8> {
    seq![85u8, 112, 103, 114, 97, 100, 101, 58, 32, 119, 101, 98, 115, 111, 99, 107, 101, 116]
}

/// Exec counterpart of [`lit_upgrade_marker`].
pub fn lit_upgrade_marker_vec() -> (r: Vec<u8>)
    ensures
        r@ == lit_upgrade_marker(),
{
    let mut r: Vec<u8> = Vec::new();
    r.push(85);
    r.push(112);
    r.push(103);
    r.push(114);
    r.push(97);
    r.push(100);
    r.push(101);
    r.push(58);
    r.push(32);
    r.push(119);
    r.push(101);
    r.push(98);
    r.push(115);
    r.push(111);
    r.push(99);
    r.push(107);
    r.push(101);
    r.push(116);
    proof {
        assert(r@ =~= lit_upgrade_marker());
    }
    r
}

/// `GET / HTTP/1.1`: request line of a discovery request.
pub open spec fn lit_discovery_prefix() -> Seq<u8> {
    seq![71u8, 69, 84, 32, 47, 32, 72, 84, 84, 80, 47, 49, 46, 49]
}

/// Exec counterpart of [`lit_discovery_prefix`].
pub fn lit_discovery_prefix_vec() -> (r: Vec<u8>)
    ensures
        r@ == lit_discovery_prefix(),
{
    let mut r: Vec<u8> = Vec::new();
    r.push(71);
    r.push(69);
    r.push(84);
    r.push(32);
    r.push(47);
    r.push(32);
    r.push(72);
    r.push(84);
    r.push(84);
    r.push(80);
    r.push(47);
    r.push(49);
    r.push(46);
    r.push(49);
    proof {
        assert(r@ =~= lit_discovery_prefix());
    }
    r
}

/// `HTTP/1.1 200 OK\r\nContent-Type: application/json\r\nContent-Length: `: discovery response head, up to the content length.
pub open spec fn lit_http_head() -> Seq<u8> {
    seq![72u8, 84, 84, 80, 47, 49, 46, 49, 32, 50, 48, 48, 32, 79, 75, 13, 10, 67, 111, 110, 116, 101, 110, 116, 45, 84, 121, 112, 101, 58, 32, 97, 112, 112, 108, 105, 99, 97, 116, 105, 111, 110, 47, 106, 115, 111, 110, 13, 10, 67, 111, 110, 116, 101, 110, 116, 45, 76, 101, 110, 103, 116, 104, 58, 32]
}

/// Exec counterpart of [`lit_http_head`].
pub fn lit_http_head_vec() -> (r: Vec<u8>)
    ensures
        r@ == lit_http_head(),
{
    let mut r: Vec<u8> = Vec::new();
    r.push(72);
    r.push(84);
    r.push(84);
    r.push(80);
    r.push(47);
    r.push(49);
    r.push(46);
    r.push(49);
    r.push(32);
    r.push(50);
    r.push(48);
    r.push(48);
    r.push(32);
    r.push(79);
    r.push(75);
    r.push(13);
    r.push(10);
    r.push(67);
    r.push(111);
    r.push(110);
    r.push(116);
    r.push(101);
    r.push(110);
    r.push(116);
    r.push(45);
    r.push(84);
    r.push(121);
    r.push(112);
    r.push(101);
    r.push(58);
    r.push(32);
    r.push(97);
    r.push(112);
    r.push(112);
    r.push(108);
    r.push(105);
    r.push(99);
    r.push(97);
    r.push(116);
    r.push(105);
    r.push(111);
    r.push(110);
    r.push(47);
    r.push(106);
    r.push(115);
    r.push(111);
    r.push(110);
    r.push(13);
    r.push(10);
    r.push(67);
    r.push(111);
    r.push(110);
    r.push(116);
    r.push(101);
    r.push(110);
    r.push(116);
    r.push(45);
    r.push(76);
    r.push(101);
    r.push(110);
    r.push(103);
    r.push(116);
    r.push(104);
    r.push(58);
    r.push(32);
    proof {
        assert(r@ =~= lit_http_head());
    }
    r
}

/// `\r\nConnection: close\r\n\r\n`: end of the discovery response headers.
pub open spec fn lit_http_tail() -> Seq<u8> {
    seq![13u8, 10, 67, 111, 110, 110, 101, 99, 116, 105, 111, 110, 58, 32, 99, 108, 111, 115, 101, 13, 10, 13, 10]
}

/// Exec counterpart of [`lit_http_tail`].
pub fn lit_http_tail_vec() -> (r: Vec<u8>)
    ensures
        r@ == lit_http_tail(),
{
    let mut r: Vec<u8> = Vec::new();
    r.push(13);
    r.push(10);
    r.push(67);
    r.push(111);
    r.push(110);
    r.push(110);
    r.push(101);
    r.push(99);
    r.push(116);
    r.push(105);
    r.push(111);
    r.push(110);
    r.push(58);
    r.push(32);
    r.push(99);
    r.push(108);
    r.push(111);
    r.push(115);
    r.push(101);
    r.push(13);
    r.push(10);
    r.push(13);
    r.push(10);
    proof {
        assert(r@ =~= lit_http_tail());
    }
    r
}

} // verus!
