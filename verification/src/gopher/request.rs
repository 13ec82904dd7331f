//! What the crawler asks of a server.

use super::response::ItemType;
use crate::text::{decimal, push_decimal};
use std::rc::Rc;
use vstd::prelude::*;
use vstd::string::StringSliceAdditionalSpecFns;
use vstd::utf8::encode_utf8;

verus! {

/// One request: the selector to send, the server to send it to, written
/// `host:port`, and the kind of item that is expected back.
#[derive(Clone, Debug, PartialEq, Eq)]
pub struct Request {
    pub selector: Rc<String>,
    pub server_details: Rc<String>,
    pub item_type: ItemType,
}

/// The `host:port` form of a server, with the port as a decimal numeral.
pub open spec fn server_details(server_name: Seq<char>, server_port: u16) -> Seq<char> {
    server_name + seq![':'] + decimal(server_port as nat)
}

/// What goes on the wire for a selector: its bytes, then CR LF.
pub open spec fn request_bytes(selector: Seq<char>) -> Seq<u8> {
    encode_utf8(selector) + seq![0x0du8, 0x0au8]
}

/// Writes `host:port`.
pub fn format_server_details(server_name: &str, server_port: u16) -> (s: String)
    ensures
        s@ == server_details(server_name@, server_port),
{
    let mut s = server_name.to_owned();
    s.push(':');
    push_decimal(&mut s, server_port as u64);
    s
}

impl Request {
    /// A request for `selector` on the server `server_name:server_port`.
    pub fn new(
        selector: Rc<String>,
        server_name: Rc<String>,
        server_port: u16,
        item_type: ItemType,
    ) -> (r: Request)
        ensures
            r.selector@ == selector@,
            r.server_details@ == server_details(server_name@, server_port),
            r.item_type == item_type,
    {
        let details = format_server_details(server_name.as_str(), server_port);
        Request { selector, server_details: Rc::new(details), item_type }
    }

    /// The bytes to write for this request.
    pub fn to_bytes(&self) -> (bytes: Vec<u8>)
        ensures
            bytes@ == request_bytes(self.selector@),
    {
        let mut bytes = self.selector.as_str().as_bytes_vec();
        bytes.push(0x0d);
        bytes.push(0x0a);
        assert(bytes@ =~= request_bytes(self.selector@));
        bytes
    }
}

} // verus!
