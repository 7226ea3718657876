//! The message-passing payload between sessions and the hub: a tagged
//! union of connection, disconnection and message events, together with
//! its verified log rendering.

use vstd::prelude::*;

use crate::redaction::Sensitive;
use crate::redaction::rendered;
use crate::render::dec_digits;
use crate::render::dec_signed;
use crate::render::i64_to_string;
use crate::render::lossy_of;
use crate::render::lossy_string;
use crate::render::u64_to_string;

verus! {

/// Raw bytes read from one socket in one read operation, with the
/// originating connection's address and a millisecond timestamp. No
/// message delimiter is imposed: payload boundaries are those of the
/// underlying reads.
pub struct ClientMessage {
    pub author: u64,
    pub date: i64,
    pub msg: Vec<u8>,
}

impl ClientMessage {
    /// The log line body for this message; the content goes through
    /// redaction, the rest is rendered literally.
    pub open spec fn spec_render(self, safe: bool) -> Seq<char> {
        "author: "@ + dec_digits(self.author as nat) + " date: "@ + dec_signed(
            self.date as int,
        ) + " msg: "@ + rendered(lossy_of(self.msg@), safe)
    }

    pub fn render(&self, safe: bool) -> (r: String)
        ensures
            r@ == self.spec_render(safe),
    {
        let mut s = String::from_str("author: ");
        let author_text = u64_to_string(self.author);
        s.append(author_text.as_str());
        s.append(" date: ");
        let date_text = i64_to_string(self.date);
        s.append(date_text.as_str());
        s.append(" msg: ");
        let content = Sensitive::new(lossy_string(&self.msg));
        let content_text = content.render(safe);
        s.append(content_text.as_str());
        proof {
            assert(s@ =~= self.spec_render(safe));
        }
        s
    }
}

/// One event on the shared channel. Connections carry the identifier of
/// the session's writable handle, obtained when the session is opened;
/// the hub registers it before it accepts messages for that address.
pub enum Notification {
    ClientConnection(u64, u64),
    ClientDisconnection(u64),
    NewMessage(ClientMessage),
}

impl Notification {
    pub open spec fn spec_render(self, safe: bool) -> Seq<char> {
        match self {
            Notification::ClientConnection(addr, handle) => "ClientConnection: "@ + dec_digits(
                addr as nat,
            ) + " handle: "@ + dec_digits(handle as nat),
            Notification::ClientDisconnection(addr) => "ClientDisconnection: "@ + dec_digits(
                addr as nat,
            ),
            Notification::NewMessage(m) => "NewMessage: "@ + m.spec_render(safe),
        }
    }

    /// The log line for this event. Only rendering looks at the safety
    /// flag; what the hub relays never does.
    pub fn render(&self, safe: bool) -> (r: String)
        ensures
            r@ == self.spec_render(safe),
    {
        match self {
            Notification::ClientConnection(addr, handle) => {
                let mut s = String::from_str("ClientConnection: ");
                let addr_text = u64_to_string(*addr);
                s.append(addr_text.as_str());
                s.append(" handle: ");
                let handle_text = u64_to_string(*handle);
                s.append(handle_text.as_str());
                proof {
                    assert(s@ =~= self.spec_render(safe));
                }
                s
            }
            Notification::ClientDisconnection(addr) => {
                let mut s = String::from_str("ClientDisconnection: ");
                let addr_text = u64_to_string(*addr);
                s.append(addr_text.as_str());
                proof {
                    assert(s@ =~= self.spec_render(safe));
                }
                s
            }
            Notification::NewMessage(m) => {
                let mut s = String::from_str("NewMessage: ");
                let body = m.render(safe);
                s.append(body.as_str());
                proof {
                    assert(s@ =~= self.spec_render(safe));
                }
                s
            }
        }
    }
}

} // verus!
