//! The builder for a CONNECT request.

use vstd::prelude::*;

use crate::protocol::types::EncodedStr;
use crate::protocol::v5;
use crate::protocol::v5::connect::ConnectProperty;

verus! {

/// A CONNECT request under construction. The builder accumulates
/// fields; the finished packet is sent and its CONNACK awaited by the
/// caller.
///
/// The exchange it begins is *not* cancel safe: abandoning it between
/// sending CONNECT and receiving CONNACK leaves the session in an
/// undefined state, and the connection must be dropped.
#[derive(Debug, Clone)]
pub struct Connect {
    pub packet: v5::Connect,
}

impl Connect {
    /// A request for `client_id` with all options at their defaults.
    pub fn new(client_id: EncodedStr) -> (r: Self)
        ensures
            r.packet.client_id == client_id,
            r.packet.keep_alive == 0u16,
            r.packet.clean_start == true,
            r.packet.will is None,
            r.packet.username is None,
            r.packet.password is None,
            r.packet.properties@ =~= Seq::<ConnectProperty>::empty(),
    {
        Connect { packet: v5::Connect::new(client_id) }
    }

    /// Sets the keep-alive interval, in seconds.
    pub fn keep_alive(self, keep_alive: u16) -> (r: Self)
        ensures
            r.packet == (v5::Connect { keep_alive, ..self.packet }),
    {
        let mut packet = self.packet;
        packet.keep_alive = keep_alive;
        Connect { packet }
    }

    /// Asks the server to resume a previous session: sets clean start
    /// to the opposite of `resume`.
    pub fn resume_session(self, resume: bool) -> (r: Self)
        ensures
            r.packet == (v5::Connect { clean_start: !resume, ..self.packet }),
    {
        let mut packet = self.packet;
        packet.clean_start = !resume;
        Connect { packet }
    }

    /// Sets or clears the username.
    pub fn with_username(self, username: Option<EncodedStr>) -> (r: Self)
        ensures
            r.packet == (v5::Connect { username, ..self.packet }),
    {
        let mut packet = self.packet;
        packet.username = username;
        Connect { packet }
    }

    /// Sets or clears the password.
    pub fn with_password(self, password: Option<EncodedStr>) -> (r: Self)
        ensures
            r.packet == (v5::Connect { password, ..self.packet }),
    {
        let mut packet = self.packet;
        packet.password = password;
        Connect { packet }
    }

    /// Sets the request's properties.
    pub fn with_properties(self, properties: Vec<ConnectProperty>) -> (r: Self)
        ensures
            r.packet == (v5::Connect { properties: r.packet.properties, ..self.packet }),
            r.packet.properties@ == properties@,
    {
        let mut packet = self.packet;
        packet.properties = properties;
        Connect { packet }
    }
}

} // verus!
