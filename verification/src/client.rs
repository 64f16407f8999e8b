//! The protocol client's verified half: building requests with fresh
//! identifiers, judging the auth handshake's outcome, and correlating a
//! command response with its outstanding request.
//!
//! The socket itself lives outside; it hands decoded packets in and takes
//! encoded frames out. At most one exchange is outstanding at a time.

use vstd::prelude::*;

verus! {

use crate::packet::{decode_payload, spec_payload, Packet, TYPE_AUTH, TYPE_AUTH_RESPONSE, TYPE_EXEC_COMMAND};

/// Recoverable failure of one command exchange.
#[derive(Clone, Copy, Debug, PartialEq, Eq, Structural)]
pub enum ExchangeError {
    /// Timeout, disconnect, or a response whose identifier does not match.
    Transport,
    /// Malformed framing: a declared length inconsistent with the bytes
    /// received.
    Protocol,
}

/// The server's verdict on the auth handshake.
#[derive(Clone, Copy, Debug, PartialEq, Eq, Structural)]
pub enum AuthOutcome {
    /// The response correlates with the auth request: authenticated.
    Accepted,
    /// Anything else: the server signals rejection.
    Rejected,
}

/// A body that fits a frame: no NUL byte (it travels null-terminated) and
/// short enough for the 32-bit length prefix.
pub open spec fn body_framable(b: Seq<u8>) -> bool {
    (forall|i: int| 0 <= i < b.len() ==> b[i] != 0u8) && b.len() + 10 <= u32::MAX
}

/// The identifier after `id`: distinct from it, never the unused 0.
pub open spec fn next_id_of(id: u32) -> u32 {
    if id == u32::MAX {
        1u32
    } else {
        (id + 1) as u32
    }
}

/// Issues the requests of one connection, each under a fresh identifier.
pub struct ProtocolClient {
    pub next_id: u32,
}

/// True when `b` can be a packet body.
fn check_framable(b: &[u8]) -> (r: bool)
    ensures
        r == body_framable(b@),
{
    if b.len() > (u32::MAX - 10) as usize {
        return false;
    }
    let mut i: usize = 0;
    while i < b.len()
        invariant
            i <= b@.len(),
            forall|j: int| 0 <= j < i ==> b@[j] != 0u8,
        decreases b@.len() - i,
    {
        if b[i] == 0 {
            return false;
        }
        i = i + 1;
    }
    true
}

impl ProtocolClient {
    /// A client for a fresh connection; no request issued yet.
    pub fn new() -> (c: ProtocolClient)
        ensures
            c.next_id == 1u32,
    {
        ProtocolClient { next_id: 1 }
    }

    /// Builds the next request packet of type `ptype` around `body`,
    /// consuming one identifier; no packet when the body cannot be framed.
    fn request(&mut self, ptype: u32, body: &[u8]) -> (r: Option<Packet>)
        ensures
            match r {
                Some(p) => {
                    &&& body_framable(body@)
                    &&& p.wf()
                    &&& p.id == old(self).next_id
                    &&& p.ptype == ptype
                    &&& p.body@ == body@
                    &&& final(self).next_id == next_id_of(old(self).next_id)
                },
                None => !body_framable(body@) && *final(self) == *old(self),
            },
    {
        if !check_framable(body) {
            return None;
        }
        let id = self.next_id;
        self.next_id = if id == u32::MAX {
            1
        } else {
            id + 1
        };
        let p = Packet { id, ptype, body: vstd::slice::slice_to_vec(body) };
        Some(p)
    }

    /// Builds the auth request for `password`; its identifier correlates
    /// the server's verdict.
    pub fn auth_request(&mut self, password: &[u8]) -> (r: Option<Packet>)
        ensures
            match r {
                Some(p) => {
                    &&& body_framable(password@)
                    &&& p.wf()
                    &&& p.id == old(self).next_id
                    &&& p.ptype == TYPE_AUTH
                    &&& p.body@ == password@
                    &&& final(self).next_id == next_id_of(old(self).next_id)
                },
                None => !body_framable(password@) && *final(self) == *old(self),
            },
    {
        self.request(TYPE_AUTH, password)
    }

    /// Builds the command-execution request for `command` under a fresh
    /// identifier.
    pub fn command_request(&mut self, command: &[u8]) -> (r: Option<Packet>)
        ensures
            match r {
                Some(p) => {
                    &&& body_framable(command@)
                    &&& p.wf()
                    &&& p.id == old(self).next_id
                    &&& p.ptype == TYPE_EXEC_COMMAND
                    &&& p.body@ == command@
                    &&& final(self).next_id == next_id_of(old(self).next_id)
                },
                None => !body_framable(command@) && *final(self) == *old(self),
            },
    {
        self.request(TYPE_EXEC_COMMAND, command)
    }
}

/// Law: consecutive requests never share an identifier, so a response
/// correlates with at most one of two exchanges in a row.
pub proof fn lemma_fresh_id_distinct(id: u32)
    ensures
        next_id_of(id) != id,
{
}

/// Judges the auth handshake: accepted exactly when the response is an
/// auth response carrying the request's identifier. A rejecting server
/// answers under a different identifier, so anything else is a rejection.
pub fn auth_outcome(request_id: u32, response: &Packet) -> (r: AuthOutcome)
    ensures
        r == AuthOutcome::Accepted <==> (response.ptype == TYPE_AUTH_RESPONSE
            && response.id == request_id),
{
    if response.ptype == TYPE_AUTH_RESPONSE && response.id == request_id {
        AuthOutcome::Accepted
    } else {
        AuthOutcome::Rejected
    }
}

/// Correlates a command response with the outstanding request: a matching
/// identifier yields the body, any other identifier is a transport
/// failure of the exchange.
pub fn correlate_response(request_id: u32, response: Packet) -> (r: Result<Vec<u8>, ExchangeError>)
    ensures
        match r {
            Ok(body) => response.id == request_id && body == response.body,
            Err(e) => response.id != request_id && e == ExchangeError::Transport,
        },
{
    if response.id == request_id {
        Ok(response.body)
    } else {
        Err(ExchangeError::Transport)
    }
}

/// Completes one command exchange from the raw payload of the response
/// frame. Malformed framing is a protocol failure; a well-formed response
/// under any other identifier is a transport failure; the correlated
/// response yields its body.
pub fn complete_exchange(request_id: u32, payload: &[u8]) -> (r: Result<Vec<u8>, ExchangeError>)
    ensures
        match r {
            Ok(body) => exists|p: Packet|
                p.wf() && #[trigger] spec_payload(p) == payload@ && p.id == request_id && body
                    == p.body,
            Err(ExchangeError::Protocol) => forall|p: Packet| p.wf() ==> payload@ != spec_payload(p),
            Err(ExchangeError::Transport) => exists|p: Packet|
                p.wf() && #[trigger] spec_payload(p) == payload@ && p.id != request_id,
        },
{
    match decode_payload(payload) {
        None => Err(ExchangeError::Protocol),
        Some(response) => {
            let ghost resp = response;
            let r = correlate_response(request_id, response);
            proof {
                assert(resp.wf() && spec_payload(resp) == payload@);
            }
            r
        },
    }
}

} // verus!
