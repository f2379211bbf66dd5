//! The protocol session: request-id assignment and the two exchanges.
//!
//! A session owns a strictly increasing request-id counter, starting at 0 and
//! bumped before each send, so the first sent id is 1 and the Nth is N. The
//! byte stream itself lives with the caller: `authorize_request` and
//! `command_request` build the bytes to write, and once the response has been
//! reassembled (see [`crate::reassemble`]) `finish_authorize` and
//! [`finish_command`] interpret its body. The `authorized` flag is updated by
//! a completed authorize exchange and exposed by `is_authorized`; it records
//! the outcome of the most recent such exchange.

use vstd::prelude::*;
use vstd::utf8::{decode_utf8, valid_utf8};
use crate::codec::{encode, packet_bytes, HEADER_AND_TERMINATOR};
use crate::error::RConError;

verus! {

/// The packet type of an authenticate request; its body is the password.
pub const TYPE_AUTH: i32 = 3;

/// The packet type of an execute-command request and of every response
/// packet; its body is the command text.
pub const TYPE_COMMAND: i32 = 2;

/// The state of one client session: the last request id handed out and the
/// outcome of the most recent completed authorize exchange.
pub struct RCon {
    pub request_id: i32,
    pub authorized: bool,
}

impl RCon {
    /// A fresh session: no request sent yet, not authorized.
    pub fn new() -> (s: RCon)
        ensures
            s.request_id == 0,
            !s.authorized,
    {
        RCon { request_id: 0, authorized: false }
    }

    /// The outcome of the most recent completed authorize exchange, `false`
    /// until one completes.
    pub fn is_authorized(&self) -> (b: bool)
        ensures
            b == self.authorized,
    {
        self.authorized
    }

    /// Bumps the counter and hands the new id out: ids 1, 2, 3, … in order,
    /// never reused.
    fn next_request_id(&mut self) -> (id: i32)
        requires
            old(self).request_id < i32::MAX,
        ensures
            id == old(self).request_id + 1,
            final(self).request_id == id,
            final(self).authorized == old(self).authorized,
    {
        self.request_id = self.request_id + 1;
        self.request_id
    }

    /// The bytes of the next authenticate request, carrying `password` as
    /// body under a freshly assigned id.
    pub fn authorize_request(&mut self, password: &[u8]) -> (r: Vec<u8>)
        requires
            old(self).request_id < i32::MAX,
            password@.len() + HEADER_AND_TERMINATOR <= i32::MAX,
        ensures
            final(self).request_id == old(self).request_id + 1,
            final(self).authorized == old(self).authorized,
            r@ == packet_bytes((old(self).request_id + 1) as i32, TYPE_AUTH, password@),
    {
        let id = self.next_request_id();
        encode(id, TYPE_AUTH, password)
    }

    /// The bytes of the next execute-command request, carrying `text` as
    /// body under a freshly assigned id.
    pub fn command_request(&mut self, text: &[u8]) -> (r: Vec<u8>)
        requires
            old(self).request_id < i32::MAX,
            text@.len() + HEADER_AND_TERMINATOR <= i32::MAX,
        ensures
            final(self).request_id == old(self).request_id + 1,
            final(self).authorized == old(self).authorized,
            r@ == packet_bytes((old(self).request_id + 1) as i32, TYPE_COMMAND, text@),
    {
        let id = self.next_request_id();
        encode(id, TYPE_COMMAND, text)
    }

    /// Interprets the reassembled response to an authenticate request: the
    /// exchange succeeded exactly when the body is empty. The outcome is
    /// recorded in the `authorized` flag and returned.
    pub fn finish_authorize(&mut self, body: Vec<u8>) -> (r: Result<bool, RConError>)
        ensures
            final(self).request_id == old(self).request_id,
            r is Ok <==> valid_utf8(body@),
            r matches Ok(b) ==> b == (body@.len() == 0) && final(self).authorized == b,
            r is Err ==> r == Err::<bool, RConError>(RConError::Utf8) && final(self).authorized
                == old(self).authorized,
    {
        match utf8_to_string(body) {
            None => Err(RConError::Utf8),
            Some(text) => {
                proof {
                    lemma_decode_utf8_len_zero(body@);
                }
                let ok = text.as_str().is_empty();
                self.authorized = ok;
                Ok(ok)
            },
        }
    }
}

/// Interprets the reassembled response to an execute-command request: its
/// body decoded as UTF-8 text.
pub fn finish_command(body: Vec<u8>) -> (r: Result<String, RConError>)
    ensures
        r is Ok <==> valid_utf8(body@),
        r matches Ok(s) ==> s@ == decode_utf8(body@),
        r is Err ==> r == Err::<String, RConError>(RConError::Utf8),
{
    match utf8_to_string(body) {
        None => Err(RConError::Utf8),
        Some(text) => Ok(text),
    }
}

/// Valid UTF-8 decodes to no characters exactly when there are no bytes.
pub proof fn lemma_decode_utf8_len_zero(bytes: Seq<u8>)
    requires
        valid_utf8(bytes),
    ensures
        decode_utf8(bytes).len() == 0 <==> bytes.len() == 0,
{
}

/// Relies on `String::from_utf8`: it succeeds exactly on valid UTF-8 input
/// and yields the text those bytes encode.
#[verifier::external_body]
fn utf8_to_string(bytes: Vec<u8>) -> (r: Option<String>)
    ensures
        r is Some <==> valid_utf8(bytes@),
        r matches Some(s) ==> s@ == decode_utf8(bytes@),
{
    String::from_utf8(bytes).ok()
}

} // verus!
