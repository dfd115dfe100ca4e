//! Helpers for incremental envelope sync via Email/changes (RFC 8620
//! section 5.2): the checkpoint is the server's opaque state.
use vstd::prelude::*;
use vstd::slice::slice_to_vec;
use vstd::utf8::{
    decode_utf8, decode_utf8_encode_utf8, encode_utf8, encode_utf8_decode_utf8,
    encode_utf8_valid_utf8, valid_utf8,
};

use io_jmap::client::JmapClientStdError;
use io_jmap::rfc8620::changes::JmapChangesError;
use io_jmap::rfc8620::error::JmapMethodError;
use io_jmap::rfc8621::email::changes::JmapEmailChangesError;

use crate::text::read_utf8;

verus! {

/// The bytes of a state.
pub fn encode(state: &str) -> (r: Vec<u8>)
    ensures
        r@ == encode_utf8(state@),
{
    slice_to_vec(state.as_bytes())
}

/// Reverse of [`encode`]; `None` on invalid UTF-8.
pub fn decode(bytes: &[u8]) -> (r: Option<String>)
    ensures
        r is Some <==> valid_utf8(bytes@),
        r matches Some(state) ==> state@ == decode_utf8(bytes@),
{
    read_utf8(bytes)
}

/// Every state can be read back from its bytes.
pub proof fn law_state_round_trip(state: Seq<char>)
    ensures
        valid_utf8(encode_utf8(state)),
        decode_utf8(encode_utf8(state)) == state,
{
    encode_utf8_valid_utf8(state);
    encode_utf8_decode_utf8(state);
}

/// Bytes that can be read are those of the state read from them.
pub proof fn law_state_bytes(bytes: Seq<u8>)
    requires
        valid_utf8(bytes),
    ensures
        encode_utf8(decode_utf8(bytes)) == bytes,
{
    decode_utf8_encode_utf8(bytes);
}

/// Why a client's call failed.
#[verifier::external_type_specification]
#[verifier::external_body]
pub struct ExJmapClientStdError(JmapClientStdError);

/// The answer of a method that failed.
#[derive(Clone, Copy, Debug, PartialEq, Eq, Structural)]
pub enum MethodFault {
    CannotCalculateChanges,
    Other,
}

/// Why an Email/changes failed.
#[derive(Clone, Copy, Debug, PartialEq, Eq, Structural)]
pub enum ChangesFault {
    MissingResponse,
    Send,
    SerializeArgs,
    ParseResponse,
    Method(MethodFault),
}

/// Which call of a client failed, and how where it is an Email/changes.
#[derive(Clone, Copy, Debug, PartialEq, Eq, Structural)]
pub enum ClientFault {
    EmailChanges(ChangesFault),
    Other,
}

/// Which call failed, and how.
pub uninterp spec fn fault_content(err: JmapClientStdError) -> ClientFault;

/// Tells the variants of [`JmapClientStdError`] apart, and for Email/changes
/// those of what it holds.
#[verifier::external_body]
fn client_fault(err: &JmapClientStdError) -> (r: ClientFault)
    ensures
        r == fault_content(*err),
{
    match err {
        JmapClientStdError::EmailChanges(JmapEmailChangesError::Changes(err)) => ClientFault::EmailChanges(match err {
            JmapChangesError::MissingResponse => ChangesFault::MissingResponse,
            JmapChangesError::Send(_) => ChangesFault::Send,
            JmapChangesError::SerializeArgs(_) => ChangesFault::SerializeArgs,
            JmapChangesError::ParseResponse(_) => ChangesFault::ParseResponse,
            JmapChangesError::Method(err) => ChangesFault::Method(match err {
                JmapMethodError::CannotCalculateChanges { .. } => MethodFault::CannotCalculateChanges,
                _ => MethodFault::Other,
            }),
        }),
        _ => ClientFault::Other,
    }
}

/// True for the cannotCalculateChanges signal (RFC 8620 section 5.2): the
/// answer of the Email/changes method, and of no other call.
pub fn is_cannot_calculate_changes(err: &JmapClientStdError) -> (r: bool)
    ensures
        r == (fault_content(*err) == ClientFault::EmailChanges(
            ChangesFault::Method(MethodFault::CannotCalculateChanges),
        )),
{
    is_resync_fault(client_fault(err))
}

/// Whether a failure tells that changes cannot be calculated, so that all
/// has to be listed again.
pub fn is_resync_fault(fault: ClientFault) -> (r: bool)
    ensures
        r == (fault == ClientFault::EmailChanges(
            ChangesFault::Method(MethodFault::CannotCalculateChanges),
        )),
{
    match fault {
        ClientFault::EmailChanges(ChangesFault::Method(MethodFault::CannotCalculateChanges)) => true,
        _ => false,
    }
}

} // verus!
