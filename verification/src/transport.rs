//! Classification of PON control-socket errors.
use vstd::prelude::*;

verus! {

/// `ENETDOWN`: the network interface went down.
pub const ENETDOWN: i32 = 100;

/// AF_PACKET packet type of frames this host sent.
pub const PACKET_OUTGOING: u8 = 4;

/// One frame read from the PON control socket.
pub struct ReceivedFrame<'a> {
    /// The AF_PACKET packet type; `PACKET_OUTGOING` marks frames this host sent.
    pub packet_type: u8,
    pub bytes: &'a [u8],
}

/// Whether a transport error, given by its OS error code, reports that the PON line went down.
pub fn line_is_down(raw_os_error: Option<i32>) -> (down: bool)
    ensures
        down == (raw_os_error == Some(ENETDOWN)),
{
    match raw_os_error {
        Some(code) => code == ENETDOWN,
        None => false,
    }
}

} // verus!
