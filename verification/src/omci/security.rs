//! The cryptographic operations of OMCI enhanced security (G.988 Class 332).
use vstd::prelude::*;

verus! {

/// Randomness and key derivation for the enhanced-security handshake.
///
/// The handshake logic is in the MIB; an implementation supplies the random
/// challenges and the keyed hashes. Nothing is assumed of the values an
/// implementation returns: the MIB's contracts hold for every outcome.
pub trait SessionCrypto {
    /// A fresh random block; `None` where no randomness could be drawn.
    fn random_block(&mut self) -> Option<[u8; 16]>;

    /// The ONU random challenge answering one OLT challenge.
    fn onu_random_challenge(&mut self, olt_challenge: &[u8; 16], random: &[u8; 16]) -> [u8; 16];

    /// The authentication result over both challenge tables and a serial number:
    /// the ONU's result where `onu_result`, the OLT's expected result otherwise.
    fn authentication_result(
        &mut self,
        olt_challenges: &Vec<[u8; 16]>,
        onu_challenges: &Vec<[u8; 16]>,
        serial: &[u8; 8],
        onu_result: bool,
    ) -> Option<[u8; 16]>;

    /// The name of the master session key both challenge tables derive.
    fn master_session_key_name(&mut self, olt_challenges: &Vec<[u8; 16]>, onu_challenges: &Vec<[u8; 16]>) -> Option<[u8; 16]>;

    /// The master session key both challenge tables derive.
    fn master_session_key(&mut self, olt_challenges: &Vec<[u8; 16]>, onu_challenges: &Vec<[u8; 16]>) -> Option<[u8; 16]>;
}

} // verus!
