//! OMCI and PON line logic for Airoha xPON ONUs.
pub mod omci;
pub mod transport;
