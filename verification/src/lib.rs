//! Link layer for the Crazyflie quadcopter: the CRTP packet format, the
//! Safelink protocol state of a Crazyradio link, link URIs, and the
//! packet-capture frame format.

pub mod capture;
mod connection;
mod error;
pub mod link;
pub mod packet;
pub mod text;
pub mod uri;
pub mod usb;

pub use connection::ConnectionStatus;
pub use error::Error;
pub use packet::{Packet, PacketView};
