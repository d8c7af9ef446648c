//! Transport layer for a sensor hub that frames its traffic in length-prefixed
//! packets over six logical channels sharing one i2c bus.
pub mod header;
pub mod driver;

pub use driver::{PortDriver, Porty, ReceiveError, ReceivedPacket, SendError};
pub use header::PacketHeader;
