pub mod crc;
pub mod data_id;
pub mod endian;
pub mod frame;
pub mod laws;
pub mod packet;
pub mod request;
pub mod response;
pub mod status;
pub mod table;

pub use crate::data_id::DataId;
pub use crate::frame::{FLEM_HEADER, FLEM_HEADER_SIZE};
pub use crate::packet::Packet;
pub use crate::status::Status;
