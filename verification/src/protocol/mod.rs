//! The MySQL client/server wire protocol.
pub mod capabilities;
pub mod cell_laws;
pub mod command;
pub mod greeting_laws;
pub mod handshake;
pub mod handshake_laws;
pub mod lenenc;
pub mod packet;
pub mod parameter_laws;
pub mod prepared;
pub mod reading;
pub mod response;
pub mod resultset;
pub mod wire_laws;

pub use handshake::{AuthSwitchRequest, Handshake, HandshakeResponse41, SCRAMBLE_LEN};
pub use packet::Packet;
pub use prepared::{parse_execute_params, StmtPrepareOk};
pub use response::{AuthMoreData, ErrPacket, OkPacket, CACHING_SHA2_FAST_AUTH_SUCCESS};
pub use resultset::{Cell, ColumnDefinition, ColumnType, ResultSet};
