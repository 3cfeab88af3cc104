//! A WebSocket client: framing, the rules of the protocol and the handshake.
//!
//! The crate holds everything that a client decides; the bytes are moved by
//! whoever owns the stream. A caller asks a client for its next step, performs
//! the read or the write that the step names, and reports back.

pub mod buffer;
pub mod bump;
pub mod client;
pub mod close_code;
pub mod connect;
pub mod conversation;
pub mod endian;
pub mod frame;
pub mod io_error;
pub mod message;
pub mod opcode;
pub mod protocol;
pub mod random;
pub mod zero_copy;

pub use self::bump::Arena;
pub use self::client::{Client, ClientResult, Config, Error as ClientError};
pub use self::close_code::{CloseCode, InvalidCloseCode};
pub use self::connect::{ConnectError, ConnectResult, Endpoint};
pub use self::frame::{Frame, Message};
pub use self::io_error::IoError;
pub use self::message::PartialMessage;
pub use self::opcode::Opcode;
pub use self::zero_copy::{
    Error as ZeroCopyError, ZeroCopyClient, ZeroCopyConfig, ZeroCopyReadHalf, ZeroCopyResult,
};
