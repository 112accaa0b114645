//! Core of a BitTorrent client: the bencode codec with byte-exact round
//! trips, the metainfo model and info-hash, the tracker announce formats,
//! and the peer wire handshake, framing and session state.

pub mod client;
pub mod decode;
pub mod digits;
pub mod encode;
pub mod error;
pub mod extended;
pub mod handshake;
pub mod keys;
pub mod laws;
pub mod message;
pub mod metainfo;
pub mod session;
pub mod text;
pub mod tracker;
pub mod value;

pub use decode::{decode, decode_prefix, skip_value, Deserializer};
pub use encode::{encode, Encoder, Token};
pub use error::{DecodingError, Error};
pub use extended::ExtendedHandshake;
pub use handshake::{Handshake, PeerInfo, WireError};
pub use message::Message;
pub use metainfo::{File, FileKind, Info, MetaInfo};
pub use session::{Session, SessionBuilder, Status};
pub use tracker::{AnnounceRequest, AnnounceResponse, Event, PeerAddr, TrackerError};
pub use value::{ByteString, Integer, Value};
