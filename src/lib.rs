//! Local-network peer discovery: the wire codec of discovery packets, the
//! deduplicating receive step of the discovery listener, and the fields of
//! the key file that holds a node's identity.
pub mod address;
pub mod decimal;
pub mod discovery;
pub mod key;
pub mod keyfile;
pub mod peer;
pub mod text;

pub use address::{Address, AddressError, Handshake, Ipv4, Protocol};
pub use discovery::{DatagramError, Heard, Listener};
pub use key::PublicKey;
pub use keyfile::{KeyFields, KeyFileError, Keypair, SecretKey};
pub use peer::{PacketError, Peer};
