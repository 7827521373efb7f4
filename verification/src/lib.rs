//! TLS ClientHello records: building them to a browser's fingerprint, finding
//! the server name inside them, and cutting them apart around that name.

pub mod forward;
pub mod fragment;
pub mod grammar;
pub mod ja3;
pub mod laws;
pub mod layout;
pub mod packet;
pub mod profile;
pub mod sni;
pub mod wire;
