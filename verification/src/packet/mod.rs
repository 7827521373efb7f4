//! Building ClientHello records.

pub mod extension;
pub mod fingerprint;
pub mod random;
pub mod record;
pub mod tls;
