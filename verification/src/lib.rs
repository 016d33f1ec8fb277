//! Message catalog and request/response correlation for a peer-to-peer
//! file-distribution protocol: a dynamic wire value with a verified binary
//! codec, the typed request and response shapes of every protocol operation,
//! pure builders for each command, and the correlation layer that pairs an
//! outgoing request with its eventual response.

pub mod builders;
pub mod codec;
pub mod correlation;
pub mod envelope;
pub mod error;
pub mod templates;
pub mod value;
pub mod wire;

pub use error::Error;
pub use value::Value;
