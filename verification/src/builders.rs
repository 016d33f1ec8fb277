//! Pure factory functions that assemble a `(command name, typed payload)`
//! pair from caller-supplied arguments, normalizing defaulted fields. No
//! I/O, no state, no failure: all validation is structural.

pub mod request;
pub mod response;
