//! A URL-shortening core: a reversible base-64 codec between non-negative
//! 64-bit identifiers and short printable tokens, and a mapping service
//! that stores URLs under fresh identifiers and resolves tokens back to
//! the stored URLs.

pub mod encoder;
pub mod errors;
pub mod service;
