//! A validated DNS name value type.
//!
//! A [`name::Name`] is an owned, ASCII-only byte form of a domain name,
//! split into dot-separated labels, with the RFC 1035 structural limits
//! enforced at construction: at most 255 bytes in all, at most 63 bytes per
//! label, and no empty label other than a trailing one (which marks an
//! absolute name). Unicode text is first mapped to that ASCII form by the
//! IDNA codec; see [`codec`]. The structural model and the laws of the
//! parsing pipeline live in [`model`] and [`laws`].

pub mod codec;
pub mod laws;
pub mod model;
pub mod name;
pub mod storage;
