//! Configuration-resolution core for a feature-flag platform: the flag data
//! model with its JSON wire format, cross-flag dependency extraction, the
//! compute half of the dual-source (cache + authoritative store) flag list,
//! and the bounded, retrying property-index builder.

pub mod codec;
pub mod errors;
pub mod index;
pub mod json;
pub mod model;
pub mod numtext;
pub mod store;
