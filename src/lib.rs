//! Writes media metadata through a host property store: the normalisation of
//! command-line values, the field table and the order of the writes.
pub mod text;
pub mod normalize;
pub mod work;
pub mod session;
