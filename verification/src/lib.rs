//! A lazy scanner that extracts bracketed parameter declarations, such as
//! `<id>` or `<rest..>`, from a route-path template string and yields each
//! as a typed, source-location-tagged parameter descriptor.

pub mod diag;
pub mod iter;
pub mod param;
pub mod scan;
