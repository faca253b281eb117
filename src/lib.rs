//! Request resolution for a small static-content web server: the route table,
//! request-path normalization, `Accept-Encoding` negotiation and the lookup
//! that turns what the disk holds into a response.

pub mod accept;
pub mod path;
pub mod route;
pub mod store;
