//! Request-extraction and response-construction core of an HTTP dispatch
//! layer: route matching, typed argument decoding from path, query string,
//! form body or JSON body, cookie handling, and conversion of a handler's
//! typed result into a status/headers/body response descriptor.

pub mod cookie;
pub mod handlers;
pub mod headers;
pub mod json;
pub mod percent;
pub mod query;
pub mod extract;
pub mod request;
pub mod respond;
pub mod router;
pub mod strsplit;
pub mod strnum;
