//! A small HTTP file server core: request-line parsing, percent coding of
//! paths, containment of resolved paths under a server root, content-type
//! classification, directory listings and response framing.
pub mod request;
pub mod url;
pub mod resolve;
pub mod mime;
pub mod listing;
pub mod handler;
