//! Request resolution, directory listing order, content sniffing and
//! conditional caching for a small static file server.
pub mod config;
pub mod consts;
pub mod contentype;
pub mod cache;
pub mod entry;
pub mod route;
