//! Parsing and writing of DNS messages.

pub mod proto;
pub mod span;
pub mod rtype;
pub mod class;
pub mod header;
pub mod domain;
pub mod compression;
pub mod question;
pub mod record;
pub mod packet;
pub mod preflight;
