//! A small record store with optimistic id assignment, together with the
//! request routing, form-body decoding and response assembly of a minimal
//! HTTP listener built on top of it.
//!
//! The store keeps readers and books; a new row receives the id
//! `max(existing ids) + 1`, or `1` on an empty table. The router maps an
//! exact request line to an action, and a response is a status line, a
//! `Content-Length` header and the verbatim contents of a static asset.

pub mod form;
pub mod request;
pub mod router;
pub mod response;
pub mod store;
