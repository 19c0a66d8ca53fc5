//! A verified URL-shortening core: a base-36 code encoder, an in-memory
//! mapping store with uniqueness guarantees, and a shortening service that
//! allocates collision-free identifiers and resolves codes back to their
//! original URLs.

pub mod allocator;
pub mod codec;
pub mod errors;
pub mod models;
pub mod service;
pub mod store;
pub mod web;
