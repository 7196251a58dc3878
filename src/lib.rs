//! Authorization and audit core of a multi-tenant vault service.
//!
//! The relational store is modelled in memory ([`store::Store`]); on top of it
//! the library decides who may read or write a cipher, which collections a
//! cipher is visible through, where a cipher sits in a user's folders, and how
//! client-reported actions become attributed audit events.

pub mod outside;
pub mod model;
pub mod store;
pub mod access;
pub mod folder;
pub mod cipher;
pub mod event;
