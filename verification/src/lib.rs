//! Account & session authority: a role-scoped identity core that creates
//! and manages accounts under a strict ownership hierarchy, issues opaque
//! session tokens, and enforces a two-state credential lifecycle.
pub mod account;
pub mod authority;
pub mod credential;
pub mod interval;
pub mod laws;
pub mod phone;
