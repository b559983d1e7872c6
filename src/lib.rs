//! Looking up entries of a set of owned two-field keys with a borrowed,
//! allocation-free probe.
//!
//! Both key shapes project onto one canonical borrowed form; equality,
//! ordering and hashing are defined once over that projection, and the
//! library proves that they agree between the owned and the borrowed shape.
pub mod compare;
pub mod key;
pub mod key_set;
pub mod lex;
