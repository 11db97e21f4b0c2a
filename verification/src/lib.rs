//! A library for redacting personally identifiable information (PII) from
//! line-oriented text streams before they are relayed to an upstream service.
//!
//! The core is a battery of detect-and-replace passes (national ID numbers,
//! payment card numbers, e-mail addresses, phone numbers) applied in a fixed
//! order over each text unit, together with the supporting checksum
//! validators, a line reassembly buffer that cuts a chunked byte stream into
//! newline-bounded units, a depth-bounded masker for tree-shaped values, and
//! the per-session relay state machine that decides what a forwarding loop
//! does with each stream event.

pub mod config;
pub mod laws;
pub mod masker;
pub mod relay;
pub mod stream;
pub mod text;
pub mod tree;
pub mod validator;
