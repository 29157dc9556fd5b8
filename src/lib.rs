//! An SMTP relay core: the per-segment inspection that strips the server's
//! `STARTTLS` capability and reads `AUTH PLAIN` credentials, the traffic log
//! line, and the state machine that frames a byte stream into segments.

pub mod bytes;
pub mod outside;
pub mod segment;
pub mod traffic;
pub mod pump;
