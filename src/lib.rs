//! Client-side core of a remote console: a keystream cipher derived from a
//! shared secret and a time bucket, a framed file-transfer protocol carried
//! over it, and the decisions of the interactive console loop.

pub mod cipher;
pub mod console;
pub mod keys;
pub mod prng;
pub mod text;
pub mod transfer;
