//! Content-manifest engine for a directory tree.
//!
//! For every regular file under a root the engine records either the file's
//! byte length or a fast 64-bit content fingerprint, serializes the records
//! as a line-oriented manifest, and later re-derives live records to detect
//! drift (missing files, size or fingerprint mismatches).  All I/O is left
//! to the surrounding application; the functions here work on plain values.

pub mod codec;
pub mod enums;
pub mod hash;
pub mod helper;
pub mod text;
pub mod user_action;
pub mod verify;
